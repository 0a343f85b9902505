//! The client side of the connection to a game server, as a state machine:
//! which phase the client is in, the one request that may be in flight, and
//! what the server's answers change. Sockets, threads and the wire encoding
//! are the caller's; this module decides.
use vstd::prelude::*;

use crate::net::protocol::messages::{
    ClientMessage, CreateGameResponse, HandshakeResponse, JoinGameResponse, ServerMessage,
};
use crate::net::protocol::objects::{ClientId, InitialGameInfo};
use vstd::string::StringExecFns;

verus! {

broadcast use vstd::string::axiom_spec_iter;

/// In which phase of the communication the client is.
#[derive(Debug, Clone, Copy, PartialEq, Eq, Structural)]
pub enum ClientState {
    /// Initial state.
    Disconnected,
    /// Connected to the server, can create or join games.
    Connected,
    /// In a game.
    Playing,
}

/// The client's view of its server. `U` is the per-tick game update.
pub struct Server<U> {
    /// The transport's client id, once a connection is established.
    pub client_id: Option<ClientId>,
    /// A connection attempt is under way.
    pub connecting: bool,
    /// The latest game update not yet taken.
    pub game_update: Option<U>,
    /// What the server told about the game just created or joined, not yet taken.
    pub initial_game_info: Option<InitialGameInfo>,
    pub client_state: ClientState,
    /// The outcome of the last request, not yet taken.
    pub request_response: Option<Result<(), String>>,
    /// A request was sent and its answer has not arrived.
    pub request_pending: bool,
}

/// Mathematical model of a [`Server`].
pub struct SessionView<U> {
    pub client_id: Option<ClientId>,
    pub connecting: bool,
    pub game_update: Option<U>,
    pub initial_game_info: Option<InitialGameInfo>,
    pub client_state: ClientState,
    pub request_response: Option<Result<(), Seq<char>>>,
    pub request_pending: bool,
}

pub open spec fn response_view(r: Option<Result<(), String>>) -> Option<Result<(), Seq<char>>> {
    match r {
        None => None,
        Some(Ok(())) => Some(Ok(())),
        Some(Err(e)) => Some(Err(e@)),
    }
}

impl<U> View for Server<U> {
    type V = SessionView<U>;

    open spec fn view(&self) -> SessionView<U> {
        SessionView {
            client_id: self.client_id,
            connecting: self.connecting,
            game_update: self.game_update,
            initial_game_info: self.initial_game_info,
            client_state: self.client_state,
            request_response: response_view(self.request_response),
            request_pending: self.request_pending,
        }
    }
}

/// A freshly created client: disconnected, nothing pending, nothing stored.
pub open spec fn initial_session<U>() -> SessionView<U> {
    SessionView {
        client_id: None,
        connecting: false,
        game_update: None,
        initial_game_info: None,
        client_state: ClientState::Disconnected,
        request_response: None,
        request_pending: false,
    }
}

/// The message the client reports when the server answers a request that was
/// never made.
pub open spec fn no_request_msg() -> Seq<char> {
    "Server sent response but no request was made."@
}

/// Answering the pending request with `response`. An answer is only accepted
/// while a request is pending and the previous answer has been taken; then the
/// answer is stored, nothing is pending any more, `info` (when given) is
/// stored as the game's initial information, and the client moves to
/// `success`.
pub open spec fn spec_complete_request<U>(
    s: SessionView<U>,
    response: Result<(), Seq<char>>,
    info: Option<InitialGameInfo>,
    success: ClientState,
) -> (SessionView<U>, Result<ClientState, Seq<char>>) {
    if !s.request_pending || s.request_response is Some {
        (s, Err(no_request_msg()))
    } else {
        (
            SessionView {
                request_response: Some(response),
                request_pending: false,
                initial_game_info: match info {
                    Some(i) => Some(i),
                    None => s.initial_game_info,
                },
                ..s
            },
            Ok(success),
        )
    }
}

/// The effect of a server message received while disconnected (handshaking).
pub open spec fn spec_handle_disconnected<U>(s: SessionView<U>, msg: ServerMessage<U>) -> (
    SessionView<U>,
    Result<ClientState, Seq<char>>,
) {
    match msg {
        ServerMessage::HandshakeResponse(HandshakeResponse::Accepted) => spec_complete_request(
            s,
            Ok(()),
            None,
            ClientState::Connected,
        ),
        ServerMessage::HandshakeResponse(HandshakeResponse::ApiMismatch) => (
            s,
            Err("Server error: API mismatch."@),
        ),
        ServerMessage::HandshakeResponse(HandshakeResponse::ServerFull) => (
            s,
            Err("Server error: server is full."@),
        ),
        ServerMessage::Error(e) => (s, Err("Server error while handshaking: "@ + e@)),
        _ => (s, Err("Got invalid server message while handshaking."@)),
    }
}

/// The effect of a server message received while connected (in the lobby).
pub open spec fn spec_handle_connected<U>(s: SessionView<U>, msg: ServerMessage<U>) -> (
    SessionView<U>,
    Result<ClientState, Seq<char>>,
) {
    match msg {
        ServerMessage::CreateGameReponse(CreateGameResponse::Created(info)) => spec_complete_request(
            s,
            Ok(()),
            Some(info),
            ClientState::Playing,
        ),
        ServerMessage::CreateGameReponse(CreateGameResponse::TooManyGames) => spec_complete_request(
            s,
            Err("Server game limit exhausted."@),
            None,
            ClientState::Connected,
        ),
        ServerMessage::JoinGameResponse(JoinGameResponse::Joined(info)) => spec_complete_request(
            s,
            Ok(()),
            Some(info),
            ClientState::Playing,
        ),
        ServerMessage::JoinGameResponse(JoinGameResponse::GameFull) => spec_complete_request(
            s,
            Err("Game is full."@),
            None,
            ClientState::Connected,
        ),
        ServerMessage::JoinGameResponse(JoinGameResponse::InvalidCode) => spec_complete_request(
            s,
            Err("Game does not exist (invalid code)."@),
            None,
            ClientState::Connected,
        ),
        ServerMessage::JoinGameResponse(JoinGameResponse::GameStarted) => spec_complete_request(
            s,
            Err("Game has already started."@),
            None,
            ClientState::Connected,
        ),
        ServerMessage::Error(e) => (s, Err("Server errror: "@ + e@)),
        _ => (s, Err("Got invalid server message."@)),
    }
}

/// The effect of a server message received while in a game.
pub open spec fn spec_handle_playing<U>(s: SessionView<U>, msg: ServerMessage<U>) -> (
    SessionView<U>,
    Result<ClientState, Seq<char>>,
) {
    match msg {
        ServerMessage::GameUpdate(u) => (
            SessionView { game_update: Some(u), ..s },
            Ok(ClientState::Playing),
        ),
        ServerMessage::StartCountdownAck => spec_complete_request(
            s,
            Ok(()),
            None,
            ClientState::Playing,
        ),
        ServerMessage::LeaveGameAck => spec_complete_request(
            s,
            Ok(()),
            None,
            ClientState::Connected,
        ),
        ServerMessage::Error(e) => (s, Err("Got error response from server while in game: "@ + e@)),
        _ => (s, Err("Got invalid server message while in game."@)),
    }
}

/// The effect of a server message in the client's current phase, and the
/// phase the client is to move to (or why the message is refused).
pub open spec fn spec_process_message<U>(s: SessionView<U>, msg: ServerMessage<U>) -> (
    SessionView<U>,
    Result<ClientState, Seq<char>>,
) {
    match s.client_state {
        ClientState::Disconnected => spec_handle_disconnected(s, msg),
        ClientState::Connected => spec_handle_connected(s, msg),
        ClientState::Playing => spec_handle_playing(s, msg),
    }
}

/// Receiving a message: its effect, and on success the move to the new phase.
/// A refused message leaves the phase as it was.
pub open spec fn spec_receive_message<U>(s: SessionView<U>, msg: ServerMessage<U>) -> (
    SessionView<U>,
    Result<(), Seq<char>>,
) {
    let (s2, r) = spec_process_message(s, msg);
    match r {
        Ok(state) => (SessionView { client_state: state, ..s2 }, Ok(())),
        Err(e) => (s2, Err(e)),
    }
}

/// The client may send `msg` in phase `state`: creating or joining a game
/// from the lobby; leaving, starting the countdown or sending input in a game.
pub open spec fn message_allowed<I>(state: ClientState, msg: ClientMessage<I>) -> bool {
    match state {
        ClientState::Connected => msg is CreateGame || msg is JoinGame,
        ClientState::Playing => msg is LeaveGame || msg is StartCountdown || msg is GameInput,
        ClientState::Disconnected => false,
    }
}

/// Every client message but game input is a request the server answers.
pub open spec fn is_request<I>(msg: ClientMessage<I>) -> bool {
    !(msg is GameInput)
}

/// Booking a sent message: a request becomes the pending one.
pub open spec fn spec_record_sent<U, I>(s: SessionView<U>, msg: ClientMessage<I>) -> SessionView<U> {
    SessionView { request_pending: s.request_pending || is_request(msg), ..s }
}

/// The exec result `r` is the modelled result `m`.
pub open spec fn result_is<T>(r: Result<T, String>, m: Result<T, Seq<char>>) -> bool {
    match (r, m) {
        (Ok(a), Ok(b)) => a == b,
        (Err(e), Err(f)) => e@ == f,
        _ => false,
    }
}

fn concat_str(prefix: &str, tail: &String) -> (s: String)
    ensures
        s@ == prefix@ + tail@,
{
    let mut s = String::from_str(prefix);
    s.append(tail.as_str());
    s
}

/// The address a client dials for `servername`: the name itself when it
/// names a port, otherwise the name with the default port 8080.
pub open spec fn spec_server_address(servername: Seq<char>) -> Seq<char> {
    if servername.contains(':') {
        servername
    } else {
        servername + ":8080"@
    }
}

/// Appends the default port 8080 to a server name that names no port.
pub fn with_default_port(servername: String) -> (addr: String)
    ensures
        addr@ == spec_server_address(servername@),
{
    let mut has_port = false;
    for c in it: servername.as_str().chars()
        invariant
            it.seq() == servername@,
            has_port <==> (exists|j: int| 0 <= j < it.index() && it.seq()[j] == ':'),
    {
        if c == ':' {
            has_port = true;
        }
    }
    assert(has_port <==> servername@.contains(':'));
    if has_port {
        servername
    } else {
        let mut addr = servername;
        addr.append(":8080");
        addr
    }
}

impl<U> Server<U> {
    pub fn new() -> (s: Self)
        ensures
            s@ == initial_session::<U>(),
    {
        Server {
            client_id: None,
            connecting: false,
            game_update: None,
            initial_game_info: None,
            client_state: ClientState::Disconnected,
            request_response: None,
            request_pending: false,
        }
    }

    /// Starts connecting: the handshake becomes the pending request.
    pub fn begin_connect(&mut self)
        requires
            !old(self).request_pending,
            old(self).client_state == ClientState::Disconnected,
        ensures
            final(self)@ == (SessionView { connecting: true, request_pending: true, ..old(self)@ }),
    {
        self.connecting = true;
        self.request_pending = true;
    }

    /// The connection attempt ended: with the transport's client id (the
    /// handshake answer is still awaited), or with the reason it failed, which
    /// answers the pending request.
    pub fn connect_finished(&mut self, result: Result<ClientId, String>)
        ensures
            match result {
                Ok(id) => final(self)@ == (SessionView {
                    connecting: false,
                    client_id: Some(id),
                    ..old(self)@
                }),
                Err(reason) => final(self)@ == (SessionView {
                    connecting: false,
                    request_pending: false,
                    request_response: Some(Err(reason@)),
                    ..old(self)@
                }),
            },
    {
        self.connecting = false;
        match result {
            Ok(id) => {
                self.client_id = Some(id);
            },
            Err(reason) => {
                self.request_pending = false;
                self.request_response = Some(Err(reason));
            },
        }
    }

    /// Records `response` as the answer to the pending request (see
    /// [`spec_complete_request`]); on success, stores `info` and reports `success`.
    fn complete_request_with(
        &mut self,
        response: Result<(), String>,
        info: Option<InitialGameInfo>,
        success: ClientState,
    ) -> (r: Result<ClientState, String>)
        ensures
            ({
                let (s2, m) = spec_complete_request(
                    old(self)@,
                    match response {
                        Ok(()) => Ok(()),
                        Err(e) => Err(e@),
                    },
                    info,
                    success,
                );
                final(self)@ == s2 && result_is(r, m)
            }),
    {
        if !self.request_pending || self.request_response.is_some() {
            return Err(String::from_str("Server sent response but no request was made."));
        }
        self.request_response = Some(response);
        self.request_pending = false;
        match info {
            Some(i) => {
                self.initial_game_info = Some(i);
            },
            None => {},
        }
        Ok(success)
    }

    /// Records `response` as the answer to the pending request and reports
    /// `success`; fails when no request is waiting for an answer.
    pub fn complete_request(&mut self, response: Result<(), String>, success: ClientState) -> (r:
        Result<ClientState, String>)
        ensures
            ({
                let (s2, m) = spec_complete_request(
                    old(self)@,
                    match response {
                        Ok(()) => Ok(()),
                        Err(e) => Err(e@),
                    },
                    None,
                    success,
                );
                final(self)@ == s2 && result_is(r, m)
            }),
    {
        self.complete_request_with(response, None, success)
    }

    /// Handles a server message while handshaking.
    pub fn handle_disconnected_state(&mut self, server_msg: ServerMessage<U>) -> (r: Result<
        ClientState,
        String,
    >)
        ensures
            ({
                let (s2, m) = spec_handle_disconnected(old(self)@, server_msg);
                final(self)@ == s2 && result_is(r, m)
            }),
    {
        match server_msg {
            ServerMessage::HandshakeResponse(resp) => match resp {
                HandshakeResponse::Accepted => self.complete_request(Ok(()), ClientState::Connected),
                HandshakeResponse::ApiMismatch => Err(String::from_str("Server error: API mismatch.")),
                HandshakeResponse::ServerFull => Err(
                    String::from_str("Server error: server is full."),
                ),
            },
            ServerMessage::Error(error) => Err(concat_str("Server error while handshaking: ", &error)),
            _ => Err(String::from_str("Got invalid server message while handshaking.")),
        }
    }

    /// Handles a server message while in the lobby.
    pub fn handle_connected_state(&mut self, server_msg: ServerMessage<U>) -> (r: Result<
        ClientState,
        String,
    >)
        ensures
            ({
                let (s2, m) = spec_handle_connected(old(self)@, server_msg);
                final(self)@ == s2 && result_is(r, m)
            }),
    {
        match server_msg {
            ServerMessage::CreateGameReponse(resp) => match resp {
                CreateGameResponse::Created(initial_game_info) => self.complete_request_with(
                    Ok(()),
                    Some(initial_game_info),
                    ClientState::Playing,
                ),
                CreateGameResponse::TooManyGames => self.complete_request(
                    Err(String::from_str("Server game limit exhausted.")),
                    ClientState::Connected,
                ),
            },
            ServerMessage::JoinGameResponse(resp) => match resp {
                JoinGameResponse::Joined(initial_game_info) => self.complete_request_with(
                    Ok(()),
                    Some(initial_game_info),
                    ClientState::Playing,
                ),
                JoinGameResponse::GameFull => self.complete_request(
                    Err(String::from_str("Game is full.")),
                    ClientState::Connected,
                ),
                JoinGameResponse::InvalidCode => self.complete_request(
                    Err(String::from_str("Game does not exist (invalid code).")),
                    ClientState::Connected,
                ),
                JoinGameResponse::GameStarted => self.complete_request(
                    Err(String::from_str("Game has already started.")),
                    ClientState::Connected,
                ),
            },
            ServerMessage::Error(error) => Err(concat_str("Server errror: ", &error)),
            _ => Err(String::from_str("Got invalid server message.")),
        }
    }

    /// Handles a server message while in a game.
    pub fn handle_playing_state(&mut self, server_msg: ServerMessage<U>) -> (r: Result<
        ClientState,
        String,
    >)
        ensures
            ({
                let (s2, m) = spec_handle_playing(old(self)@, server_msg);
                final(self)@ == s2 && result_is(r, m)
            }),
    {
        match server_msg {
            ServerMessage::GameUpdate(new_update) => {
                self.game_update = Some(new_update);
                Ok(ClientState::Playing)
            },
            ServerMessage::StartCountdownAck => self.complete_request(Ok(()), ClientState::Playing),
            ServerMessage::LeaveGameAck => self.complete_request(Ok(()), ClientState::Connected),
            ServerMessage::Error(e) => Err(
                concat_str("Got error response from server while in game: ", &e),
            ),
            _ => Err(String::from_str("Got invalid server message while in game.")),
        }
    }

    /// Handles a server message in the current phase and returns the phase to
    /// move to.
    pub fn process_message(&mut self, server_msg: ServerMessage<U>) -> (r: Result<
        ClientState,
        String,
    >)
        ensures
            ({
                let (s2, m) = spec_process_message(old(self)@, server_msg);
                final(self)@ == s2 && result_is(r, m)
            }),
    {
        match self.client_state {
            ClientState::Disconnected => self.handle_disconnected_state(server_msg),
            ClientState::Connected => self.handle_connected_state(server_msg),
            ClientState::Playing => self.handle_playing_state(server_msg),
        }
    }

    /// Handles a server message and moves to the resulting phase; a refused
    /// message leaves the phase unchanged and reports why.
    pub fn receive_message(&mut self, server_msg: ServerMessage<U>) -> (r: Result<(), String>)
        ensures
            ({
                let (s2, m) = spec_receive_message(old(self)@, server_msg);
                final(self)@ == s2 && result_is(r, m)
            }),
    {
        let state = self.process_message(server_msg)?;
        self.client_state = state;
        Ok(())
    }

    /// Whether `msg` may be sent in the current phase.
    pub fn message_allowed<I>(&self, msg: &ClientMessage<I>) -> (b: bool)
        ensures
            b == message_allowed(self.client_state, *msg),
    {
        match (&self.client_state, msg) {
            (ClientState::Connected, ClientMessage::CreateGame { .. }) => true,
            (ClientState::Connected, ClientMessage::JoinGame { .. }) => true,
            (ClientState::Playing, ClientMessage::LeaveGame) => true,
            (ClientState::Playing, ClientMessage::StartCountdown) => true,
            (ClientState::Playing, ClientMessage::GameInput(_)) => true,
            _ => false,
        }
    }

    /// Whether `msg` is a request (anything but game input).
    pub fn is_request<I>(msg: &ClientMessage<I>) -> (b: bool)
        ensures
            b == is_request(*msg),
    {
        match msg {
            ClientMessage::GameInput(_) => false,
            _ => true,
        }
    }

    /// Books a message that is being sent: a request becomes the pending one.
    /// Only one request may be in flight at a time.
    pub fn record_sent_message<I>(&mut self, msg: &ClientMessage<I>)
        requires
            message_allowed(old(self).client_state, *msg),
            is_request(*msg) ==> !old(self).request_pending,
        ensures
            final(self)@ == spec_record_sent(old(self)@, *msg),
    {
        if Self::is_request(msg) {
            self.request_pending = true;
        }
    }

    /// Takes the answer to the last request, leaving none behind.
    pub fn take_request_response(&mut self) -> (r: Option<Result<(), String>>)
        ensures
            (final(self)@, response_view(r)) == spec_take_response(old(self)@),
    {
        self.request_response.take()
    }

    /// Full reset, as if newly created.
    pub fn close(&mut self)
        ensures
            final(self)@ == initial_session::<U>(),
    {
        *self = Self::new();
    }

    /// Takes the latest game update, leaving none behind.
    pub fn game_update(&mut self) -> (r: Option<U>)
        ensures
            (final(self)@, r) == spec_take_update(old(self)@),
    {
        self.game_update.take()
    }

    /// Takes the information on the game just created or joined.
    pub fn initial_game_info(&mut self) -> (r: Option<InitialGameInfo>)
        ensures
            (final(self)@, r) == spec_take_info(old(self)@),
    {
        self.initial_game_info.take()
    }

    /// The transport's client id, if connected.
    pub fn client_id(&self) -> (r: Option<ClientId>)
        ensures
            r == self.client_id,
    {
        self.client_id
    }

    /// The transport's client id; only asked for once connected.
    pub fn get_client_id(&self) -> (r: ClientId)
        requires
            self.client_id is Some,
        ensures
            r == self.client_id->0,
    {
        self.client_id.unwrap()
    }

    /// The current phase.
    pub fn state(&self) -> (r: ClientState)
        ensures
            r == self.client_state,
    {
        self.client_state
    }

    /// States that the client is in phase `state`; callers check it first.
    pub fn assert_state(&self, state: ClientState)
        requires
            self.client_state == state,
    {
    }
}

/// Taking the answer to the last request: it is handed out and none is left.
pub open spec fn spec_take_response<U>(s: SessionView<U>) -> (SessionView<U>, Option<Result<(), Seq<char>>>) {
    (SessionView { request_response: None, ..s }, s.request_response)
}

/// Taking the latest game update: it is handed out and none is left.
pub open spec fn spec_take_update<U>(s: SessionView<U>) -> (SessionView<U>, Option<U>) {
    (SessionView { game_update: None, ..s }, s.game_update)
}

/// Taking the game's initial information: it is handed out and none is left.
pub open spec fn spec_take_info<U>(s: SessionView<U>) -> (SessionView<U>, Option<InitialGameInfo>) {
    (SessionView { initial_game_info: None, ..s }, s.initial_game_info)
}

/// Each stored answer, update or game information is handed out once: a
/// second take right after the first finds nothing, and taking changes
/// nothing else.
pub proof fn lemma_take_hands_out_once<U>(s: SessionView<U>)
    ensures
        spec_take_response(spec_take_response(s).0).1 is None,
        spec_take_update(spec_take_update(s).0).1 is None,
        spec_take_info(spec_take_info(s).0).1 is None,
        spec_take_response(s).0.client_state == s.client_state,
        spec_take_response(s).0.request_pending == s.request_pending,
        spec_take_update(s).0.request_response == s.request_response,
        spec_take_info(s).0.request_response == s.request_response,
{
}

/// An answer only ever settles a pending request: whenever a message changes
/// the stored answer, a request was pending with no answer stored, and
/// afterwards nothing is pending and the answer is there.
pub proof fn lemma_answers_settle_pending_requests<U>(s: SessionView<U>, msg: ServerMessage<U>)
    ensures
        ({
            let (s2, r) = spec_process_message(s, msg);
            s2.request_response != s.request_response ==> {
                &&& s.request_pending
                &&& s.request_response is None
                &&& !s2.request_pending
                &&& s2.request_response is Some
            }
        }),
{
}

/// A refused message changes nothing: the session, phase included, is left
/// exactly as it was.
pub proof fn lemma_refused_message_changes_nothing<U>(s: SessionView<U>, msg: ServerMessage<U>)
    ensures
        ({
            let (s2, r) = spec_receive_message(s, msg);
            r is Err ==> s2 == s
        }),
{
}

/// The phases follow the protocol: a handshake leads from disconnected to
/// connected, creating or joining a game from connected to playing (or back to
/// connected when refused), and leaving a game from playing to connected.
pub proof fn lemma_phase_transitions<U>(s: SessionView<U>, msg: ServerMessage<U>)
    ensures
        ({
            let (s2, r) = spec_process_message(s, msg);
            r matches Ok(next) ==> match s.client_state {
                ClientState::Disconnected => next == ClientState::Connected,
                ClientState::Connected => next == ClientState::Connected || next
                    == ClientState::Playing,
                ClientState::Playing => next == ClientState::Playing || next
                    == ClientState::Connected,
            }
        }),
{
}

/// Game updates are only accepted in a game; there the latest one is kept.
pub proof fn lemma_game_updates_only_in_game<U>(s: SessionView<U>, u: U)
    ensures
        ({
            let (s2, r) = spec_receive_message(s, ServerMessage::GameUpdate(u));
            &&& s.client_state != ClientState::Playing ==> r is Err && s2 == s
            &&& s.client_state == ClientState::Playing ==> r is Ok && s2 == (SessionView {
                game_update: Some(u),
                ..s
            })
        }),
{
}

/// A request answered: from the lobby with nothing pending and no answer
/// stored, sending a request to create or join a game and then receiving the
/// server's acceptance moves the client into the game, with the success stored
/// as the answer and the game's information kept; a refusal stores the reason
/// and keeps the client in the lobby.
pub proof fn lemma_request_round_trip<U, I>(
    s: SessionView<U>,
    request: ClientMessage<I>,
    info: InitialGameInfo,
    reason_msg: ServerMessage<U>,
)
    requires
        s.client_state == ClientState::Connected,
        !s.request_pending,
        s.request_response is None,
        request is CreateGame || request is JoinGame,
        reason_msg is CreateGameReponse || reason_msg is JoinGameResponse,
    ensures
        spec_receive_message(
            spec_record_sent(s, request),
            ServerMessage::CreateGameReponse(CreateGameResponse::Created(info)),
        ) == (SessionView {
            client_state: ClientState::Playing,
            request_response: Some(Ok(())),
            initial_game_info: Some(info),
            ..s
        }, Ok::<(), Seq<char>>(())),
        spec_receive_message(
            spec_record_sent(s, request),
            ServerMessage::JoinGameResponse(JoinGameResponse::Joined(info)),
        ) == (SessionView {
            client_state: ClientState::Playing,
            request_response: Some(Ok(())),
            initial_game_info: Some(info),
            ..s
        }, Ok::<(), Seq<char>>(())),
        ({
            let (s2, r) = spec_receive_message(spec_record_sent(s, request), reason_msg);
            (r is Ok && s2.request_response matches Some(Err(_))) ==> (s2 == SessionView {
                request_response: s2.request_response,
                ..s
            })
        }),
{
}

/// Every client message but game input is a request the server answers:
/// booking it leaves a request pending (whatever was pending before), and
/// booking game input leaves the session as it was.
pub proof fn lemma_every_message_but_input_is_a_request<U, I>(
    s: SessionView<U>,
    msg: ClientMessage<I>,
)
    ensures
        !(msg is GameInput) ==> spec_record_sent(s, msg).request_pending,
        !(msg is GameInput) ==> spec_record_sent(s, msg) == (SessionView {
            request_pending: true,
            ..s
        }),
        msg is GameInput ==> spec_record_sent(s, msg) == s,
{
}

/// In-game requests answered: in a game with nothing pending and no answer
/// stored, starting the countdown and receiving its acknowledgement is
/// accepted, stores a success as the answer, settles the request and keeps
/// the client in the game; leaving the game and receiving its
/// acknowledgement does the same and moves the client back to the lobby.
pub proof fn lemma_in_game_requests_round_trip<U, I>(s: SessionView<U>)
    requires
        s.client_state == ClientState::Playing,
        !s.request_pending,
        s.request_response is None,
    ensures
        spec_receive_message(
            spec_record_sent(s, ClientMessage::<I>::StartCountdown),
            ServerMessage::StartCountdownAck,
        ) == (SessionView { request_response: Some(Ok(())), ..s }, Ok::<(), Seq<char>>(())),
        spec_receive_message(
            spec_record_sent(s, ClientMessage::<I>::LeaveGame),
            ServerMessage::LeaveGameAck,
        ) == (SessionView {
            client_state: ClientState::Connected,
            request_response: Some(Ok(())),
            ..s
        }, Ok::<(), Seq<char>>(())),
{
}

} // verus!
