use neuroblasters::net::protocol::messages::{
    ClientMessage, CreateGameResponse, GameCode, GameUpdate, HandshakeResponse, JoinGameResponse,
    ServerMessage,
};
use neuroblasters::net::protocol::objects::{
    EngineSnapshot, GameSnapshot, GameState, InitialGameInfo, MapName, PlayerId,
};
use neuroblasters::session::{with_default_port, ClientState, Server};

fn empty_update(state: GameState, round_number: u8) -> GameUpdate<(), ()> {
    GameUpdate {
        snapshot: GameSnapshot {
            engine: EngineSnapshot { tanks: vec![], projectiles: vec![] },
            state,
            game_master: 1,
            round_number,
        },
        events: vec![],
    }
}

#[test]
fn test_server_new_initial_state() {
    let server = Server::<GameUpdate<(), ()>>::new();

    assert!(server.client_id.is_none());
    assert!(!server.connecting);
    assert!(server.game_update.is_none());
    assert!(server.initial_game_info.is_none());
    assert_eq!(server.client_state, ClientState::Disconnected);
    assert!(server.request_response.is_none());
    assert!(!server.request_pending);
}

#[test]
fn test_server_close_resets_state() {
    let mut server = Server::<GameUpdate<(), ()>>::new();

    // Modify some state
    server.request_pending = true;
    server.request_response = Some(Ok(()));
    server.client_state = ClientState::Connected;

    // Close should reset everything
    server.close();

    assert!(server.client_id.is_none());
    assert_eq!(server.client_state, ClientState::Disconnected);
    assert!(server.request_response.is_none());
    assert!(!server.request_pending);
}

#[test]
fn test_take_request_response() {
    let mut server = Server::<GameUpdate<(), ()>>::new();

    // Initially none
    assert!(server.take_request_response().is_none());

    // Set a response
    server.request_response = Some(Ok(()));
    assert!(server.take_request_response().is_some());

    // Should be consumed
    assert!(server.take_request_response().is_none());
}

#[test]
fn test_take_request_response_with_error() {
    let mut server = Server::<GameUpdate<(), ()>>::new();

    server.request_response = Some(Err("Test error".to_string()));
    let response = server.take_request_response();

    assert!(response.is_some());
    assert!(response.unwrap().is_err());
}

#[test]
fn test_game_update_take() {
    let mut server = Server::<GameUpdate<(), ()>>::new();

    // Initially none
    assert!(server.game_update().is_none());

    // Set an update
    server.game_update = Some(empty_update(GameState::Waiting, 1));

    assert!(server.game_update().is_some());
    // Should be consumed
    assert!(server.game_update().is_none());
}

#[test]
fn test_initial_game_info_take() {
    let mut server = Server::<GameUpdate<(), ()>>::new();

    // Initially none
    assert!(server.initial_game_info().is_none());

    // Set game info
    server.initial_game_info = Some(InitialGameInfo {
        game_code: GameCode("1234".to_string()),
        player_id: 0 as PlayerId,
        num_rounds: 3,
        map_name: MapName::Basic,
        game_master: 1,
    });

    assert!(server.initial_game_info().is_some());
    // Should be consumed
    assert!(server.initial_game_info().is_none());
}

#[test]
fn test_client_id_none_when_not_connected() {
    let server = Server::<GameUpdate<(), ()>>::new();
    assert!(server.client_id().is_none());
}

#[test]
fn test_assert_state_passes_when_correct() {
    let server = Server::<GameUpdate<(), ()>>::new();
    server.assert_state(ClientState::Disconnected); // Should not panic
}

// Test state machine transitions via handle_*_state methods
// These require request_pending to be true to properly complete

#[test]
fn test_handle_disconnected_state_handshake_ok() {
    let mut server = Server::<GameUpdate<(), ()>>::new();
    server.request_pending = true;

    let result = server
        .handle_disconnected_state(ServerMessage::HandshakeResponse(HandshakeResponse::Accepted));

    assert!(result.is_ok());
    assert_eq!(result.unwrap(), ClientState::Connected);
    assert!(!server.request_pending);
    assert!(server.request_response.is_some());
    assert!(server.request_response.as_ref().unwrap().is_ok());
}

#[test]
fn test_handle_disconnected_state_api_mismatch() {
    let mut server = Server::<GameUpdate<(), ()>>::new();
    server.request_pending = true;

    let result = server.handle_disconnected_state(ServerMessage::HandshakeResponse(
        HandshakeResponse::ApiMismatch,
    ));

    assert!(result.is_err());
    assert!(result.unwrap_err().contains("API mismatch"));
}

#[test]
fn test_handle_disconnected_state_server_full() {
    let mut server = Server::<GameUpdate<(), ()>>::new();
    server.request_pending = true;

    let result = server.handle_disconnected_state(ServerMessage::HandshakeResponse(
        HandshakeResponse::ServerFull,
    ));

    assert!(result.is_err());
    assert!(result.unwrap_err().contains("server is full"));
}

#[test]
fn test_handle_disconnected_state_error_message() {
    let mut server = Server::<GameUpdate<(), ()>>::new();
    server.request_pending = true;

    let result =
        server.handle_disconnected_state(ServerMessage::Error("Custom error".to_string()));

    assert!(result.is_err());
    assert!(result.unwrap_err().contains("Custom error"));
}

#[test]
fn test_handle_disconnected_state_invalid_message() {
    let mut server = Server::<GameUpdate<(), ()>>::new();
    server.request_pending = true;

    let result = server.handle_disconnected_state(ServerMessage::LeaveGameAck);

    assert!(result.is_err());
    assert!(result.unwrap_err().contains("invalid server message"));
}

#[test]
fn test_handle_connected_state_create_game_ok() {
    let mut server = Server::<GameUpdate<(), ()>>::new();
    server.client_state = ClientState::Connected;
    server.request_pending = true;

    let game_info = InitialGameInfo {
        game_code: GameCode("5678".to_string()),
        player_id: 1,
        num_rounds: 5,
        map_name: MapName::Basic,
        game_master: 100,
    };

    let result = server.handle_connected_state(ServerMessage::CreateGameReponse(
        CreateGameResponse::Created(game_info.clone()),
    ));

    assert!(result.is_ok());
    assert_eq!(result.unwrap(), ClientState::Playing);
    assert!(server.initial_game_info.is_some());
    let info = server.initial_game_info.unwrap();
    assert_eq!(info.game_code.0, "5678");
}

#[test]
fn test_handle_connected_state_create_game_too_many() {
    let mut server = Server::<GameUpdate<(), ()>>::new();
    server.client_state = ClientState::Connected;
    server.request_pending = true;

    let result = server.handle_connected_state(ServerMessage::CreateGameReponse(
        CreateGameResponse::TooManyGames,
    ));

    assert!(result.is_ok());
    assert_eq!(result.unwrap(), ClientState::Connected);
    assert!(server.request_response.as_ref().unwrap().is_err());
}

#[test]
fn test_handle_connected_state_join_game_ok() {
    let mut server = Server::<GameUpdate<(), ()>>::new();
    server.client_state = ClientState::Connected;
    server.request_pending = true;

    let game_info = InitialGameInfo {
        game_code: GameCode("9999".to_string()),
        player_id: 2,
        num_rounds: 3,
        map_name: MapName::Basic,
        game_master: 50,
    };

    let result = server.handle_connected_state(ServerMessage::JoinGameResponse(
        JoinGameResponse::Joined(game_info),
    ));

    assert!(result.is_ok());
    assert_eq!(result.unwrap(), ClientState::Playing);
}

#[test]
fn test_handle_connected_state_join_game_full() {
    let mut server = Server::<GameUpdate<(), ()>>::new();
    server.client_state = ClientState::Connected;
    server.request_pending = true;

    let result = server
        .handle_connected_state(ServerMessage::JoinGameResponse(JoinGameResponse::GameFull));

    assert!(result.is_ok());
    assert_eq!(result.unwrap(), ClientState::Connected);
    let resp = server.request_response.as_ref().unwrap();
    assert!(resp.is_err());
    assert!(resp.as_ref().unwrap_err().contains("full"));
}

#[test]
fn test_handle_connected_state_join_game_invalid_code() {
    let mut server = Server::<GameUpdate<(), ()>>::new();
    server.client_state = ClientState::Connected;
    server.request_pending = true;

    let result = server.handle_connected_state(ServerMessage::JoinGameResponse(
        JoinGameResponse::InvalidCode,
    ));

    assert!(result.is_ok());
    let resp = server.request_response.as_ref().unwrap();
    assert!(resp.as_ref().unwrap_err().contains("invalid code"));
}

#[test]
fn test_handle_connected_state_join_game_started() {
    let mut server = Server::<GameUpdate<(), ()>>::new();
    server.client_state = ClientState::Connected;
    server.request_pending = true;

    let result = server.handle_connected_state(ServerMessage::JoinGameResponse(
        JoinGameResponse::GameStarted,
    ));

    assert!(result.is_ok());
    let resp = server.request_response.as_ref().unwrap();
    assert!(resp.as_ref().unwrap_err().contains("already started"));
}

#[test]
fn test_handle_playing_state_game_update() {
    let mut server = Server::<GameUpdate<(), ()>>::new();
    server.client_state = ClientState::Playing;

    let update = empty_update(GameState::Battle(60), 2);

    let result = server.handle_playing_state(ServerMessage::GameUpdate(update));

    assert!(result.is_ok());
    assert_eq!(result.unwrap(), ClientState::Playing);
    assert!(server.game_update.is_some());
}

#[test]
fn test_handle_playing_state_start_countdown_ack() {
    let mut server = Server::<GameUpdate<(), ()>>::new();
    server.client_state = ClientState::Playing;
    server.request_pending = true;

    let result = server.handle_playing_state(ServerMessage::StartCountdownAck);

    assert!(result.is_ok());
    assert_eq!(result.unwrap(), ClientState::Playing);
    assert!(server.request_response.as_ref().unwrap().is_ok());
}

#[test]
fn test_handle_playing_state_leave_game_ack() {
    let mut server = Server::<GameUpdate<(), ()>>::new();
    server.client_state = ClientState::Playing;
    server.request_pending = true;

    let result = server.handle_playing_state(ServerMessage::LeaveGameAck);

    assert!(result.is_ok());
    assert_eq!(result.unwrap(), ClientState::Connected);
}

#[test]
fn test_handle_playing_state_error() {
    let mut server = Server::<GameUpdate<(), ()>>::new();
    server.client_state = ClientState::Playing;

    let result = server.handle_playing_state(ServerMessage::Error("Game error".to_string()));

    assert!(result.is_err());
    assert!(result.unwrap_err().contains("Game error"));
}

#[test]
fn test_handle_playing_state_invalid_message() {
    let mut server = Server::<GameUpdate<(), ()>>::new();
    server.client_state = ClientState::Playing;

    let result = server
        .handle_playing_state(ServerMessage::HandshakeResponse(HandshakeResponse::Accepted));

    assert!(result.is_err());
    assert!(result.unwrap_err().contains("invalid server message"));
}

#[test]
fn test_complete_request_without_pending_fails() {
    let mut server = Server::<GameUpdate<(), ()>>::new();
    server.request_pending = false;

    let result = server.complete_request(Ok(()), ClientState::Connected);

    assert!(result.is_err());
    assert!(result.unwrap_err().contains("no request was made"));
}

#[test]
fn test_complete_request_with_existing_response_fails() {
    let mut server = Server::<GameUpdate<(), ()>>::new();
    server.request_pending = true;
    server.request_response = Some(Ok(()));

    let result = server.complete_request(Ok(()), ClientState::Connected);

    assert!(result.is_err());
    assert!(result.unwrap_err().contains("no request was made"));
}

#[test]
fn session_full_flow_through_receive_message() {
    let mut server = Server::<GameUpdate<(), ()>>::new();
    server.begin_connect();
    assert!(server.request_pending && server.connecting);
    server.connect_finished(Ok(42));
    assert_eq!(server.client_id(), Some(42));
    assert_eq!(server.get_client_id(), 42);
    assert!(server.request_pending);

    server
        .receive_message(ServerMessage::HandshakeResponse(HandshakeResponse::Accepted))
        .unwrap();
    assert_eq!(server.state(), ClientState::Connected);
    assert_eq!(server.take_request_response(), Some(Ok(())));

    let create: ClientMessage<()> = ClientMessage::CreateGame { map: MapName::Loss, rounds: 5 };
    assert!(server.message_allowed(&create));
    assert!(Server::<GameUpdate<(), ()>>::is_request(&create));
    server.record_sent_message(&create);
    assert!(server.request_pending);

    let info = InitialGameInfo {
        game_code: GameCode("ABCD".to_string()),
        player_id: 3,
        num_rounds: 5,
        map_name: MapName::Loss,
        game_master: 42,
    };
    server
        .receive_message(ServerMessage::CreateGameReponse(CreateGameResponse::Created(
            info.clone(),
        )))
        .unwrap();
    assert_eq!(server.state(), ClientState::Playing);
    assert_eq!(server.initial_game_info(), Some(info));
    assert_eq!(server.take_request_response(), Some(Ok(())));

    // Input is not a request and may be sent while a request is pending.
    let input: ClientMessage<()> = ClientMessage::GameInput(());
    assert!(!Server::<GameUpdate<(), ()>>::is_request(&input));
    server.record_sent_message(&input);
    assert!(!server.request_pending);

    let leave: ClientMessage<()> = ClientMessage::LeaveGame;
    server.record_sent_message(&leave);
    server.receive_message(ServerMessage::LeaveGameAck).unwrap();
    assert_eq!(server.state(), ClientState::Connected);

    // An answer not yet taken makes the next one look unsolicited.
    server.record_sent_message(&create);
    let r = server.receive_message(ServerMessage::CreateGameReponse(CreateGameResponse::TooManyGames));
    assert_eq!(r, Err("Server sent response but no request was made.".to_string()));
    assert_eq!(server.state(), ClientState::Connected);
}

#[test]
fn session_refused_message_keeps_state() {
    let mut server = Server::<GameUpdate<(), ()>>::new();
    server.client_state = ClientState::Connected;
    let r = server.receive_message(ServerMessage::GameUpdate(empty_update(GameState::Waiting, 1)));
    assert_eq!(r, Err("Got invalid server message.".to_string()));
    assert_eq!(server.state(), ClientState::Connected);
    assert!(server.game_update.is_none());

    let r = server.receive_message(ServerMessage::Error("boom".to_string()));
    assert_eq!(r, Err("Server errror: boom".to_string()));

    // An answer nobody asked for is refused and the phase stays.
    let r = server.receive_message(ServerMessage::JoinGameResponse(JoinGameResponse::GameFull));
    assert_eq!(r, Err("Server sent response but no request was made.".to_string()));
    assert_eq!(server.state(), ClientState::Connected);
    assert!(server.request_response.is_none());
}

#[test]
fn session_connect_failure_answers_request() {
    let mut server = Server::<GameUpdate<(), ()>>::new();
    server.begin_connect();
    server.connect_finished(Err("Server not found.".to_string()));
    assert!(!server.request_pending);
    assert!(!server.connecting);
    assert_eq!(server.take_request_response(), Some(Err("Server not found.".to_string())));
}

#[test]
fn session_messages_allowed_by_state() {
    let mut server = Server::<GameUpdate<(), ()>>::new();
    let join: ClientMessage<()> = ClientMessage::JoinGame { game_code: GameCode("X".to_string()) };
    let start: ClientMessage<()> = ClientMessage::StartCountdown;
    assert!(!server.message_allowed(&join));
    server.client_state = ClientState::Connected;
    assert!(server.message_allowed(&join));
    assert!(!server.message_allowed(&start));
    server.client_state = ClientState::Playing;
    assert!(!server.message_allowed(&join));
    assert!(server.message_allowed(&start));
}

#[test]
fn default_port_is_appended_only_without_port() {
    assert_eq!(with_default_port("localhost".to_string()), "localhost:8080");
    assert_eq!(with_default_port("example.org:5000".to_string()), "example.org:5000");
    assert_eq!(with_default_port("".to_string()), ":8080");
}
