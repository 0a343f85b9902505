use vstd::prelude::*;

use crate::net::protocol::objects::{GameSnapshot, InitialGameInfo, KillEvent, MapName, Team};

verus! {

/// Protocol version a client announces in its handshake.
pub type ApiVersion = u16;

/// The protocol version spoken by this library.
pub const API_VERSION: ApiVersion = 8;

/// Human-facing lobby code used to join games.
#[derive(Debug, Clone, PartialEq, Eq)]
pub struct GameCode(pub String);

/// Messages from client to server. `I` is the per-tick input payload
/// (movement axis, aim position, trigger).
#[derive(Debug, Clone, PartialEq)]
pub enum ClientMessage<I> {
    Handshake { api_version: ApiVersion, nickname: String },
    CreateGame { map: MapName, rounds: u8 },
    JoinGame { game_code: GameCode },
    LeaveGame,
    StartCountdown,
    /// Player input for the current game tick.
    GameInput(I),
}

/// Messages from server to client. `U` is the per-tick game update.
#[derive(Debug, Clone, PartialEq)]
pub enum ServerMessage<U> {
    HandshakeResponse(HandshakeResponse),
    CreateGameReponse(CreateGameResponse),
    JoinGameResponse(JoinGameResponse),
    LeaveGameAck,
    StartCountdownAck,
    GameUpdate(U),
    Error(String),
}

/// Per-tick update: the world snapshot and the one-shot events of the tick.
#[derive(Debug, Clone, PartialEq)]
pub struct GameUpdate<T, P> {
    pub snapshot: GameSnapshot<T, P>,
    pub events: Vec<GameEvent>,
}

/// One-shot events for the UI and audio (not persistent state).
#[derive(Debug, Clone, PartialEq)]
pub enum GameEvent {
    PlayerJoined(String),
    PlayerLeft(String),
    RoundStarted,
    RoundEnded(Team),
    Kill(KillEvent),
}

/// Answer to a handshake.
#[derive(Debug, Clone, Copy, PartialEq, Eq, Structural)]
pub enum HandshakeResponse {
    Accepted,
    ApiMismatch,
    ServerFull,
}

/// Answer to a request to create a game.
#[derive(Debug, Clone, PartialEq)]
pub enum CreateGameResponse {
    Created(InitialGameInfo),
    TooManyGames,
}

/// Answer to a request to join a game.
#[derive(Debug, Clone, PartialEq)]
pub enum JoinGameResponse {
    Joined(InitialGameInfo),
    InvalidCode,
    GameFull,
    GameStarted,
}

} // verus!
