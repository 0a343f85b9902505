//! The lobby-and-session protocol: identifiers, the errors a server reports
//! and the plain records exchanged around a game.
use vstd::prelude::*;

verus! {

/// Protocol / API version negotiated at connect time.
#[derive(Debug, Clone, Copy, PartialEq, Eq, Hash, Structural)]
pub struct ApiVersion(pub u16);

/// The protocol version spoken by this module.
pub fn api_version() -> (v: ApiVersion)
    ensures
        v == ApiVersion(2),
{
    ApiVersion(2)
}

/// Unique identifier of a client session.
#[derive(Debug, Clone, Copy, PartialEq, Eq, Hash, Structural)]
pub struct SessionId(pub u64);

/// Human-facing game code used to join games.
#[derive(Debug, Clone, PartialEq, Eq, Hash)]
pub struct GameCode(pub String);

/// Unique identifier of a round within a game.
#[derive(Debug, Clone, Copy, PartialEq, Eq, Hash, Structural)]
pub struct RoundId(pub u64);

/// Simulation tick identifier.
#[derive(Debug, Clone, Copy, PartialEq, Eq, Hash, Structural)]
pub struct TickId(pub u64);

/// Player identifier used across the session.
#[derive(Debug, Clone, Copy, PartialEq, Eq, Hash, Structural)]
pub struct PlayerId(pub u64);

/// Low-level client identifier (transport / connection).
#[derive(Debug, Clone, Copy, PartialEq, Eq, Hash, Structural)]
pub struct ClientId(pub u64);

/// The two teams of a game.
#[derive(Debug, Clone, Copy, PartialEq, Eq, Structural)]
pub enum Team {
    Blue,
    Red,
}

/// Lightweight description of who is in the game.
#[derive(Debug, Clone, PartialEq)]
pub struct GameMember {
    pub session_id: SessionId,
    pub nickname: String,
}

/// Result of a completed game.
#[derive(Debug, Clone, Copy, PartialEq, Eq, Structural)]
pub struct GameResult {
    pub winner: Option<Team>,
}

/// Who killed whom.
#[derive(Debug, Clone, Copy, PartialEq, Eq, Structural)]
pub struct KillEvent {
    pub killer_id: PlayerId,
    pub victim_id: PlayerId,
}

/// Errors of the handshake.
#[derive(Clone, PartialEq, Eq, Debug)]
pub enum ConnectError {
    ApiVersionMismatch { requested: u16, expected: u16 },
    DuplicateHandshake { session_id: SessionId },
    HandshakeRequired,
}

/// Errors of game creation.
#[derive(Clone, PartialEq, Eq, Debug)]
pub enum GameCreateError {
    AlreadyInGame { game_code: GameCode },
}

/// Errors of joining a game.
#[derive(Clone, PartialEq, Eq, Debug)]
pub enum GameJoinError {
    AlreadyInGame { game_code: GameCode },
    InvalidCode { game_code: GameCode },
    NotFound { game_code: GameCode },
    NotJoinable { game_code: GameCode },
}

/// Errors of leaving a game.
#[derive(Clone, Copy, PartialEq, Eq, Debug, Structural)]
pub enum GameLeaveError {
    NotInGame,
    GameInProgress,
}

/// Errors of starting the countdown.
#[derive(Clone, Copy, PartialEq, Eq, Debug, Structural)]
pub enum CountdownError {
    NotInGame,
    InvalidSeconds,
    NotEnoughPlayers,
    NotWaiting,
}

/// All server-to-client errors, one variant per kind of request.
#[derive(Debug, Clone, PartialEq, Eq)]
pub enum ServerError {
    Connect(ConnectError),
    GameCreate(GameCreateError),
    GameJoin(GameJoinError),
    GameLeave(GameLeaveError),
    GameCountdown(CountdownError),
    Input { tick_id: TickId },
    General,
}

impl From<ConnectError> for ServerError {
    fn from(e: ConnectError) -> (r: Self)
        ensures
            r == ServerError::Connect(e),
    {
        ServerError::Connect(e)
    }
}

impl vstd::std_specs::convert::FromSpecImpl<ConnectError> for ServerError {
    open spec fn obeys_from_spec() -> bool {
        true
    }

    open spec fn from_spec(e: ConnectError) -> Self {
        ServerError::Connect(e)
    }
}

impl From<GameCreateError> for ServerError {
    fn from(e: GameCreateError) -> (r: Self)
        ensures
            r == ServerError::GameCreate(e),
    {
        ServerError::GameCreate(e)
    }
}

impl vstd::std_specs::convert::FromSpecImpl<GameCreateError> for ServerError {
    open spec fn obeys_from_spec() -> bool {
        true
    }

    open spec fn from_spec(e: GameCreateError) -> Self {
        ServerError::GameCreate(e)
    }
}

impl From<GameJoinError> for ServerError {
    fn from(e: GameJoinError) -> (r: Self)
        ensures
            r == ServerError::GameJoin(e),
    {
        ServerError::GameJoin(e)
    }
}

impl vstd::std_specs::convert::FromSpecImpl<GameJoinError> for ServerError {
    open spec fn obeys_from_spec() -> bool {
        true
    }

    open spec fn from_spec(e: GameJoinError) -> Self {
        ServerError::GameJoin(e)
    }
}

impl From<GameLeaveError> for ServerError {
    fn from(e: GameLeaveError) -> (r: Self)
        ensures
            r == ServerError::GameLeave(e),
    {
        ServerError::GameLeave(e)
    }
}

impl vstd::std_specs::convert::FromSpecImpl<GameLeaveError> for ServerError {
    open spec fn obeys_from_spec() -> bool {
        true
    }

    open spec fn from_spec(e: GameLeaveError) -> Self {
        ServerError::GameLeave(e)
    }
}

impl From<CountdownError> for ServerError {
    fn from(e: CountdownError) -> (r: Self)
        ensures
            r == ServerError::GameCountdown(e),
    {
        ServerError::GameCountdown(e)
    }
}

impl vstd::std_specs::convert::FromSpecImpl<CountdownError> for ServerError {
    open spec fn obeys_from_spec() -> bool {
        true
    }

    open spec fn from_spec(e: CountdownError) -> Self {
        ServerError::GameCountdown(e)
    }
}

} // verus!
