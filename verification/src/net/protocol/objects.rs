use vstd::prelude::*;

use crate::game::player::PlayerInfo;
use crate::net::protocol::messages::GameCode;

verus! {

/// Identifier of a player inside one game.
pub type PlayerId = u16;

/// Low-level identifier of a connected client (the transport's client id).
pub type ClientId = u64;

/// The two teams of a match.
#[derive(Debug, Clone, Copy, PartialEq, Eq, Structural)]
pub enum Team {
    Blue,
    Red,
}

/// A point of the map plane, in map units. Every map of the game lies on
/// whole units, so its geometry is held exactly in integers.
#[derive(Debug, Clone, Copy, PartialEq, Eq, Structural)]
pub struct Point {
    pub x: i32,
    pub y: i32,
}

/// An axis-aligned rectangular wall, `min` being its top-left corner and
/// `max` its bottom-right one.
#[derive(Debug, Clone, Copy, PartialEq, Eq, Structural)]
pub struct RectWall {
    pub min: Point,
    pub max: Point,
}

/// Static description of a map: its size, its walls and where the tanks of
/// each team spawn.
#[derive(Debug, Clone, PartialEq)]
pub struct MapDefinition {
    pub width: i32,
    pub height: i32,
    pub walls: Vec<RectWall>,
    pub spawn_points: Vec<(Team, Point)>,
}

/// Mathematical model of a [`MapDefinition`].
pub struct MapView {
    pub width: int,
    pub height: int,
    pub walls: Seq<RectWall>,
    pub spawn_points: Seq<(Team, Point)>,
}

impl View for MapDefinition {
    type V = MapView;

    open spec fn view(&self) -> MapView {
        MapView {
            width: self.width as int,
            height: self.height as int,
            walls: self.walls@,
            spawn_points: self.spawn_points@,
        }
    }
}

/// The maps a game can be played on, in their cycling order.
#[derive(Debug, Clone, Copy, PartialEq, Eq, Structural)]
pub enum MapName {
    Basic,
    Loss,
    Tiga,
}

/// Phase of a running game as broadcast by the server.
#[derive(Debug, Clone, Copy, PartialEq, Eq, Structural)]
pub enum GameState {
    Waiting,
    Countdown(u64),
    Battle(u64),
    Results { winner: Team, blue_score: u8, red_score: u8 },
}

/// Who killed whom.
#[derive(Debug, Clone, PartialEq)]
pub struct KillEvent {
    pub killer_info: PlayerInfo,
    pub victim_info: PlayerInfo,
}

/// What a client learns when it creates or joins a game.
#[derive(Debug, Clone, PartialEq)]
pub struct InitialGameInfo {
    pub game_code: GameCode,
    pub player_id: PlayerId,
    pub num_rounds: u8,
    pub map_name: MapName,
    pub game_master: ClientId,
}

/// The simulated world at one tick: tanks and projectiles, whose types carry
/// positions and velocities and are supplied by the user of the library.
#[derive(Debug, Clone, PartialEq)]
pub struct EngineSnapshot<T, P> {
    pub tanks: Vec<T>,
    pub projectiles: Vec<P>,
}

/// Authoritative per-tick state sent by the server.
#[derive(Debug, Clone, PartialEq)]
pub struct GameSnapshot<T, P> {
    pub engine: EngineSnapshot<T, P>,
    pub state: GameState,
    pub game_master: ClientId,
    pub round_number: u8,
}

} // verus!
