use vstd::prelude::*;

use crate::net::protocol::objects::{KillEvent, Team};

verus! {

/// What happened during one simulation tick: the kills, the damage dealt
/// (`D` carries the amounts) and, when the round is decided, the winner.
pub struct GameTickResult<D> {
    pub kills: Vec<KillEvent>,
    pub damage: Vec<D>,
    pub winner: Option<Team>,
}

} // verus!
