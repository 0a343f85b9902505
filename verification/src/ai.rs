use vstd::prelude::*;

verus! {

/// How a computer-controlled tank plays.
#[derive(Debug, Clone, Copy, PartialEq, Eq, Structural)]
pub enum BotDifficulty {
    /// Does nothing.
    Dummy,
    /// Static, shoots at the enemies it sees.
    Turret,
    /// Moves around at random, shoots.
    Wanderer,
    /// Hunts the closest enemy down.
    Hunter,
    /// Hunts the closest enemy down, aiming ahead of it.
    Terminator,
    /// Driven by a neural network.
    TrainedKiller,
}

} // verus!
