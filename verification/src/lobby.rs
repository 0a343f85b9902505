//! The game-creation form: the number of rounds and the map the player
//! picks before asking the server for a new game.
use vstd::prelude::*;

use crate::net::protocol::messages::ClientMessage;
use crate::net::protocol::objects::MapName;
use crate::game::map::{map_at, map_index};

verus! {

/// How many round counts the player can choose from.
pub const ROUND_CHOICE_COUNT: usize = 5;

/// The round counts offered, in order: 1, 5, 10, 15, 20.
pub open spec fn spec_round_choice(i: int) -> u8 {
    if i == 0 {
        1
    } else if i == 1 {
        5
    } else if i == 2 {
        10
    } else if i == 3 {
        15
    } else {
        20
    }
}

/// The round count offered at position `i`.
pub fn round_choice(i: usize) -> (r: u8)
    requires
        i < ROUND_CHOICE_COUNT,
    ensures
        r == spec_round_choice(i as int),
{
    if i == 0 {
        1
    } else if i == 1 {
        5
    } else if i == 2 {
        10
    } else if i == 3 {
        15
    } else {
        20
    }
}

/// What the player has picked so far.
pub struct GameCreation {
    round_index: usize,
    current_map: MapName,
}

impl GameCreation {
    /// The position of the chosen round count.
    pub closed spec fn spec_round_index(self) -> int {
        self.round_index as int
    }

    /// The chosen map.
    pub closed spec fn spec_map(self) -> MapName {
        self.current_map
    }

    /// The round index always points at an offered round count.
    #[verifier::type_invariant]
    spec fn wf(self) -> bool {
        self.round_index < ROUND_CHOICE_COUNT
    }

    /// Starts at 5 rounds on the `Basic` map.
    pub fn new() -> (g: Self)
        ensures
            g.spec_round_index() == 1,
            g.spec_map() == MapName::Basic,
    {
        Self { round_index: 1, current_map: MapName::Basic }
    }

    /// The chosen number of rounds.
    pub fn num_rounds(&self) -> (r: u8)
        ensures
            r == spec_round_choice(self.spec_round_index()),
    {
        proof {
            use_type_invariant(self);
        }
        round_choice(self.round_index)
    }

    /// The chosen map.
    pub fn map(&self) -> (m: MapName)
        ensures
            m == self.spec_map(),
    {
        self.current_map
    }

    /// Steps to the previous round count, wrapping around.
    pub fn scroll_rounds_left(&mut self)
        ensures
            final(self).spec_round_index() == (old(self).spec_round_index() + ROUND_CHOICE_COUNT - 1)
                % (ROUND_CHOICE_COUNT as int),
            final(self).spec_map() == old(self).spec_map(),
    {
        proof {
            use_type_invariant(&*self);
        }
        self.round_index = (ROUND_CHOICE_COUNT + self.round_index - 1) % ROUND_CHOICE_COUNT;
    }

    /// Steps to the next round count, wrapping around.
    pub fn scroll_rounds_right(&mut self)
        ensures
            final(self).spec_round_index() == (old(self).spec_round_index() + 1) % (
            ROUND_CHOICE_COUNT as int),
            final(self).spec_map() == old(self).spec_map(),
    {
        proof {
            use_type_invariant(&*self);
        }
        self.round_index = (self.round_index + 1) % ROUND_CHOICE_COUNT;
    }

    /// Steps to the previous map.
    pub fn scroll_map_left(&mut self)
        ensures
            final(self).spec_map() == map_at(map_index(old(self).spec_map()) + 3 - 1),
            final(self).spec_round_index() == old(self).spec_round_index(),
    {
        proof {
            use_type_invariant(&*self);
        }
        self.current_map = self.current_map.prev();
    }

    /// Steps to the next map.
    pub fn scroll_map_right(&mut self)
        ensures
            final(self).spec_map() == map_at(map_index(old(self).spec_map()) + 1),
            final(self).spec_round_index() == old(self).spec_round_index(),
    {
        proof {
            use_type_invariant(&*self);
        }
        self.current_map = self.current_map.next();
    }

    /// The request that creates a game with the current choices.
    pub fn create_request<I>(&self) -> (msg: ClientMessage<I>)
        ensures
            msg == (ClientMessage::<I>::CreateGame {
                map: self.spec_map(),
                rounds: spec_round_choice(self.spec_round_index()),
            }),
    {
        ClientMessage::CreateGame { map: self.current_map, rounds: self.num_rounds() }
    }
}

/// Scrolling the round count right and then left (or left and then right)
/// comes back to the same choice; five steps the same way go full circle.
pub proof fn lemma_round_scroll_inverse(i: int)
    requires
        0 <= i < ROUND_CHOICE_COUNT,
    ensures
        ((i + 1) % 5 + 5 - 1) % 5 == i,
        ((i + 5 - 1) % 5 + 1) % 5 == i,
        0 <= (i + 1) % 5 < 5,
        0 <= (i + 5 - 1) % 5 < 5,
{
}

/// The round counts offered are 1, 5, 10, 15 and 20, in that order: they grow
/// with the position, so scrolling right always offers more rounds except
/// when it wraps from the largest count back to the smallest.
pub proof fn lemma_round_choices()
    ensures
        spec_round_choice(0) == 1,
        spec_round_choice(1) == 5,
        spec_round_choice(2) == 10,
        spec_round_choice(3) == 15,
        spec_round_choice(4) == 20,
        forall|i: int, j: int|
            0 <= i < j < ROUND_CHOICE_COUNT ==> #[trigger] spec_round_choice(i)
                < #[trigger] spec_round_choice(j),
        forall|i: int|
            0 <= i < ROUND_CHOICE_COUNT - 1 ==> #[trigger] spec_round_choice(i) < spec_round_choice(
                (i + 1) % (ROUND_CHOICE_COUNT as int),
            ),
{
}

} // verus!
