//! The semantic effect of a resolved move.
//!
//! This is the crate's own closed copy of the rules engine's move
//! classification; the adapter converts the engine's values into it at the
//! trust boundary.

use vstd::prelude::*;

verus! {

/// A cumulative score: the team of seats 0 and 2 against the team of seats
/// 1 and 3.
#[derive(Clone, Copy, Debug, PartialEq, Eq, Structural)]
pub struct Score {
    pub team02: u8,
    pub team13: u8,
}

impl From<(u8, u8)> for Score {
    fn from(t: (u8, u8)) -> (r: Score) {
        Score { team02: t.0, team13: t.1 }
    }
}

impl vstd::std_specs::convert::FromSpecImpl<(u8, u8)> for Score {
    open spec fn obeys_from_spec() -> bool {
        true
    }

    open spec fn from_spec(t: (u8, u8)) -> Score {
        Score { team02: t.0, team13: t.1 }
    }
}

/// What a successful move did, as the rules engine classifies it.
#[derive(Clone, Copy, Debug, PartialEq, Eq, Structural)]
pub enum Effect {
    /// A card was played; the trick is still open.
    CardPlayed,
    /// The trick closed; `winner` leads the next one.
    TrickCompleted { winner: u8 },
    /// The hand closed and a fresh one was dealt; `score` is cumulative.
    HandComplete { winner: u8, score: Score },
    /// The game is over with the given final score.
    GameOver { winner: u8, final_score: Score },
}

impl Effect {
    /// Every seat an effect names is a real seat.
    pub open spec fn wf(self) -> bool {
        match self {
            Effect::CardPlayed => true,
            Effect::TrickCompleted { winner } => winner < 4,
            Effect::HandComplete { winner, score } => winner < 4,
            Effect::GameOver { winner, final_score } => winner < 4,
        }
    }
}

} // verus!
