//! Turn/animation orchestration core for a four-player trick-taking card game.
//!
//! The rules of the game itself live in an external rules engine, consumed as
//! a black box through a thin adapter.  What this crate provides, and proves,
//! is the mechanism around that engine: a registry of visual card entities, a
//! scheduler that advances non-blocking card movements and defers their
//! continuations, and a turn orchestrator that validates input, invokes moves,
//! and fans the engine's reported effects out into follow-up actions.

use vstd::prelude::*;

pub mod card;
pub mod effect;
pub mod engine;
pub mod geom;
pub mod layout;
pub mod orchestrator;
pub mod registry;
pub mod sched;
pub mod text;

verus! {

/// Number of cards in the deck the engine deals from.
pub const DECK_SIZE: usize = 40;


/// The single human-controlled seat.
pub const POV_SEAT: u8 = 0;

} // verus!
