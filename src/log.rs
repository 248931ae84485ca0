//! Display-agnostic records of what an action did.

use vstd::prelude::*;

use crate::card::Card;

verus! {

/// Something that happened in the game.
#[derive(Debug, PartialEq, Eq)]
pub enum Event {
    RoundStarted { round: usize },
    Drew { player: usize, count: usize, remaining: usize },
    DrewCards { player: usize, cards: Vec<Card> },
    Played { player: usize, card: Card },
    Discarded { player: usize, card: Card },
    Took { player: usize, card: Card },
    Scored { player: usize, points: isize, total: isize },
    GameOver { totals: Vec<isize>, winners: Vec<usize> },
}

/// An event, shown to every participant or to one player only.
#[derive(Debug, PartialEq, Eq)]
pub enum Log {
    Public(Event),
    Private { player: usize, event: Event },
}

} // verus!
