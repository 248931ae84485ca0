//! Why an action or a command was refused.

use vstd::prelude::*;

use crate::card::{Card, Expedition};
use crate::parser::ParseError;

verus! {

/// A request that the rules refuse; the game is left as it was.
#[derive(Debug, PartialEq, Eq)]
pub enum Invalid {
    /// The game is over.
    Finished,
    /// It is another player's turn.
    NotYourTurn,
    /// The action does not belong to the current phase of the turn.
    WrongPhase,
    /// The player does not hold the card.
    NoSuchCard(Card),
    /// A card of the same colour that rules the card out was already played.
    HigherCardPlayed(Card),
    /// The colour was discarded earlier in this same turn.
    JustDiscarded(Expedition),
    /// No discarded card of the colour is left.
    NoDiscard(Expedition),
    /// The command text does not follow the grammar.
    Parse(ParseError),
}

/// Errors of the engine.
#[derive(Debug, PartialEq, Eq)]
pub enum Error {
    /// The caller asked for something the rules do not allow.
    InvalidInput(Invalid),
    /// A game was requested for a number of players other than two.
    PlayerCount { min: usize, max: usize, given: usize },
}

} // verus!
