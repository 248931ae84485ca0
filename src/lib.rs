//! Rules engine for a two-player expedition card game: the card model, the
//! turn and round state machine, scoring, the per-player view of a game and
//! the text command grammar.

pub mod card;
pub mod command;
pub mod error;
pub mod game;
pub mod log;
pub mod parser;
pub mod score;
pub mod view;

pub use card::{Card, Deck, Expedition, Value};
pub use command::{Alternative, CommandParser, CommandResponse};
pub use error::{Error, Invalid};
pub use parser::{command, Command, ParseError};
pub use game::{opponent, Game, Phase, Stats, ROUNDS, START_ROUND};
pub use score::score;
pub use view::{PubState, Status};
