//! Rebuilds the single ordered event stream of a mahjong game from the
//! compact per-seat take and discard tables it was recorded in.
//!
//! [`tenhou_to_mjai`] converts a whole game. The modules follow the way the
//! work is done: [`pai`] knows the tiles, [`token`] and [`naki`] read tile
//! tokens and call strings, [`conv`] turns what each seat took and
//! discarded into events, and [`round`] puts the events of the four seats
//! into the order of play, of which [`tally`] proves that it emits what it
//! reads. [`tenhou`] and [`mjai`] hold the two forms of a game.

pub mod conv;
pub mod mjai;
pub mod naki;
pub mod pai;
pub mod round;
pub mod tally;
pub mod tenhou;
pub mod token;

pub use conv::{tenhou_to_mjai, ConvertError};
pub use pai::{Pai, ParseError};
