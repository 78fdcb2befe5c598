//! The recorded form of a game: what each seat took and discarded, round by
//! round.

use crate::pai::Pai;
use vstd::prelude::*;

verus! {

/// How many rounds a game is played for.
#[derive(Debug, Clone, Copy, PartialEq, Eq, Structural)]
pub enum GameLength {
    Hanchan,
    Tonpuu,
}

impl GameLength {
    /// The number a game record writes for the length.
    pub open spec fn code(self) -> u8 {
        match self {
            GameLength::Hanchan => 0,
            GameLength::Tonpuu => 4,
        }
    }

    /// The number a game record writes for the length.
    #[inline]
    pub fn as_u8(self) -> (code: u8)
        ensures
            code == self.code(),
    {
        match self {
            GameLength::Hanchan => 0,
            GameLength::Tonpuu => 4,
        }
    }
}

/// A whole recorded game.
#[derive(Debug, Clone, PartialEq, Eq)]
pub struct Log {
    pub names: [String; 4],
    pub game_length: GameLength,
    pub has_aka: bool,
    pub kyokus: Vec<Kyoku>,
}

/// One recorded round.
#[derive(Debug, Clone, PartialEq, Eq)]
pub struct Kyoku {
    pub meta: Meta,
    pub scoreboard: [i32; 4],
    pub dora_indicators: Vec<Pai>,
    pub action_tables: [ActionTable; 4],
    pub end_status: EndStatus,
}

/// Which round it is, and what lies on the table when it starts.
#[derive(Debug, Clone, Copy, PartialEq, Eq, Structural)]
pub struct Meta {
    pub kyoku_num: u8,
    pub honba: u8,
    pub kyotaku: u8,
}

/// What one seat held, took and discarded in a round.
#[derive(Debug, Clone, PartialEq, Eq)]
pub struct ActionTable {
    pub haipai: [Pai; 13],
    pub takes: Vec<ActionItem>,
    pub discards: Vec<ActionItem>,
}

/// One entry of a take or discard sequence.
#[derive(Debug, Clone, PartialEq, Eq)]
pub enum ActionItem {
    /// A tile drawn or discarded.
    Pai(Pai),
    /// A discard of the tile that was just drawn; only discards have it.
    Tsumogiri(u8),
    /// A call, a kan or a reach declaration, as a call string.
    Naki(String),
}

/// How a round ended.
#[derive(Debug, Clone, PartialEq, Eq)]
pub enum EndStatus {
    Hora { details: Vec<HoraDetail> },
    Ryukyoku { score_deltas: [i32; 4] },
}

/// One win: who won, from whom, and what it did to the scores.
#[derive(Debug, Clone, Copy, PartialEq, Eq)]
pub struct HoraDetail {
    pub who: u8,
    pub target: u8,
    pub score_deltas: [i32; 4],
}

} // verus!
