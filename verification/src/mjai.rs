//! The replayable form of a game: one ordered stream of events.

use crate::pai::Pai;
use vstd::prelude::*;

verus! {

/// The two tiles a chi or pon takes from the caller's hand.
#[derive(Debug, Clone, Copy, PartialEq, Eq)]
pub struct Consumed2(pub [Pai; 2]);

/// The three tiles a called or added kan takes from the caller's hand.
#[derive(Debug, Clone, Copy, PartialEq, Eq)]
pub struct Consumed3(pub [Pai; 3]);

/// The four tiles of a concealed kan.
#[derive(Debug, Clone, Copy, PartialEq, Eq)]
pub struct Consumed4(pub [Pai; 4]);

/// One event of the stream.
#[allow(inconsistent_fields)]
#[derive(Debug, PartialEq, Eq)]
pub enum Event {
    StartGame { kyoku_first: u8, aka_flag: bool, names: [String; 4] },
    StartKyoku {
        bakaze: Pai,
        dora_marker: Pai,
        kyoku: u8,
        honba: u8,
        kyotaku: u8,
        oya: u8,
        scores: [i32; 4],
        tehais: [[Pai; 13]; 4],
    },
    Tsumo { actor: u8, pai: Pai },
    Dahai { actor: u8, pai: Pai, tsumogiri: bool },
    Chi { actor: u8, target: u8, pai: Pai, consumed: Consumed2 },
    Pon { actor: u8, target: u8, pai: Pai, consumed: Consumed2 },
    Daiminkan { actor: u8, target: u8, pai: Pai, consumed: Consumed3 },
    Kakan { actor: u8, pai: Pai, consumed: Consumed3 },
    Ankan { actor: u8, consumed: Consumed4 },
    Dora { dora_marker: Pai },
    Reach { actor: u8 },
    ReachAccepted { actor: u8 },
    Hora { actor: u8, target: u8, deltas: Option<[i32; 4]> },
    Ryukyoku { deltas: Option<[i32; 4]> },
    EndKyoku,
    EndGame,
}

impl Clone for Event {
    fn clone(&self) -> (copy: Self)
        ensures
            copy == *self,
    {
        match self {
            Event::StartGame { kyoku_first, aka_flag, names } => {
                let copied = [
                    names[0].clone(),
                    names[1].clone(),
                    names[2].clone(),
                    names[3].clone(),
                ];
                assert(copied =~= *names);
                Event::StartGame { kyoku_first: *kyoku_first, aka_flag: *aka_flag, names: copied }
            },
            Event::StartKyoku { bakaze, dora_marker, kyoku, honba, kyotaku, oya, scores, tehais } => {
                Event::StartKyoku {
                    bakaze: *bakaze,
                    dora_marker: *dora_marker,
                    kyoku: *kyoku,
                    honba: *honba,
                    kyotaku: *kyotaku,
                    oya: *oya,
                    scores: *scores,
                    tehais: *tehais,
                }
            },
            Event::Tsumo { actor, pai } => Event::Tsumo { actor: *actor, pai: *pai },
            Event::Dahai { actor, pai, tsumogiri } => Event::Dahai {
                actor: *actor,
                pai: *pai,
                tsumogiri: *tsumogiri,
            },
            Event::Chi { actor, target, pai, consumed } => Event::Chi {
                actor: *actor,
                target: *target,
                pai: *pai,
                consumed: *consumed,
            },
            Event::Pon { actor, target, pai, consumed } => Event::Pon {
                actor: *actor,
                target: *target,
                pai: *pai,
                consumed: *consumed,
            },
            Event::Daiminkan { actor, target, pai, consumed } => Event::Daiminkan {
                actor: *actor,
                target: *target,
                pai: *pai,
                consumed: *consumed,
            },
            Event::Kakan { actor, pai, consumed } => Event::Kakan {
                actor: *actor,
                pai: *pai,
                consumed: *consumed,
            },
            Event::Ankan { actor, consumed } => Event::Ankan { actor: *actor, consumed: *consumed },
            Event::Dora { dora_marker } => Event::Dora { dora_marker: *dora_marker },
            Event::Reach { actor } => Event::Reach { actor: *actor },
            Event::ReachAccepted { actor } => Event::ReachAccepted { actor: *actor },
            Event::Hora { actor, target, deltas } => Event::Hora {
                actor: *actor,
                target: *target,
                deltas: *deltas,
            },
            Event::Ryukyoku { deltas } => Event::Ryukyoku { deltas: *deltas },
            Event::EndKyoku => Event::EndKyoku,
            Event::EndGame => Event::EndGame,
        }
    }
}

impl Event {
    /// For a call of another seat's discard: the seat called from and the
    /// tile called.
    pub open spec fn naki_info_spec(self) -> Option<(u8, Pai)> {
        match self {
            Event::Chi { target, pai, .. } => Some((target, pai)),
            Event::Pon { target, pai, .. } => Some((target, pai)),
            Event::Daiminkan { target, pai, .. } => Some((target, pai)),
            _ => None,
        }
    }

    /// The precedence of a call of a discard: a pon or a kan goes before a
    /// chi. An event that is no such call has none, written -1.
    pub open spec fn naki_rank(self) -> int {
        match self {
            Event::Chi { .. } => 0,
            Event::Pon { .. } => 1,
            Event::Daiminkan { .. } => 1,
            _ => -1,
        }
    }

    /// The event is a take of the seat `seat`: a draw, or a call of
    /// another seat's discard.
    pub open spec fn is_take_of(self, seat: u8) -> bool {
        match self {
            Event::Tsumo { actor, .. } => actor == seat,
            Event::Chi { actor, .. } => actor == seat,
            Event::Pon { actor, .. } => actor == seat,
            Event::Daiminkan { actor, .. } => actor == seat,
            _ => false,
        }
    }

    /// The event is what the seat `seat` does in place of taking from
    /// another: a discard, a reach declaration, or a kan from its own hand.
    pub open spec fn is_discard_of(self, seat: u8) -> bool {
        match self {
            Event::Dahai { actor, .. } => actor == seat,
            Event::Reach { actor } => actor == seat,
            Event::Kakan { actor, .. } => actor == seat,
            Event::Ankan { actor, .. } => actor == seat,
            _ => false,
        }
    }

    /// The event closes a round: a win, a draw, or the end mark.
    pub open spec fn is_closing(self) -> bool {
        self is Hora || self is Ryukyoku || self is EndKyoku
    }

    /// A discard that stands for "the tile just drawn" with that tile
    /// filled in; any other event as it is.
    pub open spec fn filled(self, last_tsumo: Pai) -> Event {
        match self {
            Event::Dahai { actor, pai, tsumogiri } => if tsumogiri {
                Event::Dahai { actor, pai: last_tsumo, tsumogiri: true }
            } else {
                self
            },
            _ => self,
        }
    }

    /// For a call of another seat's discard, the seat called from and the
    /// tile called; `None` for any other event.
    pub fn naki_info(&self) -> (info: Option<(u8, Pai)>)
        ensures
            info == self.naki_info_spec(),
    {
        match self {
            Event::Chi { target, pai, .. } => Some((*target, *pai)),
            Event::Pon { target, pai, .. } => Some((*target, *pai)),
            Event::Daiminkan { target, pai, .. } => Some((*target, *pai)),
            _ => None,
        }
    }

    /// The precedence of the event as a call of a discard: 1 for a pon or a
    /// called kan, 0 for a chi, -1 for any other event.
    pub fn naki_to_ord(&self) -> (rank: isize)
        ensures
            rank == self.naki_rank(),
    {
        match self {
            Event::Chi { .. } => 0,
            Event::Pon { .. } => 1,
            Event::Daiminkan { .. } => 1,
            _ => -1,
        }
    }

    /// Fills the tile `last_tsumo` into a discard that stands for the tile
    /// just drawn, and hands any other event back as it is.
    #[inline]
    pub fn fill_possible_tsumogiri(self, last_tsumo: Pai) -> (event: Event)
        ensures
            event == self.filled(last_tsumo),
    {
        match self {
            Event::Dahai { actor, tsumogiri: true, .. } => Event::Dahai {
                actor,
                pai: last_tsumo,
                tsumogiri: true,
            },
            _ => self,
        }
    }
}

} // verus!
