//! The order of a round.
//!
//! The record of a round gives, for each of the four seats, what the seat
//! took and what it discarded, but not how the seats took turns. This module
//! puts the events of the four seats into the one order in which they
//! happened. [`Table::turn`] says what one turn at the table does, and
//! [`Table::run`] what the turns from some point on add up to; [`merge`]
//! computes it.

use crate::conv::{appends, end_kyoku, ending, ConvertError, Failure};
use crate::mjai::Event;
use crate::naki::seat_after;
use crate::pai::Pai;
use crate::tenhou::Kyoku;
use vstd::prelude::*;

verus! {

/// What the turns of a round read from: the events of each seat's takes and
/// of each seat's discards, the dora indicators, and the events that close
/// the round.
pub struct Table {
    pub kyoku: u8,
    pub honba: u8,
    pub takes: Seq<Seq<Event>>,
    pub discards: Seq<Seq<Event>>,
    pub doras: Seq<Pai>,
    pub ending: Seq<Event>,
}

/// How far a round has come.
#[verifier::ext_equal]
pub struct Cursor {
    /// The seat whose turn it is.
    pub actor: u8,
    /// For each seat, how many of its takes have been read.
    pub takes: Seq<int>,
    /// For each seat, how many of its discards have been read.
    pub discards: Seq<int>,
    /// How many dora indicators have been revealed.
    pub doras: int,
    /// The seat whose reach waits to be accepted.
    pub reach: Option<u8>,
    /// The tile drawn last.
    pub last_tsumo: Pai,
    /// The tile discarded last.
    pub last_dahai: Pai,
    /// A kan was made whose dora indicator is revealed after the next
    /// discard.
    pub owed: bool,
}

/// What one turn comes to.
#[verifier::ext_equal]
pub enum Step {
    /// The turn emits `events` and the round goes on from `cursor`.
    Next { events: Seq<Event>, cursor: Cursor },
    /// The turn emits `events` and is the last of the round, which it
    /// leaves at `cursor`.
    Done { events: Seq<Event>, cursor: Cursor },
    /// The record lacks what the turn needs.
    Fail { failure: Failure },
}

impl Step {
    /// The events that the turn emits; none where it fails.
    pub open spec fn emitted(self) -> Seq<Event> {
        match self {
            Step::Next { events, .. } => events,
            Step::Done { events, .. } => events,
            Step::Fail { .. } => Seq::empty(),
        }
    }

    /// The cursor that the turn leaves the round at. A turn that fails
    /// leaves it where it was, at `from`.
    pub open spec fn left_at(self, from: Cursor) -> Cursor {
        match self {
            Step::Next { cursor, .. } => cursor,
            Step::Done { cursor, .. } => cursor,
            Step::Fail { .. } => from,
        }
    }

    /// The same outcome, with `before` emitted first.
    pub open spec fn after(self, before: Seq<Event>) -> Step {
        match self {
            Step::Next { events, cursor } => Step::Next { events: before + events, cursor },
            Step::Done { events, cursor } => Step::Done { events: before + events, cursor },
            Step::Fail { failure } => Step::Fail { failure },
        }
    }
}

/// The events `before`, then those of `rest`, where there are any.
pub open spec fn prefixed(before: Seq<Event>, rest: Result<Seq<Event>, Failure>) -> Result<
    Seq<Event>,
    Failure,
> {
    match rest {
        Ok(events) => Ok(before + events),
        Err(failure) => Err(failure),
    }
}

/// The acceptance of a reach that waits for it.
pub open spec fn accepted(reach: Option<u8>) -> Seq<Event> {
    match reach {
        Some(who) => seq![Event::ReachAccepted { actor: who }],
        None => Seq::empty(),
    }
}

/// What `pending`, the next take of some seat, claims of the tile `tile`
/// that `actor` discarded: its rank as a call where it calls that tile from
/// that seat, and -1 where it does not.
pub open spec fn claim(pending: Option<Event>, actor: u8, tile: Pai) -> int {
    match pending {
        Some(event) => match event.naki_info_spec() {
            Some((target, pai)) => if target == actor && pai == tile {
                event.naki_rank()
            } else {
                -1
            },
            None => -1,
        },
        None => -1,
    }
}

/// The claims of the four seats on the tile that `actor` discarded.
pub open spec fn claims(pending: Seq<Option<Event>>, actor: u8, tile: Pai) -> Seq<int> {
    Seq::new(
        4,
        |seat: int|
            if seat == actor {
                -1
            } else {
                claim(pending[seat], actor, tile)
            },
    )
}

/// Among the first `n` seats, the one that claims with the highest rank,
/// and the last of them where several do; -1 where none claims.
pub open spec fn winner(claims: Seq<int>, n: int) -> int
    decreases n,
{
    if n <= 0 {
        -1
    } else {
        let before = winner(claims, n - 1);
        if claims[n - 1] >= 0 && (before < 0 || claims[n - 1] >= claims[before]) {
            n - 1
        } else {
            before
        }
    }
}

/// The seat that acts after `actor` has discarded `tile`: the seat whose
/// pending take calls the tile, or else the seat after `actor`.
pub open spec fn next_seat(pending: Seq<Option<Event>>, actor: u8, tile: Pai) -> u8 {
    let won = winner(claims(pending, actor, tile), 4);
    if won >= 0 {
        won as u8
    } else {
        seat_after(actor, 1)
    }
}

impl Table {
    pub open spec fn wf(self) -> bool {
        self.takes.len() == 4 && self.discards.len() == 4
    }

    /// Every event among the takes of a seat is a take of that seat, every
    /// event among its discards is a discard, a reach declaration or a kan
    /// of that seat, and the events that close the round are a win, a draw
    /// or the end mark.
    pub open spec fn seated(self) -> bool {
        &&& forall|seat: int, i: int|
            0 <= seat < 4 && 0 <= i < self.takes[seat].len() ==> (
            #[trigger] self.takes[seat][i]).is_take_of(seat as u8)
        &&& forall|seat: int, i: int|
            0 <= seat < 4 && 0 <= i < self.discards[seat].len() ==> (
            #[trigger] self.discards[seat][i]).is_discard_of(seat as u8)
        &&& forall|i: int| 0 <= i < self.ending.len() ==> (#[trigger] self.ending[i]).is_closing()
    }

    /// The next take of `seat`, not yet read.
    pub open spec fn pending(self, c: Cursor, seat: int) -> Option<Event> {
        if c.takes[seat] < self.takes[seat].len() {
            Some(self.takes[seat][c.takes[seat]])
        } else {
            None
        }
    }

    /// No seat has a take left.
    pub open spec fn exhausted(self, c: Cursor) -> bool {
        forall|seat: int| 0 <= seat < 4 ==> self.pending(c, seat) is None
    }

    /// How many takes are left to read.
    pub open spec fn remaining(self, c: Cursor) -> int {
        (self.takes[0].len() - c.takes[0]) + (self.takes[1].len() - c.takes[1]) + (
        self.takes[2].len() - c.takes[2]) + (self.takes[3].len() - c.takes[3])
    }

    pub open spec fn no_takes(self, c: Cursor) -> Failure {
        Failure::InsufficientTakes { kyoku: self.kyoku, honba: self.honba, actor: c.actor }
    }

    pub open spec fn no_discards(self, c: Cursor) -> Failure {
        Failure::InsufficientDiscards { kyoku: self.kyoku, honba: self.honba, actor: c.actor }
    }

    pub open spec fn no_doras(self) -> Failure {
        Failure::InsufficientDoraIndicators { kyoku: self.kyoku, honba: self.honba }
    }

    /// The seat to act after the discard of `c.last_dahai` by `c.actor`.
    pub open spec fn next_actor(self, c: Cursor) -> u8 {
        next_seat(Seq::new(4, |seat: int| self.pending(c, seat)), c.actor, c.last_dahai)
    }

    /// The end of a turn in which `discard` was emitted: the round ends
    /// where no seat has a take left; after a concealed kan the next dora
    /// indicator is revealed at once and the seat acts again; after an
    /// added kan the reveal is owed and the seat acts again; after anything
    /// else the turn passes on.
    #[verifier::opaque]
    pub open spec fn settle(self, c: Cursor, discard: Event) -> Step {
        if self.exhausted(c) {
            Step::Done { events: Seq::empty(), cursor: c }
        } else {
            match discard {
                Event::Ankan { .. } => if c.doras >= self.doras.len() {
                    Step::Fail { failure: self.no_doras() }
                } else {
                    Step::Next {
                        events: seq![Event::Dora { dora_marker: self.doras[c.doras] }],
                        cursor: Cursor { doras: c.doras + 1, ..c },
                    }
                },
                Event::Kakan { .. } => Step::Next {
                    events: Seq::empty(),
                    cursor: Cursor { owed: true, ..c },
                },
                _ => Step::Next {
                    events: Seq::empty(),
                    cursor: Cursor { actor: self.next_actor(c), ..c },
                },
            }
        }
    }

    /// What follows the first discard of a turn. Where that was a reach
    /// declaration, the seat's next discard goes with it: it is emitted,
    /// with the tile drawn last filled in where it stands for that, and the
    /// reach waits to be accepted. Then the turn ends.
    #[verifier::opaque]
    pub open spec fn declare(self, c: Cursor, first: Event) -> Step {
        let a = c.actor as int;
        let at = c.discards[a];
        if first is Reach {
            if at >= self.discards[a].len() {
                Step::Fail { failure: self.no_discards(c) }
            } else {
                let second = self.discards[a][at].filled(c.last_tsumo);
                let declared = Cursor {
                    reach: Some(c.actor),
                    discards: c.discards.update(a, at + 1),
                    last_dahai: match second {
                        Event::Dahai { pai, .. } => pai,
                        _ => c.last_dahai,
                    },
                    ..c
                };
                self.settle(declared, first).after(seq![second])
            }
        } else {
            self.settle(c, first)
        }
    }

    /// The reveal of a dora indicator that is owed: none where none is
    /// owed, and else the next indicator, after which none is owed.
    pub open spec fn owed_reveal(self, c: Cursor) -> Step {
        if !c.owed {
            Step::Next { events: Seq::empty(), cursor: c }
        } else if c.doras >= self.doras.len() {
            Step::Fail { failure: self.no_doras() }
        } else {
            Step::Next {
                events: seq![Event::Dora { dora_marker: self.doras[c.doras] }],
                cursor: Cursor { owed: false, doras: c.doras + 1, ..c },
            }
        }
    }

    /// The second half of a turn, in which the seat discards: its next
    /// discard is emitted, with the tile drawn last filled in where it
    /// stands for that; then a dora indicator where one is owed; then what
    /// follows the discard.
    #[verifier::opaque]
    pub open spec fn discard(self, c: Cursor) -> Step {
        let a = c.actor as int;
        let at = c.discards[a];
        let first = self.discards[a][at].filled(c.last_tsumo);
        let discarded = Cursor {
            discards: c.discards.update(a, at + 1),
            last_dahai: match first {
                Event::Dahai { pai, .. } => pai,
                _ => c.last_dahai,
            },
            ..c
        };
        match self.owed_reveal(discarded) {
            Step::Next { events, cursor } => self.declare(cursor, first).after(
                seq![first] + events,
            ),
            other => other,
        }
    }

    /// One turn of the seat `c.actor`. A reach that waits is accepted. The
    /// seat's next take is emitted. After a called kan the seat passes over
    /// one discard, the reveal of a dora indicator is owed, and the seat
    /// takes again. Else the round ends where the seat has no discard left,
    /// and goes on with the discard where it has.
    pub open spec fn turn(self, c: Cursor) -> Step {
        let a = c.actor as int;
        if c.takes[a] >= self.takes[a].len() {
            Step::Fail { failure: self.no_takes(c) }
        } else {
            let take = self.takes[a][c.takes[a]];
            let accepted = accepted(c.reach);
            let taken = Cursor {
                takes: c.takes.update(a, c.takes[a] + 1),
                reach: None,
                last_tsumo: match take {
                    Event::Tsumo { pai, .. } => pai,
                    _ => c.last_tsumo,
                },
                ..c
            };
            if take is Daiminkan {
                Step::Next {
                    events: accepted.push(take),
                    cursor: Cursor {
                        discards: if c.discards[a] < self.discards[a].len() {
                            c.discards.update(a, c.discards[a] + 1)
                        } else {
                            c.discards
                        },
                        owed: true,
                        ..taken
                    },
                }
            } else if c.discards[a] >= self.discards[a].len() {
                Step::Done { events: accepted.push(take), cursor: taken }
            } else {
                self.discard(taken).after(accepted.push(take))
            }
        }
    }

    /// The events of the turns from `c` on and, after the last turn, the
    /// events that close the round; or the failure of the first turn that
    /// fails.
    pub open spec fn run(self, c: Cursor) -> Result<Seq<Event>, Failure>
        decreases self.remaining(c),
        when self.wf() && c.wf(self)
    {
        match self.turn(c) {
            Step::Fail { failure } => Err(failure),
            Step::Done { events, .. } => Ok(events + self.ending),
            Step::Next { events, cursor } => {
                proof {
                    lemma_turn(self, c);
                }
                prefixed(events, self.run(cursor))
            },
        }
    }
}

impl Table {
    /// The round, going on from `c`, comes to `d`: `d` is `c`, or the turn
    /// at `c` leads on to a cursor from which the round comes to `d`.
    pub open spec fn reaches(self, c: Cursor, d: Cursor) -> bool
        decreases self.remaining(c),
        when self.wf() && c.wf(self)
    {
        c == d || match self.turn(c) {
            Step::Next { cursor, .. } => {
                proof {
                    lemma_turn(self, c);
                }
                self.reaches(cursor, d)
            },
            _ => false,
        }
    }
}

impl Table {
    /// Where the round, going on from `c`, is left: by its last turn, or by
    /// the first turn that fails.
    pub open spec fn finish(self, c: Cursor) -> Cursor
        decreases self.remaining(c),
        when self.wf() && c.wf(self)
    {
        match self.turn(c) {
            Step::Next { cursor, .. } => {
                proof {
                    lemma_turn(self, c);
                }
                self.finish(cursor)
            },
            other => other.left_at(c),
        }
    }
}

impl Cursor {
    /// The cursor stands inside the table `t`.
    pub open spec fn wf(self, t: Table) -> bool {
        &&& self.actor < 4
        &&& self.takes.len() == 4
        &&& self.discards.len() == 4
        &&& forall|seat: int|
            0 <= seat < 4 ==> 0 <= #[trigger] self.takes[seat] <= t.takes[seat].len()
        &&& forall|seat: int|
            0 <= seat < 4 ==> 0 <= #[trigger] self.discards[seat] <= t.discards[seat].len()
        &&& 0 <= self.doras <= t.doras.len()
    }
}

/// The seat after any seat is a seat.
proof fn lemma_seat_after(actor: u8, offset: u8)
    ensures
        seat_after(actor, offset) < 4,
{
}

/// The winner among the first `n` seats is one of them that claims, and no
/// seat among them claims with a higher rank, nor a later seat with the
/// same.
pub proof fn lemma_winner(claims: Seq<int>, n: int)
    requires
        0 <= n <= claims.len(),
    ensures
        ({
            let won = winner(claims, n);
            &&& -1 <= won < n
            &&& won >= 0 ==> claims[won] >= 0
            &&& forall|seat: int|
                #![trigger claims[seat]]
                0 <= seat < n && claims[seat] >= 0 ==> won >= 0 && (claims[seat] < claims[won] || (
                claims[seat] == claims[won] && seat <= won))
        }),
    decreases n,
{
    if n > 0 {
        lemma_winner(claims, n - 1);
    }
}

/// The seat that acts next is a seat.
proof fn lemma_next_seat(pending: Seq<Option<Event>>, actor: u8, tile: Pai)
    ensures
        next_seat(pending, actor, tile) < 4,
{
    lemma_winner(claims(pending, actor, tile), 4);
    lemma_seat_after(actor, 1);
}

/// A turn after which the round goes on has read one take and left the
/// cursor inside the table.
pub proof fn lemma_turn(t: Table, c: Cursor)
    requires
        t.wf(),
        c.wf(t),
    ensures
        t.turn(c) matches Step::Next { cursor, .. } ==> cursor.wf(t) && t.remaining(cursor)
            == t.remaining(c) - 1 && t.remaining(cursor) >= 0,
        t.turn(c).left_at(c).wf(t),
{
    reveal(Table::discard);
    reveal(Table::declare);
    reveal(Table::settle);
    let a = c.actor as int;
    assert(0 <= c.takes[a] <= t.takes[a].len());
    assert(0 <= c.discards[a] <= t.discards[a].len());
    assert(0 <= c.takes[0] <= t.takes[0].len());
    assert(0 <= c.takes[1] <= t.takes[1].len());
    assert(0 <= c.takes[2] <= t.takes[2].len());
    assert(0 <= c.takes[3] <= t.takes[3].len());
    if !(t.turn(c) is Fail) {
        let cursor = t.turn(c).left_at(c);
        assert(c.takes[a] < t.takes[a].len());
        assert(cursor.takes =~= c.takes.update(a, c.takes[a] + 1));
        assert forall|seat: int| 0 <= seat < 4 implies 0 <= #[trigger] cursor.discards[seat]
            <= t.discards[seat].len() by {
            assert(0 <= c.discards[seat] <= t.discards[seat].len());
        }
        assert forall|seat: int| 0 <= seat < 4 implies 0 <= #[trigger] cursor.takes[seat]
            <= t.takes[seat].len() by {
            assert(0 <= c.takes[seat] <= t.takes[seat].len());
        }
        assert(cursor.actor < 4) by {
            lemma_next_seat(Seq::new(4, |seat: int| t.pending(cursor, seat)), c.actor, cursor.last_dahai);
            let taken = Cursor { actor: c.actor, ..cursor };
            assert(forall|seat: int| t.pending(taken, seat) == t.pending(cursor, seat));
            assert(Seq::new(4, |seat: int| t.pending(taken, seat)) =~= Seq::new(
                4,
                |seat: int| t.pending(cursor, seat),
            ));
        }
    }
}

/// In a turn that starts with a draw, a discard that stands for the tile
/// just drawn is emitted with the tile of that draw: the tile that the seat
/// of the turn took from its own takes in this turn, and no other. Every
/// discard of the turn is a discard of that seat.
pub proof fn lemma_tsumogiri_is_the_draw(t: Table, c: Cursor)
    requires
        t.wf(),
        t.seated(),
        c.wf(t),
        t.pending(c, c.actor as int) matches Some(Event::Tsumo { .. }),
    ensures
        t.pending(c, c.actor as int)->Some_0->Tsumo_actor == c.actor,
        forall|i: int|
            0 <= i < t.turn(c).emitted().len() ==> (#[trigger] t.turn(c).emitted()[i]
                matches Event::Dahai { actor, pai, tsumogiri } ==> actor == c.actor && (tsumogiri
                ==> pai == t.pending(c, c.actor as int)->Some_0->Tsumo_pai)),
{
    reveal(Table::discard);
    reveal(Table::declare);
    reveal(Table::settle);
    let a = c.actor as int;
    assert(0 <= c.takes[a] <= t.takes[a].len());
    assert(0 <= c.discards[a] <= t.discards[a].len());
    assert(t.takes[a][c.takes[a]].is_take_of(c.actor));
    if c.discards[a] < t.discards[a].len() {
        assert(t.discards[a][c.discards[a]].is_discard_of(c.actor));
        if c.discards[a] + 1 < t.discards[a].len() {
            assert(t.discards[a][c.discards[a] + 1].is_discard_of(c.actor));
        }
    }
}

/// A called kan reveals nothing in its own turn: the turn emits the kan
/// and no more, the reveal of a dora indicator is owed from then on, and
/// the same seat takes again.
pub proof fn lemma_daiminkan_owes_reveal(t: Table, c: Cursor)
    requires
        t.wf(),
        c.wf(t),
        t.pending(c, c.actor as int) matches Some(Event::Daiminkan { .. }),
    ensures
        t.turn(c) matches Step::Next { events, cursor } && events == accepted(c.reach).push(
            t.takes[c.actor as int][c.takes[c.actor as int]],
        ) && cursor.owed && cursor.actor == c.actor && cursor.doras == c.doras,
{
}

/// An added kan reveals nothing of its own in its turn: after the kan the
/// turn emits only the reveal that was owed before, if one was; the reveal
/// for the kan is owed from then on, and the same seat takes again.
pub proof fn lemma_kakan_owes_reveal(t: Table, c: Cursor)
    requires
        t.wf(),
        c.wf(t),
        t.pending(c, c.actor as int) matches Some(take) && !(take is Daiminkan),
        c.discards[c.actor as int] < t.discards[c.actor as int].len(),
        t.discards[c.actor as int][c.discards[c.actor as int]] is Kakan,
        t.turn(c) is Next,
    ensures
        ({
            let a = c.actor as int;
            let take = t.takes[a][c.takes[a]];
            let kan = t.discards[a][c.discards[a]];
            let owed = t.owed_reveal(c).emitted();
            &&& t.turn(c)->Next_events == accepted(c.reach).push(take).push(kan) + owed
            &&& t.turn(c)->Next_cursor.owed
            &&& t.turn(c)->Next_cursor.actor == c.actor
            &&& t.turn(c)->Next_cursor.doras == c.doras + owed.len()
        }),
{
    reveal(Table::discard);
    reveal(Table::declare);
    reveal(Table::settle);
    let a = c.actor as int;
    assert(0 <= c.takes[a] <= t.takes[a].len());
    assert(0 <= c.discards[a] <= t.discards[a].len());
    let take = t.takes[a][c.takes[a]];
    let kan = t.discards[a][c.discards[a]];
    let owed = t.owed_reveal(c).emitted();
    assert(t.turn(c)->Next_events =~= accepted(c.reach).push(take).push(kan) + owed);
}

/// A concealed kan reveals at once: the last event of its turn is the
/// reveal of one dora indicator for it, which nothing separates from the
/// kan but the reveal that was owed before, if one was. After the turn no
/// reveal is owed, and the same seat takes again.
pub proof fn lemma_ankan_reveals_at_once(t: Table, c: Cursor)
    requires
        t.wf(),
        c.wf(t),
        t.pending(c, c.actor as int) matches Some(take) && !(take is Daiminkan),
        c.discards[c.actor as int] < t.discards[c.actor as int].len(),
        t.discards[c.actor as int][c.discards[c.actor as int]] is Ankan,
        t.turn(c) is Next,
    ensures
        ({
            let a = c.actor as int;
            let take = t.takes[a][c.takes[a]];
            let kan = t.discards[a][c.discards[a]];
            let owed = t.owed_reveal(c).emitted();
            &&& t.turn(c)->Next_events == (accepted(c.reach).push(take).push(kan) + owed).push(
                Event::Dora { dora_marker: t.doras[c.doras + owed.len()] },
            )
            &&& !t.turn(c)->Next_cursor.owed
            &&& t.turn(c)->Next_cursor.actor == c.actor
            &&& t.turn(c)->Next_cursor.doras == c.doras + owed.len() + 1
        }),
{
    reveal(Table::discard);
    reveal(Table::declare);
    reveal(Table::settle);
    let a = c.actor as int;
    assert(0 <= c.takes[a] <= t.takes[a].len());
    assert(0 <= c.discards[a] <= t.discards[a].len());
    let take = t.takes[a][c.takes[a]];
    let kan = t.discards[a][c.discards[a]];
    let owed = t.owed_reveal(c).emitted();
    assert(t.turn(c)->Next_events =~= (accepted(c.reach).push(take).push(kan) + owed).push(
        Event::Dora { dora_marker: t.doras[c.doras + owed.len()] },
    ));
}

/// A reveal that is owed comes right after the next discard: in a turn
/// that discards, the event after the discard is the reveal of the next
/// dora indicator, and with it the debt is paid, so that after the turn a
/// reveal is owed only where the discard was an added kan.
pub proof fn lemma_owed_reveal_follows_discard(t: Table, c: Cursor)
    requires
        t.wf(),
        c.wf(t),
        c.owed,
        t.pending(c, c.actor as int) matches Some(take) && !(take is Daiminkan),
        c.discards[c.actor as int] < t.discards[c.actor as int].len(),
        !(t.turn(c) is Fail),
    ensures
        ({
            let a = c.actor as int;
            let take = t.takes[a][c.takes[a]];
            let drawn = match take {
                Event::Tsumo { pai, .. } => pai,
                _ => c.last_tsumo,
            };
            let discard = t.discards[a][c.discards[a]].filled(drawn);
            let events = t.turn(c).emitted();
            let at = accepted(c.reach).len() as int + 1;
            &&& at + 2 <= events.len()
            &&& events[at] == discard
            &&& events[at + 1] == Event::Dora { dora_marker: t.doras[c.doras] }
            &&& t.turn(c) matches Step::Next { cursor, .. } ==> cursor.owed == (discard is Kakan)
        }),
{
    reveal(Table::discard);
    reveal(Table::declare);
    reveal(Table::settle);
    let a = c.actor as int;
    assert(0 <= c.takes[a] <= t.takes[a].len());
    assert(0 <= c.discards[a] <= t.discards[a].len());
}

/// The turn at `c` makes a kan that shows its tiles: a called kan as its
/// take, or an added kan as its discard.
pub open spec fn makes_open_kan(t: Table, c: Cursor) -> bool {
    let a = c.actor as int;
    match t.pending(c, a) {
        Some(take) => take is Daiminkan || (c.discards[a] < t.discards[a].len()
            && t.discards[a][c.discards[a]] is Kakan),
        None => false,
    }
}

/// After a called kan or an added kan the same seat acts again, and where
/// it then takes and discards, its turn emits the take, then the discard,
/// then the one reveal of a dora indicator for the kan, and so pays the
/// debt: none is owed after it but for a new added kan.
pub proof fn lemma_open_kan_reveal_follows_next_discard(t: Table, c: Cursor)
    requires
        t.wf(),
        c.wf(t),
        makes_open_kan(t, c),
        t.turn(c) is Next,
        ({
            let n = t.turn(c)->Next_cursor;
            let a = n.actor as int;
            &&& t.pending(n, a) matches Some(take) && !(take is Daiminkan)
            &&& n.discards[a] < t.discards[a].len()
            &&& !(t.turn(n) is Fail)
        }),
    ensures
        ({
            let n = t.turn(c)->Next_cursor;
            let a = c.actor as int;
            let take = t.takes[a][n.takes[a]];
            let drawn = match take {
                Event::Tsumo { pai, .. } => pai,
                _ => n.last_tsumo,
            };
            let discard = t.discards[a][n.discards[a]].filled(drawn);
            let events = t.turn(n).emitted();
            &&& n.actor == c.actor
            &&& n.takes[a] == c.takes[a] + 1
            &&& 3 <= events.len()
            &&& events[0] == take
            &&& events[1] == discard
            &&& events[2] == Event::Dora { dora_marker: t.doras[n.doras] }
            &&& t.turn(n) matches Step::Next { cursor, .. } ==> cursor.owed == (discard is Kakan)
        }),
{
    let a = c.actor as int;
    assert(0 <= c.takes[a] <= t.takes[a].len());
    assert(0 <= c.discards[a] <= t.discards[a].len());
    let n = t.turn(c)->Next_cursor;
    lemma_turn(t, c);
    assert(n.owed && n.actor == c.actor && n.reach is None && n.takes[a] == c.takes[a] + 1) by {
        reveal(Table::discard);
        reveal(Table::declare);
        reveal(Table::settle);
    }
    lemma_owed_reveal_follows_discard(t, n);
}

/// The events of a round are the events of its turns, one turn after the
/// other: where the round comes to a cursor, the turn there does not fail,
/// and what it emits stands in the events of the round, unbroken, between
/// the events `before` and `after` that the lemma returns.
pub proof fn lemma_run_holds_each_turn(t: Table, c: Cursor, d: Cursor) -> (around: (
    Seq<Event>,
    Seq<Event>,
))
    requires
        t.wf(),
        c.wf(t),
        t.reaches(c, d),
        t.run(c) is Ok,
    ensures
        d.wf(t),
        !(t.turn(d) is Fail),
        t.run(c)->Ok_0 == around.0 + t.turn(d).emitted() + around.1,
    decreases t.remaining(c),
{
    lemma_turn(t, c);
    if c == d {
        match t.turn(c) {
            Step::Next { events, cursor } => {
                assert(t.run(c) == prefixed(events, t.run(cursor)));
                let rest = t.run(cursor)->Ok_0;
                assert(t.run(c)->Ok_0 =~= Seq::<Event>::empty() + events + rest);
                (Seq::empty(), rest)
            },
            Step::Done { events, .. } => {
                assert(t.run(c)->Ok_0 =~= Seq::<Event>::empty() + events + t.ending);
                (Seq::empty(), t.ending)
            },
            Step::Fail { .. } => (Seq::empty(), Seq::empty()),
        }
    } else {
        let events = t.turn(c)->Next_events;
        let cursor = t.turn(c)->Next_cursor;
        let inner = lemma_run_holds_each_turn(t, cursor, d);
        assert(t.run(c)->Ok_0 =~= (events + inner.0) + t.turn(d).emitted() + inner.1);
        (events + inner.0, inner.1)
    }
}

/// How far a round has come, as the conversion keeps it.
#[derive(Debug, Clone, Copy)]
struct Progress {
    actor: u8,
    takes: [usize; 4],
    discards: [usize; 4],
    doras: usize,
    reach: Option<u8>,
    last_tsumo: Pai,
    last_dahai: Pai,
    owed: bool,
}

impl View for Progress {
    type V = Cursor;

    closed spec fn view(&self) -> Cursor {
        Cursor {
            actor: self.actor,
            takes: Seq::new(4, |seat: int| self.takes[seat] as int),
            discards: Seq::new(4, |seat: int| self.discards[seat] as int),
            doras: self.doras as int,
            reach: self.reach,
            last_tsumo: self.last_tsumo,
            last_dahai: self.last_dahai,
            owed: self.owed,
        }
    }
}

/// The events of four seats, seat by seat.
pub open spec fn feeds(seats: [Vec<Event>; 4]) -> Seq<Seq<Event>> {
    Seq::new(4, |seat: int| seats[seat]@)
}

/// The table of a round with the given events of its takes and discards.
pub open spec fn table(kyoku: Kyoku, takes: Seq<Seq<Event>>, discards: Seq<Seq<Event>>) -> Table {
    Table {
        kyoku: kyoku.meta.kyoku_num,
        honba: kyoku.meta.honba,
        takes,
        discards,
        doras: kyoku.dora_indicators@,
        ending: ending(kyoku.end_status),
    }
}

/// The next take of each seat, where `read` says how many each has read.
pub open spec fn pendings(takes: [Vec<Event>; 4], read: [usize; 4]) -> Seq<Option<Event>> {
    Seq::new(
        4,
        |seat: int|
            if read[seat] < takes[seat]@.len() {
                Some(takes[seat]@[read[seat] as int])
            } else {
                None
            },
    )
}

/// The wind of a round: east for the first four rounds, then south, then
/// west, and north from there on.
pub open spec fn bakaze(kyoku_num: u8) -> Pai {
    if kyoku_num / 4 == 0 {
        Pai::East
    } else if kyoku_num / 4 == 1 {
        Pai::South
    } else if kyoku_num / 4 == 2 {
        Pai::West
    } else {
        Pai::North
    }
}

/// The event that opens a round. It reveals the first dora indicator.
pub open spec fn opening(kyoku: Kyoku) -> Event {
    Event::StartKyoku {
        bakaze: bakaze(kyoku.meta.kyoku_num),
        dora_marker: kyoku.dora_indicators@[0],
        kyoku: (kyoku.meta.kyoku_num % 4 + 1) as u8,
        honba: kyoku.meta.honba,
        kyotaku: kyoku.meta.kyotaku,
        oya: kyoku.meta.kyoku_num % 4,
        scores: kyoku.scoreboard,
        tehais: [
            kyoku.action_tables[0].haipai,
            kyoku.action_tables[1].haipai,
            kyoku.action_tables[2].haipai,
            kyoku.action_tables[3].haipai,
        ],
    }
}

/// Where a round starts: with the dealer, nothing read but the first dora
/// indicator.
pub open spec fn start(kyoku: Kyoku) -> Cursor {
    Cursor {
        actor: kyoku.meta.kyoku_num % 4,
        takes: seq![0int, 0int, 0int, 0int],
        discards: seq![0int, 0int, 0int, 0int],
        doras: 1,
        reach: None,
        last_tsumo: Pai::Unknown,
        last_dahai: Pai::Unknown,
        owed: false,
    }
}

/// The events of a round in order, given the events of each seat's takes
/// and discards: the opening, then turn after turn from the dealer's. A
/// round without a dora indicator cannot open.
#[verifier::opaque]
pub open spec fn merged(kyoku: Kyoku, takes: Seq<Seq<Event>>, discards: Seq<Seq<Event>>) -> Result<
    Seq<Event>,
    Failure,
> {
    let t = table(kyoku, takes, discards);
    if t.doras.len() == 0 {
        Err(t.no_doras())
    } else {
        prefixed(seq![opening(kyoku)], t.run(start(kyoku)))
    }
}

/// What a turn returned and emitted is what `step` says.
spec fn stepped(
    r: Result<Option<Progress>, ConvertError>,
    before: Seq<Event>,
    after: Seq<Event>,
    step: Step,
) -> bool {
    match step {
        Step::Next { events, cursor } => r matches Ok(Some(next)) && next@ =~= cursor && after
            =~= before + events,
        Step::Done { events, .. } => r matches Ok(None) && after =~= before + events,
        Step::Fail { failure } => r matches Err(e) && e@ == failure,
    }
}

/// Picks the seat that acts after `actor` has discarded `tile`: the seat
/// whose next take calls that tile from `actor`, a pon or kan before a chi,
/// or else the seat after `actor`.
pub fn next_actor(takes: &[Vec<Event>; 4], read: &[usize; 4], actor: u8, tile: Pai) -> (next: u8)
    ensures
        next == next_seat(pendings(*takes, *read), actor, tile),
{
    let ghost ranks = claims(pendings(*takes, *read), actor, tile);
    let mut best: Option<(u8, isize)> = None;
    let mut seat: u8 = 0;
    while seat < 4
        invariant
            seat <= 4,
            ranks == claims(pendings(*takes, *read), actor, tile),
            match best {
                Some((s, rank)) => s < seat && s as int == winner(ranks, seat as int) && rank
                    == ranks[s as int],
                None => winner(ranks, seat as int) == -1,
            },
        decreases 4 - seat,
    {
        let here: usize = seat as usize;
        if seat != actor && read[here] < takes[here].len() {
            let pending = &takes[here][read[here]];
            match pending.naki_info() {
                Some((target, pai)) => {
                    if target == actor && pai == tile {
                        let rank: isize = pending.naki_to_ord();
                        let better = match best {
                            Some((_, top)) => rank >= top,
                            None => true,
                        };
                        if better {
                            best = Some((seat, rank));
                        }
                    }
                },
                None => {},
            }
        }
        seat += 1;
    }
    match best {
        Some((s, _)) => s,
        None => {
            let after: u16 = actor as u16 + 1;
            (after % 4) as u8
        },
    }
}

/// Tells whether no seat has a take left.
fn exhausted(takes: &[Vec<Event>; 4], read: &[usize; 4]) -> (none: bool)
    ensures
        none == forall|seat: int| 0 <= seat < 4 ==> #[trigger] pendings(*takes, *read)[seat] is None,
{
    let none = read[0] >= takes[0].len() && read[1] >= takes[1].len() && read[2] >= takes[2].len()
        && read[3] >= takes[3].len();
    proof {
        let p = pendings(*takes, *read);
        if none {
            assert forall|seat: int| 0 <= seat < 4 implies #[trigger] p[seat] is None by {}
        } else {
            assert(p[0] is Some || p[1] is Some || p[2] is Some || p[3] is Some);
        }
    }
    none
}

/// The next takes that the table sees are those that the conversion sees.
proof fn lemma_pendings(kyoku: Kyoku, takes: [Vec<Event>; 4], discards: [Vec<Event>; 4], c: Progress)
    ensures
        Seq::new(4, |seat: int| table(kyoku, feeds(takes), feeds(discards)).pending(c@, seat))
            == pendings(takes, c.takes),
{
    let t = table(kyoku, feeds(takes), feeds(discards));
    assert(Seq::new(4, |seat: int| t.pending(c@, seat)) =~= pendings(takes, c.takes));
}

/// Ends a turn in which `discard` was emitted, as [`Table::settle`] says.
fn settle(
    kyoku: &Kyoku,
    takes: &[Vec<Event>; 4],
    discards: &[Vec<Event>; 4],
    c: Progress,
    discard: &Event,
    out: &mut Vec<Event>,
) -> (r: Result<Option<Progress>, ConvertError>)
    requires
        c@.wf(table(*kyoku, feeds(*takes), feeds(*discards))),
    ensures
        stepped(
            r,
            old(out)@,
            final(out)@,
            table(*kyoku, feeds(*takes), feeds(*discards)).settle(c@, *discard),
        ),
{
    let ghost t = table(*kyoku, feeds(*takes), feeds(*discards));
    proof {
        reveal(Table::settle);
        lemma_pendings(*kyoku, *takes, *discards, c);
        let p = pendings(*takes, c.takes);
        assert forall|seat: int|
            #![trigger p[seat]]
            #![trigger t.pending(c@, seat)]
            0 <= seat < 4 implies t.pending(c@, seat) == p[seat] by {}
    }
    if exhausted(takes, &c.takes) {
        assert(t.exhausted(c@));
        return Ok(None);
    }
    match discard {
        Event::Ankan { .. } => {
            if c.doras >= kyoku.dora_indicators.len() {
                return Err(
                    ConvertError::InsufficientDoraIndicators {
                        kyoku: kyoku.meta.kyoku_num,
                        honba: kyoku.meta.honba,
                    },
                );
            }
            out.push(Event::Dora { dora_marker: kyoku.dora_indicators[c.doras] });
            Ok(Some(Progress { doras: c.doras + 1, ..c }))
        },
        Event::Kakan { .. } => Ok(Some(Progress { owed: true, ..c })),
        _ => {
            let actor = next_actor(takes, &c.takes, c.actor, c.last_dahai);
            Ok(Some(Progress { actor, ..c }))
        },
    }
}

/// Does what follows the first discard of a turn, as [`Table::declare`]
/// says.
fn declare(
    kyoku: &Kyoku,
    takes: &[Vec<Event>; 4],
    discards: &[Vec<Event>; 4],
    c: Progress,
    first: &Event,
    out: &mut Vec<Event>,
) -> (r: Result<Option<Progress>, ConvertError>)
    requires
        c@.wf(table(*kyoku, feeds(*takes), feeds(*discards))),
    ensures
        stepped(
            r,
            old(out)@,
            final(out)@,
            table(*kyoku, feeds(*takes), feeds(*discards)).declare(c@, *first),
        ),
{
    let ghost t = table(*kyoku, feeds(*takes), feeds(*discards));
    proof {
        reveal(Table::declare);
    }
    let is_reach = match first {
        Event::Reach { .. } => true,
        _ => false,
    };
    if !is_reach {
        return settle(kyoku, takes, discards, c, first, out);
    }
    let a: usize = c.actor as usize;
    let at: usize = c.discards[a];
    assert(c@.discards[a as int] == at);
    assert(t.discards[a as int] == discards[a as int]@);
    if at >= discards[a].len() {
        return Err(
            ConvertError::InsufficientDiscards {
                kyoku: kyoku.meta.kyoku_num,
                honba: kyoku.meta.honba,
                actor: c.actor,
            },
        );
    }
    let second: Event = discards[a][at].clone().fill_possible_tsumogiri(c.last_tsumo);
    let last_dahai = match &second {
        Event::Dahai { pai, .. } => *pai,
        _ => c.last_dahai,
    };
    let mut read = c.discards;
    read[a] = at + 1;
    let declared = Progress { reach: Some(c.actor), discards: read, last_dahai, ..c };
    out.push(second);
    proof {
        assert(declared@.discards =~= c@.discards.update(a as int, at + 1));
        assert(declared@.takes =~= c@.takes);
        lemma_moved(t, c@, declared@);
    }
    settle(kyoku, takes, discards, declared, first, out)
}

/// The table of a round as far as the reveal of a dora indicator reads it.
spec fn indicators(kyoku: Kyoku) -> Table {
    table(kyoku, Seq::empty(), Seq::empty())
}

/// Reveals the dora indicator that is owed, as [`Table::owed_reveal`] says.
fn reveal_owed(kyoku: &Kyoku, c: Progress, out: &mut Vec<Event>) -> (r: Result<
    Progress,
    ConvertError,
>)
    ensures
        match indicators(*kyoku).owed_reveal(c@) {
            Step::Next { events, cursor } => r matches Ok(next) && next@ =~= cursor && final(out)@
                =~= old(out)@ + events,
            Step::Done { .. } => false,
            Step::Fail { failure } => r matches Err(e) && e@ == failure,
        },
{
    if !c.owed {
        return Ok(c);
    }
    if c.doras >= kyoku.dora_indicators.len() {
        return Err(
            ConvertError::InsufficientDoraIndicators {
                kyoku: kyoku.meta.kyoku_num,
                honba: kyoku.meta.honba,
            },
        );
    }
    out.push(Event::Dora { dora_marker: kyoku.dora_indicators[c.doras] });
    Ok(Progress { owed: false, doras: c.doras + 1, ..c })
}

/// Does the second half of a turn, as [`Table::discard`] says.
fn discard_turn(
    kyoku: &Kyoku,
    takes: &[Vec<Event>; 4],
    discards: &[Vec<Event>; 4],
    c: Progress,
    out: &mut Vec<Event>,
) -> (r: Result<Option<Progress>, ConvertError>)
    requires
        c@.wf(table(*kyoku, feeds(*takes), feeds(*discards))),
        c.discards[c.actor as int] < discards[c.actor as int].len(),
    ensures
        stepped(
            r,
            old(out)@,
            final(out)@,
            table(*kyoku, feeds(*takes), feeds(*discards)).discard(c@),
        ),
{
    let ghost t = table(*kyoku, feeds(*takes), feeds(*discards));
    proof {
        reveal(Table::discard);
    }
    let a: usize = c.actor as usize;
    let at: usize = c.discards[a];
    assert(c@.discards[a as int] == at);
    assert(t.discards[a as int] == discards[a as int]@);
    let first: Event = discards[a][at].clone().fill_possible_tsumogiri(c.last_tsumo);
    let last_dahai = match &first {
        Event::Dahai { pai, .. } => *pai,
        _ => c.last_dahai,
    };
    let mut read = c.discards;
    read[a] = at + 1;
    let discarded = Progress { discards: read, last_dahai, ..c };
    out.push(first.clone());
    proof {
        assert(discarded@.discards =~= c@.discards.update(a as int, at + 1));
        assert(discarded@.takes =~= c@.takes);
        lemma_moved(t, c@, discarded@);
    }
    let revealed = match reveal_owed(kyoku, discarded, out) {
        Ok(next) => next,
        Err(e) => {
            return Err(e);
        },
    };
    proof {
        assert(revealed@.discards =~= discarded@.discards);
        assert(revealed@.takes =~= discarded@.takes);
        lemma_moved(t, c@, revealed@);
    }
    declare(kyoku, takes, discards, revealed, &first, out)
}

/// A cursor that has moved on from one inside the table, and not past the
/// end of any sequence, is inside the table.
proof fn lemma_moved(t: Table, from: Cursor, to: Cursor)
    requires
        from.wf(t),
        to.actor < 4,
        to.takes.len() == 4,
        to.discards.len() == 4,
        forall|seat: int|
            0 <= seat < 4 ==> from.takes[seat] <= #[trigger] to.takes[seat] <= t.takes[seat].len(),
        forall|seat: int|
            0 <= seat < 4 ==> from.discards[seat] <= #[trigger] to.discards[seat]
                <= t.discards[seat].len(),
        from.doras <= to.doras <= t.doras.len(),
    ensures
        to.wf(t),
{
    assert forall|seat: int| 0 <= seat < 4 implies 0 <= #[trigger] to.takes[seat]
        <= t.takes[seat].len() by {
        assert(0 <= from.takes[seat]);
    }
    assert forall|seat: int| 0 <= seat < 4 implies 0 <= #[trigger] to.discards[seat]
        <= t.discards[seat].len() by {
        assert(0 <= from.discards[seat]);
    }
}

/// Does one turn, as [`Table::turn`] says.
fn turn(
    kyoku: &Kyoku,
    takes: &[Vec<Event>; 4],
    discards: &[Vec<Event>; 4],
    c: Progress,
    out: &mut Vec<Event>,
) -> (r: Result<Option<Progress>, ConvertError>)
    requires
        c@.wf(table(*kyoku, feeds(*takes), feeds(*discards))),
    ensures
        stepped(
            r,
            old(out)@,
            final(out)@,
            table(*kyoku, feeds(*takes), feeds(*discards)).turn(c@),
        ),
{
    let ghost t = table(*kyoku, feeds(*takes), feeds(*discards));
    let a: usize = c.actor as usize;
    let at: usize = c.takes[a];
    assert(c@.takes[a as int] == at);
    assert(c@.discards[a as int] == c.discards[a as int]);
    assert(t.takes[a as int] == takes[a as int]@);
    assert(t.discards[a as int] == discards[a as int]@);
    if at >= takes[a].len() {
        return Err(
            ConvertError::InsufficientTakes {
                kyoku: kyoku.meta.kyoku_num,
                honba: kyoku.meta.honba,
                actor: c.actor,
            },
        );
    }
    let take: Event = takes[a][at].clone();
    let last_tsumo = match &take {
        Event::Tsumo { pai, .. } => *pai,
        _ => c.last_tsumo,
    };
    let is_daiminkan = match &take {
        Event::Daiminkan { .. } => true,
        _ => false,
    };
    match c.reach {
        Some(who) => {
            out.push(Event::ReachAccepted { actor: who });
        },
        None => {},
    }
    out.push(take);
    let mut read = c.takes;
    read[a] = at + 1;
    let taken = Progress { takes: read, reach: None, last_tsumo, ..c };
    if is_daiminkan {
        let mut passed = c.discards;
        if passed[a] < discards[a].len() {
            passed[a] = c.discards[a] + 1;
        }
        return Ok(Some(Progress { discards: passed, owed: true, ..taken }));
    }
    if c.discards[a] >= discards[a].len() {
        return Ok(None);
    }
    proof {
        assert(taken@.takes =~= c@.takes.update(a as int, at + 1));
        assert(taken@.discards =~= c@.discards);
        lemma_moved(t, c@, taken@);
    }
    discard_turn(kyoku, takes, discards, taken, out)
}

/// Events emitted in two parts are the events emitted.
proof fn lemma_prefixed(a: Seq<Event>, b: Seq<Event>, rest: Result<Seq<Event>, Failure>)
    ensures
        prefixed(a + b, rest) == prefixed(a, prefixed(b, rest)),
{
    if let Ok(events) = rest {
        assert((a + b) + events =~= a + (b + events));
    }
}

/// Puts the events of a round in order and appends them to `events`: the
/// opening, then the takes and discards of the seats turn by turn, then the
/// events that close the round. Where the record lacks what a turn needs,
/// `events` is left as it was.
pub fn merge(
    events: &mut Vec<Event>,
    kyoku: &Kyoku,
    takes: &[Vec<Event>; 4],
    discards: &[Vec<Event>; 4],
) -> (r: Result<(), ConvertError>)
    ensures
        appends(r, old(events)@, final(events)@, merged(*kyoku, feeds(*takes), feeds(*discards))),
{
    proof {
        reveal(merged);
    }
    let num: u8 = kyoku.meta.kyoku_num;
    let oya: u8 = num % 4;
    let wind = if num / 4 == 0 {
        Pai::East
    } else if num / 4 == 1 {
        Pai::South
    } else if num / 4 == 2 {
        Pai::West
    } else {
        Pai::North
    };
    if kyoku.dora_indicators.len() == 0 {
        return Err(
            ConvertError::InsufficientDoraIndicators { kyoku: num, honba: kyoku.meta.honba },
        );
    }
    let mut round: Vec<Event> = Vec::new();
    round.push(
        Event::StartKyoku {
            bakaze: wind,
            kyoku: oya + 1,
            honba: kyoku.meta.honba,
            kyotaku: kyoku.meta.kyotaku,
            dora_marker: kyoku.dora_indicators[0],
            oya,
            scores: kyoku.scoreboard,
            tehais: [
                kyoku.action_tables[0].haipai,
                kyoku.action_tables[1].haipai,
                kyoku.action_tables[2].haipai,
                kyoku.action_tables[3].haipai,
            ],
        },
    );
    let zeros: [usize; 4] = [0, 0, 0, 0];
    let mut c = Progress {
        actor: oya,
        takes: zeros,
        discards: zeros,
        doras: 1,
        reach: None,
        last_tsumo: Pai::Unknown,
        last_dahai: Pai::Unknown,
        owed: false,
    };
    let ghost t = table(*kyoku, feeds(*takes), feeds(*discards));
    let ghost goal = merged(*kyoku, feeds(*takes), feeds(*discards));
    proof {
        assert(c@ =~= start(*kyoku));
        assert(round@ =~= seq![opening(*kyoku)]);
    }
    loop
        invariant
            t == table(*kyoku, feeds(*takes), feeds(*discards)),
            goal == merged(*kyoku, feeds(*takes), feeds(*discards)),
            t.wf(),
            c@.wf(t),
            prefixed(round@, t.run(c@)) == goal,
            events@ == old(events)@,
        decreases t.remaining(c@),
    {
        let ghost before = round@;
        let ghost step = t.turn(c@);
        proof {
            lemma_turn(t, c@);
        }
        match turn(kyoku, takes, discards, c, &mut round) {
            Err(e) => {
                return Err(e);
            },
            Ok(None) => {
                end_kyoku(&mut round, kyoku);
                proof {
                    assert(round@ =~= before + (step->Done_events + t.ending));
                }
                events.append(&mut round);
                return Ok(());
            },
            Ok(Some(next)) => {
                proof {
                    lemma_prefixed(before, step->Next_events, t.run(next@));
                }
                c = next;
            },
        }
    }
}

} // verus!
