//! What the stream of a round holds of each seat.
//!
//! A round reads the takes and discards of its seats turn by turn. The laws
//! of this module count the events of one seat in what a turn emits, and in
//! the stream of a whole round, against what was read of that seat.

use crate::conv::{
    all_discards, all_takes, lemma_discard_events_len, lemma_round_is_seated, lemma_take_events_len,
    reach_count, round_events,
};
use crate::mjai::Event;
use crate::round::{accepted, lemma_turn, merged, opening, start, table, Cursor, Step, Table};
use crate::tenhou::Kyoku;
use vstd::prelude::*;

verus! {

/// How many of the events satisfy `p`.
pub open spec fn count(events: Seq<Event>, p: spec_fn(Event) -> bool) -> nat {
    events.filter(p).len()
}

/// The takes of `seat`.
pub open spec fn take_of(seat: u8) -> spec_fn(Event) -> bool {
    |e: Event| e.is_take_of(seat)
}

/// The discards, reach declarations and kans from the hand of `seat`.
pub open spec fn discard_of(seat: u8) -> spec_fn(Event) -> bool {
    |e: Event| e.is_discard_of(seat)
}

/// The called kans of `seat`.
pub open spec fn called_kan_of(seat: u8) -> spec_fn(Event) -> bool {
    |e: Event| e is Daiminkan && e.is_take_of(seat)
}

/// The step, taken from the cursor `from`, has emitted of the seat `seat`
/// what it has read of it: as many takes as it has read takes, and as many
/// discards as it has read discards, but for the discards that were passed
/// over, of which there is at most one for each called kan.
pub open spec fn tallied(from: Cursor, step: Step, seat: u8) -> bool {
    let events = step.emitted();
    let to = step.left_at(from);
    let s = seat as int;
    &&& count(events, take_of(seat)) == to.takes[s] - from.takes[s]
    &&& count(events, discard_of(seat)) <= to.discards[s] - from.discards[s] <= count(
        events,
        discard_of(seat),
    ) + count(events, called_kan_of(seat))
}

/// The step, taken from the cursor `from`, has read no take, and has
/// emitted of the seat `seat` no take and every discard that it has read.
pub open spec fn tallied_discards(from: Cursor, step: Step, seat: u8) -> bool {
    let events = step.emitted();
    let to = step.left_at(from);
    let s = seat as int;
    &&& to.takes == from.takes
    &&& count(events, take_of(seat)) == 0
    &&& count(events, called_kan_of(seat)) == 0
    &&& count(events, discard_of(seat)) == to.discards[s] - from.discards[s]
}

proof fn lemma_count_add(a: Seq<Event>, b: Seq<Event>, p: spec_fn(Event) -> bool)
    ensures
        count(a + b, p) == count(a, p) + count(b, p),
{
    Seq::filter_distributes_over_add(a, b, p);
}

proof fn lemma_count_push(a: Seq<Event>, x: Event, p: spec_fn(Event) -> bool)
    ensures
        count(a.push(x), p) == count(a, p) + if p(x) {
            1nat
        } else {
            0nat
        },
{
    reveal(Seq::filter);
    assert(a.push(x).drop_last() =~= a);
}

proof fn lemma_count_one(x: Event, p: spec_fn(Event) -> bool)
    ensures
        count(seq![x], p) == if p(x) {
            1nat
        } else {
            0nat
        },
        count(Seq::<Event>::empty(), p) == 0,
{
    reveal(Seq::filter);
    assert(seq![x] =~= Seq::<Event>::empty().push(x));
    lemma_count_push(Seq::empty(), x, p);
}

proof fn lemma_count_none(events: Seq<Event>, p: spec_fn(Event) -> bool)
    requires
        forall|i: int| 0 <= i < events.len() ==> !p(#[trigger] events[i]),
    ensures
        count(events, p) == 0,
    decreases events.len(),
{
    reveal(Seq::filter);
    if events.len() > 0 {
        lemma_count_none(events.drop_last(), p);
    }
}

/// The counts of a step with events before it are those of the events and
/// of the step together.
proof fn lemma_count_after(step: Step, before: Seq<Event>, p: spec_fn(Event) -> bool)
    requires
        !(step is Fail),
    ensures
        count(step.after(before).emitted(), p) == count(before, p) + count(step.emitted(), p),
{
    lemma_count_add(before, step.emitted(), p);
}

/// The end of a turn emits nothing of any seat and reads nothing.
proof fn lemma_settle_tally(t: Table, c: Cursor, first: Event, seat: u8)
    requires
        !(t.settle(c, first) is Fail),
    ensures
        tallied_discards(c, t.settle(c, first), seat),
        t.settle(c, first).left_at(c).discards == c.discards,
{
    reveal(Table::settle);
    let step = t.settle(c, first);
    let dora = Event::Dora { dora_marker: t.doras[c.doras] };
    lemma_count_one(dora, take_of(seat));
    lemma_count_one(dora, discard_of(seat));
    lemma_count_one(dora, called_kan_of(seat));
}

/// What follows the first discard of a turn emits the discard that goes
/// with a reach, which it reads, and no other event of any seat.
proof fn lemma_declare_tally(t: Table, c: Cursor, first: Event, seat: u8)
    requires
        t.wf(),
        t.seated(),
        c.wf(t),
        seat < 4,
        !(t.declare(c, first) is Fail),
    ensures
        tallied_discards(c, t.declare(c, first), seat),
{
    reveal(Table::declare);
    let a = c.actor as int;
    let at = c.discards[a];
    assert(0 <= at <= t.discards[a].len());
    if first is Reach {
        let raw = t.discards[a][at];
        assert(raw.is_discard_of(c.actor));
        let second = raw.filled(c.last_tsumo);
        let declared = Cursor {
            reach: Some(c.actor),
            discards: c.discards.update(a, at + 1),
            last_dahai: match second {
                Event::Dahai { pai, .. } => pai,
                _ => c.last_dahai,
            },
            ..c
        };
        let inner = t.settle(declared, first);
        lemma_settle_tally(t, declared, first, seat);
        lemma_count_after(inner, seq![second], take_of(seat));
        lemma_count_after(inner, seq![second], discard_of(seat));
        lemma_count_after(inner, seq![second], called_kan_of(seat));
        lemma_count_one(second, take_of(seat));
        lemma_count_one(second, discard_of(seat));
        lemma_count_one(second, called_kan_of(seat));
    } else {
        lemma_settle_tally(t, c, first, seat);
    }
}

/// The second half of a turn emits the discards that it reads, and no
/// other event of any seat.
proof fn lemma_discard_tally(t: Table, c: Cursor, seat: u8)
    requires
        t.wf(),
        t.seated(),
        c.wf(t),
        seat < 4,
        c.discards[c.actor as int] < t.discards[c.actor as int].len(),
        !(t.discard(c) is Fail),
    ensures
        tallied_discards(c, t.discard(c), seat),
{
    reveal(Table::discard);
    let a = c.actor as int;
    let at = c.discards[a];
    assert(0 <= at <= t.discards[a].len());
    let raw = t.discards[a][at];
    assert(raw.is_discard_of(c.actor));
    let first = raw.filled(c.last_tsumo);
    let discarded = Cursor {
        discards: c.discards.update(a, at + 1),
        last_dahai: match first {
            Event::Dahai { pai, .. } => pai,
            _ => c.last_dahai,
        },
        ..c
    };
    let revealed = t.owed_reveal(discarded);
    let events = revealed->Next_events;
    let cursor = revealed->Next_cursor;
    assert(cursor.wf(t)) by {
        assert forall|s: int| 0 <= s < 4 implies 0 <= #[trigger] cursor.discards[s]
            <= t.discards[s].len() by {
            assert(0 <= c.discards[s] <= t.discards[s].len());
        }
        assert forall|s: int| 0 <= s < 4 implies 0 <= #[trigger] cursor.takes[s]
            <= t.takes[s].len() by {
            assert(0 <= c.takes[s] <= t.takes[s].len());
        }
    }
    let inner = t.declare(cursor, first);
    lemma_declare_tally(t, cursor, first, seat);
    let before = seq![first] + events;
    let dora = Event::Dora { dora_marker: t.doras[discarded.doras] };
    lemma_count_after(inner, before, take_of(seat));
    lemma_count_after(inner, before, discard_of(seat));
    lemma_count_after(inner, before, called_kan_of(seat));
    lemma_count_add(seq![first], events, take_of(seat));
    lemma_count_add(seq![first], events, discard_of(seat));
    lemma_count_add(seq![first], events, called_kan_of(seat));
    lemma_count_one(first, take_of(seat));
    lemma_count_one(first, discard_of(seat));
    lemma_count_one(first, called_kan_of(seat));
    lemma_count_one(dora, take_of(seat));
    lemma_count_one(dora, discard_of(seat));
    lemma_count_one(dora, called_kan_of(seat));
}

/// A turn emits of each seat what it reads of it: the one take of the seat
/// whose turn it is, and the discards of that seat that it reads, but for
/// the one that it passes over after a called kan.
pub proof fn lemma_turn_tally(t: Table, c: Cursor, seat: u8)
    requires
        t.wf(),
        t.seated(),
        c.wf(t),
        seat < 4,
        !(t.turn(c) is Fail),
    ensures
        tallied(c, t.turn(c), seat),
{
    let a = c.actor as int;
    assert(0 <= c.takes[a] <= t.takes[a].len());
    assert(0 <= c.discards[a] <= t.discards[a].len());
    let take = t.takes[a][c.takes[a]];
    assert(take.is_take_of(c.actor));
    let head = accepted(c.reach).push(take);
    lemma_count_push(accepted(c.reach), take, take_of(seat));
    lemma_count_push(accepted(c.reach), take, discard_of(seat));
    lemma_count_push(accepted(c.reach), take, called_kan_of(seat));
    if let Some(who) = c.reach {
        let event = Event::ReachAccepted { actor: who };
        lemma_count_one(event, take_of(seat));
        lemma_count_one(event, discard_of(seat));
        lemma_count_one(event, called_kan_of(seat));
    } else {
        lemma_count_one(take, take_of(seat));
        lemma_count_one(take, discard_of(seat));
        lemma_count_one(take, called_kan_of(seat));
    }
    if !(take is Daiminkan) && c.discards[a] < t.discards[a].len() {
        let taken = Cursor {
            takes: c.takes.update(a, c.takes[a] + 1),
            reach: None,
            last_tsumo: match take {
                Event::Tsumo { pai, .. } => pai,
                _ => c.last_tsumo,
            },
            ..c
        };
        assert(taken.wf(t)) by {
            assert forall|s: int| 0 <= s < 4 implies 0 <= #[trigger] taken.takes[s]
                <= t.takes[s].len() by {
                assert(0 <= c.takes[s] <= t.takes[s].len());
            }
        }
        let inner = t.discard(taken);
        lemma_discard_tally(t, taken, seat);
        lemma_count_after(inner, head, take_of(seat));
        lemma_count_after(inner, head, discard_of(seat));
        lemma_count_after(inner, head, called_kan_of(seat));
    }
}

/// The stream of a round holds of each seat what the round has read of it:
/// as many takes of the seat as takes of it were read, and as many of its
/// discards as were read, but for those passed over after its called kans,
/// one at most for each. So a round that reads the takes of a seat to the
/// end emits as many takes of that seat as its take sequence gives.
pub proof fn lemma_run_tally(t: Table, c: Cursor, seat: u8)
    requires
        t.wf(),
        t.seated(),
        c.wf(t),
        seat < 4,
        t.run(c) is Ok,
    ensures
        ({
            let events = t.run(c)->Ok_0;
            let end = t.finish(c);
            let s = seat as int;
            &&& end.wf(t)
            &&& count(events, take_of(seat)) == end.takes[s] - c.takes[s]
            &&& count(events, discard_of(seat)) <= end.discards[s] - c.discards[s] <= count(
                events,
                discard_of(seat),
            ) + count(events, called_kan_of(seat))
        }),
    decreases t.remaining(c),
{
    lemma_turn(t, c);
    lemma_turn_tally(t, c, seat);
    match t.turn(c) {
        Step::Next { events, cursor } => {
            lemma_run_tally(t, cursor, seat);
            let rest = t.run(cursor)->Ok_0;
            assert(t.run(c)->Ok_0 == events + rest);
            lemma_count_add(events, rest, take_of(seat));
            lemma_count_add(events, rest, discard_of(seat));
            lemma_count_add(events, rest, called_kan_of(seat));
        },
        Step::Done { events, cursor } => {
            assert(t.run(c)->Ok_0 == events + t.ending);
            lemma_count_add(events, t.ending, take_of(seat));
            lemma_count_add(events, t.ending, discard_of(seat));
            lemma_count_add(events, t.ending, called_kan_of(seat));
            assert forall|i: int| 0 <= i < t.ending.len() implies !(#[trigger] t.ending[i]).is_take_of(
                seat,
            ) && !t.ending[i].is_discard_of(seat) by {
                assert(t.ending[i].is_closing());
            }
            lemma_count_none(t.ending, take_of(seat));
            lemma_count_none(t.ending, discard_of(seat));
            lemma_count_none(t.ending, called_kan_of(seat));
        },
        Step::Fail { .. } => {},
    }
}

/// In a round that converts, the stream holds as many takes of a seat as
/// the round has read of the seat's take sequence, and that sequence has no
/// fewer entries; so where the round has read the takes of the seat to the
/// end, the stream holds one take of the seat for each entry of its take
/// sequence. Of the seat's discards the stream holds as many as were read,
/// but for those passed over after its called kans, one at most for each;
/// and the round can read one discard for each entry of the seat's discard
/// sequence and one more for each reach declaration among them.
pub proof fn lemma_round_tally(kyoku: Kyoku, seat: u8)
    requires
        seat < 4,
        round_events(kyoku) is Ok,
    ensures
        ({
            let t = table(kyoku, all_takes(kyoku)->Ok_0, all_discards(kyoku)->Ok_0);
            let end = t.finish(start(kyoku));
            let events = round_events(kyoku)->Ok_0;
            let s = seat as int;
            &&& count(events, take_of(seat)) == end.takes[s]
            &&& end.takes[s] <= kyoku.action_tables[s].takes@.len()
            &&& count(events, discard_of(seat)) <= end.discards[s] <= count(
                events,
                discard_of(seat),
            ) + count(events, called_kan_of(seat))
            &&& end.discards[s] <= kyoku.action_tables[s].discards@.len() + reach_count(
                kyoku.action_tables[s].discards@,
            )
        }),
{
    reveal(round_events);
    reveal(merged);
    let takes = all_takes(kyoku)->Ok_0;
    let discards = all_discards(kyoku)->Ok_0;
    let t = table(kyoku, takes, discards);
    let c = start(kyoku);
    let s = seat as int;
    lemma_round_is_seated(kyoku);
    lemma_take_events_len(seat, kyoku.action_tables[s].takes@);
    lemma_discard_events_len(seat, kyoku.action_tables[s].discards@);
    lemma_run_tally(t, c, seat);
    let run = t.run(c)->Ok_0;
    lemma_count_add(seq![opening(kyoku)], run, take_of(seat));
    lemma_count_add(seq![opening(kyoku)], run, discard_of(seat));
    lemma_count_add(seq![opening(kyoku)], run, called_kan_of(seat));
    lemma_count_one(opening(kyoku), take_of(seat));
    lemma_count_one(opening(kyoku), discard_of(seat));
    lemma_count_one(opening(kyoku), called_kan_of(seat));
    let end = t.finish(c);
    assert(0 <= end.takes[s] <= t.takes[s].len());
    assert(0 <= end.discards[s] <= t.discards[s].len());
}

} // verus!
