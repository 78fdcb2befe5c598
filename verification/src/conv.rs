//! From the recorded form of a game to its event stream.

use crate::mjai::Event;
use crate::naki::{
    decode_discard, decode_take, discard_call, lemma_call_kinds, take_call, Call,
};
use crate::pai::Pai;
use crate::round::{feeds, merge, merged};
use crate::tenhou::{ActionItem, EndStatus, HoraDetail, Kyoku, Log};
use crate::token::{lossy_text, parse_number, token_pai, utf8_lossy};
use vstd::prelude::*;

verus! {

/// Why a record could not be converted.
#[derive(Debug, Clone, PartialEq, Eq)]
pub enum ConvertError {
    /// A call string that has no known shape, with the string.
    InvalidNaki(String),
    /// A tile token inside a call string that names no tile, with the token.
    InvalidPai(String),
    /// A dora indicator was to be revealed and none was left.
    InsufficientDoraIndicators { kyoku: u8, honba: u8 },
    /// A seat had to take and its takes were used up.
    InsufficientTakes { kyoku: u8, honba: u8, actor: u8 },
    /// A seat had to discard and its discards were used up.
    InsufficientDiscards { kyoku: u8, honba: u8, actor: u8 },
    /// A take sequence holds the mark for "discard the tile just drawn".
    UnexpectedTsumogiri,
}

/// A [`ConvertError`] with its texts as sequences of characters.
pub enum Failure {
    InvalidNaki(Seq<char>),
    InvalidPai(Seq<char>),
    InsufficientDoraIndicators { kyoku: u8, honba: u8 },
    InsufficientTakes { kyoku: u8, honba: u8, actor: u8 },
    InsufficientDiscards { kyoku: u8, honba: u8, actor: u8 },
    UnexpectedTsumogiri,
}

impl View for ConvertError {
    type V = Failure;

    open spec fn view(&self) -> Failure {
        match self {
            ConvertError::InvalidNaki(text) => Failure::InvalidNaki(text@),
            ConvertError::InvalidPai(text) => Failure::InvalidPai(text@),
            ConvertError::InsufficientDoraIndicators { kyoku, honba } => {
                Failure::InsufficientDoraIndicators { kyoku: *kyoku, honba: *honba }
            },
            ConvertError::InsufficientTakes { kyoku, honba, actor } => Failure::InsufficientTakes {
                kyoku: *kyoku,
                honba: *honba,
                actor: *actor,
            },
            ConvertError::InsufficientDiscards { kyoku, honba, actor } => {
                Failure::InsufficientDiscards { kyoku: *kyoku, honba: *honba, actor: *actor }
            },
            ConvertError::UnexpectedTsumogiri => Failure::UnexpectedTsumogiri,
        }
    }
}

/// The outcome `r` holds the events that `expected` describes, or an error
/// with the view that it describes.
pub open spec fn yields(r: Result<Vec<Event>, ConvertError>, expected: Result<Seq<Event>, Failure>) -> bool {
    match expected {
        Ok(events) => r is Ok && r->Ok_0@ == events,
        Err(failure) => r is Err && r->Err_0@ == failure,
    }
}

/// The call that returned `r` has appended to `before` the events that
/// `expected` describes, which gave `after`; or it has left `before` as it
/// was and `r` is an error with the view that `expected` describes.
pub open spec fn appends(
    r: Result<(), ConvertError>,
    before: Seq<Event>,
    after: Seq<Event>,
    expected: Result<Seq<Event>, Failure>,
) -> bool {
    match expected {
        Ok(events) => r is Ok && after == before + events,
        Err(failure) => r is Err && r->Err_0@ == failure && after == before,
    }
}

/// The outcome `r` is the one that `expected` describes: the same value, or
/// an error with that view.
pub open spec fn agrees<T>(r: Result<T, ConvertError>, expected: Result<T, Failure>) -> bool {
    match expected {
        Ok(value) => r == Ok::<T, ConvertError>(value),
        Err(failure) => r is Err && r->Err_0@ == failure,
    }
}

/// Reads a tile token: the tile whose code the bytes write in decimal, or
/// the bytes as text in an error when they write the code of no tile.
#[inline]
pub fn pai_from_bytes(b: &[u8]) -> (r: Result<Pai, ConvertError>)
    ensures
        agrees(
            r,
            match token_pai(b@) {
                Some(pai) => Ok(pai),
                None => Err(Failure::InvalidPai(utf8_lossy(b@))),
            },
        ),
{
    match parse_number(b) {
        Some(id) => match Pai::from_u8(id) {
            Some(pai) => Ok(pai),
            None => Err(ConvertError::InvalidPai(lossy_text(b))),
        },
        None => Err(ConvertError::InvalidPai(lossy_text(b))),
    }
}

/// The event that one entry of the take sequence of `actor` stands for: a
/// draw for a tile, the call for a call string. The mark for "discard the
/// tile just drawn" has no place among takes.
pub open spec fn take_event(actor: u8, item: ActionItem) -> Result<Event, Failure> {
    match item {
        ActionItem::Tsumogiri(_) => Err(Failure::UnexpectedTsumogiri),
        ActionItem::Pai(pai) => Ok(Event::Tsumo { actor, pai }),
        ActionItem::Naki(naki) => match take_call(naki@) {
            Ok(call) => Ok(call.event_spec(actor)),
            Err(f) => Err(f),
        },
    }
}

/// The events that a take sequence of `actor` stands for, one for each
/// entry in order, or the failure of the first entry that stands for none.
pub open spec fn take_events(actor: u8, items: Seq<ActionItem>) -> Result<Seq<Event>, Failure>
    decreases items.len(),
{
    if items.len() == 0 {
        Ok(Seq::empty())
    } else {
        match take_events(actor, items.drop_last()) {
            Err(f) => Err(f),
            Ok(events) => match take_event(actor, items.last()) {
                Err(f) => Err(f),
                Ok(event) => Ok(events.push(event)),
            },
        }
    }
}

/// The events that one entry of the discard sequence of `actor` stands
/// for: a discard for a tile, a discard still to be filled in for the mark
/// of the tile just drawn, and for a call string what the call stands for.
pub open spec fn discard_item_events(actor: u8, item: ActionItem) -> Result<Seq<Event>, Failure> {
    match item {
        ActionItem::Pai(pai) => Ok(seq![Event::Dahai { actor, pai, tsumogiri: false }]),
        ActionItem::Tsumogiri(_) => Ok(
            seq![Event::Dahai { actor, pai: Pai::Unknown, tsumogiri: true }],
        ),
        ActionItem::Naki(naki) => match discard_call(naki@) {
            Ok(call) => Ok(call.discard_events(actor)),
            Err(f) => Err(f),
        },
    }
}

/// The events that a discard sequence of `actor` stands for, entry after
/// entry, or the failure of the first entry that stands for none.
pub open spec fn discard_events(actor: u8, items: Seq<ActionItem>) -> Result<Seq<Event>, Failure>
    decreases items.len(),
{
    if items.len() == 0 {
        Ok(Seq::empty())
    } else {
        match discard_events(actor, items.drop_last()) {
            Err(f) => Err(f),
            Ok(events) => match discard_item_events(actor, items.last()) {
                Err(f) => Err(f),
                Ok(more) => Ok(events + more),
            },
        }
    }
}

/// The entry is a reach declaration, which stands for two events.
pub open spec fn is_reach(item: ActionItem) -> bool {
    item matches ActionItem::Naki(naki) && discard_call(naki@) matches Ok(Call::Reach { .. })
}

/// How many entries of a discard sequence are reach declarations.
pub open spec fn reach_count(items: Seq<ActionItem>) -> nat
    decreases items.len(),
{
    if items.len() == 0 {
        0
    } else {
        reach_count(items.drop_last()) + if is_reach(items.last()) {
            1nat
        } else {
            0nat
        }
    }
}

/// A take sequence that converts gives one event for each of its entries.
pub proof fn lemma_take_events_len(actor: u8, items: Seq<ActionItem>)
    ensures
        take_events(actor, items) matches Ok(events) ==> events.len() == items.len(),
    decreases items.len(),
{
    if items.len() > 0 {
        lemma_take_events_len(actor, items.drop_last());
    }
}

/// A discard sequence that converts gives one event for each of its
/// entries and one more for each reach declaration among them.
pub proof fn lemma_discard_events_len(actor: u8, items: Seq<ActionItem>)
    ensures
        discard_events(actor, items) matches Ok(events) ==> events.len() == items.len()
            + reach_count(items),
    decreases items.len(),
{
    if items.len() > 0 {
        lemma_discard_events_len(actor, items.drop_last());
    }
}

/// The events of a take sequence are takes of the seat it belongs to.
pub proof fn lemma_take_events_seat(actor: u8, items: Seq<ActionItem>)
    ensures
        take_events(actor, items) matches Ok(events) ==> forall|i: int|
            0 <= i < events.len() ==> (#[trigger] events[i]).is_take_of(actor),
    decreases items.len(),
{
    if items.len() > 0 {
        lemma_take_events_seat(actor, items.drop_last());
        if let ActionItem::Naki(naki) = items.last() {
            lemma_call_kinds(naki@);
        }
    }
}

/// The events of a discard sequence are discards, reach declarations and
/// kans of the seat it belongs to.
pub proof fn lemma_discard_events_seat(actor: u8, items: Seq<ActionItem>)
    ensures
        discard_events(actor, items) matches Ok(events) ==> forall|i: int|
            0 <= i < events.len() ==> (#[trigger] events[i]).is_discard_of(actor),
    decreases items.len(),
{
    if items.len() > 0 {
        lemma_discard_events_seat(actor, items.drop_last());
        if let ActionItem::Naki(naki) = items.last() {
            lemma_call_kinds(naki@);
        }
    }
}

/// Turns the take sequence of `actor` into events.
pub fn take_action_to_events(actor: u8, takes: &[ActionItem]) -> (r: Result<
    Vec<Event>,
    ConvertError,
>)
    ensures
        yields(r, take_events(actor, takes@)),
        r matches Ok(events) ==> events@.len() == takes@.len(),
{
    let mut events: Vec<Event> = Vec::new();
    let mut i: usize = 0;
    while i < takes.len()
        invariant
            i <= takes@.len(),
            take_events(actor, takes@.take(i as int)) == Ok::<Seq<Event>, Failure>(events@),
            events@.len() == i,
        decreases takes@.len() - i,
    {
        proof {
            assert(takes@.take(i + 1).drop_last() =~= takes@.take(i as int));
            assert(takes@.take(i + 1).last() == takes@[i as int]);
            lemma_take_events_prefix(actor, takes@, i + 1);
        }
        let event = match &takes[i] {
            ActionItem::Tsumogiri(_) => {
                return Err(ConvertError::UnexpectedTsumogiri);
            },
            ActionItem::Pai(pai) => Event::Tsumo { actor, pai: *pai },
            ActionItem::Naki(naki) => match decode_take(naki) {
                Ok(call) => call.event(actor),
                Err(e) => {
                    return Err(e);
                },
            },
        };
        events.push(event);
        i += 1;
    }
    assert(takes@.take(i as int) =~= takes@);
    Ok(events)
}

/// Where a prefix of a take sequence fails, the whole sequence fails alike.
proof fn lemma_take_events_prefix(actor: u8, items: Seq<ActionItem>, k: int)
    requires
        0 <= k <= items.len(),
    ensures
        take_events(actor, items.take(k)) is Err ==> take_events(actor, items) == take_events(
            actor,
            items.take(k),
        ),
    decreases items.len() - k,
{
    if k == items.len() {
        assert(items.take(k) =~= items);
    } else {
        lemma_take_events_prefix(actor, items, k + 1);
        assert(items.take(k + 1).drop_last() =~= items.take(k));
    }
}

/// Where a prefix of a discard sequence fails, the whole sequence fails
/// alike.
proof fn lemma_discard_events_prefix(actor: u8, items: Seq<ActionItem>, k: int)
    requires
        0 <= k <= items.len(),
    ensures
        discard_events(actor, items.take(k)) is Err ==> discard_events(actor, items)
            == discard_events(actor, items.take(k)),
    decreases items.len() - k,
{
    if k == items.len() {
        assert(items.take(k) =~= items);
    } else {
        lemma_discard_events_prefix(actor, items, k + 1);
        assert(items.take(k + 1).drop_last() =~= items.take(k));
    }
}

/// Turns the discard sequence of `actor` into events.
pub fn discard_action_to_events(actor: u8, discards: &[ActionItem]) -> (r: Result<
    Vec<Event>,
    ConvertError,
>)
    ensures
        yields(r, discard_events(actor, discards@)),
        r matches Ok(events) ==> events@.len() == discards@.len() + reach_count(discards@),
{
    let mut ret: Vec<Event> = Vec::new();
    let mut i: usize = 0;
    while i < discards.len()
        invariant
            i <= discards@.len(),
            discard_events(actor, discards@.take(i as int)) == Ok::<Seq<Event>, Failure>(ret@),
            ret@.len() == i + reach_count(discards@.take(i as int)),
        decreases discards@.len() - i,
    {
        proof {
            assert(discards@.take(i + 1).drop_last() =~= discards@.take(i as int));
            assert(discards@.take(i + 1).last() == discards@[i as int]);
            lemma_discard_events_prefix(actor, discards@, i + 1);
        }
        let ghost before = ret@;
        match &discards[i] {
            ActionItem::Pai(pai) => {
                ret.push(Event::Dahai { actor, pai: *pai, tsumogiri: false });
            },
            ActionItem::Tsumogiri(_) => {
                // the tile is filled in when the draw before it is known
                ret.push(Event::Dahai { actor, pai: Pai::Unknown, tsumogiri: true });
            },
            ActionItem::Naki(naki) => match decode_discard(naki) {
                Ok(Call::Reach { pai }) => {
                    ret.push(Event::Reach { actor });
                    ret.push(
                        match pai {
                            Some(p) => Event::Dahai { actor, pai: p, tsumogiri: p == Pai::Unknown },
                            None => Event::Dahai { actor, pai: Pai::Unknown, tsumogiri: true },
                        },
                    );
                },
                Ok(call) => {
                    ret.push(call.event(actor));
                },
                Err(e) => {
                    return Err(e);
                },
            },
        }
        proof {
            let more = discard_item_events(actor, discards@[i as int])->Ok_0;
            assert(ret@ =~= before + more);
        }
        i += 1;
    }
    assert(discards@.take(i as int) =~= discards@);
    Ok(ret)
}

/// The events that close a round: its wins, or its draw, and the end mark.
pub open spec fn ending(status: EndStatus) -> Seq<Event> {
    match status {
        EndStatus::Hora { details } => details@.map_values(|detail: HoraDetail| hora(detail)).push(
            Event::EndKyoku,
        ),
        EndStatus::Ryukyoku { score_deltas } => seq![
            Event::Ryukyoku { deltas: Some(score_deltas) },
            Event::EndKyoku,
        ],
    }
}

/// The event of one win.
pub open spec fn hora(detail: HoraDetail) -> Event {
    Event::Hora { actor: detail.who, target: detail.target, deltas: Some(detail.score_deltas) }
}

/// Appends the events that close the round.
pub fn end_kyoku(events: &mut Vec<Event>, kyoku: &Kyoku)
    ensures
        final(events)@ == old(events)@ + ending(kyoku.end_status),
{
    match &kyoku.end_status {
        EndStatus::Hora { details } => {
            let mut i: usize = 0;
            while i < details.len()
                invariant
                    i <= details@.len(),
                    events@ == old(events)@ + details@.take(i as int).map_values(
                        |detail: HoraDetail| hora(detail),
                    ),
                decreases details@.len() - i,
            {
                let detail = &details[i];
                events.push(
                    Event::Hora {
                        actor: detail.who,
                        target: detail.target,
                        deltas: Some(detail.score_deltas),
                    },
                );
                i += 1;
            }
            assert(details@.take(i as int) =~= details@);
        },
        EndStatus::Ryukyoku { score_deltas } => {
            events.push(Event::Ryukyoku { deltas: Some(*score_deltas) });
        },
    };
    events.push(Event::EndKyoku);
}

/// The events of the takes of one seat of a round.
pub open spec fn seat_takes(kyoku: Kyoku, seat: int) -> Result<Seq<Event>, Failure> {
    take_events(seat as u8, kyoku.action_tables[seat].takes@)
}

/// The events of the discards of one seat of a round.
pub open spec fn seat_discards(kyoku: Kyoku, seat: int) -> Result<Seq<Event>, Failure> {
    discard_events(seat as u8, kyoku.action_tables[seat].discards@)
}

/// The events of the takes of the four seats of a round, or the failure of
/// the first seat whose takes do not convert.
pub open spec fn all_takes(kyoku: Kyoku) -> Result<Seq<Seq<Event>>, Failure> {
    if seat_takes(kyoku, 0) is Err {
        Err(seat_takes(kyoku, 0)->Err_0)
    } else if seat_takes(kyoku, 1) is Err {
        Err(seat_takes(kyoku, 1)->Err_0)
    } else if seat_takes(kyoku, 2) is Err {
        Err(seat_takes(kyoku, 2)->Err_0)
    } else if seat_takes(kyoku, 3) is Err {
        Err(seat_takes(kyoku, 3)->Err_0)
    } else {
        Ok(Seq::new(4, |seat: int| seat_takes(kyoku, seat)->Ok_0))
    }
}

/// The events of the discards of the four seats of a round, or the failure
/// of the first seat whose discards do not convert.
pub open spec fn all_discards(kyoku: Kyoku) -> Result<Seq<Seq<Event>>, Failure> {
    if seat_discards(kyoku, 0) is Err {
        Err(seat_discards(kyoku, 0)->Err_0)
    } else if seat_discards(kyoku, 1) is Err {
        Err(seat_discards(kyoku, 1)->Err_0)
    } else if seat_discards(kyoku, 2) is Err {
        Err(seat_discards(kyoku, 2)->Err_0)
    } else if seat_discards(kyoku, 3) is Err {
        Err(seat_discards(kyoku, 3)->Err_0)
    } else {
        Ok(Seq::new(4, |seat: int| seat_discards(kyoku, seat)->Ok_0))
    }
}

/// The events of one round: the takes of the four seats are turned into
/// events, then their discards, and these events are put in order.
#[verifier::opaque]
pub open spec fn round_events(kyoku: Kyoku) -> Result<Seq<Event>, Failure> {
    match all_takes(kyoku) {
        Err(failure) => Err(failure),
        Ok(takes) => match all_discards(kyoku) {
            Err(failure) => Err(failure),
            Ok(discards) => merged(kyoku, takes, discards),
        },
    }
}

/// In a round whose sequences convert, the events of each seat's takes are
/// takes of that seat, and the events of its discards are its discards.
pub proof fn lemma_round_is_seated(kyoku: Kyoku)
    requires
        all_takes(kyoku) is Ok,
        all_discards(kyoku) is Ok,
    ensures
        crate::round::table(kyoku, all_takes(kyoku)->Ok_0, all_discards(kyoku)->Ok_0).seated(),
{
    let takes = all_takes(kyoku)->Ok_0;
    let discards = all_discards(kyoku)->Ok_0;
    assert forall|seat: int, i: int| 0 <= seat < 4 && 0 <= i < takes[seat].len() implies (
    #[trigger] takes[seat][i]).is_take_of(seat as u8) by {
        lemma_take_events_seat(seat as u8, kyoku.action_tables[seat].takes@);
        assert(takes[seat] == seat_takes(kyoku, seat)->Ok_0);
    }
    assert forall|seat: int, i: int| 0 <= seat < 4 && 0 <= i < discards[seat].len() implies (
    #[trigger] discards[seat][i]).is_discard_of(seat as u8) by {
        lemma_discard_events_seat(seat as u8, kyoku.action_tables[seat].discards@);
        assert(discards[seat] == seat_discards(kyoku, seat)->Ok_0);
    }
    let closing = ending(kyoku.end_status);
    assert forall|i: int| 0 <= i < closing.len() implies (#[trigger] closing[i]).is_closing() by {}
}

/// The events of some rounds, one round after the other, or the failure of
/// the first round that fails.
pub open spec fn rounds_events(kyokus: Seq<Kyoku>) -> Result<Seq<Event>, Failure>
    decreases kyokus.len(),
{
    if kyokus.len() == 0 {
        Ok(Seq::empty())
    } else {
        match rounds_events(kyokus.drop_last()) {
            Err(f) => Err(f),
            Ok(events) => match round_events(kyokus.last()) {
                Err(f) => Err(f),
                Ok(round) => Ok(events + round),
            },
        }
    }
}

/// The event that opens a game.
pub open spec fn start_game(log: Log) -> Event {
    Event::StartGame {
        kyoku_first: log.game_length.code(),
        aka_flag: log.has_aka,
        names: log.names,
    }
}

/// The events of a game: its opening, its rounds, its end.
pub open spec fn game_events(log: Log) -> Result<Seq<Event>, Failure> {
    match rounds_events(log.kyokus@) {
        Ok(rounds) => Ok((seq![start_game(log)] + rounds).push(Event::EndGame)),
        Err(f) => Err(f),
    }
}

/// Where the first rounds of a game fail, the game fails alike.
proof fn lemma_rounds_events_prefix(kyokus: Seq<Kyoku>, k: int)
    requires
        0 <= k <= kyokus.len(),
    ensures
        rounds_events(kyokus.take(k)) is Err ==> rounds_events(kyokus) == rounds_events(
            kyokus.take(k),
        ),
    decreases kyokus.len() - k,
{
    if k == kyokus.len() {
        assert(kyokus.take(k) =~= kyokus);
    } else {
        lemma_rounds_events_prefix(kyokus, k + 1);
        assert(kyokus.take(k + 1).drop_last() =~= kyokus.take(k));
    }
}

/// The outcome `r` holds the four sequences of events that `expected`
/// describes, or an error with the view that it describes.
pub open spec fn yields_seats(
    r: Result<[Vec<Event>; 4], ConvertError>,
    expected: Result<Seq<Seq<Event>>, Failure>,
) -> bool {
    match expected {
        Ok(seats) => r is Ok && feeds(r->Ok_0) == seats,
        Err(failure) => r is Err && r->Err_0@ == failure,
    }
}

fn takes_to_events(kyoku: &Kyoku) -> (r: Result<[Vec<Event>; 4], ConvertError>)
    ensures
        yields_seats(r, all_takes(*kyoku)),
{
    let t0 = match take_action_to_events(0, kyoku.action_tables[0].takes.as_slice()) {
        Ok(events) => events,
        Err(e) => {
            return Err(e);
        },
    };
    let t1 = match take_action_to_events(1, kyoku.action_tables[1].takes.as_slice()) {
        Ok(events) => events,
        Err(e) => {
            return Err(e);
        },
    };
    let t2 = match take_action_to_events(2, kyoku.action_tables[2].takes.as_slice()) {
        Ok(events) => events,
        Err(e) => {
            return Err(e);
        },
    };
    let t3 = match take_action_to_events(3, kyoku.action_tables[3].takes.as_slice()) {
        Ok(events) => events,
        Err(e) => {
            return Err(e);
        },
    };
    let seats = [t0, t1, t2, t3];
    assert(feeds(seats) =~= all_takes(*kyoku)->Ok_0);
    Ok(seats)
}

fn discards_to_events(kyoku: &Kyoku) -> (r: Result<[Vec<Event>; 4], ConvertError>)
    ensures
        yields_seats(r, all_discards(*kyoku)),
{
    let d0 = match discard_action_to_events(0, kyoku.action_tables[0].discards.as_slice()) {
        Ok(events) => events,
        Err(e) => {
            return Err(e);
        },
    };
    let d1 = match discard_action_to_events(1, kyoku.action_tables[1].discards.as_slice()) {
        Ok(events) => events,
        Err(e) => {
            return Err(e);
        },
    };
    let d2 = match discard_action_to_events(2, kyoku.action_tables[2].discards.as_slice()) {
        Ok(events) => events,
        Err(e) => {
            return Err(e);
        },
    };
    let d3 = match discard_action_to_events(3, kyoku.action_tables[3].discards.as_slice()) {
        Ok(events) => events,
        Err(e) => {
            return Err(e);
        },
    };
    let seats = [d0, d1, d2, d3];
    assert(feeds(seats) =~= all_discards(*kyoku)->Ok_0);
    Ok(seats)
}

/// Converts one round and appends its events to `events`. Where the round
/// does not convert, `events` is left as it was.
pub fn tenhou_kyoku_to_mjai_events(events: &mut Vec<Event>, kyoku: &Kyoku) -> (r: Result<
    (),
    ConvertError,
>)
    ensures
        appends(r, old(events)@, final(events)@, round_events(*kyoku)),
{
    proof {
        reveal(round_events);
    }
    // First of all, turn the takes and discards of each seat into events.
    let takes = match takes_to_events(kyoku) {
        Ok(seats) => seats,
        Err(e) => {
            return Err(e);
        },
    };
    let discards = match discards_to_events(kyoku) {
        Ok(seats) => seats,
        Err(e) => {
            return Err(e);
        },
    };
    // Then put the events in order.
    merge(events, kyoku, &takes, &discards)
}

/// Transforms a recorded game into its event stream.
pub fn tenhou_to_mjai(log: &Log) -> (r: Result<Vec<Event>, ConvertError>)
    ensures
        yields(r, game_events(*log)),
{
    let mut events: Vec<Event> = Vec::new();
    let names = [
        log.names[0].clone(),
        log.names[1].clone(),
        log.names[2].clone(),
        log.names[3].clone(),
    ];
    assert(names =~= log.names);
    events.push(
        Event::StartGame { kyoku_first: log.game_length.as_u8(), aka_flag: log.has_aka, names },
    );
    let ghost mut rounds: Seq<Event> = Seq::empty();
    let mut i: usize = 0;
    while i < log.kyokus.len()
        invariant
            i <= log.kyokus@.len(),
            rounds_events(log.kyokus@.take(i as int)) == Ok::<Seq<Event>, Failure>(rounds),
            events@ == seq![start_game(*log)] + rounds,
        decreases log.kyokus@.len() - i,
    {
        proof {
            assert(log.kyokus@.take(i + 1).drop_last() =~= log.kyokus@.take(i as int));
            assert(log.kyokus@.take(i + 1).last() == log.kyokus@[i as int]);
            lemma_rounds_events_prefix(log.kyokus@, i + 1);
        }
        match tenhou_kyoku_to_mjai_events(&mut events, &log.kyokus[i]) {
            Ok(()) => {},
            Err(e) => {
                return Err(e);
            },
        }
        proof {
            let round = round_events(log.kyokus@[i as int])->Ok_0;
            assert(events@ =~= seq![start_game(*log)] + (rounds + round));
            rounds = rounds + round;
        }
        i += 1;
    }
    assert(log.kyokus@.take(i as int) =~= log.kyokus@);
    events.push(Event::EndGame);
    Ok(events)
}

} // verus!
