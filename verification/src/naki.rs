//! Call strings.
//!
//! A call string writes one call, kan or reach declaration of a seat: the
//! tiles as two-digit tokens, and among them one letter that names the kind
//! of call and, by where it stands, the seat the called tile came from.

use crate::conv::{agrees, pai_from_bytes, ConvertError, Failure};
use crate::token::{decimal, is_digit, number, token_pai, utf8_lossy, PLUS, ZERO};
use crate::mjai::{Consumed2, Consumed3, Consumed4, Event};
use crate::pai::Pai;
use vstd::prelude::*;
use vstd::slice::slice_subrange;
use vstd::utf8::*;

verus! {

/// The letter of a chi, `c`.
pub const CHI: u8 = 99;

/// The letter of a pon, `p`.
pub const PON: u8 = 112;

/// The letter of a called kan, `m`.
pub const DAIMINKAN: u8 = 109;

/// The letter of a kan added to a pon, `k`.
pub const KAKAN: u8 = 107;

/// The letter of a concealed kan, `a`.
pub const ANKAN: u8 = 97;

/// The letter of a reach, `r`.
pub const REACH: u8 = 114;

/// The digit six, the first of the token `60`.
pub const SIX: u8 = 54;

/// A decoded call string. `offset` tells where the called tile came from:
/// the seat that many places after the caller's, so 3 is the seat before
/// it, 2 the seat across and 1 the seat after it.
#[allow(inconsistent_fields)]
#[derive(Debug, Clone, Copy, PartialEq, Eq)]
pub enum Call {
    Chi { pai: Pai, consumed: [Pai; 2] },
    Pon { offset: u8, pai: Pai, consumed: [Pai; 2] },
    Daiminkan { offset: u8, pai: Pai, consumed: [Pai; 3] },
    /// `offset` is that of the pon that the kan adds to.
    Kakan { offset: u8, pai: Pai, consumed: [Pai; 3] },
    Ankan { pai: Pai, consumed: [Pai; 3] },
    /// `pai` is `None` where the tile discarded is the tile just drawn.
    Reach { pai: Option<Pai> },
}

/// `at` is the first place in `text` where `mark` stands.
pub open spec fn is_first(text: Seq<u8>, mark: u8, at: int) -> bool {
    &&& 0 <= at < text.len()
    &&& text[at] == mark
    &&& forall|j: int| 0 <= j < at ==> text[j] != mark
}

/// The first place in `text` where `mark` stands, if it stands anywhere.
pub open spec fn marker(text: Seq<u8>, mark: u8) -> Option<int> {
    if text.contains(mark) {
        Some(choose|at: int| is_first(text, mark, at))
    } else {
        None
    }
}

/// The tile that the token at `at` names.
pub open spec fn tile_at(text: Seq<u8>, at: int) -> Result<Pai, Failure> {
    let token = text.subrange(at, at + 2);
    match token_pai(token) {
        Some(pai) => Ok(pai),
        None => Err(Failure::InvalidPai(utf8_lossy(token))),
    }
}

/// The tiles that the tokens at `a`, `b`, `c` name, read in that order up
/// to the first that names none.
pub open spec fn tiles3(text: Seq<u8>, a: int, b: int, c: int) -> Result<(Pai, Pai, Pai), Failure> {
    match tile_at(text, a) {
        Err(f) => Err(f),
        Ok(x) => match tile_at(text, b) {
            Err(f) => Err(f),
            Ok(y) => match tile_at(text, c) {
                Err(f) => Err(f),
                Ok(z) => Ok((x, y, z)),
            },
        },
    }
}

/// The tiles that the tokens at `a`, `b`, `c`, `d` name, read in that order
/// up to the first that names none.
pub open spec fn tiles4(text: Seq<u8>, a: int, b: int, c: int, d: int) -> Result<
    (Pai, Pai, Pai, Pai),
    Failure,
> {
    match tiles3(text, a, b, c) {
        Err(f) => Err(f),
        Ok(t) => match tile_at(text, d) {
            Err(f) => Err(f),
            Ok(w) => Ok((t.0, t.1, t.2, w)),
        },
    }
}

/// A chi: seven bytes, the called tile after the letter, then the two tiles
/// from the hand.
pub open spec fn chi_call(naki: Seq<char>) -> Result<Call, Failure> {
    let text = encode_utf8(naki);
    if text.len() != 7 {
        Err(Failure::InvalidNaki(naki))
    } else {
        match tiles3(text, 1, 3, 5) {
            Ok(t) => Ok(Call::Chi { pai: t.0, consumed: [t.1, t.2] }),
            Err(f) => Err(f),
        }
    }
}

/// A pon with its letter at `at`: seven bytes, the called tile right after
/// the letter.
pub open spec fn pon_call(naki: Seq<char>, at: int) -> Result<Call, Failure> {
    let text = encode_utf8(naki);
    if text.len() != 7 {
        Err(Failure::InvalidNaki(naki))
    } else if at == 0 {
        match tiles3(text, 1, 3, 5) {
            Ok(t) => Ok(Call::Pon { offset: 3, pai: t.0, consumed: [t.1, t.2] }),
            Err(f) => Err(f),
        }
    } else if at == 2 {
        match tiles3(text, 3, 0, 5) {
            Ok(t) => Ok(Call::Pon { offset: 2, pai: t.0, consumed: [t.1, t.2] }),
            Err(f) => Err(f),
        }
    } else if at == 4 {
        match tiles3(text, 5, 0, 2) {
            Ok(t) => Ok(Call::Pon { offset: 1, pai: t.0, consumed: [t.1, t.2] }),
            Err(f) => Err(f),
        }
    } else {
        Err(Failure::InvalidNaki(naki))
    }
}

/// A called kan with its letter at `at`: nine bytes, the called tile right
/// after the letter.
pub open spec fn daiminkan_call(naki: Seq<char>, at: int) -> Result<Call, Failure> {
    let text = encode_utf8(naki);
    if text.len() != 9 {
        Err(Failure::InvalidNaki(naki))
    } else if at == 0 {
        match tiles4(text, 1, 3, 5, 7) {
            Ok(t) => Ok(Call::Daiminkan { offset: 3, pai: t.0, consumed: [t.1, t.2, t.3] }),
            Err(f) => Err(f),
        }
    } else if at == 2 {
        match tiles4(text, 3, 0, 5, 7) {
            Ok(t) => Ok(Call::Daiminkan { offset: 2, pai: t.0, consumed: [t.1, t.2, t.3] }),
            Err(f) => Err(f),
        }
    } else if at == 6 {
        match tiles4(text, 7, 0, 2, 4) {
            Ok(t) => Ok(Call::Daiminkan { offset: 1, pai: t.0, consumed: [t.1, t.2, t.3] }),
            Err(f) => Err(f),
        }
    } else {
        Err(Failure::InvalidNaki(naki))
    }
}

/// A kan added to a pon, with its letter at `at`: nine bytes, the added
/// tile right after the letter.
pub open spec fn kakan_call(naki: Seq<char>, at: int) -> Result<Call, Failure> {
    let text = encode_utf8(naki);
    if text.len() != 9 {
        Err(Failure::InvalidNaki(naki))
    } else if at == 0 {
        match tiles4(text, 1, 3, 5, 7) {
            Ok(t) => Ok(Call::Kakan { offset: 3, pai: t.0, consumed: [t.1, t.2, t.3] }),
            Err(f) => Err(f),
        }
    } else if at == 2 {
        match tiles4(text, 3, 0, 5, 7) {
            Ok(t) => Ok(Call::Kakan { offset: 2, pai: t.0, consumed: [t.1, t.2, t.3] }),
            Err(f) => Err(f),
        }
    } else if at == 4 {
        match tiles4(text, 5, 0, 2, 7) {
            Ok(t) => Ok(Call::Kakan { offset: 1, pai: t.0, consumed: [t.1, t.2, t.3] }),
            Err(f) => Err(f),
        }
    } else {
        Err(Failure::InvalidNaki(naki))
    }
}

/// A concealed kan: nine bytes, the last token after the letter, the first
/// three before it.
pub open spec fn ankan_call(naki: Seq<char>) -> Result<Call, Failure> {
    let text = encode_utf8(naki);
    if text.len() != 9 {
        Err(Failure::InvalidNaki(naki))
    } else {
        match tiles4(text, 7, 0, 2, 4) {
            Ok(t) => Ok(Call::Ankan { pai: t.0, consumed: [t.1, t.2, t.3] }),
            Err(f) => Err(f),
        }
    }
}

/// A reach: the letter, then the token of the tile discarded, or `60` for
/// the tile just drawn.
pub open spec fn reach_call(naki: Seq<char>) -> Result<Call, Failure> {
    let text = encode_utf8(naki);
    if text.len() != 3 || text[0] != REACH {
        Err(Failure::InvalidNaki(naki))
    } else if text[1] == SIX && text[2] == ZERO {
        Ok(Call::Reach { pai: None })
    } else {
        match tile_at(text, 1) {
            Ok(pai) => Ok(Call::Reach { pai: Some(pai) }),
            Err(f) => Err(f),
        }
    }
}

/// What a call string in a take sequence says: a chi where it holds `c`,
/// else a pon where it holds `p`, else a called kan where it holds `m`.
#[verifier::opaque]
pub open spec fn take_call(naki: Seq<char>) -> Result<Call, Failure> {
    let text = encode_utf8(naki);
    if text.contains(CHI) {
        chi_call(naki)
    } else {
        match marker(text, PON) {
            Some(at) => pon_call(naki, at),
            None => match marker(text, DAIMINKAN) {
                Some(at) => daiminkan_call(naki, at),
                None => Err(Failure::InvalidNaki(naki)),
            },
        }
    }
}

/// What a call string in a discard sequence says: an added kan where it
/// holds `k`, else a concealed kan where it holds `a`, else a reach.
#[verifier::opaque]
pub open spec fn discard_call(naki: Seq<char>) -> Result<Call, Failure> {
    let text = encode_utf8(naki);
    match marker(text, KAKAN) {
        Some(at) => kakan_call(naki, at),
        None => if text.contains(ANKAN) {
            ankan_call(naki)
        } else {
            reach_call(naki)
        },
    }
}

/// The seat `offset` places after `actor`, round the table of four.
pub open spec fn seat_after(actor: u8, offset: u8) -> u8 {
    ((actor + offset) % 4) as u8
}

impl Call {
    /// The event that the call is when the seat `actor` makes it. For a
    /// reach this is the declaration alone.
    pub open spec fn event_spec(self, actor: u8) -> Event {
        match self {
            Call::Chi { pai, consumed } => Event::Chi {
                actor,
                target: seat_after(actor, 3),
                pai,
                consumed: Consumed2(consumed),
            },
            Call::Pon { offset, pai, consumed } => Event::Pon {
                actor,
                target: seat_after(actor, offset),
                pai,
                consumed: Consumed2(consumed),
            },
            Call::Daiminkan { offset, pai, consumed } => Event::Daiminkan {
                actor,
                target: seat_after(actor, offset),
                pai,
                consumed: Consumed3(consumed),
            },
            Call::Kakan { offset, pai, consumed } => Event::Kakan {
                actor,
                pai,
                consumed: Consumed3(consumed),
            },
            Call::Ankan { pai, consumed } => Event::Ankan {
                actor,
                consumed: Consumed4([consumed[0], consumed[1], consumed[2], pai]),
            },
            Call::Reach { pai } => Event::Reach { actor },
        }
    }

    /// The discard that goes with a reach: of the tile named, or of the tile
    /// just drawn, to be filled in later, where none is named or the
    /// placeholder tile is.
    pub open spec fn reach_discard(pai: Option<Pai>, actor: u8) -> Event {
        match pai {
            Some(p) => Event::Dahai { actor, pai: p, tsumogiri: p == Pai::Unknown },
            None => Event::Dahai { actor, pai: Pai::Unknown, tsumogiri: true },
        }
    }

    /// The events that the call stands for in a discard sequence: a reach
    /// is its declaration and then its discard; any other call is one event.
    pub open spec fn discard_events(self, actor: u8) -> Seq<Event> {
        match self {
            Call::Reach { pai } => seq![Event::Reach { actor }, Call::reach_discard(pai, actor)],
            _ => seq![self.event_spec(actor)],
        }
    }

    /// Makes the event that the call is when the seat `actor` makes it.
    pub fn event(&self, actor: u8) -> (event: Event)
        ensures
            event == self.event_spec(actor),
    {
        match self {
            Call::Chi { pai, consumed } => Event::Chi {
                actor,
                target: seat(actor, 3),
                pai: *pai,
                consumed: Consumed2(*consumed),
            },
            Call::Pon { offset, pai, consumed } => Event::Pon {
                actor,
                target: seat(actor, *offset),
                pai: *pai,
                consumed: Consumed2(*consumed),
            },
            Call::Daiminkan { offset, pai, consumed } => Event::Daiminkan {
                actor,
                target: seat(actor, *offset),
                pai: *pai,
                consumed: Consumed3(*consumed),
            },
            Call::Kakan { offset, pai, consumed } => Event::Kakan {
                actor,
                pai: *pai,
                consumed: Consumed3(*consumed),
            },
            Call::Ankan { pai, consumed } => Event::Ankan {
                actor,
                consumed: Consumed4([consumed[0], consumed[1], consumed[2], *pai]),
            },
            Call::Reach { pai } => Event::Reach { actor },
        }
    }
}

fn seat(actor: u8, offset: u8) -> (target: u8)
    ensures
        target == seat_after(actor, offset),
{
    let sum: u16 = actor as u16 + offset as u16;
    (sum % 4) as u8
}

proof fn lemma_marker(text: Seq<u8>, mark: u8, at: int)
    requires
        is_first(text, mark, at),
    ensures
        marker(text, mark) == Some(at),
{
    assert(text[at] == mark);
    let other = choose|i: int| is_first(text, mark, i);
    assert(is_first(text, mark, other));
    if other < at {
        assert(text[other] != mark);
    } else if at < other {
        assert(text[at] != mark);
    }
}

fn find_marker(text: &[u8], mark: u8) -> (at: Option<usize>)
    ensures
        match at {
            Some(i) => is_first(text@, mark, i as int) && marker(text@, mark) == Some(i as int),
            None => !text@.contains(mark) && marker(text@, mark) == None::<int>,
        },
{
    let mut i: usize = 0;
    while i < text.len()
        invariant
            i <= text@.len(),
            forall|j: int| 0 <= j < i ==> text@[j] != mark,
        decreases text@.len() - i,
    {
        if text[i] == mark {
            proof {
                lemma_marker(text@, mark, i as int);
            }
            return Some(i);
        }
        i += 1;
    }
    None
}

fn read_tile(text: &[u8], at: usize) -> (r: Result<Pai, ConvertError>)
    requires
        at + 2 <= text.len(),
    ensures
        agrees(r, tile_at(text@, at as int)),
{
    pai_from_bytes(slice_subrange(text, at, at + 2))
}

fn read3(text: &[u8], a: usize, b: usize, c: usize) -> (r: Result<(Pai, Pai, Pai), ConvertError>)
    requires
        a + 2 <= text.len(),
        b + 2 <= text.len(),
        c + 2 <= text.len(),
    ensures
        agrees(r, tiles3(text@, a as int, b as int, c as int)),
{
    let x = match read_tile(text, a) {
        Ok(pai) => pai,
        Err(e) => {
            return Err(e);
        },
    };
    let y = match read_tile(text, b) {
        Ok(pai) => pai,
        Err(e) => {
            return Err(e);
        },
    };
    let z = match read_tile(text, c) {
        Ok(pai) => pai,
        Err(e) => {
            return Err(e);
        },
    };
    Ok((x, y, z))
}

fn read4(text: &[u8], a: usize, b: usize, c: usize, d: usize) -> (r: Result<
    (Pai, Pai, Pai, Pai),
    ConvertError,
>)
    requires
        a + 2 <= text.len(),
        b + 2 <= text.len(),
        c + 2 <= text.len(),
        d + 2 <= text.len(),
    ensures
        agrees(r, tiles4(text@, a as int, b as int, c as int, d as int)),
{
    let t = match read3(text, a, b, c) {
        Ok(t) => t,
        Err(e) => {
            return Err(e);
        },
    };
    let w = match read_tile(text, d) {
        Ok(pai) => pai,
        Err(e) => {
            return Err(e);
        },
    };
    Ok((t.0, t.1, t.2, w))
}

fn malformed<T>(naki: &String) -> (r: Result<T, ConvertError>)
    ensures
        agrees(r, Err(Failure::InvalidNaki(naki@))),
{
    Err(ConvertError::InvalidNaki(naki.clone()))
}

fn decode_chi(naki: &String, text: &[u8]) -> (r: Result<Call, ConvertError>)
    requires
        text@ == encode_utf8(naki@),
    ensures
        agrees(r, chi_call(naki@)),
{
    if text.len() != 7 {
        return malformed(naki);
    }
    match read3(text, 1, 3, 5) {
        Ok(t) => Ok(Call::Chi { pai: t.0, consumed: [t.1, t.2] }),
        Err(e) => Err(e),
    }
}

fn decode_pon(naki: &String, text: &[u8], at: usize) -> (r: Result<Call, ConvertError>)
    requires
        text@ == encode_utf8(naki@),
    ensures
        agrees(r, pon_call(naki@, at as int)),
{
    if text.len() != 7 {
        return malformed(naki);
    }
    let (offset, tiles): (u8, Result<(Pai, Pai, Pai), ConvertError>) = if at == 0 {
        (3, read3(text, 1, 3, 5))
    } else if at == 2 {
        (2, read3(text, 3, 0, 5))
    } else if at == 4 {
        (1, read3(text, 5, 0, 2))
    } else {
        return malformed(naki);
    };
    match tiles {
        Ok(t) => Ok(Call::Pon { offset, pai: t.0, consumed: [t.1, t.2] }),
        Err(e) => Err(e),
    }
}

fn decode_daiminkan(naki: &String, text: &[u8], at: usize) -> (r: Result<Call, ConvertError>)
    requires
        text@ == encode_utf8(naki@),
    ensures
        agrees(r, daiminkan_call(naki@, at as int)),
{
    if text.len() != 9 {
        return malformed(naki);
    }
    let (offset, tiles): (u8, Result<(Pai, Pai, Pai, Pai), ConvertError>) = if at == 0 {
        (3, read4(text, 1, 3, 5, 7))
    } else if at == 2 {
        (2, read4(text, 3, 0, 5, 7))
    } else if at == 6 {
        (1, read4(text, 7, 0, 2, 4))
    } else {
        return malformed(naki);
    };
    match tiles {
        Ok(t) => Ok(Call::Daiminkan { offset, pai: t.0, consumed: [t.1, t.2, t.3] }),
        Err(e) => Err(e),
    }
}

fn decode_kakan(naki: &String, text: &[u8], at: usize) -> (r: Result<Call, ConvertError>)
    requires
        text@ == encode_utf8(naki@),
    ensures
        agrees(r, kakan_call(naki@, at as int)),
{
    if text.len() != 9 {
        return malformed(naki);
    }
    let (offset, tiles): (u8, Result<(Pai, Pai, Pai, Pai), ConvertError>) = if at == 0 {
        (3, read4(text, 1, 3, 5, 7))
    } else if at == 2 {
        (2, read4(text, 3, 0, 5, 7))
    } else if at == 4 {
        (1, read4(text, 5, 0, 2, 7))
    } else {
        return malformed(naki);
    };
    match tiles {
        Ok(t) => Ok(Call::Kakan { offset, pai: t.0, consumed: [t.1, t.2, t.3] }),
        Err(e) => Err(e),
    }
}

fn decode_ankan(naki: &String, text: &[u8]) -> (r: Result<Call, ConvertError>)
    requires
        text@ == encode_utf8(naki@),
    ensures
        agrees(r, ankan_call(naki@)),
{
    if text.len() != 9 {
        return malformed(naki);
    }
    match read4(text, 7, 0, 2, 4) {
        Ok(t) => Ok(Call::Ankan { pai: t.0, consumed: [t.1, t.2, t.3] }),
        Err(e) => Err(e),
    }
}

fn decode_reach(naki: &String, text: &[u8]) -> (r: Result<Call, ConvertError>)
    requires
        text@ == encode_utf8(naki@),
    ensures
        agrees(r, reach_call(naki@)),
{
    if text.len() != 3 || text[0] != REACH {
        return malformed(naki);
    }
    if text[1] == SIX && text[2] == ZERO {
        return Ok(Call::Reach { pai: None });
    }
    match read_tile(text, 1) {
        Ok(pai) => Ok(Call::Reach { pai: Some(pai) }),
        Err(e) => Err(e),
    }
}

/// Decodes a call string of a take sequence.
pub fn decode_take(naki: &String) -> (r: Result<Call, ConvertError>)
    ensures
        agrees(r, take_call(naki@)),
{
    proof {
        reveal(take_call);
    }
    let text = naki.as_str().as_bytes();
    match find_marker(text, CHI) {
        Some(_) => decode_chi(naki, text),
        None => match find_marker(text, PON) {
            Some(at) => decode_pon(naki, text, at),
            None => match find_marker(text, DAIMINKAN) {
                Some(at) => decode_daiminkan(naki, text, at),
                None => malformed(naki),
            },
        },
    }
}

/// Decodes a call string of a discard sequence.
pub fn decode_discard(naki: &String) -> (r: Result<Call, ConvertError>)
    ensures
        agrees(r, discard_call(naki@)),
{
    proof {
        reveal(discard_call);
    }
    let text = naki.as_str().as_bytes();
    match find_marker(text, KAKAN) {
        Some(at) => decode_kakan(naki, text, at),
        None => match find_marker(text, ANKAN) {
            Some(_) => decode_ankan(naki, text),
            None => decode_reach(naki, text),
        },
    }
}

/// The token that writes a tile: the two digits of its code.
pub open spec fn token(pai: Pai) -> Seq<u8> {
    seq![(ZERO + pai.code() / 10) as u8, (ZERO + pai.code() % 10) as u8]
}

/// Three tokens with a letter before the one at place `at`.
#[verifier::opaque]
pub open spec fn marked3(at: int, mark: u8, a: Pai, b: Pai, c: Pai) -> Seq<u8> {
    if at == 0 {
        seq![mark] + token(a) + token(b) + token(c)
    } else if at == 1 {
        token(a) + seq![mark] + token(b) + token(c)
    } else {
        token(a) + token(b) + seq![mark] + token(c)
    }
}

/// Four tokens with a letter before the one at place `at`.
#[verifier::opaque]
pub open spec fn marked4(at: int, mark: u8, a: Pai, b: Pai, c: Pai, d: Pai) -> Seq<u8> {
    if at == 0 {
        seq![mark] + token(a) + token(b) + token(c) + token(d)
    } else if at == 1 {
        token(a) + seq![mark] + token(b) + token(c) + token(d)
    } else if at == 2 {
        token(a) + token(b) + seq![mark] + token(c) + token(d)
    } else {
        token(a) + token(b) + token(c) + seq![mark] + token(d)
    }
}

impl Call {
    /// The call string that writes the call: the tokens of its tiles, the
    /// letter of its kind before the token of the called tile, and that
    /// token where `offset` puts it.
    pub open spec fn text(self) -> Seq<u8> {
        match self {
            Call::Chi { pai, consumed } => marked3(0, CHI, pai, consumed[0], consumed[1]),
            Call::Pon { offset, pai, consumed } => if offset == 3 {
                marked3(0, PON, pai, consumed[0], consumed[1])
            } else if offset == 2 {
                marked3(1, PON, consumed[0], pai, consumed[1])
            } else {
                marked3(2, PON, consumed[0], consumed[1], pai)
            },
            Call::Daiminkan { offset, pai, consumed } => if offset == 3 {
                marked4(0, DAIMINKAN, pai, consumed[0], consumed[1], consumed[2])
            } else if offset == 2 {
                marked4(1, DAIMINKAN, consumed[0], pai, consumed[1], consumed[2])
            } else {
                marked4(3, DAIMINKAN, consumed[0], consumed[1], consumed[2], pai)
            },
            Call::Kakan { offset, pai, consumed } => if offset == 3 {
                marked4(0, KAKAN, pai, consumed[0], consumed[1], consumed[2])
            } else if offset == 2 {
                marked4(1, KAKAN, consumed[0], pai, consumed[1], consumed[2])
            } else {
                marked4(2, KAKAN, consumed[0], consumed[1], pai, consumed[2])
            },
            Call::Ankan { pai, consumed } => marked4(
                3,
                ANKAN,
                consumed[0],
                consumed[1],
                consumed[2],
                pai,
            ),
            Call::Reach { pai } => seq![REACH] + match pai {
                Some(p) => token(p),
                None => seq![SIX, ZERO],
            },
        }
    }
}

/// Appends the token that writes a tile.
fn push_token(text: &mut Vec<u8>, pai: Pai)
    ensures
        final(text)@ == old(text)@ + token(pai),
{
    let code: u8 = pai.as_u8();
    text.push(ZERO + code / 10);
    text.push(ZERO + code % 10);
    assert(text@ =~= old(text)@ + token(pai));
}

fn write3(at: usize, mark: u8, a: Pai, b: Pai, c: Pai) -> (text: Vec<u8>)
    ensures
        text@ == marked3(at as int, mark, a, b, c),
{
    let mut text: Vec<u8> = Vec::new();
    if at == 0 {
        text.push(mark);
    }
    push_token(&mut text, a);
    if at == 1 {
        text.push(mark);
    }
    push_token(&mut text, b);
    if at >= 2 {
        text.push(mark);
    }
    push_token(&mut text, c);
    reveal(marked3);
    assert(text@ =~= marked3(at as int, mark, a, b, c));
    text
}

fn write4(at: usize, mark: u8, a: Pai, b: Pai, c: Pai, d: Pai) -> (text: Vec<u8>)
    ensures
        text@ == marked4(at as int, mark, a, b, c, d),
{
    let mut text: Vec<u8> = Vec::new();
    if at == 0 {
        text.push(mark);
    }
    push_token(&mut text, a);
    if at == 1 {
        text.push(mark);
    }
    push_token(&mut text, b);
    if at == 2 {
        text.push(mark);
    }
    push_token(&mut text, c);
    if at >= 3 {
        text.push(mark);
    }
    push_token(&mut text, d);
    reveal(marked4);
    assert(text@ =~= marked4(at as int, mark, a, b, c, d));
    text
}

impl Call {
    /// Writes the call string of the call.
    pub fn encode(&self) -> (text: Vec<u8>)
        ensures
            text@ == self.text(),
    {
        match self {
            Call::Chi { pai, consumed } => write3(0, CHI, *pai, consumed[0], consumed[1]),
            Call::Pon { offset, pai, consumed } => {
                if *offset == 3 {
                    write3(0, PON, *pai, consumed[0], consumed[1])
                } else if *offset == 2 {
                    write3(1, PON, consumed[0], *pai, consumed[1])
                } else {
                    write3(2, PON, consumed[0], consumed[1], *pai)
                }
            },
            Call::Daiminkan { offset, pai, consumed } => {
                if *offset == 3 {
                    write4(0, DAIMINKAN, *pai, consumed[0], consumed[1], consumed[2])
                } else if *offset == 2 {
                    write4(1, DAIMINKAN, consumed[0], *pai, consumed[1], consumed[2])
                } else {
                    write4(3, DAIMINKAN, consumed[0], consumed[1], consumed[2], *pai)
                }
            },
            Call::Kakan { offset, pai, consumed } => {
                if *offset == 3 {
                    write4(0, KAKAN, *pai, consumed[0], consumed[1], consumed[2])
                } else if *offset == 2 {
                    write4(1, KAKAN, consumed[0], *pai, consumed[1], consumed[2])
                } else {
                    write4(2, KAKAN, consumed[0], consumed[1], *pai, consumed[2])
                }
            },
            Call::Ankan { pai, consumed } => write4(
                3,
                ANKAN,
                consumed[0],
                consumed[1],
                consumed[2],
                *pai,
            ),
            Call::Reach { pai } => {
                let mut text: Vec<u8> = Vec::new();
                text.push(REACH);
                match pai {
                    Some(p) => {
                        push_token(&mut text, *p);
                    },
                    None => {
                        text.push(SIX);
                        text.push(ZERO);
                    },
                }
                assert(text@ =~= self.text());
                text
            },
        }
    }
}

/// The token at `at` is made of two digits.
spec fn digits_at(text: Seq<u8>, at: int) -> bool {
    is_digit(text[at]) && is_digit(text[at + 1])
}

/// Where a mark stands in a text, it stands at some place first.
proof fn lemma_first_exists(text: Seq<u8>, mark: u8, hi: int)
    requires
        0 <= hi < text.len(),
        text[hi] == mark,
    ensures
        exists|at: int| is_first(text, mark, at),
    decreases hi,
{
    if forall|j: int| 0 <= j < hi ==> text[j] != mark {
        assert(is_first(text, mark, hi));
    } else {
        let j = choose|j: int| 0 <= j < hi && text[j] == mark;
        lemma_first_exists(text, mark, j);
    }
}

/// The place that `marker` gives is the first where the mark stands, and it
/// gives none only where the mark stands nowhere.
pub proof fn lemma_marker_first(text: Seq<u8>, mark: u8)
    ensures
        match marker(text, mark) {
            Some(at) => is_first(text, mark, at),
            None => !text.contains(mark),
        },
{
    if text.contains(mark) {
        let hi = choose|i: int| 0 <= i < text.len() && text[i] == mark;
        lemma_first_exists(text, mark, hi);
    }
}

/// A token without a plus sign that names a tile is the token that writes
/// that tile.
proof fn lemma_token(text: Seq<u8>, at: int)
    requires
        0 <= at,
        at + 2 <= text.len(),
        !text.contains(PLUS),
        tile_at(text, at) is Ok,
    ensures
        token(tile_at(text, at)->Ok_0) == text.subrange(at, at + 2),
        digits_at(text, at),
{
    let sub = text.subrange(at, at + 2);
    let pai = tile_at(text, at)->Ok_0;
    assert(sub[0] == text[at]);
    assert(sub[1] == text[at + 1]);
    assert(text[at] != PLUS);
    assert(is_digit(sub[0]));
    assert(is_digit(sub[1]));
    let code = number(sub)->Some_0;
    assert(decimal(sub) == 10 * (sub[0] - ZERO) + (sub[1] - ZERO)) by {
        reveal_with_fuel(decimal, 3);
        assert(sub.drop_last().len() == 1);
        assert(sub.drop_last().last() == sub[0]);
        assert(sub.drop_last().drop_last().len() == 0);
    }
    Pai::lemma_code_unique(code);
    assert(pai.code() == code);
    assert(token(pai) =~= sub);
}

proof fn lemma_tokens3(text: Seq<u8>, a: int, b: int, c: int)
    requires
        0 <= a,
        a + 2 <= text.len(),
        0 <= b,
        b + 2 <= text.len(),
        0 <= c,
        c + 2 <= text.len(),
        !text.contains(PLUS),
        tiles3(text, a, b, c) is Ok,
    ensures
        token(tiles3(text, a, b, c)->Ok_0.0) == text.subrange(a, a + 2),
        token(tiles3(text, a, b, c)->Ok_0.1) == text.subrange(b, b + 2),
        token(tiles3(text, a, b, c)->Ok_0.2) == text.subrange(c, c + 2),
        digits_at(text, a),
        digits_at(text, b),
        digits_at(text, c),
{
    lemma_token(text, a);
    lemma_token(text, b);
    lemma_token(text, c);
}

proof fn lemma_tokens4(text: Seq<u8>, a: int, b: int, c: int, d: int)
    requires
        0 <= a,
        a + 2 <= text.len(),
        0 <= b,
        b + 2 <= text.len(),
        0 <= c,
        c + 2 <= text.len(),
        0 <= d,
        d + 2 <= text.len(),
        !text.contains(PLUS),
        tiles4(text, a, b, c, d) is Ok,
    ensures
        token(tiles4(text, a, b, c, d)->Ok_0.0) == text.subrange(a, a + 2),
        token(tiles4(text, a, b, c, d)->Ok_0.1) == text.subrange(b, b + 2),
        token(tiles4(text, a, b, c, d)->Ok_0.2) == text.subrange(c, c + 2),
        token(tiles4(text, a, b, c, d)->Ok_0.3) == text.subrange(d, d + 2),
        digits_at(text, a),
        digits_at(text, b),
        digits_at(text, c),
        digits_at(text, d),
{
    lemma_tokens3(text, a, b, c);
    lemma_token(text, d);
}

/// A text of seven bytes that holds a letter and, around it, the tokens of
/// three tiles is those three tokens marked with the letter.
proof fn lemma_marked3(text: Seq<u8>, at: int, mark: u8, a: Pai, b: Pai, c: Pai)
    requires
        text.len() == 7,
        0 <= at <= 2,
        text[2 * at] == mark,
        token(a) == if at > 0 {
            text.subrange(0, 2)
        } else {
            text.subrange(1, 3)
        },
        token(b) == if at > 1 {
            text.subrange(2, 4)
        } else {
            text.subrange(3, 5)
        },
        token(c) == text.subrange(5, 7),
    ensures
        marked3(at, mark, a, b, c) == text,
{
    let (ta, tb, tc) = (token(a), token(b), token(c));
    assert(ta.len() == 2 && tb.len() == 2 && tc.len() == 2);
    if at == 0 {
        assert(ta[0] == text[1] && ta[1] == text[2]);
        assert(tb[0] == text[3] && tb[1] == text[4]);
    } else if at == 1 {
        assert(ta[0] == text[0] && ta[1] == text[1]);
        assert(tb[0] == text[3] && tb[1] == text[4]);
    } else {
        assert(ta[0] == text[0] && ta[1] == text[1]);
        assert(tb[0] == text[2] && tb[1] == text[3]);
    }
    assert(tc[0] == text[5] && tc[1] == text[6]);
    reveal(marked3);
    assert(marked3(at, mark, a, b, c) =~= text);
}

/// A text of nine bytes that holds a letter and, around it, the tokens of
/// four tiles is those four tokens marked with the letter.
proof fn lemma_marked4(text: Seq<u8>, at: int, mark: u8, a: Pai, b: Pai, c: Pai, d: Pai)
    requires
        text.len() == 9,
        0 <= at <= 3,
        text[2 * at] == mark,
        token(a) == if at > 0 {
            text.subrange(0, 2)
        } else {
            text.subrange(1, 3)
        },
        token(b) == if at > 1 {
            text.subrange(2, 4)
        } else {
            text.subrange(3, 5)
        },
        token(c) == if at > 2 {
            text.subrange(4, 6)
        } else {
            text.subrange(5, 7)
        },
        token(d) == text.subrange(7, 9),
    ensures
        marked4(at, mark, a, b, c, d) == text,
{
    let (ta, tb, tc, td) = (token(a), token(b), token(c), token(d));
    assert(ta.len() == 2 && tb.len() == 2 && tc.len() == 2 && td.len() == 2);
    if at == 0 {
        assert(ta[0] == text[1] && ta[1] == text[2]);
    } else {
        assert(ta[0] == text[0] && ta[1] == text[1]);
    }
    if at <= 1 {
        assert(tb[0] == text[3] && tb[1] == text[4]);
    } else {
        assert(tb[0] == text[2] && tb[1] == text[3]);
    }
    if at <= 2 {
        assert(tc[0] == text[5] && tc[1] == text[6]);
    } else {
        assert(tc[0] == text[4] && tc[1] == text[5]);
    }
    assert(td[0] == text[7] && td[1] == text[8]);
    reveal(marked4);
    assert(marked4(at, mark, a, b, c, d) =~= text);
}

proof fn lemma_chi_text(naki: Seq<char>)
    requires
        chi_call(naki) is Ok,
        encode_utf8(naki).contains(CHI),
        !encode_utf8(naki).contains(PLUS),
    ensures
        chi_call(naki)->Ok_0.text() == encode_utf8(naki),
{
    let text = encode_utf8(naki);
    lemma_tokens3(text, 1, 3, 5);
    let t = tiles3(text, 1, 3, 5)->Ok_0;
    let at = choose|i: int| 0 <= i < text.len() && text[i] == CHI;
    assert(at == 0);
    lemma_marked3(text, 0, CHI, t.0, t.1, t.2);
}

proof fn lemma_pon_text(naki: Seq<char>, at: int)
    requires
        pon_call(naki, at) is Ok,
        is_first(encode_utf8(naki), PON, at),
        !encode_utf8(naki).contains(PLUS),
    ensures
        pon_call(naki, at)->Ok_0.text() == encode_utf8(naki),
{
    let text = encode_utf8(naki);
    if at == 0 {
        lemma_tokens3(text, 1, 3, 5);
        let t = tiles3(text, 1, 3, 5)->Ok_0;
        lemma_marked3(text, 0, PON, t.0, t.1, t.2);
    } else if at == 2 {
        lemma_tokens3(text, 3, 0, 5);
        let t = tiles3(text, 3, 0, 5)->Ok_0;
        lemma_marked3(text, 1, PON, t.1, t.0, t.2);
    } else {
        lemma_tokens3(text, 5, 0, 2);
        let t = tiles3(text, 5, 0, 2)->Ok_0;
        lemma_marked3(text, 2, PON, t.1, t.2, t.0);
    }
}

proof fn lemma_daiminkan_text(naki: Seq<char>, at: int)
    requires
        daiminkan_call(naki, at) is Ok,
        is_first(encode_utf8(naki), DAIMINKAN, at),
        !encode_utf8(naki).contains(PLUS),
    ensures
        daiminkan_call(naki, at)->Ok_0.text() == encode_utf8(naki),
{
    let text = encode_utf8(naki);
    if at == 0 {
        lemma_tokens4(text, 1, 3, 5, 7);
        let t = tiles4(text, 1, 3, 5, 7)->Ok_0;
        lemma_marked4(text, 0, DAIMINKAN, t.0, t.1, t.2, t.3);
    } else if at == 2 {
        lemma_tokens4(text, 3, 0, 5, 7);
        let t = tiles4(text, 3, 0, 5, 7)->Ok_0;
        lemma_marked4(text, 1, DAIMINKAN, t.1, t.0, t.2, t.3);
    } else {
        lemma_tokens4(text, 7, 0, 2, 4);
        let t = tiles4(text, 7, 0, 2, 4)->Ok_0;
        lemma_marked4(text, 3, DAIMINKAN, t.1, t.2, t.3, t.0);
    }
}

proof fn lemma_kakan_text(naki: Seq<char>, at: int)
    requires
        kakan_call(naki, at) is Ok,
        is_first(encode_utf8(naki), KAKAN, at),
        !encode_utf8(naki).contains(PLUS),
    ensures
        kakan_call(naki, at)->Ok_0.text() == encode_utf8(naki),
{
    let text = encode_utf8(naki);
    if at == 0 {
        lemma_tokens4(text, 1, 3, 5, 7);
        let t = tiles4(text, 1, 3, 5, 7)->Ok_0;
        lemma_marked4(text, 0, KAKAN, t.0, t.1, t.2, t.3);
    } else if at == 2 {
        lemma_tokens4(text, 3, 0, 5, 7);
        let t = tiles4(text, 3, 0, 5, 7)->Ok_0;
        lemma_marked4(text, 1, KAKAN, t.1, t.0, t.2, t.3);
    } else {
        lemma_tokens4(text, 5, 0, 2, 7);
        let t = tiles4(text, 5, 0, 2, 7)->Ok_0;
        lemma_marked4(text, 2, KAKAN, t.1, t.2, t.0, t.3);
    }
}

proof fn lemma_ankan_text(naki: Seq<char>)
    requires
        ankan_call(naki) is Ok,
        encode_utf8(naki).contains(ANKAN),
        !encode_utf8(naki).contains(PLUS),
    ensures
        ankan_call(naki)->Ok_0.text() == encode_utf8(naki),
{
    let text = encode_utf8(naki);
    lemma_tokens4(text, 7, 0, 2, 4);
    let t = tiles4(text, 7, 0, 2, 4)->Ok_0;
    let at = choose|i: int| 0 <= i < text.len() && text[i] == ANKAN;
    assert(at == 6);
    lemma_marked4(text, 3, ANKAN, t.1, t.2, t.3, t.0);
}

proof fn lemma_reach_text(naki: Seq<char>)
    requires
        reach_call(naki) is Ok,
        !encode_utf8(naki).contains(PLUS),
    ensures
        reach_call(naki)->Ok_0.text() == encode_utf8(naki),
{
    let text = encode_utf8(naki);
    if text[1] == SIX && text[2] == ZERO {
        assert(seq![REACH] + seq![SIX, ZERO] =~= text);
    } else {
        lemma_token(text, 1);
        let pai = tile_at(text, 1)->Ok_0;
        let written = token(pai);
        assert(written.len() == 2 && written[0] == text[1] && written[1] == text[2]);
        assert(seq![REACH] + written =~= text);
    }
}

/// A call string of a take sequence says a chi, a pon or a called kan, and
/// one of a discard sequence an added kan, a concealed kan or a reach.
pub proof fn lemma_call_kinds(naki: Seq<char>)
    ensures
        take_call(naki) matches Ok(call) ==> call is Chi || call is Pon || call is Daiminkan,
        discard_call(naki) matches Ok(call) ==> call is Kakan || call is Ankan || call is Reach,
{
    reveal(take_call);
    reveal(discard_call);
}

/// A call string of a take sequence that decodes, and whose tokens are
/// written without a plus sign, is the call string that writes the call
/// it decodes to.
pub proof fn lemma_take_call_text(naki: Seq<char>)
    requires
        take_call(naki) is Ok,
        !encode_utf8(naki).contains(PLUS),
    ensures
        take_call(naki)->Ok_0.text() == encode_utf8(naki),
{
    reveal(take_call);
    let text = encode_utf8(naki);
    if text.contains(CHI) {
        lemma_chi_text(naki);
    } else {
        lemma_marker_first(text, PON);
        lemma_marker_first(text, DAIMINKAN);
        match marker(text, PON) {
            Some(at) => {
                lemma_pon_text(naki, at);
            },
            None => {
                lemma_daiminkan_text(naki, marker(text, DAIMINKAN)->Some_0);
            },
        }
    }
}

/// A call string of a discard sequence that decodes, and whose tokens are
/// written without a plus sign, is the call string that writes the call
/// it decodes to.
pub proof fn lemma_discard_call_text(naki: Seq<char>)
    requires
        discard_call(naki) is Ok,
        !encode_utf8(naki).contains(PLUS),
    ensures
        discard_call(naki)->Ok_0.text() == encode_utf8(naki),
{
    reveal(discard_call);
    let text = encode_utf8(naki);
    lemma_marker_first(text, KAKAN);
    match marker(text, KAKAN) {
        Some(at) => {
            lemma_kakan_text(naki, at);
        },
        None => {
            if text.contains(ANKAN) {
                lemma_ankan_text(naki);
            } else {
                lemma_reach_text(naki);
            }
        },
    }
}

} // verus!
