//! Tile tokens: the bytes that write the numeric code of a tile.

use crate::pai::Pai;
use vstd::prelude::*;
use vstd::utf8::*;

verus! {

/// The plus sign.
pub const PLUS: u8 = 43;

/// The digit zero.
pub const ZERO: u8 = 48;

/// The digit nine.
pub const NINE: u8 = 57;

/// The byte is a decimal digit.
pub open spec fn is_digit(b: u8) -> bool {
    ZERO <= b <= NINE
}

/// Every byte of the text is a decimal digit.
pub open spec fn all_digits(text: Seq<u8>) -> bool {
    forall|i: int| 0 <= i < text.len() ==> is_digit(#[trigger] text[i])
}

/// The number that a string of decimal digits writes.
pub open spec fn decimal(digits: Seq<u8>) -> int
    decreases digits.len(),
{
    if digits.len() == 0 {
        0
    } else {
        10 * decimal(digits.drop_last()) + (digits.last() - ZERO)
    }
}

/// The byte that a text writes in decimal: an optional plus sign, then one
/// or more digits, with a value that fits a byte.
pub open spec fn number(text: Seq<u8>) -> Option<u8> {
    let digits = if text.len() > 0 && text[0] == PLUS {
        text.skip(1)
    } else {
        text
    };
    if digits.len() > 0 && all_digits(digits) && decimal(digits) <= 255 {
        Some(decimal(digits) as u8)
    } else {
        None
    }
}

/// The tile that a token names: the tile whose code the token writes.
pub open spec fn token_pai(token: Seq<u8>) -> Option<Pai> {
    match number(token) {
        Some(code) => Pai::from_code(code),
        None => None,
    }
}

/// The text that `String::from_utf8_lossy` makes of a byte string: the
/// text that the bytes encode, with a replacement character wherever they
/// encode none.
pub uninterp spec fn utf8_lossy(bytes: Seq<u8>) -> Seq<char>;

/// Calls `String::from_utf8_lossy` and owns what it returns. The contract
/// is taken on trust from what std says of that function: the text depends
/// on the bytes alone, and bytes that are well-formed UTF-8 are decoded as
/// they stand.
#[verifier::external_body]
pub(crate) fn lossy_text(bytes: &[u8]) -> (text: String)
    ensures
        text@ == utf8_lossy(bytes@),
        valid_utf8(bytes@) ==> text@ == decode_utf8(bytes@),
{
    String::from_utf8_lossy(bytes).into_owned()
}

/// Digits only add to the number written so far.
proof fn lemma_decimal_grows(digits: Seq<u8>, k: int)
    requires
        0 <= k <= digits.len(),
        all_digits(digits),
    ensures
        0 <= decimal(digits.take(k)) <= decimal(digits),
    decreases digits.len() - k,
{
    if k == digits.len() {
        assert(digits.take(k) =~= digits);
        lemma_decimal_nonnegative(digits);
    } else {
        lemma_decimal_grows(digits, k + 1);
        assert(digits.take(k + 1).drop_last() =~= digits.take(k));
        lemma_decimal_nonnegative(digits.take(k));
        assert(is_digit(digits.take(k + 1).last()));
    }
}

/// Digits write no negative number.
proof fn lemma_decimal_nonnegative(digits: Seq<u8>)
    requires
        all_digits(digits),
    ensures
        0 <= decimal(digits),
    decreases digits.len(),
{
    if digits.len() > 0 {
        lemma_decimal_nonnegative(digits.drop_last());
        assert(is_digit(digits.last()));
    }
}

/// Reads a byte written in decimal.
pub fn parse_number(text: &[u8]) -> (n: Option<u8>)
    ensures
        n == number(text@),
{
    let len: usize = text.len();
    let start: usize = if len > 0 && text[0] == PLUS {
        1
    } else {
        0
    };
    if start == len {
        return None;
    }
    let ghost digits = text@.skip(start as int);
    let mut value: u16 = 0;
    let mut i: usize = start;
    while i < len
        invariant
            start <= i <= len,
            start < len,
            len == text@.len(),
            start == if text@.len() > 0 && text@[0] == PLUS {
                1int
            } else {
                0int
            },
            digits == text@.skip(start as int),
            all_digits(digits.take(i - start)),
            value == decimal(digits.take(i - start)),
            value <= 255,
        decreases len - i,
    {
        let b: u8 = text[i];
        assert(b == digits[i - start]);
        if b < ZERO || b > NINE {
            return None;
        }
        let next: u16 = value * 10 + (b - ZERO) as u16;
        proof {
            let longer = digits.take(i - start + 1);
            assert(longer.drop_last() =~= digits.take(i - start));
            assert(longer.last() == b);
            assert(decimal(longer) == next);
            assert forall|j: int| 0 <= j < longer.len() implies is_digit(#[trigger] longer[j]) by {
                if j < i - start {
                    assert(longer[j] == digits.take(i - start)[j]);
                }
            }
        }
        if next > 255 {
            proof {
                assert(start == 0 ==> digits =~= text@);
                if all_digits(digits) {
                    lemma_decimal_grows(digits, i - start + 1);
                }
            }
            return None;
        }
        value = next;
        i += 1;
    }
    assert(digits.take(len - start) =~= digits);
    assert(start == 0 ==> digits =~= text@);
    Some(value as u8)
}

} // verus!
