//! Text stored as UTF-16 code units.

use vstd::prelude::*;

verus! {

/// `u` is the first unit of a surrogate pair.
pub open spec fn is_high_surrogate(u: u16) -> bool {
    0xD800 <= u < 0xDC00
}

/// `u` is the second unit of a surrogate pair.
pub open spec fn is_low_surrogate(u: u16) -> bool {
    0xDC00 <= u < 0xE000
}

/// The character that the surrogate pair `high`, `low` encodes.
pub open spec fn pair_char(high: u16, low: u16) -> char {
    (0x1_0000 + (high - 0xD800) * 0x400 + (low - 0xDC00)) as char
}

/// The text that `units` encode: a unit that is no surrogate is a character
/// by itself, a high surrogate and the low surrogate after it are one
/// character, and any other surrogate makes the whole sequence invalid.
pub open spec fn decode_spec(units: Seq<u16>) -> Option<Seq<char>>
    decreases units.len(),
{
    if units.len() == 0 {
        Some(Seq::empty())
    } else if !is_high_surrogate(units[0]) && !is_low_surrogate(units[0]) {
        match decode_spec(units.skip(1)) {
            Some(rest) => Some(seq![units[0] as char] + rest),
            None => None,
        }
    } else if is_high_surrogate(units[0]) && units.len() >= 2 && is_low_surrogate(units[1]) {
        match decode_spec(units.skip(2)) {
            Some(rest) => Some(seq![pair_char(units[0], units[1])] + rest),
            None => None,
        }
    } else {
        None
    }
}

/// Calls `String::from_utf16` of the standard library. The contract says what
/// its documentation says: the result is the text that the code units
/// encode, and the call fails exactly where the units are not valid UTF-16,
/// that is, where they hold a surrogate without its partner.
#[verifier::external_body]
pub(crate) fn string_from_utf16(units: &[u16]) -> (r: Option<String>)
    ensures
        match r {
            Some(text) => decode_spec(units@) == Some(text@),
            None => decode_spec(units@) is None,
        },
{
    String::from_utf16(units).ok()
}

} // verus!
