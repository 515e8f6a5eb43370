//! Units of the two-byte encodings with surrogate pairs.

use crate::encoding::codec::{display_width, str_width};
use crate::encoding::unit::{
    display_unit, displayable, is_displayable, placeholder, placeholder_unit, shown_unit, unit,
    DecodedChar, DecodedUnit,
};
use crate::encoding::CharEncoding;
use vstd::prelude::*;
use vstd::utf8::{char_u32_cast, is_scalar};

verus! {

/// Whether an encoding stores the low byte of a code unit first.
pub open spec fn is_little_endian(encoding: CharEncoding) -> bool {
    encoding == CharEncoding::Utf16Le
}

/// The 16-bit code unit whose two bytes start at offset `at`.
pub open spec fn code_unit(bytes: Seq<u8>, at: int, little_endian: bool) -> nat {
    if little_endian {
        (bytes[at] + 256 * bytes[at + 1]) as nat
    } else {
        (256 * bytes[at] + bytes[at + 1]) as nat
    }
}

/// Whether a code unit is the first half of a surrogate pair.
pub open spec fn is_high_surrogate(value: nat) -> bool {
    0xD800 <= value <= 0xDBFF
}

/// Whether a code unit is the second half of a surrogate pair.
pub open spec fn is_low_surrogate(value: nat) -> bool {
    0xDC00 <= value <= 0xDFFF
}

/// The code point that a surrogate pair stands for: ten bits from each
/// half, above the basic plane.
pub open spec fn surrogate_code_point(high: nat, low: nat) -> nat {
    (0x10000 + (high - 0xD800) * 0x400 + (low - 0xDC00)) as nat
}

/// Whether a surrogate pair starts at offset `at`: a high surrogate there
/// and a low surrogate right behind it, both within the buffer.
pub open spec fn pair_at(bytes: Seq<u8>, at: int, little_endian: bool) -> bool {
    &&& at + 3 < bytes.len()
    &&& is_high_surrogate(code_unit(bytes, at, little_endian))
    &&& is_low_surrogate(code_unit(bytes, at + 2, little_endian))
}

/// A width of one column at least.
pub open spec fn at_least_one(width: nat) -> nat {
    if width >= 1 {
        width
    } else {
        1
    }
}

/// The unit that starts at offset `at` of `bytes`. A surrogate pair
/// makes one unit of four bytes that shows the character of the combined
/// code point. Any other code unit makes a unit of two bytes: its character
/// where that can be drawn, a placeholder where it cannot or where the code
/// unit is a lone surrogate. A last byte without a partner is a placeholder
/// of one byte.
pub open spec fn utf16_unit(bytes: Seq<u8>, at: int, little_endian: bool) -> DecodedUnit {
    if at + 1 >= bytes.len() {
        placeholder(1)
    } else {
        let first = code_unit(bytes, at, little_endian);
        if pair_at(bytes, at, little_endian) {
            let second = code_unit(bytes, at + 2, little_endian);
            let text = seq![surrogate_code_point(first, second) as char];
            unit(text, 4, at_least_one(display_width(text)))
        } else if 0xD800 <= first <= 0xDFFF {
            placeholder(2)
        } else {
            let text = seq![first as char];
            if displayable(text) {
                shown_unit(text, display_width(text), 2)
            } else {
                placeholder(2)
            }
        }
    }
}

/// A surrogate pair always makes exactly one unit of four bytes, and the
/// unit shows the character whose code point is the pair's combination:
/// `0x10000 + (high - 0xD800) * 0x400 + (low - 0xDC00)`, a code point above
/// the basic plane.
pub proof fn lemma_surrogate_pair_unit(bytes: Seq<u8>, at: int, little_endian: bool)
    requires
        0 <= at,
        pair_at(bytes, at, little_endian),
    ensures
        ({
            let high = code_unit(bytes, at, little_endian);
            let low = code_unit(bytes, at + 2, little_endian);
            let code_point = surrogate_code_point(high, low);
            let entry = utf16_unit(bytes, at, little_endian);
            &&& 0x10000 <= code_point <= 0x10FFFF
            &&& (code_point as char) as nat == code_point
            &&& entry.byte_len == 4
            &&& entry.display == seq![code_point as char]
            &&& entry.width >= 1
        }),
{
}

/// `char::from_u32`: the character with the code point `value`, which
/// exists unless the value is a surrogate or lies above the last code point.
#[verifier::external_body]
fn char_from_u32(value: u32) -> (ch: Option<char>)
    ensures
        ch is Some <==> is_scalar(value),
        ch matches Some(c) ==> c as u32 == value,
{
    char::from_u32(value)
}

/// The text that holds one character.
fn char_text(ch: char) -> (text: String)
    ensures
        text@ == seq![ch],
{
    let mut text = String::new();
    text.push(ch);
    assert(text@ =~= seq![ch]);
    text
}

/// The code unit whose two bytes start at offset `at`.
fn read_code_unit(bytes: &[u8], at: usize, little_endian: bool) -> (value: u32)
    requires
        at + 1 < bytes@.len(),
    ensures
        value == code_unit(bytes@, at as int, little_endian),
        value <= 0xFFFF,
{
    let first = bytes[at] as u32;
    let second = bytes[at + 1] as u32;
    if little_endian {
        first + 256 * second
    } else {
        256 * first + second
    }
}

/// The unit that starts at offset `at` of `bytes`.
pub fn utf16_unit_at(bytes: &[u8], at: usize, little_endian: bool) -> (entry: DecodedChar)
    requires
        at < bytes@.len(),
    ensures
        entry@ == utf16_unit(bytes@, at as int, little_endian),
{
    let len = bytes.len();
    if len - at < 2 {
        return placeholder_unit(1);
    }
    let first = read_code_unit(bytes, at, little_endian);
    if 0xD800 <= first && first <= 0xDBFF && len - at >= 4 {
        let second = read_code_unit(bytes, at + 2, little_endian);
        if 0xDC00 <= second && second <= 0xDFFF {
            let code_point = 0x10000 + (first - 0xD800) * 0x400 + (second - 0xDC00);
            match char_from_u32(code_point) {
                Some(ch) => {
                    let text = char_text(ch);
                    let width = str_width(text.as_str());
                    assert(displayable(text@));
                    proof {
                        char_u32_cast(ch, code_point);
                    }
                    assert(ch == surrogate_code_point(first as nat, second as nat) as char);
                    return display_unit(text.as_str(), width, 4);
                },
                None => {},
            }
        }
    }
    match char_from_u32(first) {
        Some(ch) => {
            let text = char_text(ch);
            proof {
                char_u32_cast(ch, first);
            }
            assert(ch == (first as nat) as char);
            if is_displayable(text.as_str()) {
                let width = str_width(text.as_str());
                display_unit(text.as_str(), width, 2)
            } else {
                placeholder_unit(2)
            }
        },
        None => placeholder_unit(2),
    }
}

} // verus!
