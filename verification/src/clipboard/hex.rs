//! Bytes as typed hexadecimal text: three ways to write bytes out, and one
//! permissive way to read them back.

use crate::clipboard::ClipboardError;
use crate::radix::{hex_digit_value, hex_pair, push_hex_pair};
use vstd::prelude::*;

verus! {

/// The ways to write bytes as hexadecimal text.
#[derive(Debug, Clone, Copy, PartialEq, Eq, Structural)]
pub enum HexFormat {
    /// Upper-case pairs separated by spaces: `48 65 6C`.
    Spaced,
    /// Upper-case pairs without separator: `48656C`.
    Continuous,
    /// A brace-delimited list of prefixed pairs: `{ 0x48, 0x65, 0x6C }`.
    CArray,
}

impl Default for HexFormat {
    fn default() -> (format: Self)
        ensures
            format == HexFormat::Spaced,
    {
        HexFormat::Spaced
    }
}

/// The hexadecimal pairs of `bytes`, each behind `lead`, with `separator`
/// between one byte and the next.
pub open spec fn joined(bytes: Seq<u8>, lead: Seq<char>, separator: Seq<char>) -> Seq<char>
    decreases bytes.len(),
{
    if bytes.len() == 0 {
        Seq::empty()
    } else if bytes.len() == 1 {
        lead + hex_pair(bytes[0])
    } else {
        lead + hex_pair(bytes[0]) + separator + joined(bytes.drop_first(), lead, separator)
    }
}

/// The text of `bytes` in `format`.
pub open spec fn hex_text(bytes: Seq<u8>, format: HexFormat) -> Seq<char> {
    match format {
        HexFormat::Spaced => joined(bytes, Seq::empty(), seq![' ']),
        HexFormat::Continuous => joined(bytes, Seq::empty(), Seq::empty()),
        HexFormat::CArray => seq!['{', ' '] + joined(bytes, seq!['0', 'x'], seq![',', ' '])
            + seq![' ', '}'],
    }
}

/// `text` without any occurrence of the character `removed`.
pub open spec fn strip_char(text: Seq<char>, removed: char) -> Seq<char>
    decreases text.len(),
{
    if text.len() == 0 {
        Seq::empty()
    } else if text[0] == removed {
        strip_char(text.drop_first(), removed)
    } else {
        seq![text[0]] + strip_char(text.drop_first(), removed)
    }
}

/// `text` without the occurrences of the two-character sequence `first`,
/// `second`, found from left to right without overlap.
pub open spec fn strip_pair(text: Seq<char>, first: char, second: char) -> Seq<char>
    decreases text.len(),
{
    if text.len() == 0 {
        Seq::empty()
    } else if text.len() >= 2 && text[0] == first && text[1] == second {
        strip_pair(text.skip(2), first, second)
    } else {
        seq![text[0]] + strip_pair(text.drop_first(), first, second)
    }
}

/// `text` without its delimiters: first the spaces go, then the commas,
/// then each `0x`, then each `0X`.
pub open spec fn without_delimiters(text: Seq<char>) -> Seq<char> {
    strip_pair(strip_pair(strip_char(strip_char(text, ' '), ','), '0', 'x'), '0', 'X')
}

/// The hexadecimal digits of `text`, in order; every other character is
/// dropped.
pub open spec fn hex_digits_of(text: Seq<char>) -> Seq<char>
    decreases text.len(),
{
    if text.len() == 0 {
        Seq::empty()
    } else if hex_digit_value(text[0]) is Some {
        seq![text[0]] + hex_digits_of(text.drop_first())
    } else {
        hex_digits_of(text.drop_first())
    }
}

/// The digits that are read from `text`: what is left of it once the
/// delimiters and then every character that is no hexadecimal digit are
/// gone. Braces go in the second step.
pub open spec fn cleaned(text: Seq<char>) -> Seq<char> {
    hex_digits_of(without_delimiters(text))
}

/// The byte that two hexadecimal digits stand for.
pub open spec fn pair_value(high: char, low: char) -> u8 {
    (16 * hex_digit_value(high).unwrap() + hex_digit_value(low).unwrap()) as u8
}

/// The bytes that a sequence of digit pairs stands for.
pub open spec fn bytes_of_pairs(digits: Seq<char>) -> Seq<u8>
    decreases digits.len(),
{
    if digits.len() < 2 {
        Seq::empty()
    } else {
        seq![pair_value(digits[0], digits[1])] + bytes_of_pairs(digits.skip(2))
    }
}

/// The bytes that `text` reads as, or `None` where the number of its
/// digits is odd.
pub open spec fn parse_hex(text: Seq<char>) -> Option<Seq<u8>> {
    let digits = cleaned(text);
    if digits.len() % 2 == 0 {
        Some(bytes_of_pairs(digits))
    } else {
        None
    }
}

/// What stands between one byte and the next in a format.
pub open spec fn separator_of(format: HexFormat) -> Seq<char> {
    match format {
        HexFormat::Spaced => seq![' '],
        HexFormat::Continuous => Seq::empty(),
        HexFormat::CArray => seq![',', ' '],
    }
}

/// What stands in front of each byte in a format.
pub open spec fn lead_of(format: HexFormat) -> Seq<char> {
    match format {
        HexFormat::CArray => seq!['0', 'x'],
        _ => Seq::empty(),
    }
}

/// What is still to be written once the first `done` bytes are out.
spec fn still_to_write(bytes: Seq<u8>, format: HexFormat, done: int) -> Seq<char> {
    let rest = joined(bytes.skip(done), lead_of(format), separator_of(format));
    if 0 < done < bytes.len() {
        separator_of(format) + rest
    } else {
        rest
    }
}

/// The text of `bytes` in `format`.
pub fn bytes_to_hex(bytes: &[u8], format: HexFormat) -> (text: String)
    ensures
        text@ == hex_text(bytes@, format),
{
    let ghost lead = lead_of(format);
    let ghost separator = separator_of(format);
    let ghost body = joined(bytes@, lead, separator);
    let mut text = String::new();
    if format == HexFormat::CArray {
        text.push('{');
        text.push(' ');
    }
    let ghost opening = text@;
    assert(bytes@.skip(0) =~= bytes@);
    let total = bytes.len();
    let mut done: usize = 0;
    while done < total
        invariant
            total == bytes@.len(),
            done <= total,
            lead == lead_of(format),
            separator == separator_of(format),
            body == joined(bytes@, lead, separator),
            text@ + still_to_write(bytes@, format, done as int) == opening + body,
        decreases total - done,
    {
        let ghost before = text@;
        if done > 0 {
            match format {
                HexFormat::Spaced => {
                    text.push(' ');
                },
                HexFormat::Continuous => {},
                HexFormat::CArray => {
                    text.push(',');
                    text.push(' ');
                },
            }
        }
        if format == HexFormat::CArray {
            text.push('0');
            text.push('x');
        }
        push_hex_pair(&mut text, bytes[done]);
        proof {
            let rest = bytes@.skip(done as int);
            assert(rest.drop_first() =~= bytes@.skip(done + 1));
            assert(rest[0] == bytes@[done as int]);
            let written = (if done > 0 {
                separator
            } else {
                Seq::empty()
            }) + lead + hex_pair(bytes@[done as int]);
            assert(text@ =~= before + written);
            assert(before + still_to_write(bytes@, format, done as int) =~= text@ + still_to_write(
                bytes@,
                format,
                done + 1,
            ));
        }
        done = done + 1;
    }
    assert(text@ + still_to_write(bytes@, format, total as int) =~= text@);
    if format == HexFormat::CArray {
        text.push(' ');
        text.push('}');
    }
    assert(text@ =~= hex_text(bytes@, format));
    text
}

/// The characters of `text`.
fn chars_of(text: &str) -> (chars: Vec<char>)
    ensures
        chars@ == text@,
{
    let mut chars: Vec<char> = Vec::new();
    for ch in it: text.chars()
        invariant
            it.seq() == text@,
            chars@ == text@.take(it.index() as int),
    {
        chars.push(ch);
        assert(chars@ =~= text@.take(it.index() + 1));
    }
    assert(text@.take(text@.len() as int) =~= text@);
    chars
}

/// `text` without any occurrence of the character `removed`.
fn without_char(text: &Vec<char>, removed: char) -> (kept: Vec<char>)
    ensures
        kept@ == strip_char(text@, removed),
{
    let mut kept: Vec<char> = Vec::new();
    let mut at: usize = 0;
    assert(text@.skip(0) =~= text@);
    while at < text.len()
        invariant
            at <= text@.len(),
            kept@ + strip_char(text@.skip(at as int), removed) == strip_char(text@, removed),
        decreases text@.len() - at,
    {
        let ghost before = kept@;
        let ch = text[at];
        if ch != removed {
            kept.push(ch);
        }
        proof {
            let rest = text@.skip(at as int);
            assert(rest.drop_first() =~= text@.skip(at + 1));
            assert(before + strip_char(rest, removed) =~= kept@ + strip_char(
                text@.skip(at + 1),
                removed,
            ));
        }
        at = at + 1;
    }
    assert(kept@ + strip_char(text@.skip(at as int), removed) =~= kept@);
    kept
}

/// `text` without the occurrences of the sequence `first`, `second`.
fn without_pair(text: &Vec<char>, first: char, second: char) -> (kept: Vec<char>)
    ensures
        kept@ == strip_pair(text@, first, second),
{
    let mut kept: Vec<char> = Vec::new();
    let total = text.len();
    let mut at: usize = 0;
    assert(text@.skip(0) =~= text@);
    while at < total
        invariant
            total == text@.len(),
            at <= total,
            kept@ + strip_pair(text@.skip(at as int), first, second) == strip_pair(
                text@,
                first,
                second,
            ),
        decreases total - at,
    {
        let ghost before = kept@;
        let ghost rest = text@.skip(at as int);
        if total - at >= 2 && text[at] == first && text[at + 1] == second {
            proof {
                assert(rest.skip(2) =~= text@.skip(at + 2));
            }
            at = at + 2;
        } else {
            kept.push(text[at]);
            proof {
                assert(rest.drop_first() =~= text@.skip(at + 1));
                assert(before + strip_pair(rest, first, second) =~= kept@ + strip_pair(
                    text@.skip(at + 1),
                    first,
                    second,
                ));
            }
            at = at + 1;
        }
    }
    assert(kept@ + strip_pair(text@.skip(at as int), first, second) =~= kept@);
    kept
}

/// The first phase of reading: `text` without its delimiters.
pub fn strip_delimiters(text: &str) -> (kept: Vec<char>)
    ensures
        kept@ == without_delimiters(text@),
{
    let chars = chars_of(text);
    let chars = without_char(&chars, ' ');
    let chars = without_char(&chars, ',');
    let chars = without_pair(&chars, '0', 'x');
    without_pair(&chars, '0', 'X')
}

/// The value of a hexadecimal digit, `None` for any other character.
pub fn digit_value(ch: char) -> (value: Option<u8>)
    ensures
        match value {
            Some(v) => hex_digit_value(ch) == Some(v as nat) && v < 16,
            None => hex_digit_value(ch) is None,
        },
{
    if '0' <= ch && ch <= '9' {
        Some((ch as u32 - 0x30) as u8)
    } else if 'A' <= ch && ch <= 'F' {
        Some((ch as u32 - 0x37) as u8)
    } else if 'a' <= ch && ch <= 'f' {
        Some((ch as u32 - 0x57) as u8)
    } else {
        None
    }
}

/// The second phase of reading: the hexadecimal digits among `text`.
pub fn hex_digits(text: &Vec<char>) -> (digits: Vec<char>)
    ensures
        digits@ == hex_digits_of(text@),
{
    let mut digits: Vec<char> = Vec::new();
    let mut at: usize = 0;
    assert(text@.skip(0) =~= text@);
    while at < text.len()
        invariant
            at <= text@.len(),
            digits@ + hex_digits_of(text@.skip(at as int)) == hex_digits_of(text@),
        decreases text@.len() - at,
    {
        let ghost before = digits@;
        let ch = text[at];
        if digit_value(ch).is_some() {
            digits.push(ch);
        }
        proof {
            let rest = text@.skip(at as int);
            assert(rest.drop_first() =~= text@.skip(at + 1));
            assert(before + hex_digits_of(rest) =~= digits@ + hex_digits_of(text@.skip(at + 1)));
        }
        at = at + 1;
    }
    assert(digits@ + hex_digits_of(text@.skip(at as int)) =~= digits@);
    digits
}

/// Every character that `hex_digits_of` keeps is a hexadecimal digit.
pub proof fn lemma_hex_digits_are_digits(text: Seq<char>, at: int)
    requires
        0 <= at < hex_digits_of(text).len(),
    ensures
        hex_digit_value(hex_digits_of(text)[at]) is Some,
    decreases text.len(),
{
    if text.len() > 0 {
        if hex_digit_value(text[0]) is Some {
            if at > 0 {
                lemma_hex_digits_are_digits(text.drop_first(), at - 1);
            }
        } else {
            lemma_hex_digits_are_digits(text.drop_first(), at);
        }
    }
}

/// The bytes that `hex` reads as. Spaces, commas, `0x` and `0X` are taken
/// out first, in this order; then every character that is no hexadecimal
/// digit is dropped, braces among them. What is left must be an even number
/// of digits, and each pair of them gives one byte. Text that holds other
/// characters is read without them: that is meant, and no error.
pub fn hex_to_bytes(hex: &str) -> (result: Result<Vec<u8>, ClipboardError>)
    ensures
        match parse_hex(hex@) {
            Some(bytes) => result matches Ok(read) && read@ == bytes,
            None => result matches Err(ClipboardError::InvalidHex(detail)) && detail@
                == "Hex string must have even length"@,
        },
{
    let stripped = strip_delimiters(hex);
    let digits = hex_digits(&stripped);
    let total = digits.len();
    if total % 2 != 0 {
        return Err(ClipboardError::InvalidHex("Hex string must have even length".to_owned()));
    }
    let mut bytes: Vec<u8> = Vec::new();
    let mut at: usize = 0;
    assert(digits@.skip(0) =~= digits@);
    while at < total
        invariant
            total == digits@.len(),
            total % 2 == 0,
            at % 2 == 0,
            at <= total,
            digits@ == hex_digits_of(stripped@),
            bytes@ + bytes_of_pairs(digits@.skip(at as int)) == bytes_of_pairs(digits@),
        decreases total - at,
    {
        let ghost before = bytes@;
        proof {
            lemma_hex_digits_are_digits(stripped@, at as int);
            lemma_hex_digits_are_digits(stripped@, at + 1);
        }
        let high = digit_value(digits[at]);
        let low = digit_value(digits[at + 1]);
        match (high, low) {
            (Some(high), Some(low)) => {
                bytes.push(16 * high + low);
            },
            _ => {
                assert(false);
            },
        }
        proof {
            let rest = digits@.skip(at as int);
            assert(rest.skip(2) =~= digits@.skip(at + 2));
            assert(before + bytes_of_pairs(rest) =~= bytes@ + bytes_of_pairs(digits@.skip(at + 2)));
        }
        at = at + 2;
    }
    assert(bytes@ + bytes_of_pairs(digits@.skip(at as int)) =~= bytes@);
    Ok(bytes)
}

} // verus!
