//! Units of the byte-oriented variable-width encoding.

use crate::encoding::codec::{display_width, grapheme_clusters, graphemes, str_width};
use crate::encoding::is_printable_ascii;
use crate::encoding::unit::{
    display_unit, displayable, placeholder, placeholder_unit, shown_unit, unit, DecodedChar,
    DecodedUnit,
};
use vstd::prelude::*;
use vstd::slice::slice_subrange;
use vstd::utf8::{decode_utf8, valid_utf8};

verus! {

/// The number of bytes that a sequence takes by its leading byte: one to
/// four, or zero where the byte cannot lead a sequence.
pub open spec fn utf8_len(first_byte: u8) -> nat {
    if first_byte <= 0x7F {
        1
    } else if 0xC0 <= first_byte <= 0xDF {
        2
    } else if 0xE0 <= first_byte <= 0xEF {
        3
    } else if 0xF0 <= first_byte <= 0xF7 {
        4
    } else {
        0
    }
}

/// The unit that starts at offset `at` of `bytes`. Where the leading
/// byte announces a sequence that lies within the buffer and is well-formed,
/// the unit shows the first grapheme cluster of its text for the whole
/// sequence; else it is a placeholder for the one byte.
pub open spec fn utf8_unit(bytes: Seq<u8>, at: int) -> DecodedUnit {
    let len = utf8_len(bytes[at]);
    let span = bytes.subrange(at, at + len);
    if len == 0 || at + len > bytes.len() || !valid_utf8(span) {
        placeholder(1)
    } else {
        let cluster = grapheme_clusters(decode_utf8(span))[0];
        shown_unit(cluster, display_width(cluster), len)
    }
}

/// The number of bytes that a sequence takes by its leading byte.
pub fn utf8_char_len(first_byte: u8) -> (len: usize)
    ensures
        len == utf8_len(first_byte),
{
    if first_byte <= 0x7F {
        1
    } else if 0xC0 <= first_byte && first_byte <= 0xDF {
        2
    } else if 0xE0 <= first_byte && first_byte <= 0xEF {
        3
    } else if 0xF0 <= first_byte && first_byte <= 0xF7 {
        4
    } else {
        0
    }
}

/// `std::str::from_utf8`: the text of `bytes` where they are well-formed
/// UTF-8, nothing where they are not.
#[verifier::external_body]
fn utf8_text(bytes: &[u8]) -> (text: Option<&str>)
    ensures
        text is Some <==> valid_utf8(bytes@),
        text matches Some(decoded) ==> decoded@ == decode_utf8(bytes@),
{
    std::str::from_utf8(bytes).ok()
}

proof fn lemma_ascii_byte(byte: u8)
    by (bit_vector)
    requires
        byte <= 0x7F,
    ensures
        (byte & 0x7F) as u32 == byte as u32,
{
}

/// A single byte below 0x80 is well-formed and decodes to the character
/// with the byte's value.
proof fn lemma_ascii_span(span: Seq<u8>)
    requires
        span.len() == 1,
        span[0] <= 0x7F,
    ensures
        valid_utf8(span),
        decode_utf8(span) == seq![span[0] as char],
{
    lemma_ascii_byte(span[0]);
    let rest = vstd::utf8::pop_first_scalar(span);
    assert(rest =~= Seq::<u8>::empty());
    assert(valid_utf8(rest));
    assert(valid_utf8(span));
    assert(decode_utf8(rest) =~= Seq::<char>::empty());
    assert(decode_utf8(span) =~= seq![span[0] as char]);
}

/// The unit that starts at offset `at` of `bytes`. A printable ASCII
/// byte always decodes to itself, one byte long and one column wide.
pub fn utf8_unit_at(bytes: &[u8], at: usize) -> (entry: DecodedChar)
    requires
        at < bytes@.len(),
    ensures
        entry@ == utf8_unit(bytes@, at as int),
        is_printable_ascii(bytes@[at as int]) ==> entry@ == unit(
            seq![bytes@[at as int] as char],
            1,
            1,
        ),
{
    let len = utf8_char_len(bytes[at]);
    if len == 0 || len > bytes.len() - at {
        return placeholder_unit(1);
    }
    let span = slice_subrange(bytes, at, at + len);
    proof {
        if bytes@[at as int] <= 0x7F {
            lemma_ascii_span(span@);
        }
    }
    match utf8_text(span) {
        Some(text) => {
            assert(text@.len() > 0);
            let clusters = graphemes(text);
            let cluster = clusters[0];
            assert(cluster@ == clusters.deep_view()[0]);
            let width = str_width(cluster);
            let entry = display_unit(cluster, width, len);
            proof {
                if is_printable_ascii(bytes@[at as int]) {
                    assert(cluster@ =~= text@);
                    assert(displayable(cluster@));
                }
            }
            entry
        },
        None => placeholder_unit(1),
    }
}

} // verus!
