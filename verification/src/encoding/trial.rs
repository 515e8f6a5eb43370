//! Units of the multi-byte encodings whose boundaries cannot be told from
//! a leading byte alone. A unit is found by trial: candidate spans of one to
//! four bytes are decoded in turn, and the first span is taken whose first
//! grapheme cluster encodes back to exactly as many bytes.

use crate::encoding::codec::{
    codec_decode, codec_encode, decode_lossy, display_width, encode_lossy, grapheme_clusters,
    graphemes, str_width, MAX_CODEC_INPUT,
};
use crate::encoding::unit::{
    display_unit, placeholder, placeholder_unit, shown_unit, DecodedChar, DecodedUnit,
};
use crate::encoding::CharEncoding;
use vstd::prelude::*;
use vstd::slice::slice_subrange;
use vstd::utf8::encode_utf8;

verus! {

/// The first grapheme cluster of what the span of `len` bytes at offset
/// `at` decodes to.
pub open spec fn candidate_cluster(
    encoding: CharEncoding,
    bytes: Seq<u8>,
    at: int,
    len: int,
) -> Seq<char> {
    grapheme_clusters(codec_decode(encoding, bytes.subrange(at, at + len)).0)[0]
}

/// Whether the span of `len` bytes at offset `at` is accepted as a
/// unit: it lies within the buffer, it decodes without error to text that is
/// not empty, and the first grapheme cluster of that text encodes back to
/// exactly `len` bytes. A cluster too long to hand to the codec is never
/// accepted.
pub open spec fn candidate_accepted(
    encoding: CharEncoding,
    bytes: Seq<u8>,
    at: int,
    len: int,
) -> bool {
    let decoded = codec_decode(encoding, bytes.subrange(at, at + len));
    let cluster = candidate_cluster(encoding, bytes, at, len);
    &&& at + len <= bytes.len()
    &&& !decoded.1
    &&& decoded.0.len() > 0
    &&& encode_utf8(cluster).len() <= MAX_CODEC_INPUT
    &&& codec_encode(encoding, cluster).0.len() == len
}

/// The length of the unit that starts at offset `at`: the shortest
/// accepted candidate of one to four bytes, or zero where none is accepted.
pub open spec fn accepted_len(encoding: CharEncoding, bytes: Seq<u8>, at: int) -> nat {
    if candidate_accepted(encoding, bytes, at, 1) {
        1
    } else if candidate_accepted(encoding, bytes, at, 2) {
        2
    } else if candidate_accepted(encoding, bytes, at, 3) {
        3
    } else if candidate_accepted(encoding, bytes, at, 4) {
        4
    } else {
        0
    }
}

/// The unit that starts at offset `at` of `bytes`: the first grapheme
/// cluster of the shortest accepted candidate, or a placeholder for the one
/// byte where no candidate is accepted.
pub open spec fn trial_unit(encoding: CharEncoding, bytes: Seq<u8>, at: int) -> DecodedUnit {
    let len = accepted_len(encoding, bytes, at);
    if len == 0 {
        placeholder(1)
    } else {
        let cluster = candidate_cluster(encoding, bytes, at, len as int);
        shown_unit(cluster, display_width(cluster), len)
    }
}

/// The unit for the candidate span of `len` bytes at offset `at`, or
/// `None` where the candidate is not accepted.
fn try_candidate(encoding: CharEncoding, bytes: &[u8], at: usize, len: usize) -> (entry: Option<
    DecodedChar,
>)
    requires
        at < bytes@.len(),
        1 <= len <= 4,
        at + len <= bytes@.len(),
    ensures
        entry is Some <==> candidate_accepted(encoding, bytes@, at as int, len as int),
        entry matches Some(found) ==> {
            let cluster = candidate_cluster(encoding, bytes@, at as int, len as int);
            found@ == shown_unit(cluster, display_width(cluster), len as nat)
        },
{
    let total = bytes.len();
    assert(at + len <= total);
    let span = slice_subrange(bytes, at, at + len);
    let (text, had_errors) = decode_lossy(encoding, span);
    if had_errors || text.as_str().is_empty() {
        return None;
    }
    let clusters = graphemes(text.as_str());
    let cluster = clusters[0];
    assert(cluster@ == clusters.deep_view()[0]);
    if cluster.as_bytes().len() > MAX_CODEC_INPUT {
        return None;
    }
    let (encoded, _) = encode_lossy(encoding, cluster);
    if encoded.len() != len {
        return None;
    }
    let width = str_width(cluster);
    Some(display_unit(cluster, width, len))
}

/// The unit that starts at offset `at` of `bytes`.
pub fn trial_unit_at(encoding: CharEncoding, bytes: &[u8], at: usize) -> (entry: DecodedChar)
    requires
        at < bytes@.len(),
    ensures
        entry@ == trial_unit(encoding, bytes@, at as int),
{
    let rest = bytes.len() - at;
    let longest: usize = if rest < 4 {
        rest
    } else {
        4
    };
    let mut len: usize = 1;
    while len <= longest
        invariant
            1 <= len <= longest + 1,
            longest <= 4,
            at + longest <= bytes@.len(),
            at + longest == bytes@.len() || longest == 4,
            forall|shorter: int|
                1 <= shorter < len ==> !candidate_accepted(encoding, bytes@, at as int, shorter),
        decreases longest + 1 - len,
    {
        match try_candidate(encoding, bytes, at, len) {
            Some(entry) => {
                return entry;
            },
            None => {},
        }
        len = len + 1;
    }
    placeholder_unit(1)
}

} // verus!
