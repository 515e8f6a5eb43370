//! The decode map of a buffer: one unit for each span of bytes, found
//! from left to right under a chosen encoding.

use crate::encoding::trial::{trial_unit, trial_unit_at};
use crate::encoding::unit::{
    covers_from, dot, placeholder, spans_partition, total_byte_len, unit, DecodedChar,
    DecodedUnit, UnitMap,
};
use crate::encoding::utf16::{is_little_endian, pair_at, utf16_unit, utf16_unit_at};
use crate::encoding::utf8::{utf8_len, utf8_unit, utf8_unit_at};
use crate::encoding::{is_printable_ascii, CharEncoding};
use vstd::prelude::*;
use vstd::utf8::valid_utf8;

verus! {

/// The unit of one byte under the single-byte encodings: a control byte
/// shows as a dot, every other byte as the character with the byte's value.
pub open spec fn single_byte_unit(byte: u8) -> DecodedUnit {
    if byte < 0x20 || byte == 0x7F {
        placeholder(1)
    } else {
        unit(seq![byte as char], 1, 1)
    }
}

/// The unit that starts at offset `at` of `bytes` under `encoding`.
pub open spec fn unit_at(bytes: Seq<u8>, encoding: CharEncoding, at: int) -> DecodedUnit {
    match encoding {
        CharEncoding::Utf8 => utf8_unit(bytes, at),
        CharEncoding::Utf16Le => utf16_unit(bytes, at, true),
        CharEncoding::Utf16Be => utf16_unit(bytes, at, false),
        CharEncoding::ShiftJis | CharEncoding::EucJp => trial_unit(encoding, bytes, at),
        CharEncoding::Iso2022Jp | CharEncoding::Ascii | CharEncoding::Latin1 => single_byte_unit(
            bytes[at],
        ),
    }
}

/// `count` slots that hold no unit.
pub open spec fn empty_slots(count: nat) -> UnitMap {
    Seq::new(count, |i: int| None::<DecodedUnit>)
}

/// The slots of one unit: the unit itself, then an empty slot for each
/// further byte of it.
pub open spec fn unit_slots(entry: DecodedUnit) -> UnitMap {
    seq![Some(entry)] + empty_slots((entry.byte_len - 1) as nat)
}

/// The part of the decode map from offset `at` on: the slots of the unit
/// that starts there, then the part from the end of that unit on.
pub open spec fn decode_from(bytes: Seq<u8>, encoding: CharEncoding, at: int) -> UnitMap
    decreases bytes.len() - at,
    via decode_from_terminates
{
    if at < 0 || at >= bytes.len() {
        Seq::empty()
    } else {
        let entry = unit_at(bytes, encoding, at);
        unit_slots(entry) + decode_from(bytes, encoding, at + entry.byte_len)
    }
}

#[via_fn]
proof fn decode_from_terminates(bytes: Seq<u8>, encoding: CharEncoding, at: int) {
    if 0 <= at < bytes.len() {
        lemma_unit_bounds(bytes, encoding, at);
    }
}

/// The decode map of `bytes` under `encoding`: for each offset, the unit
/// that starts there, if one does.
pub open spec fn decode_map(bytes: Seq<u8>, encoding: CharEncoding) -> UnitMap {
    decode_from(bytes, encoding, 0)
}

/// A unit takes one byte at least and ends within the buffer.
pub proof fn lemma_unit_bounds(bytes: Seq<u8>, encoding: CharEncoding, at: int)
    requires
        0 <= at < bytes.len(),
    ensures
        1 <= unit_at(bytes, encoding, at).byte_len,
        at + unit_at(bytes, encoding, at).byte_len <= bytes.len(),
{
}

/// The part of the decode map from an offset on has a slot for each
/// byte from there on.
pub proof fn lemma_decode_from_len(bytes: Seq<u8>, encoding: CharEncoding, at: int)
    requires
        0 <= at <= bytes.len(),
    ensures
        decode_from(bytes, encoding, at).len() == bytes.len() - at,
    decreases bytes.len() - at,
{
    if at < bytes.len() {
        lemma_unit_bounds(bytes, encoding, at);
        lemma_decode_from_len(bytes, encoding, at + unit_at(bytes, encoding, at).byte_len);
    }
}

proof fn lemma_covers_shift(front: UnitMap, back: UnitMap, from: int)
    requires
        0 <= from <= back.len(),
        covers_from(back, from),
    ensures
        covers_from(front + back, front.len() + from),
    decreases back.len() - from,
{
    let whole = front + back;
    if from < back.len() {
        let entry = back[from]->0;
        assert(whole[front.len() + from] == back[from]);
        assert forall|inner: int|
            front.len() + from < inner < front.len() + from + entry.byte_len implies (
        #[trigger] whole[inner]) is None by {
            assert(whole[inner] == back[inner - front.len()]);
        }
        lemma_covers_shift(front, back, from + entry.byte_len);
    }
}

proof fn lemma_decode_from_covers(bytes: Seq<u8>, encoding: CharEncoding, at: int)
    requires
        0 <= at <= bytes.len(),
    ensures
        covers_from(decode_from(bytes, encoding, at), 0),
    decreases bytes.len() - at,
{
    if at < bytes.len() {
        let entry = unit_at(bytes, encoding, at);
        let next = at + entry.byte_len;
        lemma_unit_bounds(bytes, encoding, at);
        lemma_decode_from_covers(bytes, encoding, next);
        lemma_decode_from_len(bytes, encoding, next);
        lemma_covers_shift(unit_slots(entry), decode_from(bytes, encoding, next), 0);
    }
}

proof fn lemma_total_add(front: UnitMap, back: UnitMap)
    ensures
        total_byte_len(front + back) == total_byte_len(front) + total_byte_len(back),
    decreases back.len(),
{
    if back.len() == 0 {
        assert(front + back =~= front);
    } else {
        assert((front + back).drop_last() =~= front + back.drop_last());
        lemma_total_add(front, back.drop_last());
    }
}

proof fn lemma_total_empty_slots(count: nat)
    ensures
        total_byte_len(empty_slots(count)) == 0,
    decreases count,
{
    if count > 0 {
        assert(empty_slots(count).drop_last() =~= empty_slots((count - 1) as nat));
        lemma_total_empty_slots((count - 1) as nat);
    }
}

proof fn lemma_decode_from_total(bytes: Seq<u8>, encoding: CharEncoding, at: int)
    requires
        0 <= at <= bytes.len(),
    ensures
        total_byte_len(decode_from(bytes, encoding, at)) == bytes.len() - at,
    decreases bytes.len() - at,
{
    if at < bytes.len() {
        let entry = unit_at(bytes, encoding, at);
        let next = at + entry.byte_len;
        lemma_unit_bounds(bytes, encoding, at);
        lemma_decode_from_total(bytes, encoding, next);
        lemma_total_add(unit_slots(entry), decode_from(bytes, encoding, next));
        lemma_total_add(seq![Some(entry)], empty_slots((entry.byte_len - 1) as nat));
        lemma_total_empty_slots((entry.byte_len - 1) as nat);
        let first = seq![Some(entry)];
        assert(first.drop_last() =~= Seq::<Option<DecodedUnit>>::empty());
        assert(total_byte_len(first.drop_last()) == 0);
        assert(first.last() == Some(entry));
        assert(total_byte_len(first) == entry.byte_len);
    } else {
        assert(decode_from(bytes, encoding, at) =~= Seq::<Option<DecodedUnit>>::empty());
    }
}

/// The spans of a decode map partition the buffer. Whatever the bytes and
/// the encoding, the map has one slot for each byte, its units follow one
/// another without gap or overlap from the first byte to the last, and their
/// byte lengths add up to the length of the buffer.
pub proof fn lemma_decode_map_partitions(bytes: Seq<u8>, encoding: CharEncoding)
    ensures
        decode_map(bytes, encoding).len() == bytes.len(),
        spans_partition(decode_map(bytes, encoding)),
        total_byte_len(decode_map(bytes, encoding)) == bytes.len(),
{
    lemma_decode_from_len(bytes, encoding, 0);
    lemma_decode_from_covers(bytes, encoding, 0);
    lemma_decode_from_total(bytes, encoding, 0);
}

/// Whether no slot of `map` from offset `from` on holds a unit.
pub open spec fn empty_from(map: Seq<Option<DecodedChar>>, from: int) -> bool {
    forall|j: int| from <= j < map.len() ==> (#[trigger] map[j]) is None
}

/// Whether a map is filled as far as offset `at`: the slots before it
/// are those of the decode map, the slots from it on are still empty.
pub open spec fn filled_to(
    map: Vec<Option<DecodedChar>>,
    bytes: Seq<u8>,
    encoding: CharEncoding,
    at: int,
) -> bool {
    &&& map@.len() == bytes.len()
    &&& 0 <= at <= bytes.len()
    &&& empty_from(map@, at)
    &&& map.deep_view().take(at) + decode_from(bytes, encoding, at) == decode_map(bytes, encoding)
}

/// Writing the unit of offset `at` into a map that is filled as far as
/// `at` fills it as far as the end of that unit.
proof fn lemma_decode_step(
    bytes: Seq<u8>,
    encoding: CharEncoding,
    at: int,
    before: Vec<Option<DecodedChar>>,
    after: Vec<Option<DecodedChar>>,
    entry: DecodedChar,
)
    requires
        at < bytes.len(),
        filled_to(before, bytes, encoding, at),
        entry@ == unit_at(bytes, encoding, at),
        after@ == before@.update(at, Some(entry)),
    ensures
        filled_to(after, bytes, encoding, at + entry.byte_len),
{
    let next = at + entry.byte_len;
    lemma_unit_bounds(bytes, encoding, at);
    assert(after.deep_view().take(next) =~= before.deep_view().take(at) + unit_slots(entry@));
    assert(after.deep_view().take(next) + decode_from(bytes, encoding, next)
        =~= before.deep_view().take(at) + decode_from(bytes, encoding, at));
}

/// A map that is filled as far as the end of the buffer is the decode
/// map.
proof fn lemma_decode_done(bytes: Seq<u8>, encoding: CharEncoding, map: Vec<Option<DecodedChar>>)
    requires
        filled_to(map, bytes, encoding, bytes.len() as int),
    ensures
        map.deep_view() == decode_map(bytes, encoding),
{
    assert(map.deep_view().take(bytes.len() as int) =~= map.deep_view());
    assert(map.deep_view() + decode_from(bytes, encoding, bytes.len() as int)
        =~= map.deep_view());
}

/// An empty map is filled as far as the first byte.
proof fn lemma_decode_start(bytes: Seq<u8>, encoding: CharEncoding, map: Vec<Option<DecodedChar>>)
    requires
        map@.len() == bytes.len(),
        empty_from(map@, 0),
    ensures
        filled_to(map, bytes, encoding, 0),
{
    assert(map.deep_view().take(0) + decode_from(bytes, encoding, 0) =~= decode_map(
        bytes,
        encoding,
    ));
}

/// The bytes of a well-formed sequence behind its leading byte are not
/// printable ASCII.
proof fn lemma_sequence_tail(bytes: Seq<u8>, at: int, inner: int)
    requires
        0 <= at < bytes.len(),
        at < inner < at + utf8_unit(bytes, at).byte_len,
    ensures
        !is_printable_ascii(bytes[inner]),
{
    let len = utf8_len(bytes[at]);
    let span = bytes.subrange(at, at + len);
    assert(valid_utf8(span));
    assert(span[inner - at] == bytes[inner]);
}

/// Fills `result` with the decode map of `bytes` under the
/// byte-oriented variable-width encoding. Every printable ASCII byte comes
/// out as a unit of its own that shows the byte's character, one byte long
/// and one column wide.
pub fn decode_utf8_for_display(bytes: &[u8], result: &mut Vec<Option<DecodedChar>>)
    requires
        old(result)@.len() == bytes@.len(),
        empty_from(old(result)@, 0),
    ensures
        final(result).deep_view() == decode_map(bytes@, CharEncoding::Utf8),
        forall|j: int|
            0 <= j < bytes@.len() && is_printable_ascii(bytes@[j]) ==> #[trigger] final(result)
                .deep_view()[j] == Some(unit(seq![bytes@[j] as char], 1, 1)),
{
    let total = bytes.len();
    let mut at: usize = 0;
    proof {
        lemma_decode_start(bytes@, CharEncoding::Utf8, *result);
    }
    while at < total
        invariant
            total == bytes@.len(),
            filled_to(*result, bytes@, CharEncoding::Utf8, at as int),
            forall|j: int|
                0 <= j < at && is_printable_ascii(bytes@[j]) ==> #[trigger] result.deep_view()[j]
                    == Some(unit(seq![bytes@[j] as char], 1, 1)),
        decreases total - at,
    {
        let ghost before = *result;
        let entry = utf8_unit_at(bytes, at);
        let step = entry.byte_len;
        let ghost placed = entry;
        result[at] = Some(entry);
        proof {
            lemma_unit_bounds(bytes@, CharEncoding::Utf8, at as int);
            lemma_decode_step(bytes@, CharEncoding::Utf8, at as int, before, *result, placed);
            assert forall|j: int|
                0 <= j < at + step && is_printable_ascii(bytes@[j]) implies #[trigger] result.deep_view()[j]
                == Some(unit(seq![bytes@[j] as char], 1, 1)) by {
                if j < at {
                    assert(result.deep_view()[j] == before.deep_view()[j]);
                } else if j > at {
                    lemma_sequence_tail(bytes@, at as int, j);
                }
            }
        }
        at = at + step;
    }
    proof {
        lemma_decode_done(bytes@, CharEncoding::Utf8, *result);
    }
}

/// Whether the surrogate pair at offset `at` makes exactly one unit of
/// `map`: its unit stands at `at`, and the three slots behind it are empty.
pub open spec fn pair_stands_alone(
    map: UnitMap,
    bytes: Seq<u8>,
    at: int,
    little_endian: bool,
) -> bool {
    &&& map[at] == Some(utf16_unit(bytes, at, little_endian))
    &&& map[at + 1] is None
    &&& map[at + 2] is None
    &&& map[at + 3] is None
}

/// Whether every surrogate pair that starts at an even offset before
/// `upto` makes exactly one unit of `map` and ends no later than `upto`.
pub open spec fn pairs_stand_alone(
    map: UnitMap,
    bytes: Seq<u8>,
    little_endian: bool,
    upto: int,
) -> bool {
    forall|j: int|
        0 <= j < upto && j % 2 == 0 && pair_at(bytes, j, little_endian) ==> j + 4 <= upto
            && #[trigger] pair_stands_alone(map, bytes, j, little_endian)
}

proof fn lemma_pair_step(
    bytes: Seq<u8>,
    little_endian: bool,
    at: int,
    before: Vec<Option<DecodedChar>>,
    after: Vec<Option<DecodedChar>>,
    entry: DecodedChar,
)
    requires
        0 <= at < bytes.len(),
        at % 2 == 0,
        before@.len() == bytes.len(),
        empty_from(before@, at),
        pairs_stand_alone(before.deep_view(), bytes, little_endian, at),
        entry@ == utf16_unit(bytes, at, little_endian),
        after@ == before@.update(at, Some(entry)),
    ensures
        pairs_stand_alone(after.deep_view(), bytes, little_endian, at + entry.byte_len),
        at + entry.byte_len == bytes.len() || (at + entry.byte_len) % 2 == 0,
{
    let upto = at + entry.byte_len;
    assert forall|j: int|
        0 <= j < upto && j % 2 == 0 && pair_at(bytes, j, little_endian) implies j + 4 <= upto
        && #[trigger] pair_stands_alone(after.deep_view(), bytes, j, little_endian) by {
        if j < at {
            assert(pair_stands_alone(before.deep_view(), bytes, j, little_endian));
            assert(after.deep_view()[j] == before.deep_view()[j]);
            assert(after.deep_view()[j + 1] == before.deep_view()[j + 1]);
            assert(after.deep_view()[j + 2] == before.deep_view()[j + 2]);
            assert(after.deep_view()[j + 3] == before.deep_view()[j + 3]);
        } else {
            assert(j == at);
            assert(before@[j + 1] is None);
            assert(before@[j + 2] is None);
            assert(before@[j + 3] is None);
        }
    }
}

/// Fills `result` with the decode map of `bytes` under one of the two
/// two-byte encodings: little-endian where `encoding` is `Utf16Le`,
/// big-endian otherwise. Every surrogate pair that starts at an even offset
/// makes exactly one unit, four bytes long.
pub fn decode_utf16_for_display(
    bytes: &[u8],
    encoding: CharEncoding,
    result: &mut Vec<Option<DecodedChar>>,
)
    requires
        encoding == CharEncoding::Utf16Le || encoding == CharEncoding::Utf16Be,
        old(result)@.len() == bytes@.len(),
        empty_from(old(result)@, 0),
    ensures
        final(result).deep_view() == decode_map(bytes@, encoding),
        pairs_stand_alone(
            final(result).deep_view(),
            bytes@,
            is_little_endian(encoding),
            bytes@.len() as int,
        ),
{
    let little_endian = encoding == CharEncoding::Utf16Le;
    let total = bytes.len();
    let mut at: usize = 0;
    proof {
        lemma_decode_start(bytes@, encoding, *result);
    }
    while at < total
        invariant
            total == bytes@.len(),
            result@.len() == total,
            empty_from(result@, at as int),
            little_endian == (encoding == CharEncoding::Utf16Le),
            encoding == CharEncoding::Utf16Le || encoding == CharEncoding::Utf16Be,
            filled_to(*result, bytes@, encoding, at as int),
            at % 2 == 0 || at == total,
            pairs_stand_alone(result.deep_view(), bytes@, little_endian, at as int),
        decreases total - at,
    {
        let ghost before = *result;
        let entry = utf16_unit_at(bytes, at, little_endian);
        let step = entry.byte_len;
        let ghost placed = entry;
        result[at] = Some(entry);
        proof {
            lemma_unit_bounds(bytes@, encoding, at as int);
            lemma_decode_step(bytes@, encoding, at as int, before, *result, placed);
            lemma_pair_step(bytes@, little_endian, at as int, before, *result, placed);
        }
        at = at + step;
    }
    proof {
        lemma_decode_done(bytes@, encoding, *result);
    }
}

/// Fills `result` with the decode map of `bytes` under one of the
/// multi-byte encodings that are decoded by trial.
pub fn decode_with_encoding_rs(
    bytes: &[u8],
    encoding: CharEncoding,
    result: &mut Vec<Option<DecodedChar>>,
)
    requires
        encoding == CharEncoding::ShiftJis || encoding == CharEncoding::EucJp,
        old(result)@.len() == bytes@.len(),
        empty_from(old(result)@, 0),
    ensures
        final(result).deep_view() == decode_map(bytes@, encoding),
{
    let total = bytes.len();
    let mut at: usize = 0;
    proof {
        lemma_decode_start(bytes@, encoding, *result);
    }
    while at < total
        invariant
            total == bytes@.len(),
            encoding == CharEncoding::ShiftJis || encoding == CharEncoding::EucJp,
            filled_to(*result, bytes@, encoding, at as int),
        decreases total - at,
    {
        let ghost before = *result;
        let entry = trial_unit_at(encoding, bytes, at);
        let step = entry.byte_len;
        let ghost placed = entry;
        result[at] = Some(entry);
        proof {
            lemma_unit_bounds(bytes@, encoding, at as int);
            lemma_decode_step(bytes@, encoding, at as int, before, *result, placed);
        }
        at = at + step;
    }
    proof {
        lemma_decode_done(bytes@, encoding, *result);
    }
}

/// The unit of one byte under the single-byte encodings.
pub fn single_byte_unit_of(byte: u8) -> (entry: DecodedChar)
    ensures
        entry@ == single_byte_unit(byte),
{
    let display = if byte < 0x20 || byte == 0x7F {
        dot()
    } else {
        let mut text = String::new();
        text.push(byte as char);
        assert(text@ =~= seq![byte as char]);
        text
    };
    DecodedChar { display, byte_len: 1, width: 1 }
}

/// Fills `result` with the decode map of `bytes` under one of the
/// single-byte encodings: each byte is a unit of its own.
pub fn decode_single_bytes_for_display(
    bytes: &[u8],
    encoding: CharEncoding,
    result: &mut Vec<Option<DecodedChar>>,
)
    requires
        encoding == CharEncoding::Iso2022Jp || encoding == CharEncoding::Ascii || encoding
            == CharEncoding::Latin1,
        old(result)@.len() == bytes@.len(),
        empty_from(old(result)@, 0),
    ensures
        final(result).deep_view() == decode_map(bytes@, encoding),
{
    let total = bytes.len();
    let mut at: usize = 0;
    proof {
        lemma_decode_start(bytes@, encoding, *result);
    }
    while at < total
        invariant
            total == bytes@.len(),
            encoding == CharEncoding::Iso2022Jp || encoding == CharEncoding::Ascii || encoding
                == CharEncoding::Latin1,
            filled_to(*result, bytes@, encoding, at as int),
        decreases total - at,
    {
        let ghost before = *result;
        let entry = single_byte_unit_of(bytes[at]);
        let ghost placed = entry;
        result[at] = Some(entry);
        proof {
            lemma_decode_step(bytes@, encoding, at as int, before, *result, placed);
        }
        at = at + 1;
    }
    proof {
        lemma_decode_done(bytes@, encoding, *result);
    }
}

/// The decode map of `bytes` under `encoding`: a slot for each byte,
/// holding the unit that starts at that byte, if one does. The spans of the
/// units partition the buffer, whatever the bytes are; an empty buffer gives
/// an empty map. Under the byte-oriented variable-width encoding every
/// printable ASCII byte is a unit of its own that shows the byte's
/// character, one byte long and one column wide.
pub fn decode_for_display(bytes: &[u8], encoding: CharEncoding) -> (map: Vec<Option<DecodedChar>>)
    ensures
        map.deep_view() == decode_map(bytes@, encoding),
        map@.len() == bytes@.len(),
        spans_partition(map.deep_view()),
        total_byte_len(map.deep_view()) == bytes@.len(),
        encoding == CharEncoding::Utf8 ==> forall|j: int|
            0 <= j < bytes@.len() && is_printable_ascii(bytes@[j]) ==> #[trigger] map.deep_view()[j]
                == Some(unit(seq![bytes@[j] as char], 1, 1)),
        encoding == CharEncoding::Utf16Le || encoding == CharEncoding::Utf16Be
            ==> pairs_stand_alone(
            map.deep_view(),
            bytes@,
            is_little_endian(encoding),
            bytes@.len() as int,
        ),
{
    let mut result: Vec<Option<DecodedChar>> = Vec::new();
    let total = bytes.len();
    while result.len() < total
        invariant
            result@.len() <= total,
            empty_from(result@, 0),
        decreases total - result@.len(),
    {
        result.push(None);
    }
    match encoding {
        CharEncoding::Utf8 => decode_utf8_for_display(bytes, &mut result),
        CharEncoding::ShiftJis | CharEncoding::EucJp => decode_with_encoding_rs(
            bytes,
            encoding,
            &mut result,
        ),
        CharEncoding::Utf16Le | CharEncoding::Utf16Be => decode_utf16_for_display(
            bytes,
            encoding,
            &mut result,
        ),
        _ => decode_single_bytes_for_display(bytes, encoding, &mut result),
    }
    proof {
        lemma_decode_map_partitions(bytes@, encoding);
    }
    result
}

} // verus!
