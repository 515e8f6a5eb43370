//! Reading back what was written: every format of hexadecimal text reads
//! as the bytes it was written from.

use crate::clipboard::hex::{
    bytes_of_pairs, cleaned, hex_digits_of, hex_text, joined, parse_hex, strip_char, strip_pair,
    without_delimiters, HexFormat,
};
use crate::radix::{hex_digit_value, hex_pair};
use vstd::prelude::*;

verus! {

/// Whether a character is a decimal digit or an upper-case letter `A` to
/// `F`.
pub open spec fn is_upper_hex(c: char) -> bool {
    0x30 <= c as nat <= 0x39 || 0x41 <= c as nat <= 0x46
}

/// Whether text consists of upper-case hexadecimal digits alone.
pub open spec fn all_upper_hex(text: Seq<char>) -> bool {
    forall|i: int| 0 <= i < text.len() ==> is_upper_hex(#[trigger] text[i])
}

/// The digits of `bytes`, two for each byte, nothing in between.
pub open spec fn digits_of(bytes: Seq<u8>) -> Seq<char> {
    joined(bytes, Seq::empty(), Seq::empty())
}

proof fn lemma_pair_is_upper_hex(byte: u8)
    ensures
        hex_pair(byte).len() == 2,
        is_upper_hex(hex_pair(byte)[0]),
        is_upper_hex(hex_pair(byte)[1]),
        hex_digit_value(hex_pair(byte)[0]) == Some((byte / 16) as nat),
        hex_digit_value(hex_pair(byte)[1]) == Some((byte % 16) as nat),
{
}

proof fn lemma_digits_unfold(bytes: Seq<u8>)
    requires
        bytes.len() > 0,
    ensures
        digits_of(bytes) == hex_pair(bytes[0]) + digits_of(bytes.drop_first()),
{
    let rest = bytes.drop_first();
    if bytes.len() == 1 {
        assert(digits_of(rest) =~= Seq::<char>::empty());
        assert(digits_of(bytes) =~= hex_pair(bytes[0]) + digits_of(rest));
    } else {
        assert(digits_of(bytes) =~= hex_pair(bytes[0]) + digits_of(rest));
    }
}

proof fn lemma_digits_are_upper_hex(bytes: Seq<u8>)
    ensures
        all_upper_hex(digits_of(bytes)),
        digits_of(bytes).len() == 2 * bytes.len(),
    decreases bytes.len(),
{
    if bytes.len() > 0 {
        lemma_digits_unfold(bytes);
        lemma_pair_is_upper_hex(bytes[0]);
        lemma_digits_are_upper_hex(bytes.drop_first());
    }
}

proof fn lemma_strip_char_add(front: Seq<char>, back: Seq<char>, removed: char)
    ensures
        strip_char(front + back, removed) == strip_char(front, removed) + strip_char(
            back,
            removed,
        ),
    decreases front.len(),
{
    if front.len() == 0 {
        assert(front + back =~= back);
        assert(strip_char(front, removed) + strip_char(back, removed) =~= strip_char(
            back,
            removed,
        ));
    } else {
        assert((front + back).drop_first() =~= front.drop_first() + back);
        lemma_strip_char_add(front.drop_first(), back, removed);
        assert(strip_char(front + back, removed) =~= strip_char(front, removed) + strip_char(
            back,
            removed,
        ));
    }
}

proof fn lemma_strip_char_absent(text: Seq<char>, removed: char)
    requires
        forall|i: int| 0 <= i < text.len() ==> text[i] != removed,
    ensures
        strip_char(text, removed) == text,
    decreases text.len(),
{
    if text.len() > 0 {
        lemma_strip_char_absent(text.drop_first(), removed);
        assert(seq![text[0]] + text.drop_first() =~= text);
    }
}

proof fn lemma_strip_pair_absent(text: Seq<char>, first: char, second: char)
    requires
        forall|i: int| 0 <= i < text.len() ==> text[i] != second,
    ensures
        strip_pair(text, first, second) == text,
    decreases text.len(),
{
    if text.len() > 0 {
        lemma_strip_pair_absent(text.drop_first(), first, second);
        assert(seq![text[0]] + text.drop_first() =~= text);
    }
}

proof fn lemma_hex_digits_add(front: Seq<char>, back: Seq<char>)
    ensures
        hex_digits_of(front + back) == hex_digits_of(front) + hex_digits_of(back),
    decreases front.len(),
{
    if front.len() == 0 {
        assert(front + back =~= back);
        assert(hex_digits_of(front) + hex_digits_of(back) =~= hex_digits_of(back));
    } else {
        assert((front + back).drop_first() =~= front.drop_first() + back);
        lemma_hex_digits_add(front.drop_first(), back);
        assert(hex_digits_of(front + back) =~= hex_digits_of(front) + hex_digits_of(back));
    }
}

proof fn lemma_hex_digits_keep(text: Seq<char>)
    requires
        all_upper_hex(text),
    ensures
        hex_digits_of(text) == text,
    decreases text.len(),
{
    if text.len() > 0 {
        assert(is_upper_hex(text[0]));
        assert forall|i: int| 0 <= i < text.drop_first().len() implies is_upper_hex(
            #[trigger] text.drop_first()[i],
        ) by {
            assert(text.drop_first()[i] == text[i + 1]);
        }
        lemma_hex_digits_keep(text.drop_first());
        assert(seq![text[0]] + text.drop_first() =~= text);
    }
}

/// Taking a character that is no digit out of joined text takes it out of
/// the lead and the separator, and leaves the digits.
proof fn lemma_strip_char_joined(
    bytes: Seq<u8>,
    lead: Seq<char>,
    separator: Seq<char>,
    removed: char,
)
    requires
        !is_upper_hex(removed),
    ensures
        strip_char(joined(bytes, lead, separator), removed) == joined(
            bytes,
            strip_char(lead, removed),
            strip_char(separator, removed),
        ),
    decreases bytes.len(),
{
    if bytes.len() > 0 {
        let pair = hex_pair(bytes[0]);
        lemma_pair_is_upper_hex(bytes[0]);
        lemma_strip_char_absent(pair, removed);
        lemma_strip_char_add(lead, pair, removed);
        if bytes.len() > 1 {
            let rest = joined(bytes.drop_first(), lead, separator);
            lemma_strip_char_joined(bytes.drop_first(), lead, separator, removed);
            lemma_strip_char_add(lead + pair, separator, removed);
            lemma_strip_char_add(lead + pair + separator, rest, removed);
        }
    }
}

/// Taking `0x` out of a run of prefixed pairs leaves the digits, whatever
/// follows the run, as long as that does not start with an `x`.
proof fn lemma_strip_prefixes(bytes: Seq<u8>, tail: Seq<char>)
    requires
        tail.len() > 0 ==> tail[0] != 'x',
    ensures
        strip_pair(joined(bytes, seq!['0', 'x'], Seq::empty()) + tail, '0', 'x') == digits_of(
            bytes,
        ) + strip_pair(tail, '0', 'x'),
    decreases bytes.len(),
{
    let lead = seq!['0', 'x'];
    let run = joined(bytes, lead, Seq::empty());
    if bytes.len() == 0 {
        assert(run + tail =~= tail);
        assert(digits_of(bytes) + strip_pair(tail, '0', 'x') =~= strip_pair(tail, '0', 'x'));
    } else {
        let pair = hex_pair(bytes[0]);
        let rest = bytes.drop_first();
        let rest_run = joined(rest, lead, Seq::empty());
        let behind = rest_run + tail;
        lemma_pair_is_upper_hex(bytes[0]);
        lemma_digits_unfold(bytes);
        lemma_strip_prefixes(rest, tail);
        assert(rest.len() == 0 ==> rest_run =~= Seq::<char>::empty());
        assert(run =~= lead + pair + rest_run);
        assert(behind.len() > 0 ==> behind[0] != 'x') by {
            if rest.len() > 0 {
                assert(rest_run[0] == '0');
            }
        }
        let whole = run + tail;
        let second = seq![pair[0], pair[1]] + behind;
        let third = seq![pair[1]] + behind;
        assert(whole =~= lead + second);
        assert(whole.skip(2) =~= second);
        assert(strip_pair(whole, '0', 'x') == strip_pair(second, '0', 'x'));
        assert(second.drop_first() =~= third);
        assert(strip_pair(second, '0', 'x') == seq![pair[0]] + strip_pair(third, '0', 'x'));
        assert(third.drop_first() =~= behind);
        assert(strip_pair(third, '0', 'x') == seq![pair[1]] + strip_pair(behind, '0', 'x'));
        assert(pair =~= seq![pair[0], pair[1]]);
        assert(strip_pair(whole, '0', 'x') =~= digits_of(bytes) + strip_pair(tail, '0', 'x'));
    }
}

proof fn lemma_pairs_of_digits(bytes: Seq<u8>)
    ensures
        bytes_of_pairs(digits_of(bytes)) == bytes,
    decreases bytes.len(),
{
    let digits = digits_of(bytes);
    if bytes.len() == 0 {
        assert(bytes_of_pairs(digits) =~= bytes);
    } else {
        lemma_digits_unfold(bytes);
        lemma_pair_is_upper_hex(bytes[0]);
        lemma_pairs_of_digits(bytes.drop_first());
        assert(digits.skip(2) =~= digits_of(bytes.drop_first()));
        assert(digits[0] == hex_pair(bytes[0])[0]);
        assert(digits[1] == hex_pair(bytes[0])[1]);
        assert(bytes_of_pairs(digits) =~= bytes);
    }
}

/// What is read from bare digits is those digits.
proof fn lemma_cleaned_digits(bytes: Seq<u8>)
    ensures
        cleaned(digits_of(bytes)) == digits_of(bytes),
{
    let digits = digits_of(bytes);
    lemma_digits_are_upper_hex(bytes);
    assert forall|i: int| 0 <= i < digits.len() implies digits[i] != ' ' && digits[i] != ','
        && digits[i] != 'x' && digits[i] != 'X' by {
        assert(is_upper_hex(digits[i]));
    }
    lemma_strip_char_absent(digits, ' ');
    lemma_strip_char_absent(digits, ',');
    lemma_strip_pair_absent(digits, '0', 'x');
    lemma_strip_pair_absent(digits, '0', 'X');
    lemma_hex_digits_keep(digits);
}

proof fn lemma_cleaned_spaced(bytes: Seq<u8>)
    ensures
        cleaned(hex_text(bytes, HexFormat::Spaced)) == digits_of(bytes),
{
    let text = hex_text(bytes, HexFormat::Spaced);
    lemma_strip_char_joined(bytes, Seq::empty(), seq![' '], ' ');
    assert(strip_char(Seq::<char>::empty(), ' ') =~= Seq::<char>::empty());
    assert(strip_char(seq![' '], ' ') =~= Seq::<char>::empty()) by {
        reveal_with_fuel(strip_char, 2);
        assert(seq![' '].drop_first() =~= Seq::<char>::empty());
    }
    assert(strip_char(text, ' ') == digits_of(bytes));
    lemma_cleaned_digits(bytes);
    lemma_digits_are_upper_hex(bytes);
    lemma_strip_char_absent(digits_of(bytes), ' ');
}

proof fn lemma_cleaned_c_array(bytes: Seq<u8>)
    ensures
        cleaned(hex_text(bytes, HexFormat::CArray)) == digits_of(bytes),
{
    let lead = seq!['0', 'x'];
    let digits = digits_of(bytes);
    let text = hex_text(bytes, HexFormat::CArray);
    let body = joined(bytes, lead, seq![',', ' ']);
    let open = seq!['{', ' '];
    let close = seq![' ', '}'];
    lemma_digits_are_upper_hex(bytes);

    // the spaces
    let body_a = joined(bytes, lead, seq![',']);
    assert(strip_char(open, ' ') =~= seq!['{']) by {
        reveal_with_fuel(strip_char, 3);
        assert(open.drop_first() =~= seq![' ']);
        assert(seq![' '].drop_first() =~= Seq::<char>::empty());
    }
    assert(strip_char(close, ' ') =~= seq!['}']) by {
        reveal_with_fuel(strip_char, 3);
        assert(close.drop_first() =~= seq!['}']);
        assert(seq!['}'].drop_first() =~= Seq::<char>::empty());
    }
    assert(strip_char(lead, ' ') == lead) by {
        lemma_strip_char_absent(lead, ' ');
    }
    assert(strip_char(seq![',', ' '], ' ') =~= seq![',']) by {
        reveal_with_fuel(strip_char, 3);
        assert(seq![',', ' '].drop_first() =~= seq![' ']);
        assert(seq![' '].drop_first() =~= Seq::<char>::empty());
    }
    lemma_strip_char_joined(bytes, lead, seq![',', ' '], ' ');
    lemma_strip_char_add(open, body, ' ');
    lemma_strip_char_add(open + body, close, ' ');
    let text_a = seq!['{'] + body_a + seq!['}'];
    assert(strip_char(text, ' ') == text_a);

    // the commas
    let body_b = joined(bytes, lead, Seq::empty());
    assert(strip_char(seq!['{'], ',') == seq!['{']) by {
        lemma_strip_char_absent(seq!['{'], ',');
    }
    assert(strip_char(seq!['}'], ',') == seq!['}']) by {
        lemma_strip_char_absent(seq!['}'], ',');
    }
    assert(strip_char(lead, ',') == lead) by {
        lemma_strip_char_absent(lead, ',');
    }
    assert(strip_char(seq![','], ',') =~= Seq::<char>::empty()) by {
        reveal_with_fuel(strip_char, 2);
        assert(seq![','].drop_first() =~= Seq::<char>::empty());
    }
    lemma_strip_char_joined(bytes, lead, seq![','], ',');
    lemma_strip_char_add(seq!['{'], body_a, ',');
    lemma_strip_char_add(seq!['{'] + body_a, seq!['}'], ',');
    let text_b = seq!['{'] + body_b + seq!['}'];
    assert(strip_char(text_a, ',') == text_b);

    // the prefixes
    let text_c = seq!['{'] + digits + seq!['}'];
    lemma_strip_prefixes(bytes, seq!['}']);
    assert(strip_pair(seq!['}'], '0', 'x') =~= seq!['}']) by {
        lemma_strip_pair_absent(seq!['}'], '0', 'x');
    }
    assert(text_b.drop_first() =~= body_b + seq!['}']);
    assert(strip_pair(text_b, '0', 'x') =~= text_c);
    assert forall|i: int| 0 <= i < text_c.len() implies text_c[i] != 'X' by {
        if 0 < i <= digits.len() {
            assert(text_c[i] == digits[i - 1]);
            assert(is_upper_hex(digits[i - 1]));
        }
    }
    lemma_strip_pair_absent(text_c, '0', 'X');
    assert(without_delimiters(text) == text_c);

    // the braces
    lemma_hex_digits_add(seq!['{'] + digits, seq!['}']);
    lemma_hex_digits_add(seq!['{'], digits);
    lemma_hex_digits_keep(digits);
    assert(hex_digits_of(seq!['{']) =~= Seq::<char>::empty()) by {
        reveal_with_fuel(hex_digits_of, 2);
        assert(seq!['{'].drop_first() =~= Seq::<char>::empty());
    }
    assert(hex_digits_of(seq!['}']) =~= Seq::<char>::empty()) by {
        reveal_with_fuel(hex_digits_of, 2);
        assert(seq!['}'].drop_first() =~= Seq::<char>::empty());
    }
    assert(hex_digits_of(text_c) =~= digits);
}

/// What was written reads back: for every sequence of bytes and every
/// format, the text of the bytes in that format reads as those bytes.
pub proof fn lemma_hex_round_trip(bytes: Seq<u8>, format: HexFormat)
    ensures
        parse_hex(hex_text(bytes, format)) == Some(bytes),
{
    lemma_digits_are_upper_hex(bytes);
    lemma_pairs_of_digits(bytes);
    match format {
        HexFormat::Spaced => lemma_cleaned_spaced(bytes),
        HexFormat::Continuous => lemma_cleaned_digits(bytes),
        HexFormat::CArray => lemma_cleaned_c_array(bytes),
    }
}

} // verus!
