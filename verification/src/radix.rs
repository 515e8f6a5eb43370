//! Digits in a positional notation: the text of a number in base 2 to 16,
//! zero padding, and the value of a hexadecimal digit.

use vstd::arithmetic::div_mod::{lemma_div_decreases, lemma_mod_bound, lemma_small_mod};
use vstd::prelude::*;

verus! {

/// `String::push`: appends the character to the end of the string.
pub assume_specification[ String::push ](s: &mut String, ch: char)
    ensures
        final(s)@ == old(s)@.push(ch),
;

/// The character that shows the digit `d`: `0` to `9`, then `A` to `F`.
pub open spec fn digit_char(d: nat) -> char {
    if d < 10 {
        (0x30 + d) as char
    } else {
        (0x37 + d) as char
    }
}

/// The digits of `n` in base `radix`, most significant first, without
/// leading zeros; a single `0` for zero.
pub open spec fn radix_digits(n: nat, radix: nat) -> Seq<char>
    recommends
        2 <= radix <= 16,
    decreases n,
    via radix_digits_terminates
{
    if n < radix || radix < 2 {
        seq![digit_char(n)]
    } else {
        radix_digits(n / radix, radix).push(digit_char(n % radix))
    }
}

#[via_fn]
proof fn radix_digits_terminates(n: nat, radix: nat) {
    if n >= radix && radix >= 2 {
        lemma_div_decreases(n as int, radix as int);
    }
}

/// `digits` with zeros in front until it is at least `width` long.
pub open spec fn zero_padded(digits: Seq<char>, width: nat) -> Seq<char> {
    if digits.len() >= width {
        digits
    } else {
        Seq::new((width - digits.len()) as nat, |i: int| '0') + digits
    }
}

/// The two upper-case hexadecimal digits of a byte.
pub open spec fn hex_pair(b: u8) -> Seq<char> {
    seq![digit_char((b / 16) as nat), digit_char((b % 16) as nat)]
}

/// The value of a hexadecimal digit in either case, `None` for any other
/// character.
pub open spec fn hex_digit_value(c: char) -> Option<nat> {
    let v = c as nat;
    if 0x30 <= v <= 0x39 {
        Some((v - 0x30) as nat)
    } else if 0x41 <= v <= 0x46 {
        Some((v - 0x37) as nat)
    } else if 0x61 <= v <= 0x66 {
        Some((v - 0x57) as nat)
    } else {
        None
    }
}

/// A number has one digit at least, and one more than its tenth, or
/// whatever part the radix makes.
proof fn lemma_radix_digits_len(n: nat, radix: nat)
    requires
        2 <= radix,
    ensures
        radix_digits(n, radix).len() >= 1,
        n >= radix ==> radix_digits(n, radix).len() == radix_digits(n / radix, radix).len() + 1,
    decreases n,
{
    if n >= radix {
        lemma_div_decreases(n as int, radix as int);
        lemma_radix_digits_len(n / radix, radix);
    }
}

/// Every character of a number's text is a digit or a letter `A` to `F`.
pub proof fn lemma_radix_digits_chars(n: nat, radix: nat, at: int)
    requires
        2 <= radix <= 16,
        0 <= at < radix_digits(n, radix).len(),
    ensures
        0x30 <= radix_digits(n, radix)[at] as u32 <= 0x46,
    decreases n,
{
    if n >= radix {
        lemma_div_decreases(n as int, radix as int);
        lemma_mod_bound(n as int, radix as int);
        lemma_radix_digits_len(n, radix);
        if at < radix_digits(n / radix, radix).len() {
            lemma_radix_digits_chars(n / radix, radix, at);
        }
    }
}

/// The character for one digit.
pub fn digit(d: u8) -> (c: char)
    requires
        d < 16,
    ensures
        c == digit_char(d as nat),
{
    if d < 10 {
        (0x30 + d) as char
    } else {
        (0x37 + d) as char
    }
}

/// Appends the two hexadecimal digits of `b` to `out`.
pub fn push_hex_pair(out: &mut String, b: u8)
    ensures
        final(out)@ == old(out)@ + hex_pair(b),
{
    out.push(digit(b / 16));
    out.push(digit(b % 16));
}

/// The number of digits that `n` takes in base `radix`.
pub fn digit_count(n: usize, radix: usize) -> (count: usize)
    requires
        2 <= radix <= 16,
    ensures
        count == radix_digits(n as nat, radix as nat).len(),
{
    let mut count: usize = 1;
    let mut rest: usize = n;
    while rest >= radix
        invariant
            2 <= radix <= 16,
            count + rest <= n + 1,
            count + radix_digits(rest as nat, radix as nat).len() == radix_digits(
                n as nat,
                radix as nat,
            ).len() + 1,
        decreases rest,
    {
        proof {
            lemma_radix_digits_len(rest as nat, radix as nat);
            lemma_div_decreases(rest as int, radix as int);
        }
        rest = rest / radix;
        count = count + 1;
    }
    count
}

/// Appends the digits of `n` in base `radix` to `out`.
pub fn push_radix(out: &mut String, n: usize, radix: usize)
    requires
        2 <= radix <= 16,
    ensures
        final(out)@ == old(out)@ + radix_digits(n as nat, radix as nat),
    decreases n,
{
    proof {
        lemma_mod_bound(n as int, radix as int);
    }
    if n >= radix {
        proof {
            lemma_div_decreases(n as int, radix as int);
        }
        push_radix(out, n / radix, radix);
    }
    out.push(digit((n % radix) as u8));
    proof {
        if n >= radix {
            let upper = radix_digits((n / radix) as nat, radix as nat);
            assert(out@ =~= old(out)@ + upper.push(digit_char((n % radix) as nat)));
        } else {
            lemma_small_mod(n as nat, radix as nat);
            assert(out@ =~= old(out)@ + seq![digit_char(n as nat)]);
        }
    }
}

/// The text of `n` in base `radix`, zero-padded to at least `width`
/// characters.
pub fn format_radix(n: usize, radix: usize, width: usize) -> (text: String)
    requires
        2 <= radix <= 16,
    ensures
        text@ == zero_padded(radix_digits(n as nat, radix as nat), width as nat),
{
    let count = digit_count(n, radix);
    let mut text = String::new();
    let mut filled: usize = count;
    while filled < width
        invariant
            count <= filled,
            filled <= width || filled == count,
            text@ =~= Seq::new((filled - count) as nat, |i: int| '0'),
        decreases width - filled,
    {
        text.push('0');
        filled = filled + 1;
    }
    let ghost zeros = text@;
    push_radix(&mut text, n, radix);
    proof {
        let digits = radix_digits(n as nat, radix as nat);
        if digits.len() >= width {
            assert(zeros =~= Seq::<char>::empty());
            assert(text@ =~= digits);
        }
    }
    text
}

} // verus!
