//! Framing of bytes for the clipboard of a terminal: the escape sequence
//! that sets the clipboard, and the envelopes that carry it through a
//! terminal multiplexer.

use base64::engine::general_purpose::STANDARD;
use base64::Engine;
use vstd::prelude::*;

verus! {

/// The escape byte.
pub const ESC: u8 = 0x1b;

/// The bell byte, which ends the sequence that sets the clipboard.
pub const BEL: u8 = 0x07;

/// The text that `base64` encodes `data` to with the standard alphabet and
/// padding, as its bytes.
pub uninterp spec fn base64_standard(data: Seq<u8>) -> Seq<u8>;

/// Whether the encoded length of `len` bytes, four characters for each
/// three bytes or part of them, fits a `usize`.
pub open spec fn base64_fits(len: nat) -> bool {
    4 * ((len + 2) / 3) <= usize::MAX
}

/// `base64::Engine::encode` of the standard engine: the encoded text of
/// `data`, handed on as bytes. The result is the named one. The encoder
/// panics where the encoded length does not fit a `usize`.
#[verifier::external_body]
fn base64_encode(data: &[u8]) -> (encoded: Vec<u8>)
    requires
        base64_fits(data@.len()),
    ensures
        encoded@ == base64_standard(data@),
{
    STANDARD.encode(data).into_bytes()
}

/// The start of the sequence that sets the clipboard: `ESC ] 5 2 ; c ;`.
pub open spec fn osc52_prefix() -> Seq<u8> {
    seq![ESC, 0x5d, 0x35, 0x32, 0x3b, 0x63, 0x3b]
}

/// The sequence that sets the clipboard to `data`: the prefix, the data
/// in base64, and a bell.
pub open spec fn osc52_sequence(data: Seq<u8>) -> Seq<u8> {
    osc52_prefix() + base64_standard(data) + seq![BEL]
}

/// The start of the envelope of the multiplexer that asks for doubled
/// escapes: `ESC P t m u x ;`.
pub open spec fn tmux_prefix() -> Seq<u8> {
    seq![ESC, 0x50, 0x74, 0x6d, 0x75, 0x78, 0x3b]
}

/// The start of a device control string: `ESC P`.
pub open spec fn dcs_prefix() -> Seq<u8> {
    seq![ESC, 0x50]
}

/// The end of an envelope: `ESC \`.
pub open spec fn string_terminator() -> Seq<u8> {
    seq![ESC, 0x5c]
}

/// `bytes` with every escape byte written twice.
pub open spec fn doubled_escapes(bytes: Seq<u8>) -> Seq<u8>
    decreases bytes.len(),
{
    if bytes.len() == 0 {
        Seq::empty()
    } else if bytes[0] == ESC {
        seq![ESC, ESC] + doubled_escapes(bytes.drop_first())
    } else {
        seq![bytes[0]] + doubled_escapes(bytes.drop_first())
    }
}

/// `bytes` with every pair of escape bytes, found from left to right,
/// made one escape byte again.
pub open spec fn undoubled_escapes(bytes: Seq<u8>) -> Seq<u8>
    decreases bytes.len(),
{
    if bytes.len() == 0 {
        Seq::empty()
    } else if bytes.len() >= 2 && bytes[0] == ESC && bytes[1] == ESC {
        seq![ESC] + undoubled_escapes(bytes.skip(2))
    } else {
        seq![bytes[0]] + undoubled_escapes(bytes.drop_first())
    }
}

/// `sequence` in the envelope of the multiplexer that asks for doubled
/// escapes.
pub open spec fn tmux_wrapped(sequence: Seq<u8>) -> Seq<u8> {
    tmux_prefix() + doubled_escapes(sequence) + string_terminator()
}

/// `sequence` in the envelope of the multiplexer that takes it as it is.
pub open spec fn screen_wrapped(sequence: Seq<u8>) -> Seq<u8> {
    dcs_prefix() + sequence + string_terminator()
}

/// What an envelope with doubled escapes carries: the envelope without
/// its first seven and its last two bytes, the escapes made single again.
pub open spec fn tmux_unwrapped(wrapped: Seq<u8>) -> Seq<u8> {
    undoubled_escapes(wrapped.subrange(7, wrapped.len() - 2))
}

/// What is written to the terminal for `data`: the sequence that sets
/// the clipboard, in the envelope of the multiplexer that the session runs
/// in, if it runs in one. The multiplexer with doubled escapes comes first
/// where both are met.
pub open spec fn framed(data: Seq<u8>, in_tmux: bool, in_screen: bool) -> Seq<u8> {
    if in_tmux {
        tmux_wrapped(osc52_sequence(data))
    } else if in_screen {
        screen_wrapped(osc52_sequence(data))
    } else {
        osc52_sequence(data)
    }
}

proof fn lemma_undouble_doubled(bytes: Seq<u8>)
    ensures
        undoubled_escapes(doubled_escapes(bytes)) == bytes,
    decreases bytes.len(),
{
    let doubled = doubled_escapes(bytes);
    if bytes.len() == 0 {
        assert(undoubled_escapes(doubled) =~= bytes);
    } else {
        let rest = doubled_escapes(bytes.drop_first());
        lemma_undouble_doubled(bytes.drop_first());
        if bytes[0] == ESC {
            assert(doubled.skip(2) =~= rest);
        } else {
            assert(doubled.drop_first() =~= rest);
        }
        assert(undoubled_escapes(doubled) =~= seq![bytes[0]] + bytes.drop_first());
        assert(seq![bytes[0]] + bytes.drop_first() =~= bytes);
    }
}

/// Unwrapping undoes wrapping. With the envelope taken off and every
/// doubled escape made single again, what is left of a wrapped sequence is
/// the sequence itself, byte for byte; so a wrapped clipboard sequence
/// carries exactly the sequence that would be sent without a multiplexer.
pub proof fn lemma_tmux_unwrap(sequence: Seq<u8>)
    ensures
        tmux_unwrapped(tmux_wrapped(sequence)) == sequence,
        forall|data: Seq<u8>| #[trigger]
            tmux_unwrapped(framed(data, true, false)) == framed(data, false, false),
{
    lemma_unwrap_one(sequence);
    assert forall|data: Seq<u8>| #[trigger]
        tmux_unwrapped(framed(data, true, false)) == framed(data, false, false) by {
        lemma_unwrap_one(osc52_sequence(data));
    }
}

proof fn lemma_unwrap_one(sequence: Seq<u8>)
    ensures
        tmux_unwrapped(tmux_wrapped(sequence)) == sequence,
{
    let wrapped = tmux_wrapped(sequence);
    assert(wrapped.subrange(7, wrapped.len() - 2) =~= doubled_escapes(sequence));
    lemma_undouble_doubled(sequence);
}

/// Appends `bytes` to `out`.
fn push_all(out: &mut Vec<u8>, bytes: &[u8])
    ensures
        final(out)@ == old(out)@ + bytes@,
{
    let mut at: usize = 0;
    while at < bytes.len()
        invariant
            at <= bytes@.len(),
            out@ == old(out)@ + bytes@.take(at as int),
        decreases bytes@.len() - at,
    {
        out.push(bytes[at]);
        assert(out@ =~= old(out)@ + bytes@.take(at + 1));
        at = at + 1;
    }
    assert(bytes@.take(bytes@.len() as int) =~= bytes@);
}

/// The sequence that sets the clipboard of the terminal to `data`.
pub fn build_osc52_sequence(data: &[u8]) -> (sequence: Vec<u8>)
    requires
        base64_fits(data@.len()),
    ensures
        sequence@ == osc52_sequence(data@),
{
    let encoded = base64_encode(data);
    let mut sequence: Vec<u8> = Vec::new();
    sequence.push(ESC);
    sequence.push(0x5d);
    sequence.push(0x35);
    sequence.push(0x32);
    sequence.push(0x3b);
    sequence.push(0x63);
    sequence.push(0x3b);
    assert(sequence@ =~= osc52_prefix());
    push_all(&mut sequence, encoded.as_slice());
    sequence.push(BEL);
    sequence
}

/// `osc52` in the envelope of the multiplexer that asks for doubled
/// escapes.
pub fn wrap_for_tmux(osc52: &[u8]) -> (wrapped: Vec<u8>)
    ensures
        wrapped@ == tmux_wrapped(osc52@),
{
    let mut wrapped: Vec<u8> = Vec::new();
    wrapped.push(ESC);
    wrapped.push(0x50);
    wrapped.push(0x74);
    wrapped.push(0x6d);
    wrapped.push(0x75);
    wrapped.push(0x78);
    wrapped.push(0x3b);
    assert(wrapped@ =~= tmux_prefix());
    assert(osc52@.skip(0) =~= osc52@);
    let mut at: usize = 0;
    while at < osc52.len()
        invariant
            at <= osc52@.len(),
            wrapped@ + doubled_escapes(osc52@.skip(at as int)) == tmux_prefix() + doubled_escapes(
                osc52@,
            ),
        decreases osc52@.len() - at,
    {
        let ghost before = wrapped@;
        let byte = osc52[at];
        if byte == ESC {
            wrapped.push(ESC);
            wrapped.push(ESC);
        } else {
            wrapped.push(byte);
        }
        proof {
            let rest = osc52@.skip(at as int);
            assert(rest.drop_first() =~= osc52@.skip(at + 1));
            assert(before + doubled_escapes(rest) =~= wrapped@ + doubled_escapes(
                osc52@.skip(at + 1),
            ));
        }
        at = at + 1;
    }
    assert(wrapped@ + doubled_escapes(osc52@.skip(at as int)) =~= wrapped@);
    wrapped.push(ESC);
    wrapped.push(0x5c);
    assert(wrapped@ =~= tmux_wrapped(osc52@));
    wrapped
}

/// `osc52` in the envelope of the multiplexer that takes it as it is.
pub fn wrap_for_screen(osc52: &[u8]) -> (wrapped: Vec<u8>)
    ensures
        wrapped@ == screen_wrapped(osc52@),
{
    let mut wrapped: Vec<u8> = Vec::new();
    wrapped.push(ESC);
    wrapped.push(0x50);
    push_all(&mut wrapped, osc52);
    wrapped.push(ESC);
    wrapped.push(0x5c);
    assert(wrapped@ =~= screen_wrapped(osc52@));
    wrapped
}

/// What is written to the terminal to set its clipboard to `data`, given
/// whether the session runs in the one or the other multiplexer.
pub fn terminal_sequence(data: &[u8], in_tmux: bool, in_screen: bool) -> (sequence: Vec<u8>)
    requires
        base64_fits(data@.len()),
    ensures
        sequence@ == framed(data@, in_tmux, in_screen),
{
    let osc52 = build_osc52_sequence(data);
    if in_tmux {
        wrap_for_tmux(osc52.as_slice())
    } else if in_screen {
        wrap_for_screen(osc52.as_slice())
    } else {
        osc52
    }
}

} // verus!
