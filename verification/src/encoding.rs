//! Character encodings and the decoding of raw bytes into displayable
//! units.

use vstd::prelude::*;

pub mod codec;
pub mod display;
pub mod trial;
pub mod unit;
pub mod utf16;
pub mod utf8;

pub use codec::{decode_bytes, encode_char, encode_string, grapheme_width, graphemes};
pub use display::decode_for_display;
pub use unit::{is_displayable, DecodedChar};
pub use utf8::utf8_char_len;

verus! {

/// The character encodings under which a byte buffer can be shown.
#[derive(Debug, Clone, Copy, PartialEq, Eq, Structural)]
pub enum CharEncoding {
    Utf8,
    Utf16Le,
    Utf16Be,
    ShiftJis,
    EucJp,
    Iso2022Jp,
    Ascii,
    Latin1,
}

impl Default for CharEncoding {
    fn default() -> (encoding: Self)
        ensures
            encoding == CharEncoding::Utf8,
    {
        CharEncoding::Utf8
    }
}

impl CharEncoding {
    /// The canonical display name of the encoding.
    pub open spec fn spec_name(self) -> Seq<char> {
        match self {
            CharEncoding::Utf8 => "UTF-8"@,
            CharEncoding::Utf16Le => "UTF-16LE"@,
            CharEncoding::Utf16Be => "UTF-16BE"@,
            CharEncoding::ShiftJis => "Shift-JIS"@,
            CharEncoding::EucJp => "EUC-JP"@,
            CharEncoding::Iso2022Jp => "ISO-2022-JP"@,
            CharEncoding::Ascii => "ASCII"@,
            CharEncoding::Latin1 => "Latin-1"@,
        }
    }

    /// The position of the encoding in the cycle that `next` walks.
    pub open spec fn ordinal(self) -> nat {
        match self {
            CharEncoding::Utf8 => 0,
            CharEncoding::Utf16Le => 1,
            CharEncoding::Utf16Be => 2,
            CharEncoding::ShiftJis => 3,
            CharEncoding::EucJp => 4,
            CharEncoding::Iso2022Jp => 5,
            CharEncoding::Ascii => 6,
            CharEncoding::Latin1 => 7,
        }
    }

    /// The encoding at a position of the cycle.
    pub open spec fn at(position: nat) -> CharEncoding {
        if position == 0 {
            CharEncoding::Utf8
        } else if position == 1 {
            CharEncoding::Utf16Le
        } else if position == 2 {
            CharEncoding::Utf16Be
        } else if position == 3 {
            CharEncoding::ShiftJis
        } else if position == 4 {
            CharEncoding::EucJp
        } else if position == 5 {
            CharEncoding::Iso2022Jp
        } else if position == 6 {
            CharEncoding::Ascii
        } else {
            CharEncoding::Latin1
        }
    }

    /// The encoding that follows this one: one step along the cycle,
    /// wrapping from the last back to the first.
    pub open spec fn successor(self) -> CharEncoding {
        CharEncoding::at((self.ordinal() + 1) % 8)
    }

    /// The canonical display name of the encoding.
    pub fn name(&self) -> (name: &'static str)
        ensures
            name@ == self.spec_name(),
    {
        match self {
            CharEncoding::Utf8 => "UTF-8",
            CharEncoding::Utf16Le => "UTF-16LE",
            CharEncoding::Utf16Be => "UTF-16BE",
            CharEncoding::ShiftJis => "Shift-JIS",
            CharEncoding::EucJp => "EUC-JP",
            CharEncoding::Iso2022Jp => "ISO-2022-JP",
            CharEncoding::Ascii => "ASCII",
            CharEncoding::Latin1 => "Latin-1",
        }
    }

    /// The encoding to switch to when the user cycles onward.
    pub fn next(&self) -> (following: Self)
        ensures
            following == self.successor(),
    {
        match self {
            CharEncoding::Utf8 => CharEncoding::Utf16Le,
            CharEncoding::Utf16Le => CharEncoding::Utf16Be,
            CharEncoding::Utf16Be => CharEncoding::ShiftJis,
            CharEncoding::ShiftJis => CharEncoding::EucJp,
            CharEncoding::EucJp => CharEncoding::Iso2022Jp,
            CharEncoding::Iso2022Jp => CharEncoding::Ascii,
            CharEncoding::Ascii => CharEncoding::Latin1,
            CharEncoding::Latin1 => CharEncoding::Utf8,
        }
    }
}

/// Cycling visits every encoding: the positions form one cycle of length
/// eight, so eight steps from any encoding lead back to it and fewer do not.
pub proof fn lemma_next_is_a_cycle(encoding: CharEncoding)
    ensures
        CharEncoding::at(encoding.ordinal()) == encoding,
        encoding.successor().ordinal() == (encoding.ordinal() + 1) % 8,
        encoding.successor() != encoding,
        encoding.successor().successor().successor().successor().successor().successor().successor().successor()
            == encoding,
{
}

/// Whether a byte is printable ASCII, the space included.
pub open spec fn is_printable_ascii(byte: u8) -> bool {
    0x20 <= byte <= 0x7E
}

/// The character that stands for one raw byte in a textual column:
/// printable ASCII shows as itself, every other byte as a dot.
pub open spec fn spec_byte_to_char(byte: u8) -> char {
    if is_printable_ascii(byte) {
        byte as char
    } else {
        '.'
    }
}

/// The character that stands for one raw byte in a textual column.
pub fn byte_to_char(byte: u8) -> (shown: char)
    ensures
        shown == spec_byte_to_char(byte),
{
    if 0x20 <= byte && byte <= 0x7E {
        byte as char
    } else {
        '.'
    }
}

} // verus!
