//! Decoded units: what one or more consecutive bytes show as, and the
//! maps that hold one unit for each span of a buffer.

use vstd::prelude::*;

verus! {

/// One displayable unit of a decoded buffer.
#[derive(Debug, Clone)]
pub struct DecodedChar {
    /// What to draw: a grapheme cluster, or a placeholder.
    pub display: String,
    /// The number of raw bytes that the unit stands for.
    pub byte_len: usize,
    /// The number of terminal columns that the unit takes.
    pub width: usize,
}

/// A decoded unit as plain mathematical values.
pub struct DecodedUnit {
    pub display: Seq<char>,
    pub byte_len: nat,
    pub width: nat,
}

impl View for DecodedChar {
    type V = DecodedUnit;

    open spec fn view(&self) -> DecodedUnit {
        DecodedUnit {
            display: self.display@,
            byte_len: self.byte_len as nat,
            width: self.width as nat,
        }
    }
}

impl DeepView for DecodedChar {
    type V = DecodedUnit;

    open spec fn deep_view(&self) -> DecodedUnit {
        self@
    }
}

/// A decode map as plain mathematical values: for each byte offset, the
/// unit that starts there, if one does.
pub type UnitMap = Seq<Option<DecodedUnit>>;

/// The unit that shows `display` for `byte_len` bytes in `width` columns.
pub open spec fn unit(display: Seq<char>, byte_len: nat, width: nat) -> DecodedUnit {
    DecodedUnit { display, byte_len, width }
}

/// The unit that stands for bytes that have no displayable form: a dot,
/// one column wide.
pub open spec fn placeholder(byte_len: nat) -> DecodedUnit {
    unit(seq!['.'], byte_len, 1)
}

/// Whether a character is a control code: below the space, or from the
/// delete character up to the end of the second control block.
pub open spec fn is_control_char(c: char) -> bool {
    c as u32 <= 0x1F || 0x7F <= c as u32 <= 0x9F
}

/// Whether text can be drawn as it is: it is not empty and does not start
/// with a control code or with the replacement character.
pub open spec fn displayable(text: Seq<char>) -> bool {
    &&& text.len() > 0
    &&& !(is_control_char(text[0]) && text[0] != ' ')
    &&& text[0] != '\u{FFFD}'
}

/// The unit for a grapheme cluster that was decoded from `byte_len`
/// bytes and that the terminal draws `width` columns wide. A cluster that
/// cannot be drawn shows as a dot; a unit takes one column at least; the
/// byte length is kept in either case.
pub open spec fn shown_unit(grapheme: Seq<char>, width: nat, byte_len: nat) -> DecodedUnit {
    unit(
        if displayable(grapheme) {
            grapheme
        } else {
            seq!['.']
        },
        byte_len,
        if width >= 1 {
            width
        } else {
            1
        },
    )
}

/// Whether the units of `map` from `from` on cover the rest of the map
/// exactly: a unit starts at `from`, it is followed by empty slots for the
/// rest of its bytes, and the next unit starts right behind it, up to the
/// end of the map.
pub open spec fn covers_from(map: UnitMap, from: int) -> bool
    decreases map.len() - from,
{
    if from >= map.len() {
        from == map.len()
    } else if from < 0 {
        false
    } else {
        match map[from] {
            Some(entry) => {
                &&& entry.byte_len >= 1
                &&& from + entry.byte_len <= map.len()
                &&& forall|inner: int|
                    from < inner < from + entry.byte_len ==> (#[trigger] map[inner]) is None
                &&& covers_from(map, from + entry.byte_len)
            },
            None => false,
        }
    }
}

/// Whether the spans of the units of `map` partition the offsets of the
/// map: they are contiguous, none overlaps another, and none is left out.
pub open spec fn spans_partition(map: UnitMap) -> bool {
    covers_from(map, 0)
}

/// The sum of the byte lengths of the units of `map`.
pub open spec fn total_byte_len(map: UnitMap) -> nat
    decreases map.len(),
{
    if map.len() == 0 {
        0
    } else {
        total_byte_len(map.drop_last()) + match map.last() {
            Some(entry) => entry.byte_len,
            None => 0,
        }
    }
}

/// Whether `text` can be drawn as it is.
pub fn is_displayable(text: &str) -> (shown: bool)
    ensures
        shown == displayable(text@),
{
    if text.is_empty() {
        return false;
    }
    let ch = text.get_char(0);
    if (ch <= '\u{1F}' || ('\u{7F}' <= ch && ch <= '\u{9F}')) && ch != ' ' {
        return false;
    }
    if ch == '\u{FFFD}' {
        return false;
    }
    true
}

/// The text of the placeholder: a single dot.
pub fn dot() -> (text: String)
    ensures
        text@ == seq!['.'],
{
    let mut text = String::new();
    text.push('.');
    assert(text@ =~= seq!['.']);
    text
}

/// The unit that stands for `byte_len` bytes that have no displayable
/// form.
pub fn placeholder_unit(byte_len: usize) -> (entry: DecodedChar)
    ensures
        entry@ == placeholder(byte_len as nat),
{
    DecodedChar { display: dot(), byte_len, width: 1 }
}

/// The unit for a grapheme cluster that was decoded from `byte_len`
/// bytes and that the terminal draws `width` columns wide.
pub fn display_unit(grapheme: &str, width: usize, byte_len: usize) -> (entry: DecodedChar)
    ensures
        entry@ == shown_unit(grapheme@, width as nat, byte_len as nat),
{
    let display = if is_displayable(grapheme) {
        grapheme.to_owned()
    } else {
        dot()
    };
    let width = if width >= 1 {
        width
    } else {
        1
    };
    DecodedChar { display, byte_len, width }
}

} // verus!
