//! The dual-pane view: styled cells, the colour palette, the renderer
//! that lays a byte window out as rows of cells, and the drawing of those
//! rows into the buffer of the terminal toolkit.

use vstd::prelude::*;

pub mod hex_view;
pub mod terminal;

pub use hex_view::{HexView, ViewMode};

verus! {

/// A terminal colour. `Reset` is the terminal's own default.
#[derive(Debug, Clone, Copy, PartialEq, Eq, Structural)]
pub enum Color {
    Reset,
    Black,
    Red,
    Green,
    Yellow,
    Blue,
    Magenta,
    Cyan,
    DarkGray,
    White,
}

/// A rectangle of the terminal: the column and the row of its corner, and
/// its size in cells.
#[derive(Debug, Clone, Copy, PartialEq, Eq, Structural)]
pub struct Rect {
    pub x: u16,
    pub y: u16,
    pub width: u16,
    pub height: u16,
}

/// One styled character cell of the rendered grid.
#[derive(Debug, Clone, Copy, PartialEq, Eq, Structural)]
pub struct Cell {
    pub glyph: char,
    pub fg: Color,
    pub bg: Color,
    pub bold: bool,
}

impl DeepView for Cell {
    type V = Cell;

    open spec fn deep_view(&self) -> Cell {
        *self
    }
}

impl Cell {
    /// A cell that shows nothing: a space in the terminal's default colours.
    pub open spec fn blank() -> Cell {
        Cell { glyph: ' ', fg: Color::Reset, bg: Color::Reset, bold: false }
    }

    /// A cell that shows `glyph` in the given style.
    pub open spec fn styled(glyph: char, fg: Color, bg: Color, bold: bool) -> Cell {
        Cell { glyph, fg, bg, bold }
    }

    /// A cell that shows `glyph` in the given colours, not bold.
    pub open spec fn plain(glyph: char, fg: Color, bg: Color) -> Cell {
        Cell { glyph, fg, bg, bold: false }
    }

    /// A cell that shows nothing.
    pub fn empty() -> (cell: Cell)
        ensures
            cell == Cell::blank(),
    {
        Cell { glyph: ' ', fg: Color::Reset, bg: Color::Reset, bold: false }
    }
}

/// The default colour palette of the view.
pub struct Colors;

impl Colors {
    pub const ADDR: Color = Color::Cyan;

    pub const HEX_NORMAL: Color = Color::White;

    pub const HEX_ZERO: Color = Color::DarkGray;

    pub const HEX_HIGH: Color = Color::Red;

    pub const HEX_PRINTABLE: Color = Color::Green;

    pub const ASCII_NORMAL: Color = Color::White;

    pub const ASCII_CONTROL: Color = Color::DarkGray;

    pub const CURSOR: Color = Color::Black;

    pub const CURSOR_BG: Color = Color::Yellow;

    pub const SELECTION_BG: Color = Color::Blue;

    pub const MODIFIED: Color = Color::Magenta;

    pub const HEADER: Color = Color::Yellow;
}

/// The cells that show `text` in one style, one cell for each character.
pub open spec fn cells_of(text: Seq<char>, fg: Color, bg: Color, bold: bool) -> Seq<Cell> {
    Seq::new(text.len(), |i: int| Cell::styled(text[i], fg, bg, bold))
}

/// `count` blank cells.
pub open spec fn blanks(count: nat) -> Seq<Cell> {
    Seq::new(count, |i: int| Cell::blank())
}

/// What of `cells` is visible in `width` columns: the part that fits.
pub open spec fn clip(cells: Seq<Cell>, width: nat) -> Seq<Cell> {
    if cells.len() <= width {
        cells
    } else {
        cells.take(width as int)
    }
}

/// `cells` laid into exactly `width` columns: cut where it is longer, blank
/// where it is shorter.
pub open spec fn fit(cells: Seq<Cell>, width: nat) -> Seq<Cell> {
    Seq::new(
        width,
        |col: int|
            if col < cells.len() {
                cells[col]
            } else {
                Cell::blank()
            },
    )
}

} // verus!
