//! The hexadecimal/textual dual-pane renderer.

use crate::encoding::{byte_to_char, is_printable_ascii, spec_byte_to_char, CharEncoding};
use crate::radix::{
    digit, format_radix, hex_pair, lemma_radix_digits_chars, radix_digits, zero_padded,
};
use crate::ui::terminal::{
    buffer_cells, buffer_positions, draw_rows, is_printable_glyph, painted,
};
use crate::ui::{blanks, cells_of, clip, fit, Cell, Color, Colors, Rect};
use ratatui::buffer::Buffer;
use vstd::prelude::*;

verus! {

/// The pane that owns the cursor highlight.
#[derive(Debug, Clone, Copy, PartialEq, Eq, Structural)]
pub enum ViewMode {
    Hex,
    Ascii,
}

impl Default for ViewMode {
    fn default() -> (mode: Self)
        ensures
            mode == ViewMode::Hex,
    {
        ViewMode::Hex
    }
}

/// The colour class of a byte value in the hex pane.
pub open spec fn spec_byte_color(byte: u8) -> Color {
    if byte == 0x00 {
        Colors::HEX_ZERO
    } else if byte == 0xFF {
        Colors::HEX_HIGH
    } else if is_printable_ascii(byte) {
        Colors::HEX_PRINTABLE
    } else {
        Colors::HEX_NORMAL
    }
}

/// The colour of a byte in the textual pane.
pub open spec fn spec_text_color(byte: u8) -> Color {
    if is_printable_ascii(byte) {
        Colors::ASCII_NORMAL
    } else {
        Colors::ASCII_CONTROL
    }
}

/// The label of one column of the header: its index in hexadecimal, two
/// digits at least.
pub open spec fn column_label(index: nat) -> Seq<char> {
    zero_padded(radix_digits(index, 16), 2)
}

/// The labels of the first `count` columns, separated by single spaces.
pub open spec fn column_labels(count: nat) -> Seq<char>
    decreases count,
{
    if count == 0 {
        Seq::empty()
    } else if count == 1 {
        column_label(0)
    } else {
        column_labels((count - 1) as nat) + seq![' '] + column_label((count - 1) as nat)
    }
}

/// The text of the header row for rows of `bytes_per_row` bytes.
pub open spec fn header_text(bytes_per_row: nat) -> Seq<char> {
    "Offset  "@ + "  "@ + column_labels(bytes_per_row) + "  "@ + "ASCII"@
}

/// What a view shows, as plain mathematical values.
pub struct ViewState {
    pub data: Seq<u8>,
    pub offset: nat,
    pub bytes_per_row: nat,
    pub cursor: nat,
    pub selection: Option<(nat, nat)>,
    pub mode: ViewMode,
    pub encoding: CharEncoding,
    pub addr_radix: u8,
}

impl ViewState {
    /// The end-of-file offset: one past the last byte.
    pub open spec fn eof(self) -> nat {
        self.data.len()
    }

    /// The offset of the first byte slot of a data row.
    pub open spec fn row_start(self, row: nat) -> nat {
        self.offset + row * self.bytes_per_row
    }

    /// Whether a data row is drawn: it holds a real byte, or it holds the
    /// end-of-file slot while the cursor rests there.
    pub open spec fn row_visible(self, row: nat) -> bool {
        let start = self.row_start(row);
        self.bytes_per_row >= 1 && (start < self.eof() || (start == self.eof() && self.cursor
            == self.eof()))
    }

    /// The text of an address: eight hexadecimal digits or ten decimal
    /// digits at least, zero-padded.
    pub open spec fn addr_text(self, addr: nat) -> Seq<char> {
        if self.addr_radix == 16 {
            zero_padded(radix_digits(addr, 16), 8)
        } else {
            zero_padded(radix_digits(addr, 10), 10)
        }
    }

    /// Whether the selection covers an offset.
    pub open spec fn selected(self, at: nat) -> bool {
        match self.selection {
            Some((start, end)) => start <= at <= end,
            None => false,
        }
    }

    /// Whether the cursor is shown at an offset of the given pane.
    pub open spec fn cursor_in(self, at: nat, pane: ViewMode) -> bool {
        at == self.cursor && self.mode == pane
    }

    /// The cursor's own cell, showing `glyph`.
    pub open spec fn cursor_cell(glyph: char) -> Cell {
        Cell::plain(glyph, Colors::CURSOR, Colors::CURSOR_BG)
    }

    /// The cell of a real byte: the cursor's colours where the cursor is
    /// shown, else the selection background under the byte's own colour,
    /// else the byte's own colour alone.
    pub open spec fn byte_cell(self, at: nat, pane: ViewMode, glyph: char, own: Color) -> Cell {
        if self.cursor_in(at, pane) {
            Self::cursor_cell(glyph)
        } else if self.selected(at) {
            Cell::plain(glyph, own, Colors::SELECTION_BG)
        } else {
            Cell::plain(glyph, own, Color::Reset)
        }
    }

    /// The three cells of one slot of the hex pane: two digits and a gap.
    pub open spec fn hex_slot(self, at: nat) -> Seq<Cell> {
        if at < self.eof() {
            let byte = self.data[at as int];
            let digits = hex_pair(byte);
            seq![
                self.byte_cell(at, ViewMode::Hex, digits[0], spec_byte_color(byte)),
                self.byte_cell(at, ViewMode::Hex, digits[1], spec_byte_color(byte)),
                Cell::blank(),
            ]
        } else if at == self.eof() && self.cursor_in(at, ViewMode::Hex) {
            seq![Self::cursor_cell('_'), Self::cursor_cell('_'), Cell::blank()]
        } else {
            blanks(3)
        }
    }

    /// The cell of one slot of the textual pane.
    pub open spec fn text_slot(self, at: nat) -> Cell {
        if at < self.eof() {
            let byte = self.data[at as int];
            self.byte_cell(at, ViewMode::Ascii, spec_byte_to_char(byte), spec_text_color(byte))
        } else if at == self.eof() && self.cursor_in(at, ViewMode::Ascii) {
            Self::cursor_cell('_')
        } else {
            Cell::blank()
        }
    }

    /// The address field of a row.
    pub open spec fn addr_field(self, start: nat) -> Seq<Cell> {
        cells_of(self.addr_text(start), Colors::ADDR, Color::Reset, false)
    }

    /// The first `slots` slots of the hex pane of the row that starts at
    /// `start`.
    pub open spec fn hex_field(self, start: nat, slots: nat) -> Seq<Cell> {
        Seq::new(3 * slots, |col: int| self.hex_slot((start + col / 3) as nat)[col % 3])
    }

    /// The first `slots` slots of the textual pane of the row that starts at
    /// `start`.
    pub open spec fn text_field(self, start: nat, slots: nat) -> Seq<Cell> {
        Seq::new(slots, |col: int| self.text_slot((start + col) as nat))
    }

    /// All cells of a data row, unclipped: address, two blanks, the hex
    /// pane, one blank, the textual pane.
    pub open spec fn row_cells(self, row: nat) -> Seq<Cell> {
        let start = self.row_start(row);
        self.addr_field(start) + blanks(2) + self.hex_field(start, self.bytes_per_row) + blanks(1)
            + self.text_field(start, self.bytes_per_row)
    }

    /// The column of the first hex digit of a slot of a row.
    pub open spec fn hex_column(self, row: nat, slot: nat) -> nat {
        self.addr_text(self.row_start(row)).len() + 2 + 3 * slot
    }

    /// The column of a slot of a row in the textual pane.
    pub open spec fn text_column(self, row: nat, slot: nat) -> nat {
        self.addr_text(self.row_start(row)).len() + 3 + 3 * self.bytes_per_row + slot
    }

    /// The cells of the header row, unclipped.
    pub open spec fn header_cells(self) -> Seq<Cell> {
        cells_of(header_text(self.bytes_per_row), Colors::HEADER, Color::Reset, true)
    }

    /// One row of the grid, `width` cells wide: the header on top, then
    /// the data rows, blank where a row is not drawn.
    pub open spec fn grid_row(self, width: nat, line: nat) -> Seq<Cell> {
        if line == 0 {
            fit(self.header_cells(), width)
        } else if self.row_visible((line - 1) as nat) {
            fit(self.row_cells((line - 1) as nat), width)
        } else {
            blanks(width)
        }
    }

    /// The whole grid: `height` rows of `width` cells.
    pub open spec fn grid(self, width: nat, height: nat) -> Seq<Seq<Cell>> {
        Seq::new(height, |line: int| self.grid_row(width, line as nat))
    }
}

/// A view of a byte window: what to show and where the cursor and the
/// selection are.
pub struct HexView<'a> {
    data: &'a [u8],
    offset: usize,
    bytes_per_row: usize,
    cursor: usize,
    selection: Option<(usize, usize)>,
    mode: ViewMode,
    encoding: CharEncoding,
    addr_radix: u8,
}

/// A selection as mathematical offsets.
pub open spec fn selection_model(selection: Option<(usize, usize)>) -> Option<(nat, nat)> {
    match selection {
        Some((start, end)) => Some((start as nat, end as nat)),
        None => None,
    }
}

impl<'a> View for HexView<'a> {
    type V = ViewState;

    closed spec fn view(&self) -> ViewState {
        ViewState {
            data: self.data@,
            offset: self.offset as nat,
            bytes_per_row: self.bytes_per_row as nat,
            cursor: self.cursor as nat,
            selection: selection_model(self.selection),
            mode: self.mode,
            encoding: self.encoding,
            addr_radix: self.addr_radix,
        }
    }
}

/// Appends `cell` to `row` unless the row already fills `width` columns.
fn put(row: &mut Vec<Cell>, Ghost(full): Ghost<Seq<Cell>>, width: usize, cell: Cell)
    requires
        old(row)@ == clip(full, width as nat),
    ensures
        final(row)@ == clip(full.push(cell), width as nat),
{
    if row.len() < width {
        row.push(cell);
    }
    assert(row@ =~= clip(full.push(cell), width as nat));
}

/// Appends a cell for each character of `text`, as far as `width` allows.
fn put_str(
    row: &mut Vec<Cell>,
    Ghost(full): Ghost<Seq<Cell>>,
    width: usize,
    text: &str,
    fg: Color,
    bold: bool,
)
    requires
        old(row)@ == clip(full, width as nat),
    ensures
        final(row)@ == clip(full + cells_of(text@, fg, Color::Reset, bold), width as nat),
{
    let ghost cells = cells_of(text@, fg, Color::Reset, bold);
    for glyph in it: text.chars()
        invariant
            it.seq() == text@,
            cells == cells_of(text@, fg, Color::Reset, bold),
            row@ == clip(full + cells.take(it.index() as int), width as nat),
    {
        let ghost done = full + cells.take(it.index() as int);
        put(row, Ghost(done), width, Cell { glyph, fg, bg: Color::Reset, bold });
        assert(done.push(cells[it.index() as int]) =~= full + cells.take(it.index() + 1));
    }
    assert(cells.take(text@.len() as int) =~= cells);
}

/// Fills `row` with blank cells up to `width` columns.
fn pad(row: &mut Vec<Cell>, Ghost(full): Ghost<Seq<Cell>>, width: usize)
    requires
        old(row)@ == clip(full, width as nat),
    ensures
        final(row)@ == fit(full, width as nat),
{
    while row.len() < width
        invariant
            row.len() <= width || row@ == clip(full, width as nat),
            row@ =~= fit(full, width as nat).take(row.len() as int),
            clip(full, width as nat).len() <= row.len(),
        decreases width - row.len(),
    {
        row.push(Cell::empty());
    }
    assert(row@ =~= fit(full, width as nat));
}

impl<'a> HexView<'a> {
    /// A view of `data` from its first byte, sixteen bytes to a row, with
    /// the cursor on the first byte of the hex pane and nothing selected.
    pub fn new(data: &'a [u8]) -> (view: Self)
        ensures
            view@ == (ViewState {
                data: data@,
                offset: 0,
                bytes_per_row: 16,
                cursor: 0,
                selection: None,
                mode: ViewMode::Hex,
                encoding: CharEncoding::Utf8,
                addr_radix: 16,
            }),
    {
        HexView {
            data,
            offset: 0,
            bytes_per_row: 16,
            cursor: 0,
            selection: None,
            mode: ViewMode::Hex,
            encoding: CharEncoding::Utf8,
            addr_radix: 16,
        }
    }

    /// The same view, starting at `offset`.
    pub fn offset(self, offset: usize) -> (view: Self)
        ensures
            view@ == (ViewState { offset: offset as nat, ..self@ }),
    {
        let mut view = self;
        view.offset = offset;
        view
    }

    /// The same view, with `bytes` byte slots to a row.
    pub fn bytes_per_row(self, bytes: usize) -> (view: Self)
        ensures
            view@ == (ViewState { bytes_per_row: bytes as nat, ..self@ }),
    {
        let mut view = self;
        view.bytes_per_row = bytes;
        view
    }

    /// The same view, with the cursor at `cursor`.
    pub fn cursor(self, cursor: usize) -> (view: Self)
        ensures
            view@ == (ViewState { cursor: cursor as nat, ..self@ }),
    {
        let mut view = self;
        view.cursor = cursor;
        view
    }

    /// The same view, with the given selection: an inclusive pair of
    /// offsets, or none.
    pub fn selection(self, selection: Option<(usize, usize)>) -> (view: Self)
        ensures
            view@ == (ViewState { selection: selection_model(selection), ..self@ }),
    {
        let mut view = self;
        view.selection = selection;
        view
    }

    /// The same view, with the cursor highlight in the pane of `mode`.
    pub fn mode(self, mode: ViewMode) -> (view: Self)
        ensures
            view@ == (ViewState { mode, ..self@ }),
    {
        let mut view = self;
        view.mode = mode;
        view
    }

    /// The same view, under another character encoding.
    pub fn encoding(self, encoding: CharEncoding) -> (view: Self)
        ensures
            view@ == (ViewState { encoding, ..self@ }),
    {
        let mut view = self;
        view.encoding = encoding;
        view
    }

    /// The same view, with addresses in hexadecimal where `radix` is 16 and
    /// in decimal otherwise.
    pub fn addr_radix(self, radix: u8) -> (view: Self)
        ensures
            view@ == (ViewState { addr_radix: radix, ..self@ }),
    {
        let mut view = self;
        view.addr_radix = radix;
        view
    }

    /// The text of an address in the view's radix.
    pub fn format_addr(&self, addr: usize) -> (text: String)
        ensures
            text@ == self@.addr_text(addr as nat),
    {
        if self.addr_radix == 16 {
            format_radix(addr, 16, 8)
        } else {
            format_radix(addr, 10, 10)
        }
    }

    /// The colour class of a byte value in the hex pane.
    pub fn byte_color(&self, byte: u8) -> (color: Color)
        ensures
            color == spec_byte_color(byte),
    {
        if byte == 0x00 {
            Colors::HEX_ZERO
        } else if byte == 0xFF {
            Colors::HEX_HIGH
        } else if 0x20 <= byte && byte <= 0x7E {
            Colors::HEX_PRINTABLE
        } else {
            Colors::HEX_NORMAL
        }
    }

    /// The cell of a real byte under the cursor and selection rules.
    fn byte_cell(&self, at: usize, pane: ViewMode, glyph: char, own: Color) -> (cell: Cell)
        ensures
            cell == self@.byte_cell(at as nat, pane, glyph, own),
    {
        if at == self.cursor && self.mode == pane {
            Cell { glyph, fg: Colors::CURSOR, bg: Colors::CURSOR_BG, bold: false }
        } else {
            let selected = match self.selection {
                Some((start, end)) => start <= at && at <= end,
                None => false,
            };
            if selected {
                Cell { glyph, fg: own, bg: Colors::SELECTION_BG, bold: false }
            } else {
                Cell { glyph, fg: own, bg: Color::Reset, bold: false }
            }
        }
    }

    /// The two digit cells of the slot `slot` of the hex pane of the row
    /// that starts at `start`.
    fn hex_digits(&self, start: usize, slot: usize) -> (cells: (Cell, Cell))
        ensures
            seq![cells.0, cells.1, Cell::blank()] == self@.hex_slot((start + slot) as nat),
    {
        let cursor_cell = Cell {
            glyph: '_',
            fg: Colors::CURSOR,
            bg: Colors::CURSOR_BG,
            bold: false,
        };
        let eof = self.data.len();
        let cells = match start.checked_add(slot) {
            Some(at) => {
                if at < eof {
                    let byte = self.data[at];
                    let own = self.byte_color(byte);
                    (
                        self.byte_cell(at, ViewMode::Hex, digit(byte / 16), own),
                        self.byte_cell(at, ViewMode::Hex, digit(byte % 16), own),
                    )
                } else if at == eof && at == self.cursor && self.mode == ViewMode::Hex {
                    (cursor_cell, cursor_cell)
                } else {
                    (Cell::empty(), Cell::empty())
                }
            },
            None => (Cell::empty(), Cell::empty()),
        };
        assert(seq![cells.0, cells.1, Cell::blank()] =~= self@.hex_slot((start + slot) as nat));
        cells
    }

    /// The cell of the slot `slot` of the textual pane of the row that
    /// starts at `start`.
    fn text_cell(&self, start: usize, slot: usize) -> (cell: Cell)
        ensures
            cell == self@.text_slot((start + slot) as nat),
    {
        let eof = self.data.len();
        match start.checked_add(slot) {
            Some(at) => {
                if at < eof {
                    let byte = self.data[at];
                    let own = if 0x20 <= byte && byte <= 0x7E {
                        Colors::ASCII_NORMAL
                    } else {
                        Colors::ASCII_CONTROL
                    };
                    self.byte_cell(at, ViewMode::Ascii, byte_to_char(byte), own)
                } else if at == eof && at == self.cursor && self.mode == ViewMode::Ascii {
                    Cell { glyph: '_', fg: Colors::CURSOR, bg: Colors::CURSOR_BG, bold: false }
                } else {
                    Cell::empty()
                }
            },
            None => Cell::empty(),
        }
    }

    /// One data row of the view, `width` cells wide: the row with index
    /// `row_offset` below the header, or `None` where that row is not
    /// drawn.
    pub fn render_row(&self, row_offset: usize, width: usize) -> (row: Option<Vec<Cell>>)
        ensures
            match row {
                Some(cells) => self@.row_visible(row_offset as nat) && cells@ == fit(
                    self@.row_cells(row_offset as nat),
                    width as nat,
                ),
                None => !self@.row_visible(row_offset as nat),
            },
    {
        let eof = self.data.len();
        let slots = self.bytes_per_row;
        if slots == 0 {
            return None;
        }
        let start = match row_offset.checked_mul(slots) {
            Some(skipped) => match self.offset.checked_add(skipped) {
                Some(start) => start,
                None => { return None; },
            },
            None => { return None; },
        };
        if start > eof || (start == eof && self.cursor != eof) {
            return None;
        }
        let ghost state = self@;
        let ghost addr = state.addr_field(start as nat);
        let mut row: Vec<Cell> = Vec::new();

        let addr_text = self.format_addr(start);
        put_str(&mut row, Ghost(Seq::empty()), width, addr_text.as_str(), Colors::ADDR, false);
        assert(Seq::<Cell>::empty() + addr =~= addr);
        put(&mut row, Ghost(addr), width, Cell::empty());
        put(&mut row, Ghost(addr.push(Cell::blank())), width, Cell::empty());
        let ghost head = addr + blanks(2);
        assert(addr.push(Cell::blank()).push(Cell::blank()) =~= head);
        assert(head + state.hex_field(start as nat, 0) =~= head);

        let mut slot: usize = 0;
        while slot < slots && row.len() < width
            invariant
                slot <= slots,
                state == self@,
                row@ == clip(head + state.hex_field(start as nat, slot as nat), width as nat),
            decreases slots - slot,
        {
            let ghost done = head + state.hex_field(start as nat, slot as nat);
            let digits = self.hex_digits(start, slot);
            put(&mut row, Ghost(done), width, digits.0);
            put(&mut row, Ghost(done.push(digits.0)), width, digits.1);
            put(&mut row, Ghost(done.push(digits.0).push(digits.1)), width, Cell::empty());
            proof {
                let three = seq![digits.0, digits.1, Cell::blank()];
                assert(three == state.hex_slot((start + slot) as nat));
                assert(done.push(digits.0).push(digits.1).push(Cell::blank()) =~= head
                    + state.hex_field(start as nat, (slot + 1) as nat)) by {
                    let next = state.hex_field(start as nat, (slot + 1) as nat);
                    assert(next.len() == 3 * slot + 3);
                    assert(next[3 * slot] == three[0]);
                    assert(next[3 * slot + 1] == three[1]);
                    assert(next[3 * slot + 2] == three[2]);
                }
            }
            slot = slot + 1;
        }
        let ghost hex = state.hex_field(start as nat, slots as nat);
        proof {
            let partial = head + state.hex_field(start as nat, slot as nat);
            assert((head + hex).take(partial.len() as int) =~= partial);
            lemma_clip_prefix(partial, head + hex, width as nat);
        }
        put(&mut row, Ghost(head + hex), width, Cell::empty());
        let ghost left = head + hex + blanks(1);
        assert((head + hex).push(Cell::blank()) =~= left);
        assert(left + state.text_field(start as nat, 0) =~= left);

        let mut slot: usize = 0;
        while slot < slots && row.len() < width
            invariant
                slot <= slots,
                state == self@,
                row@ == clip(left + state.text_field(start as nat, slot as nat), width as nat),
            decreases slots - slot,
        {
            let ghost done = left + state.text_field(start as nat, slot as nat);
            let cell = self.text_cell(start, slot);
            put(&mut row, Ghost(done), width, cell);
            assert(done.push(cell) =~= left + state.text_field(start as nat, (slot + 1) as nat));
            slot = slot + 1;
        }
        let ghost all = left + state.text_field(start as nat, slots as nat);
        proof {
            let partial = left + state.text_field(start as nat, slot as nat);
            assert(all.take(partial.len() as int) =~= partial);
            lemma_clip_prefix(partial, all, width as nat);
            assert(all == state.row_cells(row_offset as nat));
        }
        pad(&mut row, Ghost(all), width);
        Some(row)
    }

    /// The header row of the view, `width` cells wide.
    pub fn render_header(&self, width: usize) -> (row: Vec<Cell>)
        ensures
            row@ == fit(self@.header_cells(), width as nat),
    {
        let slots = self.bytes_per_row;
        let fg = Colors::HEADER;
        let mut row: Vec<Cell> = Vec::new();
        put_str(&mut row, Ghost(Seq::empty()), width, "Offset  ", fg, true);
        let ghost offset = header_part("Offset  "@);
        assert(Seq::<Cell>::empty() + offset =~= offset);
        put_str(&mut row, Ghost(offset), width, "  ", fg, true);
        let ghost head = header_part("Offset  "@ + "  "@);
        proof {
            lemma_header_part_add("Offset  "@, "  "@);
            lemma_header_part_add("Offset  "@ + "  "@, column_labels(0));
            assert(head + header_part(column_labels(0)) =~= head);
        }

        let mut slot: usize = 0;
        while slot < slots && row.len() < width
            invariant
                slot <= slots,
                fg == Colors::HEADER,
                head == header_part("Offset  "@ + "  "@),
                row@ == clip(head + header_part(column_labels(slot as nat)), width as nat),
            decreases slots - slot,
        {
            let ghost labels = column_labels(slot as nat);
            let ghost done = head + header_part(labels);
            let ghost spaced = if slot == 0 {
                labels
            } else {
                labels.push(' ')
            };
            if slot > 0 {
                put(&mut row, Ghost(done), width, Cell { glyph: ' ', fg, bg: Color::Reset, bold: true });
                assert(done.push(Cell::styled(' ', fg, Color::Reset, true)) =~= head + header_part(
                    spaced,
                ));
            }
            let label = format_radix(slot, 16, 2);
            put_str(&mut row, Ghost(head + header_part(spaced)), width, label.as_str(), fg, true);
            proof {
                lemma_header_part_add(spaced, label@);
                assert(spaced + label@ =~= column_labels((slot + 1) as nat));
                assert(head + header_part(spaced) + header_part(label@) =~= head + header_part(
                    spaced + label@,
                ));
            }
            slot = slot + 1;
        }
        let ghost labels = column_labels(slots as nat);
        proof {
            let shown = column_labels(slot as nat);
            lemma_labels_prefix(slot as nat, slots as nat);
            assert((head + header_part(labels)).take((head + header_part(shown)).len() as int)
                =~= head + header_part(shown));
            lemma_clip_prefix(head + header_part(shown), head + header_part(labels), width as nat);
        }
        put_str(&mut row, Ghost(head + header_part(labels)), width, "  ", fg, true);
        put_str(
            &mut row,
            Ghost(head + header_part(labels) + header_part("  "@)),
            width,
            "ASCII",
            fg,
            true,
        );
        proof {
            let text = header_text(slots as nat);
            lemma_header_part_add("Offset  "@ + "  "@, labels);
            lemma_header_part_add("Offset  "@ + "  "@ + labels, "  "@);
            lemma_header_part_add("Offset  "@ + "  "@ + labels + "  "@, "ASCII"@);
            assert(head + header_part(labels) + header_part("  "@) + header_part("ASCII"@)
                =~= header_part(text));
        }
        pad(&mut row, Ghost(self@.header_cells()), width);
        row
    }

    /// The whole grid, `height` rows of `width` cells: the header row, then
    /// one row for each further line, blank where no data row is drawn.
    pub fn render_grid(&self, width: u16, height: u16) -> (grid: Vec<Vec<Cell>>)
        ensures
            grid@.len() == height,
            forall|line: int|
                0 <= line < height ==> (#[trigger] grid@[line])@ == self@.grid_row(
                    width as nat,
                    line as nat,
                ),
    {
        let mut grid: Vec<Vec<Cell>> = Vec::new();
        if height == 0 {
            return grid;
        }
        grid.push(self.render_header(width as usize));
        let mut line: usize = 1;
        while line < height as usize
            invariant
                1 <= line <= height,
                grid@.len() == line,
                forall|above: int|
                    0 <= above < line ==> (#[trigger] grid@[above])@ == self@.grid_row(
                        width as nat,
                        above as nat,
                    ),
            decreases height - line,
        {
            let cells = match self.render_row(line - 1, width as usize) {
                Some(cells) => cells,
                None => {
                    let mut cells: Vec<Cell> = Vec::new();
                    pad(&mut cells, Ghost(Seq::empty()), width as usize);
                    assert(cells@ =~= blanks(width as nat));
                    cells
                },
            };
            grid.push(cells);
            line = line + 1;
        }
        grid
    }

    /// Draws the view into `buffer`: the grid of `area.width` by
    /// `area.height` cells, its first cell at the corner of `area`. Each
    /// position of the grid that the buffer has shows the cell of the grid
    /// afterwards; nothing else changes.
    pub fn render(&self, area: Rect, buffer: &mut Buffer)
        ensures
            buffer_positions(*final(buffer)) == buffer_positions(*old(buffer)),
            buffer_cells(*final(buffer)) == painted(
                buffer_cells(*old(buffer)),
                buffer_positions(*old(buffer)),
                area.x,
                area.y,
                self@.grid(area.width as nat, area.height as nat),
            ),
    {
        let grid = self.render_grid(area.width, area.height);
        proof {
            let rows = self@.grid(area.width as nat, area.height as nat);
            assert(grid.deep_view() =~= rows) by {
                assert forall|line: int| 0 <= line < rows.len() implies grid.deep_view()[line]
                    == rows[line] by {
                    assert(grid.deep_view()[line] =~= grid@[line]@);
                }
            }
            assert forall|line: int, col: int|
                0 <= line < rows.len() && 0 <= col < rows[line].len() implies is_printable_glyph(
                #[trigger] rows[line][col].glyph,
            ) by {
                lemma_grid_is_printable(self@, area.width as nat, line as nat, col);
            }
        }
        draw_rows(&grid, area.x, area.y, buffer);
    }
}

/// The cells of a piece of the header text.
pub open spec fn header_part(text: Seq<char>) -> Seq<Cell> {
    cells_of(text, Colors::HEADER, Color::Reset, true)
}

/// The labels of fewer columns are the start of the labels of more.
proof fn lemma_labels_prefix(fewer: nat, more: nat)
    requires
        fewer <= more,
    ensures
        column_labels(fewer).len() <= column_labels(more).len(),
        column_labels(more).take(column_labels(fewer).len() as int) == column_labels(fewer),
    decreases more,
{
    if fewer == more {
        assert(column_labels(more).take(column_labels(more).len() as int) =~= column_labels(more));
    } else {
        lemma_labels_prefix(fewer, (more - 1) as nat);
        let shorter = column_labels((more - 1) as nat);
        assert(column_labels(more).take(shorter.len() as int) =~= shorter);
        assert(column_labels(more).take(column_labels(fewer).len() as int) =~= shorter.take(
            column_labels(fewer).len() as int,
        ));
    }
}

proof fn lemma_header_part_add(left: Seq<char>, right: Seq<char>)
    ensures
        header_part(left + right) == header_part(left) + header_part(right),
{
    assert(header_part(left + right) =~= header_part(left) + header_part(right));
}

/// Once a row fills the width, nothing that is appended can be seen.
proof fn lemma_clip_prefix(shorter: Seq<Cell>, longer: Seq<Cell>, width: nat)
    requires
        shorter.len() <= longer.len(),
        longer.take(shorter.len() as int) == shorter,
        shorter.len() >= width || shorter.len() == longer.len(),
    ensures
        clip(longer, width) == clip(shorter, width),
{
    assert(clip(longer, width) =~= clip(shorter, width));
}

/// The grid shows a drawn data row as it is, in every column that both
/// the row and the grid have.
pub proof fn lemma_grid_shows_row(state: ViewState, width: nat, row: nat, col: nat)
    requires
        state.row_visible(row),
        col < width,
        col < state.row_cells(row).len(),
    ensures
        state.grid_row(width, row + 1)[col as int] == state.row_cells(row)[col as int],
{
}

/// A cursor that rests on the end-of-file offset is always shown. The row
/// whose slots hold that offset is drawn, even when it holds no byte at
/// all, and the slot carries the cursor's placeholder in the pane that owns
/// the cursor: both digit columns in the hex pane, the one column in the
/// textual pane.
pub proof fn lemma_eof_cursor_is_shown(state: ViewState, row: nat)
    requires
        state.cursor == state.eof(),
        state.row_start(row) <= state.eof() < state.row_start(row) + state.bytes_per_row,
    ensures
        state.row_visible(row),
        ({
            let slot = (state.eof() - state.row_start(row)) as nat;
            let cells = state.row_cells(row);
            let hex = state.hex_column(row, slot) as int;
            let text = state.text_column(row, slot) as int;
            &&& 0 <= hex < hex + 1 < text < cells.len()
            &&& state.mode == ViewMode::Hex ==> cells[hex] == ViewState::cursor_cell('_')
                && cells[hex + 1] == ViewState::cursor_cell('_')
            &&& state.mode == ViewMode::Ascii ==> cells[text] == ViewState::cursor_cell('_')
        }),
{
    let start = state.row_start(row);
    let slot = (state.eof() - start) as nat;
    lemma_row_columns(state, row, slot);
}

/// Every real byte that the selection covers carries the selection
/// background in both panes, under the colour of its own value class,
/// except in the pane where the cursor is shown on that very byte: there
/// the cursor's colours win.
pub proof fn lemma_selection_is_highlighted(state: ViewState, row: nat, slot: nat)
    requires
        slot < state.bytes_per_row,
        state.row_start(row) + slot < state.eof(),
        state.selected(state.row_start(row) + slot),
    ensures
        state.row_visible(row),
        ({
            let at = state.row_start(row) + slot;
            let byte = state.data[at as int];
            let cells = state.row_cells(row);
            let hex = state.hex_column(row, slot) as int;
            let text = state.text_column(row, slot) as int;
            &&& 0 <= hex < hex + 1 < text < cells.len()
            &&& if state.cursor_in(at, ViewMode::Hex) {
                &&& cells[hex] == ViewState::cursor_cell(hex_pair(byte)[0])
                &&& cells[hex + 1] == ViewState::cursor_cell(hex_pair(byte)[1])
            } else {
                &&& cells[hex] == Cell::plain(
                    hex_pair(byte)[0],
                    spec_byte_color(byte),
                    Colors::SELECTION_BG,
                )
                &&& cells[hex + 1] == Cell::plain(
                    hex_pair(byte)[1],
                    spec_byte_color(byte),
                    Colors::SELECTION_BG,
                )
            }
            &&& if state.cursor_in(at, ViewMode::Ascii) {
                cells[text] == ViewState::cursor_cell(spec_byte_to_char(byte))
            } else {
                cells[text] == Cell::plain(
                    spec_byte_to_char(byte),
                    spec_text_color(byte),
                    Colors::SELECTION_BG,
                )
            }
        }),
{
    lemma_row_columns(state, row, slot);
}

/// Where the cells of a slot stand in a row.
proof fn lemma_row_columns(state: ViewState, row: nat, slot: nat)
    requires
        slot < state.bytes_per_row,
    ensures
        ({
            let at = state.row_start(row) + slot;
            let cells = state.row_cells(row);
            let hex = state.hex_column(row, slot) as int;
            let text = state.text_column(row, slot) as int;
            &&& 0 <= hex < hex + 1 < text < cells.len()
            &&& cells[hex] == state.hex_slot(at)[0]
            &&& cells[hex + 1] == state.hex_slot(at)[1]
            &&& cells[text] == state.text_slot(at)
        }),
{
    let start = state.row_start(row);
    let addr = state.addr_field(start);
    let hex_field = state.hex_field(start, state.bytes_per_row);
    let text_field = state.text_field(start, state.bytes_per_row);
    let cells = state.row_cells(row);
    let left = addr + blanks(2);
    let middle = left + hex_field + blanks(1);
    assert(cells == middle + text_field);
    let at = slot as int;
    assert(hex_field[3 * at] == state.hex_slot((start + slot) as nat)[0]);
    assert(hex_field[3 * at + 1] == state.hex_slot((start + slot) as nat)[1]);
    assert(cells[left.len() + 3 * at] == hex_field[3 * at]);
    assert(cells[left.len() + 3 * at + 1] == hex_field[3 * at + 1]);
    assert(cells[middle.len() + at] == text_field[at]);
}

/// Whether every character of `text` is printable ASCII.
spec fn printable_text(text: Seq<char>) -> bool {
    forall|i: int| 0 <= i < text.len() ==> is_printable_glyph(#[trigger] text[i])
}

/// Whether every cell of `cells` shows a printable ASCII character.
spec fn printable_cells(cells: Seq<Cell>) -> bool {
    forall|i: int| 0 <= i < cells.len() ==> is_printable_glyph(#[trigger] cells[i].glyph)
}

proof fn lemma_label_text_printable(n: nat, radix: nat, width: nat)
    requires
        2 <= radix <= 16,
    ensures
        printable_text(zero_padded(radix_digits(n, radix), width)),
{
    let digits = radix_digits(n, radix);
    let text = zero_padded(digits, width);
    assert forall|i: int| 0 <= i < text.len() implies is_printable_glyph(#[trigger] text[i]) by {
        if digits.len() >= width {
            lemma_radix_digits_chars(n, radix, i);
        } else if i >= width - digits.len() {
            lemma_radix_digits_chars(n, radix, i - (width - digits.len()));
        }
    }
}

proof fn lemma_labels_printable(count: nat)
    ensures
        printable_text(column_labels(count)),
    decreases count,
{
    if count == 1 {
        lemma_label_text_printable(0, 16, 2);
    } else if count > 1 {
        lemma_labels_printable((count - 1) as nat);
        lemma_label_text_printable((count - 1) as nat, 16, 2);
    }
}

proof fn lemma_header_printable(bytes_per_row: nat)
    ensures
        printable_text(header_text(bytes_per_row)),
{
    reveal_strlit("Offset  ");
    reveal_strlit("  ");
    reveal_strlit("ASCII");
    lemma_labels_printable(bytes_per_row);
}

proof fn lemma_row_printable(state: ViewState, row: nat)
    ensures
        printable_cells(state.row_cells(row)),
{
    let start = state.row_start(row);
    if state.addr_radix == 16 {
        lemma_label_text_printable(start, 16, 8);
    } else {
        lemma_label_text_printable(start, 10, 10);
    }
    let addr = state.addr_field(start);
    let hex = state.hex_field(start, state.bytes_per_row);
    let text = state.text_field(start, state.bytes_per_row);
    assert(printable_cells(addr));
    assert forall|i: int| 0 <= i < hex.len() implies is_printable_glyph(#[trigger] hex[i].glyph) by {
        let at = (start + i / 3) as nat;
        if at < state.eof() {
            let byte = state.data[at as int];
            assert(is_printable_glyph(hex_pair(byte)[0]));
            assert(is_printable_glyph(hex_pair(byte)[1]));
        }
    }
    assert(printable_cells(text));
    assert(printable_cells(blanks(1)));
    assert(printable_cells(blanks(2)));
}

/// Every cell of the grid shows a printable ASCII character.
proof fn lemma_grid_is_printable(state: ViewState, width: nat, line: nat, col: int)
    requires
        0 <= col < width,
    ensures
        is_printable_glyph(state.grid_row(width, line)[col].glyph),
{
    if line == 0 {
        lemma_header_printable(state.bytes_per_row);
    } else if state.row_visible((line - 1) as nat) {
        lemma_row_printable(state, (line - 1) as nat);
    }
}

} // verus!
