//! Drawing the grid into the buffer of the terminal toolkit.

use crate::ui::Cell;
use ratatui::buffer::Buffer;
use ratatui::style::{Color as Shade, Modifier, Style};
use vstd::prelude::*;

verus! {

/// `ratatui::buffer::Buffer`: the grid of cells that the terminal toolkit
/// draws from.
#[verifier::external_type_specification]
#[verifier::external_body]
pub struct ExBuffer(ratatui::buffer::Buffer);

/// The positions, column first, at which `buffer` has a cell: those for
/// which `ratatui::buffer::Buffer::cell` finds one.
pub uninterp spec fn buffer_positions(buffer: Buffer) -> Set<(int, int)>;

/// What `buffer` shows, by position: for each of its cells that holds one
/// character in colours of the palette, that cell.
pub uninterp spec fn buffer_cells(buffer: Buffer) -> Map<(int, int), Cell>;

/// Whether a character is printable ASCII, the space included.
pub open spec fn is_printable_glyph(glyph: char) -> bool {
    0x20 <= glyph as u32 <= 0x7E
}

/// `ratatui::buffer::Buffer::cell`: whether the buffer has a cell at the
/// position.
#[verifier::external_body]
fn has_cell(buffer: &Buffer, x: u16, y: u16) -> (found: bool)
    ensures
        found == buffer_positions(*buffer).contains((x as int, y as int)),
{
    buffer.cell((x, y)).is_some()
}

/// `ratatui::buffer::Buffer::set_string` with the one character of `cell`
/// in the style of `cell`. At a position that the buffer has, a printable
/// ASCII character takes exactly that one cell, which then shows the
/// character in the two colours, bold or not as asked. No other cell
/// changes, and the buffer keeps its positions. The colours of the toolkit
/// are listed in the order of the palette's own.
#[verifier::external_body]
fn put_cell(buffer: &mut Buffer, x: u16, y: u16, cell: Cell)
    requires
        buffer_positions(*old(buffer)).contains((x as int, y as int)),
        is_printable_glyph(cell.glyph),
    ensures
        buffer_positions(*final(buffer)) == buffer_positions(*old(buffer)),
        buffer_cells(*final(buffer)) == buffer_cells(*old(buffer)).insert(
            (x as int, y as int),
            cell,
        ),
{
    let shades = [
        Shade::Reset, Shade::Black, Shade::Red, Shade::Green, Shade::Yellow,
        Shade::Blue, Shade::Magenta, Shade::Cyan, Shade::DarkGray, Shade::White,
    ];
    let colours = Style::new().fg(shades[cell.fg as usize]).bg(shades[cell.bg as usize]);
    let style = if cell.bold {
        colours.add_modifier(Modifier::BOLD)
    } else {
        colours.remove_modifier(Modifier::BOLD)
    };
    buffer.set_string(x, y, cell.glyph.encode_utf8(&mut [0u8; 4]), style);
}

/// Whether drawing `rows` with their first cell at the column `x` of
/// the line `y` reaches the position `at`: the buffer has the position, and
/// a cell of the rows falls on it.
pub open spec fn reaches(
    positions: Set<(int, int)>,
    x: u16,
    y: u16,
    rows: Seq<Seq<Cell>>,
    at: (int, int),
) -> bool {
    &&& positions.contains(at)
    &&& x <= at.0 <= u16::MAX
    &&& y <= at.1 <= u16::MAX
    &&& at.1 - y < rows.len()
    &&& at.0 - x < rows[at.1 - y].len()
}

/// What a buffer shows once `rows` are drawn into it with their first
/// cell at the column `x` of the line `y`: the cell of the rows wherever the
/// drawing reaches, what it showed before everywhere else.
pub open spec fn painted(
    before: Map<(int, int), Cell>,
    positions: Set<(int, int)>,
    x: u16,
    y: u16,
    rows: Seq<Seq<Cell>>,
) -> Map<(int, int), Cell> {
    Map::new(
        |at: (int, int)| before.dom().contains(at) || reaches(positions, x, y, rows, at),
        |at: (int, int)|
            if reaches(positions, x, y, rows, at) {
                rows[at.1 - y][at.0 - x]
            } else {
                before[at]
            },
    )
}

/// Whether every cell of `rows` shows a printable ASCII character.
pub open spec fn all_printable(rows: Seq<Seq<Cell>>) -> bool {
    forall|line: int, col: int|
        0 <= line < rows.len() && 0 <= col < rows[line].len() ==> is_printable_glyph(
            #[trigger] rows[line][col].glyph,
        )
}

/// What a buffer shows while `rows` are being drawn: the rows before
/// `line` are out, and the first `col` cells of the row `line`.
spec fn painted_to(
    before: Map<(int, int), Cell>,
    positions: Set<(int, int)>,
    x: u16,
    y: u16,
    rows: Seq<Seq<Cell>>,
    line: int,
    col: int,
) -> Map<(int, int), Cell> {
    Map::new(
        |at: (int, int)|
            before.dom().contains(at) || (reaches(positions, x, y, rows, at) && is_out(
                x,
                y,
                line,
                col,
                at,
            )),
        |at: (int, int)|
            if reaches(positions, x, y, rows, at) && is_out(x, y, line, col, at) {
                rows[at.1 - y][at.0 - x]
            } else {
                before[at]
            },
    )
}

/// Whether the cell for the position `at` is out already.
spec fn is_out(x: u16, y: u16, line: int, col: int, at: (int, int)) -> bool {
    at.1 - y < line || (at.1 - y == line && at.0 - x < col)
}

/// Draws `cell` at a position, if the buffer has it.
fn draw_cell(buffer: &mut Buffer, x: u16, y: u16, cell: Cell)
    requires
        is_printable_glyph(cell.glyph),
    ensures
        buffer_positions(*final(buffer)) == buffer_positions(*old(buffer)),
        buffer_cells(*final(buffer)) == if buffer_positions(*old(buffer)).contains(
            (x as int, y as int),
        ) {
            buffer_cells(*old(buffer)).insert((x as int, y as int), cell)
        } else {
            buffer_cells(*old(buffer))
        },
{
    if has_cell(buffer, x, y) {
        put_cell(buffer, x, y, cell);
    }
}

/// Draws `rows` into `buffer`, the first cell of the first row at the
/// column `x` of the line `y`, each row on a line of its own. A cell whose
/// position the buffer does not have is left out.
pub fn draw_rows(rows: &Vec<Vec<Cell>>, x: u16, y: u16, buffer: &mut Buffer)
    requires
        all_printable(rows.deep_view()),
    ensures
        buffer_positions(*final(buffer)) == buffer_positions(*old(buffer)),
        buffer_cells(*final(buffer)) == painted(
            buffer_cells(*old(buffer)),
            buffer_positions(*old(buffer)),
            x,
            y,
            rows.deep_view(),
        ),
{
    let ghost before = buffer_cells(*buffer);
    let ghost positions = buffer_positions(*buffer);
    let ghost all = rows.deep_view();
    assert(buffer_cells(*buffer) =~= painted_to(before, positions, x, y, all, 0, 0));
    let mut line: usize = 0;
    while line < rows.len()
        invariant
            line <= rows@.len(),
            all == rows.deep_view(),
            all_printable(all),
            buffer_positions(*buffer) == positions,
            buffer_cells(*buffer) == painted_to(before, positions, x, y, all, line as int, 0),
        decreases rows@.len() - line,
    {
        let row = &rows[line];
        assert(all[line as int] == row@);
        let mut col: usize = 0;
        while col < row.len()
            invariant
                line < rows@.len(),
                col <= row@.len(),
                all == rows.deep_view(),
                all[line as int] == row@,
                all_printable(all),
                buffer_positions(*buffer) == positions,
                buffer_cells(*buffer) == painted_to(
                    before,
                    positions,
                    x,
                    y,
                    all,
                    line as int,
                    col as int,
                ),
            decreases row@.len() - col,
        {
            let ghost shown = buffer_cells(*buffer);
            if line <= u16::MAX as usize && col <= u16::MAX as usize {
                match (x.checked_add(col as u16), y.checked_add(line as u16)) {
                    (Some(column), Some(row_line)) => {
                        assert(is_printable_glyph(all[line as int][col as int].glyph));
                        draw_cell(buffer, column, row_line, row[col]);
                    },
                    _ => {},
                }
            }
            assert(buffer_cells(*buffer) =~= painted_to(
                before,
                positions,
                x,
                y,
                all,
                line as int,
                col + 1,
            ));
            col = col + 1;
        }
        assert(buffer_cells(*buffer) =~= painted_to(before, positions, x, y, all, line + 1, 0));
        line = line + 1;
    }
    assert(buffer_cells(*buffer) =~= painted(before, positions, x, y, all));
}

} // verus!
