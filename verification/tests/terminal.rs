use hexview::ui::terminal::draw_rows;
use hexview::ui::{Cell, Color, HexView, Rect, ViewMode};
use ratatui::buffer::Buffer;
use ratatui::layout::Rect as TermRect;
use ratatui::style::{Color as TermColor, Modifier, Style};

fn area(x: u16, y: u16, width: u16, height: u16) -> Rect {
    Rect {
        x,
        y,
        width,
        height,
    }
}

fn line_of(buffer: &Buffer, y: u16) -> String {
    let mut text = String::new();
    for x in buffer.area.x..buffer.area.x + buffer.area.width {
        text.push_str(buffer.cell((x, y)).unwrap().symbol());
    }
    text
}

fn term_color(color: Color) -> TermColor {
    match color {
        Color::Reset => TermColor::Reset,
        Color::Black => TermColor::Black,
        Color::Red => TermColor::Red,
        Color::Green => TermColor::Green,
        Color::Yellow => TermColor::Yellow,
        Color::Blue => TermColor::Blue,
        Color::Magenta => TermColor::Magenta,
        Color::Cyan => TermColor::Cyan,
        Color::DarkGray => TermColor::DarkGray,
        Color::White => TermColor::White,
    }
}

#[test]
fn render_fills_a_fresh_buffer() {
    let mut buffer = Buffer::empty(TermRect::new(0, 0, 76, 3));
    let view = HexView::new(b"Hello").cursor(1);
    view.render(area(0, 0, 76, 3), &mut buffer);
    assert_eq!(
        line_of(&buffer, 0).trim_end(),
        "Offset    00 01 02 03 04 05 06 07 08 09 0A 0B 0C 0D 0E 0F  ASCII"
    );
    assert_eq!(
        line_of(&buffer, 1),
        format!("{:<59}{:<17}", "00000000  48 65 6C 6C 6F", "Hello")
    );
    assert_eq!(line_of(&buffer, 2).trim_end(), "");
    let header = buffer.cell((0, 0)).unwrap();
    assert_eq!(header.fg, TermColor::Yellow);
    assert_eq!(header.bg, TermColor::Reset);
    assert!(header.modifier.contains(Modifier::BOLD));
    let addr = buffer.cell((0, 1)).unwrap();
    assert_eq!(addr.fg, TermColor::Cyan);
    assert!(!addr.modifier.contains(Modifier::BOLD));
    let cursor = buffer.cell((13, 1)).unwrap();
    assert_eq!((cursor.fg, cursor.bg), (TermColor::Black, TermColor::Yellow));
    let plain = buffer.cell((10, 1)).unwrap();
    assert_eq!((plain.fg, plain.bg), (TermColor::Green, TermColor::Reset));
}

#[test]
fn render_shows_every_cell_of_the_grid() {
    let data: Vec<u8> = (0u8..=255).collect();
    let view = HexView::new(&data)
        .offset(3)
        .cursor(40)
        .selection(Some((10, 60)))
        .mode(ViewMode::Ascii);
    let grid = view.render_grid(75, 12);
    let mut buffer = Buffer::empty(TermRect::new(2, 1, 80, 14));
    view.render(area(4, 2, 75, 12), &mut buffer);
    for (line, row) in grid.iter().enumerate() {
        for (col, cell) in row.iter().enumerate() {
            let shown = buffer.cell((4 + col as u16, 2 + line as u16)).unwrap();
            assert_eq!(shown.symbol(), cell.glyph.to_string());
            assert_eq!(shown.fg, term_color(cell.fg));
            assert_eq!(shown.bg, term_color(cell.bg));
            assert_eq!(shown.modifier.contains(Modifier::BOLD), cell.bold);
        }
    }
}

#[test]
fn render_leaves_the_rest_of_the_buffer() {
    let marked = Style::default()
        .fg(TermColor::LightRed)
        .bg(TermColor::Indexed(7))
        .add_modifier(Modifier::BOLD | Modifier::ITALIC);
    let mut buffer = Buffer::empty(TermRect::new(0, 0, 30, 6));
    for y in 0..6 {
        for x in 0..30 {
            buffer.cell_mut((x, y)).unwrap().set_char('#').set_style(marked);
        }
    }
    let view = HexView::new(b"Hi").bytes_per_row(2);
    view.render(area(5, 1, 20, 3), &mut buffer);
    assert_eq!(line_of(&buffer, 0), "#".repeat(30));
    assert_eq!(line_of(&buffer, 1), "#####Offset    00 01  ASC#####");
    assert_eq!(line_of(&buffer, 2), "#####00000000  48 69  Hi #####");
    assert_eq!(line_of(&buffer, 3), format!("#####{}#####", " ".repeat(20)));
    assert_eq!(line_of(&buffer, 4), "#".repeat(30));
    // a cell outside the area keeps its style
    let outside = buffer.cell((4, 2)).unwrap();
    assert_eq!(outside.fg, TermColor::LightRed);
    assert_eq!(outside.bg, TermColor::Indexed(7));
    assert!(outside.modifier.contains(Modifier::BOLD | Modifier::ITALIC));
    // a cell inside takes the colours of the grid, and is bold only where the grid is
    let header = buffer.cell((5, 1)).unwrap();
    assert_eq!((header.fg, header.bg), (TermColor::Yellow, TermColor::Reset));
    assert!(header.modifier.contains(Modifier::BOLD));
    let blank = buffer.cell((24, 3)).unwrap();
    assert_eq!((blank.fg, blank.bg), (TermColor::Reset, TermColor::Reset));
    assert!(!blank.modifier.contains(Modifier::BOLD));
}

#[test]
fn render_leaves_out_what_the_buffer_lacks() {
    let mut buffer = Buffer::empty(TermRect::new(10, 1, 8, 1));
    let view = HexView::new(b"Hello");
    view.render(area(0, 0, 80, 4), &mut buffer);
    assert_eq!(line_of(&buffer, 1), "48 65 6C");
    let mut buffer = Buffer::empty(TermRect::new(0, 0, 4, 1));
    view.render(area(u16::MAX - 1, u16::MAX, 80, 4), &mut buffer);
    assert_eq!(line_of(&buffer, 0), "    ");
    let mut buffer = Buffer::empty(TermRect::new(0, 0, 0, 0));
    view.render(area(0, 0, 80, 4), &mut buffer);
    assert!(buffer.content.is_empty());
}

#[test]
fn draw_rows_draws_ragged_rows() {
    let plain = |glyph: char| Cell {
        glyph,
        fg: Color::Magenta,
        bg: Color::DarkGray,
        bold: false,
    };
    let rows = vec![vec![plain('a'), plain('b'), plain('c')], vec![], vec![plain('~')]];
    let mut buffer = Buffer::empty(TermRect::new(0, 0, 4, 3));
    draw_rows(&rows, 1, 0, &mut buffer);
    assert_eq!(line_of(&buffer, 0), " abc");
    assert_eq!(line_of(&buffer, 1), "    ");
    assert_eq!(line_of(&buffer, 2), " ~  ");
    let shown = buffer.cell((1, 2)).unwrap();
    assert_eq!((shown.fg, shown.bg), (TermColor::Magenta, TermColor::DarkGray));
}

#[test]
fn draw_rows_maps_every_colour() {
    let palette = [
        Color::Reset,
        Color::Black,
        Color::Red,
        Color::Green,
        Color::Yellow,
        Color::Blue,
        Color::Magenta,
        Color::Cyan,
        Color::DarkGray,
        Color::White,
    ];
    let mut row = Vec::new();
    for (index, fg) in palette.iter().enumerate() {
        row.push(Cell {
            glyph: '*',
            fg: *fg,
            bg: palette[palette.len() - 1 - index],
            bold: index % 2 == 0,
        });
    }
    let mut buffer = Buffer::empty(TermRect::new(0, 0, 10, 1));
    draw_rows(&vec![row.clone()], 0, 0, &mut buffer);
    for (col, cell) in row.iter().enumerate() {
        let shown = buffer.cell((col as u16, 0)).unwrap();
        assert_eq!(shown.symbol(), "*");
        assert_eq!(shown.fg, term_color(cell.fg));
        assert_eq!(shown.bg, term_color(cell.bg));
        assert_eq!(shown.modifier.contains(Modifier::BOLD), cell.bold);
    }
}
