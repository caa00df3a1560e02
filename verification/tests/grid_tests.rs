use petir::cell::{Cell, CellFlags, Rgb, WIDE_CHAR, WIDE_SPACER};
use petir::grid::{CursorPos, Grid};
use petir::render::grid_to_text;

fn write(g: &mut Grid, s: &str) {
    for c in s.chars() {
        g.put_char(c);
    }
}

#[test]
fn new_grid_is_blank() {
    let g = Grid::new(4, 3, 10);
    assert_eq!(g.cols, 4);
    assert_eq!(g.rows, 3);
    assert_eq!(g.visible.len(), 3);
    for row in g.visible.iter() {
        assert_eq!(row.len(), 4);
        for cell in row {
            assert!(cell.is_empty());
            assert_eq!(cell.fg, Rgb::new(0xd8, 0xd8, 0xd8));
            assert_eq!(cell.bg, Rgb::new(0x1e, 0x1e, 0x1e));
        }
    }
    assert!(g.scrollback.is_empty());
    assert_eq!(g.cursor, CursorPos { row: 0, col: 0 });
    assert!(g.cursor_visible);
}

#[test]
fn cell_is_empty_needs_space_and_no_flags() {
    let mut c = Cell::default();
    assert!(c.is_empty());
    c.flags = CellFlags::from_bits(CellFlags::empty().with(WIDE_CHAR).bits);
    assert!(!c.is_empty());
    let d = Cell { c: 'x', ..Cell::default() };
    assert!(!d.is_empty());
}

#[test]
fn put_char_writes_and_advances() {
    let mut g = Grid::new(5, 2, 10);
    write(&mut g, "ab");
    assert_eq!(g.row_text(0), "ab   ");
    assert_eq!(g.cursor, CursorPos { row: 0, col: 2 });
}

#[test]
fn put_char_wraps_to_next_line() {
    let mut g = Grid::new(3, 2, 10);
    write(&mut g, "abcd");
    assert_eq!(g.row_text(0), "abc");
    assert_eq!(g.row_text(1), "d  ");
    assert_eq!(g.cursor, CursorPos { row: 1, col: 1 });
}

#[test]
fn wide_char_takes_two_columns() {
    let mut g = Grid::new(4, 1, 10);
    g.put_char('中');
    assert_eq!(g.visible[0][0].c, '中');
    assert!(g.visible[0][0].flags.contains(WIDE_CHAR));
    assert_eq!(g.visible[0][1].c, ' ');
    assert_eq!(g.visible[0][1].flags.bits, WIDE_SPACER);
    assert_eq!(g.cursor.col, 2);
}

#[test]
fn control_char_counts_one_column() {
    let mut g = Grid::new(4, 1, 10);
    g.put_char('\u{1}');
    assert_eq!(g.cursor.col, 1);
}

#[test]
fn linefeed_on_bottom_row_scrolls_into_scrollback() {
    let mut g = Grid::new(2, 2, 10);
    write(&mut g, "ab");
    g.carriage_return();
    g.linefeed();
    assert_eq!(g.cursor.row, 1);
    g.linefeed();
    assert_eq!(g.scrollback.len(), 1);
    assert_eq!(g.scrollback[0][0].c, 'a');
    assert_eq!(g.visible.len(), 2);
    assert_eq!(g.row_text(1), "  ");
}

#[test]
fn scrollback_keeps_latest_lines_in_order() {
    let mut g = Grid::new(1, 1, 2);
    for c in ['a', 'b', 'c', 'd', 'e'] {
        g.carriage_return();
        g.put_char(c);
        g.newline();
    }
    assert_eq!(g.scrollback.len(), 2);
    assert_eq!(g.scrollback[0][0].c, 'd');
    assert_eq!(g.scrollback[1][0].c, 'e');
}

#[test]
fn zero_scrollback_limit_keeps_nothing() {
    let mut g = Grid::new(1, 1, 0);
    g.newline();
    g.newline();
    assert!(g.scrollback.is_empty());
}

#[test]
fn backspace_stops_at_column_zero() {
    let mut g = Grid::new(3, 1, 0);
    g.put_char('x');
    g.backspace();
    assert_eq!(g.cursor.col, 0);
    g.backspace();
    assert_eq!(g.cursor.col, 0);
}

#[test]
fn resize_shrinks_into_scrollback_and_clamps_cursor() {
    let mut g = Grid::new(4, 3, 10);
    write(&mut g, "abcd");
    g.carriage_return();
    g.linefeed();
    write(&mut g, "ef");
    g.carriage_return();
    g.linefeed();
    write(&mut g, "gh");
    g.resize(2, 2);
    assert_eq!(g.visible.len(), 2);
    assert_eq!(g.row_text(0), "ef");
    assert_eq!(g.row_text(1), "gh");
    assert_eq!(g.scrollback.len(), 1);
    assert_eq!(g.scrollback[0].len(), 2);
    assert_eq!(g.scrollback[0][0].c, 'a');
    assert_eq!(g.cursor, CursorPos { row: 1, col: 1 });
}

#[test]
fn resize_grows_with_blank_rows_and_cells() {
    let mut g = Grid::new(2, 1, 10);
    write(&mut g, "xy");
    g.resize(3, 3);
    assert_eq!(g.visible.len(), 3);
    assert_eq!(g.row_text(0), "xy ");
    assert_eq!(g.row_text(2), "   ");
    assert!(g.scrollback.is_empty());
}

fn filled(cols: usize, rows: usize) -> Grid {
    let mut g = Grid::new(cols, rows, 10);
    for r in 0..rows {
        g.cursor = CursorPos { row: r, col: 0 };
        for _ in 0..cols {
            g.put_char('x');
        }
    }
    g
}

#[test]
fn erase_in_display_modes() {
    let mut g = filled(3, 3);
    g.cursor = CursorPos { row: 1, col: 1 };
    g.erase_in_display(0);
    assert_eq!(g.row_text(0), "xxx");
    assert_eq!(g.row_text(1), "x  ");
    assert_eq!(g.row_text(2), "   ");

    let mut g = filled(3, 3);
    g.cursor = CursorPos { row: 1, col: 1 };
    g.erase_in_display(1);
    assert_eq!(g.row_text(0), "   ");
    assert_eq!(g.row_text(1), "  x");
    assert_eq!(g.row_text(2), "xxx");

    let mut g = filled(3, 3);
    g.erase_in_display(2);
    for r in 0..3 {
        assert_eq!(g.row_text(r), "   ");
    }

    let mut g = filled(3, 3);
    g.erase_in_display(7);
    assert_eq!(g.row_text(1), "xxx");
}

#[test]
fn erase_in_line_modes() {
    let mut g = filled(4, 1);
    g.cursor = CursorPos { row: 0, col: 2 };
    g.erase_in_line(0);
    assert_eq!(g.row_text(0), "xx  ");
    let mut g = filled(4, 1);
    g.cursor = CursorPos { row: 0, col: 2 };
    g.erase_in_line(1);
    assert_eq!(g.row_text(0), "   x");
    let mut g = filled(4, 1);
    g.erase_in_line(2);
    assert_eq!(g.row_text(0), "    ");
    let mut g = filled(4, 1);
    g.erase_in_line(9);
    assert_eq!(g.row_text(0), "xxxx");
}

#[test]
fn insert_and_delete_chars() {
    let mut g = Grid::new(5, 1, 0);
    write(&mut g, "abcde");
    g.cursor.col = 1;
    g.insert_chars(2);
    assert_eq!(g.row_text(0), "a  bc");
    g.delete_chars(2);
    assert_eq!(g.row_text(0), "abc  ");
    g.erase_chars(1);
    assert_eq!(g.row_text(0), "a c  ");
}

#[test]
fn insert_and_delete_lines_and_reverse_index() {
    let mut g = Grid::new(1, 3, 0);
    for (r, c) in ['a', 'b', 'c'].iter().enumerate() {
        g.cursor = CursorPos { row: r, col: 0 };
        g.put_char(*c);
    }
    g.cursor = CursorPos { row: 1, col: 0 };
    g.insert_lines(1);
    assert_eq!(grid_to_text(&g), "a\n \nb");
    g.delete_lines(1);
    assert_eq!(grid_to_text(&g), "a\nb\n ");
    g.cursor.row = 0;
    g.reverse_index();
    assert_eq!(grid_to_text(&g), " \na\nb");
    g.cursor.row = 2;
    g.reverse_index();
    assert_eq!(g.cursor.row, 1);
}

#[test]
fn row_text_off_screen_is_empty() {
    let g = Grid::new(3, 2, 0);
    assert_eq!(g.row_text(5), "");
}

#[test]
fn grid_to_text_joins_rows() {
    let mut g = Grid::new(2, 2, 0);
    write(&mut g, "abcd");
    assert_eq!(grid_to_text(&g), "ab\ncd");
}
