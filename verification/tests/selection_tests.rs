use petir::grid::Grid;
use petir::selection::{copy_text, GridPos, Selection};

fn grid_with(lines: &[&str], cols: usize) -> Grid {
    let mut g = Grid::new(cols, lines.len(), 10);
    for (i, line) in lines.iter().enumerate() {
        g.cursor.row = i;
        g.cursor.col = 0;
        for c in line.chars() {
            g.put_char(c);
        }
    }
    g
}

fn pos(row: usize, col: usize) -> GridPos {
    GridPos { row, col }
}

#[test]
fn single_line_selection() {
    let g = grid_with(&["hello world"], 11);
    let mut sel = Selection::new(pos(0, 6));
    sel.extend(pos(0, 10));
    assert_eq!(sel.extract_text(&g), "world");
}

#[test]
fn multi_line_selection_joins_with_newlines() {
    let g = grid_with(&["abc", "def", "ghi"], 3);
    let mut sel = Selection::new(pos(0, 1));
    sel.extend(pos(2, 0));
    assert_eq!(sel.extract_text(&g), "bc\ndef\ng");
}

#[test]
fn selection_direction_does_not_matter() {
    let g = grid_with(&["abc", "def"], 3);
    let mut a = Selection::new(pos(0, 1));
    a.extend(pos(1, 1));
    let mut b = Selection::new(pos(1, 1));
    b.extend(pos(0, 1));
    assert_eq!(a.extract_text(&g), b.extract_text(&g));
    assert_eq!(a.extract_text(&g), "bc\nde");
}

#[test]
fn end_column_clamped_to_line() {
    let g = grid_with(&["abc"], 3);
    let mut sel = Selection::new(pos(0, 0));
    sel.extend(pos(0, 99));
    assert_eq!(sel.extract_text(&g), "abc");
}

#[test]
fn start_past_line_end_takes_nothing_from_that_row() {
    let g = grid_with(&["abc", "def"], 3);
    let mut sel = Selection::new(pos(0, 5));
    sel.extend(pos(1, 0));
    assert_eq!(sel.extract_text(&g), "\nd");
}

#[test]
fn can_extract_rejects_rows_off_screen() {
    let g = grid_with(&["abc"], 3);
    let mut sel = Selection::new(pos(0, 0));
    sel.extend(pos(1, 2));
    assert!(!sel.can_extract(&g));
    let mut ok = Selection::new(pos(0, 0));
    ok.extend(pos(0, 2));
    assert!(ok.can_extract(&g));
    let off = Selection::new(pos(5, 1));
    assert!(off.can_extract(&g));
    assert_eq!(off.extract_text(&g), "");
}

#[test]
fn copy_needs_non_blank_selection() {
    let g = grid_with(&["ab  ", "    "], 4);
    assert_eq!(copy_text(&None, &g), None);
    let mut blank = Selection::new(pos(1, 0));
    blank.extend(pos(1, 3));
    assert_eq!(copy_text(&Some(blank), &g), None);
    let mut text = Selection::new(pos(0, 0));
    text.extend(pos(1, 3));
    assert_eq!(copy_text(&Some(text), &g), Some("ab  \n    ".to_string()));
}

#[test]
fn ordered_puts_earlier_end_first() {
    let mut sel = Selection::new(pos(3, 1));
    sel.extend(pos(1, 7));
    assert_eq!(sel.ordered(), (pos(1, 7), pos(3, 1)));
}
