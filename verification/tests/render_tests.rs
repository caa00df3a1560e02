use petir::cell::{Rgb, INVERSE};
use petir::grid::Grid;
use petir::menu::{context_menu_items, item, separator, MenuAction};
use petir::render::{background_quads, menu_marks, shows_cursor, MenuMark, menu_row, menu_rows, search_highlights, search_label, BgQuad, Highlight};
use petir::search::{Match, SearchState};

fn state(query: &str, matches: Vec<Match>, current: usize) -> SearchState {
    SearchState { query: query.to_string(), matches, current }
}

#[test]
fn background_quads_skip_default_cells_and_swap_inverse() {
    let mut g = Grid::new(3, 2, 10);
    assert!(background_quads(&g).is_empty());
    g.visible[0][1].bg = Rgb::new(1, 2, 3);
    g.visible[1][2].flags.bits |= INVERSE;
    g.visible[1][2].fg = Rgb::new(9, 9, 9);
    let quads = background_quads(&g);
    assert_eq!(
        quads,
        vec![
            BgQuad { row: 0, col: 1, color: Rgb::new(1, 2, 3) },
            BgQuad { row: 1, col: 2, color: Rgb::new(9, 9, 9) },
        ]
    );
}

#[test]
fn highlights_skip_scrollback_and_mark_current() {
    let ms = vec![
        Match { row: 0, col_start: 0, col_end: 2 },
        Match { row: 3, col_start: 4, col_end: 7 },
        Match { row: 5, col_start: 1, col_end: 1 },
    ];
    let hs = search_highlights(&state("ab", ms.clone(), 1), 2);
    assert_eq!(
        hs,
        vec![
            Highlight { row: 1, col: 4, width: 3, current: true },
            Highlight { row: 3, col: 1, width: 1, current: false },
        ]
    );
    assert!(search_highlights(&state("", ms, 1), 0).is_empty());
}

#[test]
fn search_label_texts() {
    assert_eq!(search_label(&state("", vec![], 0)), "Search: (type to search)");
    assert_eq!(search_label(&state("foo", vec![], 0)), "Search: foo  no matches");
    let ms = vec![Match { row: 0, col_start: 0, col_end: 3 }; 12];
    assert_eq!(search_label(&state("foo", ms, 9)), "Search: foo  10/12");
}

#[test]
fn menu_row_right_aligns_shortcut() {
    let it = item("Copy", "Ctrl+C", MenuAction::Copy);
    assert_eq!(menu_row(&it, 14), "Copy    Ctrl+C");
    assert_eq!(menu_row(&it, 5), "Copy Ctrl+C");
    assert_eq!(menu_row(&it, 0), "Copy Ctrl+C");
}

#[test]
fn menu_rows_skip_separators() {
    let items = vec![item("Copy", "Ctrl+C", MenuAction::Copy), separator(), item("Paste", "Ctrl+V", MenuAction::Paste)];
    let rows = menu_rows(&items, 12);
    assert_eq!(rows, vec![(0, "Copy  Ctrl+C".to_string()), (2, "Paste Ctrl+V".to_string())]);
    assert_eq!(menu_rows(&context_menu_items(), 30).len(), 8);
}

#[test]
fn menu_marks_and_cursor() {
    let items = context_menu_items();
    let marks = menu_marks(&items, Some(3));
    assert_eq!(
        marks,
        vec![(2, MenuMark::Hairline), (3, MenuMark::Highlight), (5, MenuMark::Hairline), (8, MenuMark::Hairline)]
    );
    assert_eq!(menu_marks(&items, Some(5)).len(), 3);
    let mut g = Grid::new(2, 1, 0);
    assert!(shows_cursor(true, &g));
    assert!(!shows_cursor(false, &g));
    g.cursor_visible = false;
    assert!(!shows_cursor(true, &g));
}
