use petir::grid::{CursorPos, Grid};
use petir::search::{Match, SearchState};

fn grid_with(lines: &[&str], cols: usize, rows: usize, limit: usize) -> Grid {
    let mut g = Grid::new(cols, rows, limit);
    for (i, line) in lines.iter().enumerate() {
        if i > 0 {
            g.carriage_return();
            g.linefeed();
        }
        for c in line.chars() {
            g.put_char(c);
        }
    }
    g
}

#[test]
fn empty_query_finds_nothing() {
    let g = grid_with(&["abc"], 5, 1, 10);
    let mut s = SearchState::new();
    s.run(&g);
    assert!(s.matches.is_empty());
    assert_eq!(s.next_match().map(|m| m.row), None);
    assert_eq!(s.prev_match().map(|m| m.row), None);
}

#[test]
fn search_is_case_insensitive() {
    let g = grid_with(&["Hello hELLO"], 12, 1, 10);
    let mut s = SearchState::new();
    s.query = "HELLO".to_string();
    s.run(&g);
    assert_eq!(
        s.matches,
        vec![Match { row: 0, col_start: 0, col_end: 5 }, Match { row: 0, col_start: 6, col_end: 11 }]
    );
    assert_eq!(s.current, 0);
}

#[test]
fn matches_do_not_overlap() {
    let g = grid_with(&["aaaa"], 4, 1, 10);
    let mut s = SearchState::new();
    s.query = "aa".to_string();
    s.run(&g);
    assert_eq!(s.matches.len(), 2);
    assert_eq!(s.matches[1].col_start, 2);
}

#[test]
fn scrollback_rows_come_first() {
    let g = grid_with(&["foo", "bar", "foo"], 3, 2, 10);
    assert_eq!(g.scrollback.len(), 1);
    let mut s = SearchState::new();
    s.query = "foo".to_string();
    s.run(&g);
    let rows: Vec<usize> = s.matches.iter().map(|m| m.row).collect();
    assert_eq!(rows, vec![0, 2]);
}

#[test]
fn columns_are_byte_offsets_of_lowercased_text() {
    let g = grid_with(&["ÉtÉ x"], 6, 1, 10);
    let mut s = SearchState::new();
    s.query = "X".to_string();
    s.run(&g);
    // "été x" lowercased: é is two bytes
    assert_eq!(s.matches, vec![Match { row: 0, col_start: 6, col_end: 7 }]);
    s.query = "été".to_string();
    s.run(&g);
    assert_eq!(s.matches, vec![Match { row: 0, col_start: 0, col_end: 3 }]);
}

#[test]
fn next_and_prev_wrap_around() {
    let g = grid_with(&["ab ab ab"], 8, 1, 10);
    let mut s = SearchState::new();
    s.query = "ab".to_string();
    s.run(&g);
    assert_eq!(s.matches.len(), 3);
    assert_eq!(s.next_match().unwrap().col_start, 3);
    assert_eq!(s.next_match().unwrap().col_start, 6);
    assert_eq!(s.next_match().unwrap().col_start, 0);
    assert_eq!(s.prev_match().unwrap().col_start, 6);
    // next then prev comes back
    let here = s.current;
    s.next_match();
    s.prev_match();
    assert_eq!(s.current, here);
}

#[test]
fn rerun_resets_current() {
    let g = grid_with(&["ab ab"], 5, 1, 10);
    let mut s = SearchState::new();
    s.query = "ab".to_string();
    s.run(&g);
    s.next_match();
    assert_eq!(s.current, 1);
    s.run(&g);
    assert_eq!(s.current, 0);
    let _ = CursorPos { row: 0, col: 0 };
}
