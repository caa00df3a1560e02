use petir::cell::WIDE_CHAR;
use petir::grid::{CursorPos, Grid};
use petir::image::{base64_decode, decode_sixel};
use petir::pane::{Layout, Tab};
use petir::render::search_label;
use petir::search::{find_in_line, Match, SearchState};

fn encode(b: &[u8]) -> Vec<u8> {
    const A: &[u8] = b"ABCDEFGHIJKLMNOPQRSTUVWXYZabcdefghijklmnopqrstuvwxyz0123456789+/";
    let mut out = Vec::new();
    for chunk in b.chunks(3) {
        let x = chunk[0];
        let y = if chunk.len() > 1 { chunk[1] } else { 0 };
        let z = if chunk.len() > 2 { chunk[2] } else { 0 };
        out.push(A[(x >> 2) as usize]);
        out.push(A[(((x & 3) << 4) | (y >> 4)) as usize]);
        if chunk.len() > 1 {
            out.push(A[(((y & 15) << 2) | (z >> 6)) as usize]);
        }
        if chunk.len() > 2 {
            out.push(A[(z & 63) as usize]);
        }
    }
    out
}

fn decode_all(s: &[u8]) -> Vec<u8> {
    base64_decode(s, 0, s.len())
}

#[test]
fn base64_round_trips_with_padding_and_line_breaks() {
    for n in 0..40usize {
        let b: Vec<u8> = (0..n).map(|k| (k * 37 + n * 11) as u8).collect();
        let text = encode(&b);
        assert_eq!(decode_all(&text), b);
        let mut padded = text.clone();
        while padded.len() % 4 != 0 {
            padded.push(b'=');
        }
        assert_eq!(decode_all(&padded), b);
        let mut broken = Vec::new();
        for (k, c) in text.iter().enumerate() {
            if k % 5 == 2 {
                broken.extend_from_slice(b"\r\n");
            }
            broken.push(*c);
        }
        broken.push(b'\n');
        assert_eq!(decode_all(&broken), b);
    }
    assert_eq!(decode_all(b"aGVsbG8="), b"hello".to_vec());
    assert_eq!(decode_all(b"aGVs\nbG8=IGlnbm9yZWQ="), b"hello".to_vec());
}

#[test]
fn sixel_ignores_stray_bytes_before_items() {
    let d: &[u8] = b"#1;2;100;0;0!3~-#2;2;0;100;0$?@";
    let base = decode_sixel(d, 1, 2).unwrap();
    for p in [0usize, 12, 14, 15, 16, 28, 29, 30] {
        for z in [b' ', b'\n', b'\r'] {
            let mut d2 = d[..p].to_vec();
            d2.push(z);
            d2.extend_from_slice(&d[p..]);
            let img = decode_sixel(&d2, 1, 2).unwrap();
            assert_eq!((img.width, img.height, img.cell_col, img.cell_row), (base.width, base.height, 1, 2));
            assert_eq!(img.rgba, base.rgba);
        }
    }
    assert!(decode_sixel(b" \n", 0, 0).is_err());
}

#[test]
fn resize_gives_exact_shape() {
    for (cols, rows) in [(0usize, 0usize), (1, 1), (7, 2), (3, 9)] {
        let mut g = Grid::new(5, 4, 2);
        g.cursor = CursorPos { row: 3, col: 4 };
        g.resize(cols, rows);
        assert_eq!((g.cols, g.rows, g.visible.len()), (cols, rows, rows));
        assert!(g.visible.iter().all(|r| r.len() == cols));
        assert_eq!(g.cursor.row, 3usize.min(rows.saturating_sub(1)));
        assert_eq!(g.cursor.col, 4usize.min(cols.saturating_sub(1)));
        assert!(g.scrollback.len() <= 2);
    }
}

#[test]
fn put_char_with_measured_width() {
    let mut g = Grid::new(4, 2, 10);
    g.put_char_of_width('x', Some(2));
    assert!(g.visible[0][0].flags.contains(WIDE_CHAR));
    assert_eq!(g.cursor.col, 2);
    g.put_char_of_width('y', None);
    assert_eq!(g.cursor.col, 3);
    g.put_char_of_width('z', Some(0));
    assert_eq!(g.cursor.col, 4);
    g.put_char_of_width('w', Some(1));
    assert_eq!(g.cursor, CursorPos { row: 1, col: 1 });
    assert_eq!(g.visible[1][0].c, 'w');
}

#[test]
fn find_in_line_reports_byte_columns() {
    let mut out = Vec::new();
    find_in_line(b"abcabc", b"bc", 2, 7, &mut out);
    assert_eq!(
        out,
        vec![Match { row: 7, col_start: 1, col_end: 3 }, Match { row: 7, col_start: 4, col_end: 6 }]
    );
}

#[test]
fn empty_search_tolerates_any_index() {
    let mut s = SearchState::new();
    s.current = usize::MAX;
    assert_eq!(s.next_match(), None);
    assert_eq!(s.prev_match(), None);
    assert_eq!(s.current, usize::MAX);
    assert_eq!(search_label(&s), "Search: (type to search)");
    s.query = "x".to_string();
    assert_eq!(search_label(&s), "Search: x  no matches");
    s.matches = vec![Match { row: 0, col_start: 0, col_end: 1 }, Match { row: 1, col_start: 0, col_end: 1 }];
    s.current = 1;
    assert_eq!(s.next_match(), Some(Match { row: 0, col_start: 0, col_end: 1 }));
    assert_eq!(s.current, 0);
}

#[test]
fn focus_on_a_tab_without_panes_stays() {
    let mut t: Tab<u8> = Tab { title: String::new(), panes: Vec::new(), layout: Layout::Leaf(0), active_pane: usize::MAX };
    t.focus_next_pane();
    assert_eq!(t.active_pane, usize::MAX);
}
