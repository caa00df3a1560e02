use petir::cell::{Rgb, BOLD, INVERSE, UNDERLINE};
use petir::grid::CursorPos;
use petir::term::{find_st, palette_256, stream_pieces, StreamPiece, Term};

struct Driver<'a> {
    term: &'a mut Term,
}

impl vte::Perform for Driver<'_> {
    fn print(&mut self, c: char) {
        assert!(self.term.print(c));
    }
    fn execute(&mut self, byte: u8) {
        self.term.execute(byte);
    }
    fn csi_dispatch(&mut self, params: &vte::Params, intermediates: &[u8], _ignore: bool, c: char) {
        let ps: Vec<Vec<u16>> = params.iter().map(|p| p.to_vec()).collect();
        self.term.csi_dispatch(&ps, intermediates, c);
    }
    fn esc_dispatch(&mut self, _intermediates: &[u8], _ignore: bool, byte: u8) {
        self.term.esc_dispatch(byte);
    }
    fn hook(&mut self, _params: &vte::Params, _intermediates: &[u8], _ignore: bool, action: char) {
        self.term.hook(action);
    }
    fn put(&mut self, byte: u8) {
        self.term.put(byte);
    }
    fn unhook(&mut self) {
        self.term.unhook();
    }
    fn osc_dispatch(&mut self, params: &[&[u8]], _bell_terminated: bool) {
        let ps: Vec<Vec<u8>> = params.iter().map(|p| p.to_vec()).collect();
        self.term.osc_dispatch(&ps);
    }
}

fn feed(term: &mut Term, parser: &mut vte::Parser, bytes: &[u8]) {
    for piece in stream_pieces(bytes) {
        match piece {
            StreamPiece::Byte(b) => parser.advance(&mut Driver { term: &mut *term }, b),
            StreamPiece::KittyApc { start, end } => assert!(term.handle_kitty_apc(&bytes[start..end])),
        }
    }
}

fn run(cols: usize, rows: usize, bytes: &[u8]) -> Term {
    let mut term = Term::new(cols, rows, 100);
    let mut parser = vte::Parser::new();
    feed(&mut term, &mut parser, bytes);
    term
}

#[test]
fn prints_text_and_handles_crlf() {
    let t = run(5, 2, b"hi\r\nyo");
    assert_eq!(t.grid.row_text(0), "hi   ");
    assert_eq!(t.grid.row_text(1), "yo   ");
    assert_eq!(t.grid.cursor, CursorPos { row: 1, col: 2 });
}

#[test]
fn bell_and_tab() {
    let t = run(20, 1, b"\x07ab\t");
    assert!(t.bell);
    assert_eq!(t.grid.cursor.col, 8);
    let t = run(6, 1, b"\t\t");
    assert_eq!(t.grid.cursor.col, 5);
}

#[test]
fn sgr_sets_and_resets_pen() {
    let t = run(10, 1, b"\x1b[1;4;31mX");
    let cell = t.grid.visible[0][0];
    assert!(cell.flags.contains(BOLD));
    assert!(cell.flags.contains(UNDERLINE));
    assert_eq!(cell.fg, Rgb::new(0xcc, 0x66, 0x66));
    let t = run(10, 1, b"\x1b[1;7;41m\x1b[0mX");
    let cell = t.grid.visible[0][0];
    assert!(cell.flags.is_empty());
    assert_eq!(cell.fg, Rgb::new(0xd8, 0xd8, 0xd8));
    assert_eq!(cell.bg, Rgb::new(0x1e, 0x1e, 0x1e));
    let t = run(10, 1, b"\x1b[7m\x1b[27mX");
    assert!(!t.grid.visible[0][0].flags.contains(INVERSE));
}

#[test]
fn sgr_extended_colours() {
    let t = run(10, 1, b"\x1b[38;2;1;2;3;48;5;196mX");
    let cell = t.grid.visible[0][0];
    assert_eq!(cell.fg, Rgb::new(1, 2, 3));
    assert_eq!(cell.bg, Rgb::new(255, 0, 0));
    let t = run(10, 1, b"\x1b[95;104mX");
    let cell = t.grid.visible[0][0];
    assert_eq!(cell.fg, Rgb::new(0xc3, 0x97, 0xd8));
    assert_eq!(cell.bg, Rgb::new(0x7a, 0xa6, 0xda));
    let t = run(10, 1, b"\x1b[38;2;300;0mX");
    assert_eq!(t.grid.visible[0][0].fg, Rgb::new(44, 0, 0));
}

#[test]
fn palette_256_values() {
    assert_eq!(palette_256(1), Rgb::new(0xcc, 0x66, 0x66));
    assert_eq!(palette_256(16), Rgb::new(0, 0, 0));
    assert_eq!(palette_256(196), Rgb::new(255, 0, 0));
    assert_eq!(palette_256(231), Rgb::new(255, 255, 255));
    assert_eq!(palette_256(232), Rgb::new(8, 8, 8));
    assert_eq!(palette_256(255), Rgb::new(238, 238, 238));
    assert_eq!(palette_256(300), Rgb::new(176, 176, 176));
}

#[test]
fn cursor_positioning_clamps() {
    let t = run(10, 5, b"\x1b[3;4H");
    assert_eq!(t.grid.cursor, CursorPos { row: 2, col: 3 });
    let t = run(10, 5, b"\x1b[99;99H");
    assert_eq!(t.grid.cursor, CursorPos { row: 4, col: 9 });
    let t = run(10, 5, b"\x1b[3;4H\x1b[2A\x1b[9D");
    assert_eq!(t.grid.cursor, CursorPos { row: 0, col: 0 });
    let t = run(10, 5, b"\x1b[9B\x1b[2C\x1b[7G\x1b[2d");
    assert_eq!(t.grid.cursor, CursorPos { row: 1, col: 6 });
    let t = run(10, 5, b"\x1b[2;5H\x1b[2E");
    assert_eq!(t.grid.cursor, CursorPos { row: 3, col: 0 });
    let t = run(10, 5, b"\x1b[4;5H\x1b[F");
    assert_eq!(t.grid.cursor, CursorPos { row: 2, col: 0 });
}

#[test]
fn save_and_restore_cursor() {
    let t = run(10, 5, b"\x1b[2;3H\x1b[s\x1b[5;9H\x1b[u");
    assert_eq!(t.grid.cursor, CursorPos { row: 1, col: 2 });
    let t = run(10, 5, b"\x1b[2;3H\x1b7\x1b[5;9H\x1b8");
    assert_eq!(t.grid.cursor, CursorPos { row: 1, col: 2 });
    let t = run(10, 5, b"\x1b[5;9H\x1b8");
    assert_eq!(t.grid.cursor, CursorPos { row: 4, col: 8 });
}

#[test]
fn cursor_visibility_mode() {
    let t = run(10, 2, b"\x1b[?25l");
    assert!(!t.grid.cursor_visible);
    let t = run(10, 2, b"\x1b[?25l\x1b[?25h");
    assert!(t.grid.cursor_visible);
    let t = run(10, 2, b"\x1b[25l");
    assert!(t.grid.cursor_visible);
}

#[test]
fn erase_sequences() {
    let t = run(4, 2, b"abcdefgh\x1b[1;2H\x1b[K");
    assert_eq!(t.grid.row_text(0), "a   ");
    assert_eq!(t.grid.row_text(1), "efgh");
    let t = run(4, 2, b"abcdefgh\x1b[2J");
    assert_eq!(t.grid.row_text(0), "    ");
    assert_eq!(t.grid.row_text(1), "    ");
}

#[test]
fn osc_sets_title() {
    let t = run(10, 1, b"\x1b]0;hello\x07");
    assert_eq!(t.title.as_deref(), Some("hello"));
    let t = run(10, 1, b"\x1b]2;a;b\x07");
    assert_eq!(t.title.as_deref(), Some("ab"));
    let t = run(10, 1, b"\x1b]1;nope\x07");
    assert_eq!(t.title, None);
}

#[test]
fn osc_title_needs_utf8() {
    let mut t = Term::new(10, 1, 0);
    t.osc_dispatch(&vec![b"0".to_vec(), vec![0xff, 0xfe]]);
    assert_eq!(t.title, None);
    t.osc_dispatch(&vec![b"2".to_vec(), "é".as_bytes().to_vec()]);
    assert_eq!(t.title.as_deref(), Some("é"));
}

#[test]
fn sixel_image_is_collected() {
    let t = run(10, 2, b"ab\x1bPq#1;2;100;0;0~~\x1b\\");
    assert_eq!(t.images.len(), 1);
    let img = &t.images[0];
    assert_eq!((img.width, img.height), (2, 6));
    assert_eq!((img.cell_col, img.cell_row), (2, 0));
    assert_eq!(&img.rgba[0..4], &[255, 0, 0, 255]);
}

#[test]
fn other_dcs_is_dropped() {
    let t = run(10, 2, b"\x1bP$r~~\x1b\\");
    assert!(t.images.is_empty());
}

#[test]
fn kitty_apc_is_decoded() {
    let t = run(10, 2, b"x\x1b_Gf=24,s=1,v=1;AQID\x1b\\y");
    assert_eq!(t.images.len(), 1);
    assert_eq!(t.images[0].rgba, vec![1, 2, 3, 255]);
    assert_eq!(t.images[0].cell_col, 1);
    assert_eq!(t.grid.row_text(0), "xy        ");
}

#[test]
fn kitty_apc_with_invalid_utf8_is_ignored() {
    let mut t = Term::new(10, 1, 0);
    assert!(t.handle_kitty_apc(&[0x66, 0x3d, 0xff]));
    assert!(t.images.is_empty());
}

#[test]
fn stream_pieces_cut_out_kitty_apc() {
    let bytes = b"a\x1b_Gs=1;QQ\x1b\\b";
    let pieces = stream_pieces(bytes);
    assert_eq!(
        pieces,
        vec![StreamPiece::Byte(b'a'), StreamPiece::KittyApc { start: 4, end: 10 }, StreamPiece::Byte(b'b')]
    );
    let unterminated = b"\x1b_Gs=1";
    assert_eq!(stream_pieces(unterminated).len(), unterminated.len());
    let plain = b"plain";
    assert_eq!(stream_pieces(plain), plain.iter().map(|b| StreamPiece::Byte(*b)).collect::<Vec<_>>());
}

#[test]
fn find_st_finds_first_terminator() {
    assert_eq!(find_st(b"ab\x1b\\cd\x1b\\"), Some(2));
    assert_eq!(find_st(b"ab\x1b"), None);
    assert_eq!(find_st(b""), None);
}

#[test]
fn print_on_rowless_terminal_reports_no_room() {
    let mut t = Term::new(2, 0, 0);
    assert!(t.print('a'));
    assert!(t.print('b'));
    assert!(!t.print('c'));
}

#[test]
fn resize_keeps_text() {
    let mut t = run(4, 2, b"ab");
    t.resize(6, 3);
    assert_eq!(t.grid.row_text(0), "ab    ");
    assert_eq!(t.grid.visible.len(), 3);
}

#[test]
fn insert_delete_via_csi() {
    let t = run(5, 1, b"abcde\x1b[2G\x1b[2@");
    assert_eq!(t.grid.row_text(0), "a  bc");
    let t = run(5, 1, b"abcde\x1b[2G\x1b[P");
    assert_eq!(t.grid.row_text(0), "acde ");
    let t = run(5, 1, b"abcde\x1b[2G\x1b[3X");
    assert_eq!(t.grid.row_text(0), "a   e");
}
