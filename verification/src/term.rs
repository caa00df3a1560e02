//! The VT100/ANSI terminal state behind a grid: what each parsed control
//! function does to the grid, the pen, the saved cursor, the title, the
//! bell and the inline images.
//!
//! The byte-level escape-sequence parser hands this state one event at a
//! time (`print`, `execute`, `csi_dispatch`, `esc_dispatch`, `hook`, `put`,
//! `unhook`, `osc_dispatch`); Kitty graphics APC strings, which that parser
//! drops, are cut out of the raw stream first (`stream_pieces`).

use vstd::prelude::*;
use vstd::utf8::{decode_utf8, valid_utf8};

use crate::cell::{default_bg, default_bg_color, default_fg, default_fg_color, CellFlags, Rgb};
use crate::cell::{BOLD, DIM, INVERSE, ITALIC, STRIKEOUT, UNDERLINE};
use crate::grid::{cell_width_of, fresh_grid, CursorPos, Grid, GridView, MAX_DIM};
use crate::image::{decode_kitty_apc, decode_sixel, find_byte, kitty_decode, kitty_fits, result_view, sixel_decode};
use crate::image::{DecodedImage, ImageError, ImageView};

verus! {

// ---------------------------------------------------------------------------
// Colours
// ---------------------------------------------------------------------------

/// The ANSI 16-colour palette (dark defaults).
pub open spec fn ansi_color(i: int) -> Rgb {
    if i == 0 { Rgb { r: 0x1e, g: 0x1e, b: 0x1e } }
    else if i == 1 { Rgb { r: 0xcc, g: 0x66, b: 0x66 } }
    else if i == 2 { Rgb { r: 0xb5, g: 0xbd, b: 0x68 } }
    else if i == 3 { Rgb { r: 0xf0, g: 0xc6, b: 0x74 } }
    else if i == 4 { Rgb { r: 0x81, g: 0xa2, b: 0xbe } }
    else if i == 5 { Rgb { r: 0xb2, g: 0x94, b: 0xbb } }
    else if i == 6 { Rgb { r: 0x8a, g: 0xbe, b: 0xb7 } }
    else if i == 7 { Rgb { r: 0xc5, g: 0xc8, b: 0xc6 } }
    else if i == 8 { Rgb { r: 0x66, g: 0x66, b: 0x66 } }
    else if i == 9 { Rgb { r: 0xd5, g: 0x4e, b: 0x53 } }
    else if i == 10 { Rgb { r: 0xb9, g: 0xca, b: 0x4a } }
    else if i == 11 { Rgb { r: 0xe7, g: 0xc5, b: 0x47 } }
    else if i == 12 { Rgb { r: 0x7a, g: 0xa6, b: 0xda } }
    else if i == 13 { Rgb { r: 0xc3, g: 0x97, b: 0xd8 } }
    else if i == 14 { Rgb { r: 0x70, g: 0xc0, b: 0xb1 } }
    else { Rgb { r: 0xea, g: 0xea, b: 0xea } }
}

pub fn ansi_color_of(i: u16) -> (c: Rgb)
    requires
        i < 16,
    ensures
        c == ansi_color(i as int),
{
    match i {
        0 => Rgb::new(0x1e, 0x1e, 0x1e),
        1 => Rgb::new(0xcc, 0x66, 0x66),
        2 => Rgb::new(0xb5, 0xbd, 0x68),
        3 => Rgb::new(0xf0, 0xc6, 0x74),
        4 => Rgb::new(0x81, 0xa2, 0xbe),
        5 => Rgb::new(0xb2, 0x94, 0xbb),
        6 => Rgb::new(0x8a, 0xbe, 0xb7),
        7 => Rgb::new(0xc5, 0xc8, 0xc6),
        8 => Rgb::new(0x66, 0x66, 0x66),
        9 => Rgb::new(0xd5, 0x4e, 0x53),
        10 => Rgb::new(0xb9, 0xca, 0x4a),
        11 => Rgb::new(0xe7, 0xc5, 0x47),
        12 => Rgb::new(0x7a, 0xa6, 0xda),
        13 => Rgb::new(0xc3, 0x97, 0xd8),
        14 => Rgb::new(0x70, 0xc0, 0xb1),
        _ => Rgb::new(0xea, 0xea, 0xea),
    }
}

/// One level of the 6x6x6 colour cube.
pub open spec fn cube_level(v: int) -> u8 {
    if v == 0 { 0 } else { (v * 40 + 55) as u8 }
}

/// The xterm 256-colour palette: the 16 ANSI colours, the 6x6x6 cube and a
/// 24-step grey ramp (whose level arithmetic wraps at 16 bits past index 255).
pub open spec fn palette_256_spec(idx: u16) -> Rgb {
    if idx < 16 {
        ansi_color(idx as int)
    } else if idx < 232 {
        let v = idx - 16;
        Rgb { r: cube_level(v / 36), g: cube_level((v % 36) / 6), b: cube_level(v % 6) }
    } else {
        let level = vstd::wrapping::u16_specs::wrapping_add(
            vstd::wrapping::u16_specs::wrapping_mul((idx - 232) as u16, 10),
            8,
        );
        Rgb { r: level as u8, g: level as u8, b: level as u8 }
    }
}

fn cube_level_of(v: u16) -> (l: u8)
    requires
        v < 6,
    ensures
        l == cube_level(v as int),
{
    if v == 0 { 0 } else { (v * 40 + 55) as u8 }
}

pub fn palette_256(idx: u16) -> (c: Rgb)
    ensures
        c == palette_256_spec(idx),
{
    if idx < 16 {
        return ansi_color_of(idx);
    }
    if idx < 232 {
        let v = idx - 16;
        let r = v / 36;
        let g = (v % 36) / 6;
        let b = v % 6;
        return Rgb::new(cube_level_of(r), cube_level_of(g), cube_level_of(b));
    }
    let level = (idx - 232).wrapping_mul(10).wrapping_add(8);
    Rgb::new(level as u8, level as u8, level as u8)
}

// ---------------------------------------------------------------------------
// Parameters
// ---------------------------------------------------------------------------

/// First value of parameter `i`, 0 when it is absent or empty.
pub open spec fn first_or_zero(ps: Seq<Seq<u16>>, i: int) -> u16 {
    if 0 <= i < ps.len() && ps[i].len() > 0 { ps[i][0] } else { 0 }
}

/// Parameter `i` of a control sequence, `default` when absent, empty or 0.
pub open spec fn param(ps: Seq<Seq<u16>>, i: int, default: u16) -> u16 {
    if 0 <= i < ps.len() && ps[i].len() > 0 && ps[i][0] != 0 { ps[i][0] } else { default }
}

fn first_or_zero_of(params: &Vec<Vec<u16>>, i: usize) -> (v: u16)
    ensures
        v == first_or_zero(params.deep_view(), i as int),
{
    if i < params.len() && params[i].len() > 0 {
        params[i][0]
    } else {
        0
    }
}

fn param_of(params: &Vec<Vec<u16>>, i: usize, default: u16) -> (v: u16)
    ensures
        v == param(params.deep_view(), i as int, default),
{
    if i < params.len() && params[i].len() > 0 && params[i][0] != 0 {
        params[i][0]
    } else {
        default
    }
}

// ---------------------------------------------------------------------------
// Select Graphic Rendition
// ---------------------------------------------------------------------------

/// Foreground, background and style bits of the pen.
pub type Pen = (Rgb, Rgb, CellFlags);

/// The effect of one SGR code that takes no further parameters.
pub open spec fn sgr_simple(pen: Pen, code: u16, dfg: Rgb, dbg: Rgb) -> Pen {
    let (fg, bg, fl) = pen;
    if code == 0 {
        (dfg, dbg, CellFlags { bits: 0 })
    } else if code == 1 {
        (fg, bg, CellFlags { bits: fl.bits | BOLD })
    } else if code == 3 {
        (fg, bg, CellFlags { bits: fl.bits | ITALIC })
    } else if code == 4 {
        (fg, bg, CellFlags { bits: fl.bits | UNDERLINE })
    } else if code == 7 {
        (fg, bg, CellFlags { bits: fl.bits | INVERSE })
    } else if code == 9 {
        (fg, bg, CellFlags { bits: fl.bits | STRIKEOUT })
    } else if code == 22 {
        (fg, bg, CellFlags { bits: fl.bits & !(BOLD | DIM) })
    } else if code == 23 {
        (fg, bg, CellFlags { bits: fl.bits & !ITALIC })
    } else if code == 24 {
        (fg, bg, CellFlags { bits: fl.bits & !UNDERLINE })
    } else if code == 27 {
        (fg, bg, CellFlags { bits: fl.bits & !INVERSE })
    } else if 30 <= code <= 37 {
        (ansi_color(code - 30), bg, fl)
    } else if code == 39 {
        (dfg, bg, fl)
    } else if 40 <= code <= 47 {
        (fg, ansi_color(code - 40), fl)
    } else if code == 49 {
        (fg, dbg, fl)
    } else if 90 <= code <= 97 {
        (ansi_color(code - 90 + 8), bg, fl)
    } else if 100 <= code <= 107 {
        (fg, ansi_color(code - 100 + 8), fl)
    } else {
        pen
    }
}

pub open spec fn with_color(pen: Pen, background: bool, c: Rgb) -> Pen {
    if background { (pen.0, c, pen.2) } else { (c, pen.1, pen.2) }
}

/// The pen after the SGR parameters from `i` on. `38`/`48` take a colour
/// spec from the following parameters: `2;r;g;b` (truecolour) or `5;n`
/// (256-colour palette); missing values count as 0.
pub open spec fn sgr_from(pen: Pen, ps: Seq<Seq<u16>>, i: int, dfg: Rgb, dbg: Rgb) -> Pen
    decreases ps.len() - i,
{
    if i < 0 || i >= ps.len() {
        pen
    } else {
        let code = first_or_zero(ps, i);
        let (pen2, j) = if code == 38 || code == 48 {
            if i + 1 < ps.len() {
                let sel = first_or_zero(ps, i + 1);
                if sel == 2 {
                    let c = Rgb {
                        r: first_or_zero(ps, i + 2) as u8,
                        g: first_or_zero(ps, i + 3) as u8,
                        b: first_or_zero(ps, i + 4) as u8,
                    };
                    (with_color(pen, code == 48, c), i + 5)
                } else if sel == 5 {
                    (with_color(pen, code == 48, palette_256_spec(first_or_zero(ps, i + 2))), i + 3)
                } else {
                    (pen, i + 2)
                }
            } else {
                (pen, i + 1)
            }
        } else {
            (sgr_simple(pen, code, dfg, dbg), i + 1)
        };
        if j <= ps.len() { sgr_from(pen2, ps, j, dfg, dbg) } else { pen2 }
    }
}

pub open spec fn sgr_grid(g: GridView, ps: Seq<Seq<u16>>, dfg: Rgb, dbg: Rgb) -> GridView {
    let pen = sgr_from((g.fg, g.bg, g.flags), ps, 0, dfg, dbg);
    GridView { fg: pen.0, bg: pen.1, flags: pen.2, ..g }
}

// ---------------------------------------------------------------------------
// Control sequences
// ---------------------------------------------------------------------------

pub open spec fn min_usize(a: int, b: int) -> usize {
    (if a < b { a } else { b }) as usize
}

pub open spec fn sat_sub(a: int, b: int) -> usize {
    (if a > b { a - b } else { 0 }) as usize
}

/// What a CSI sequence with final character `c` does to the grid (the saved
/// cursor is what `CSI u` restores).
pub open spec fn csi_grid(
    g: GridView,
    saved: Option<CursorPos>,
    ps: Seq<Seq<u16>>,
    inter: Seq<u8>,
    c: char,
    dfg: Rgb,
    dbg: Rgb,
) -> GridView {
    let row = g.cursor.row as int;
    let col = g.cursor.col as int;
    let p1 = param(ps, 0, 1) as int;
    if c == 'A' {
        g.with_cursor(CursorPos { row: sat_sub(row, p1), ..g.cursor })
    } else if c == 'B' {
        g.with_cursor(CursorPos { row: min_usize(row + p1, g.rows - 1), ..g.cursor })
    } else if c == 'C' {
        g.with_cursor(CursorPos { col: min_usize(col + p1, g.cols - 1), ..g.cursor })
    } else if c == 'D' {
        g.with_cursor(CursorPos { col: sat_sub(col, p1), ..g.cursor })
    } else if c == 'H' || c == 'f' {
        g.with_cursor(CursorPos {
            row: min_usize(sat_sub(p1, 1) as int, sat_sub(g.rows as int, 1) as int),
            col: min_usize(sat_sub(param(ps, 1, 1) as int, 1) as int, sat_sub(g.cols as int, 1) as int),
        })
    } else if c == 'G' {
        g.with_cursor(CursorPos { col: min_usize(sat_sub(p1, 1) as int, sat_sub(g.cols as int, 1) as int), ..g.cursor })
    } else if c == 'd' {
        g.with_cursor(CursorPos { row: min_usize(sat_sub(p1, 1) as int, sat_sub(g.rows as int, 1) as int), ..g.cursor })
    } else if c == 'E' {
        g.with_cursor(CursorPos { col: 0, row: min_usize(row + p1, g.rows - 1) })
    } else if c == 'F' {
        g.with_cursor(CursorPos { col: 0, row: sat_sub(row, p1) })
    } else if c == 'J' {
        g.erase_in_display(param(ps, 0, 0))
    } else if c == 'K' {
        g.erase_in_line(param(ps, 0, 0))
    } else if c == '@' {
        g.insert_chars(p1 as usize)
    } else if c == 'P' {
        g.delete_chars(p1 as usize)
    } else if c == 'X' {
        g.erase_chars(p1 as usize)
    } else if c == 'L' {
        g.insert_lines(p1 as usize)
    } else if c == 'M' {
        g.delete_lines(p1 as usize)
    } else if c == 'u' {
        match saved {
            Some(pos) => g.with_cursor(pos),
            None => g,
        }
    } else if (c == 'h' || c == 'l') && inter.len() > 0 && inter[0] == 0x3f {
        if param(ps, 0, 0) == 25 { GridView { cursor_visible: c == 'h', ..g } } else { g }
    } else if c == 'm' {
        sgr_grid(g, ps, dfg, dbg)
    } else {
        g
    }
}

/// Whether a CSI sequence with final character `c` needs a row or a column
/// to exist (those clamp the cursor to the last row or column).
pub open spec fn csi_needs_screen(g: GridView, c: char) -> bool {
    ((c == 'B' || c == 'E') ==> g.rows >= 1) && (c == 'C' ==> g.cols >= 1)
}

// ---------------------------------------------------------------------------
// Raw stream: Kitty APC strings
// ---------------------------------------------------------------------------

/// Offset of the first `ESC \` (string terminator) at or after `j`.
pub open spec fn st_from(s: Seq<u8>, j: int) -> Option<int>
    decreases s.len() - j,
{
    if j < 0 || j + 1 >= s.len() {
        None
    } else if s[j] == 0x1b && s[j + 1] == 0x5c {
        Some(j)
    } else {
        st_from(s, j + 1)
    }
}

/// Whether a Kitty graphics APC (`ESC _ G`) starts at `i`.
pub open spec fn kitty_apc_at(s: Seq<u8>, i: int) -> bool {
    0 <= i && i + 2 < s.len() && s[i] == 0x1b && s[i + 1] == 0x5f && s[i + 2] == 0x47
}

#[derive(Clone, Copy, Debug, PartialEq, Eq, Structural)]
pub enum StreamPiece {
    /// A byte for the escape-sequence parser.
    Byte(u8),
    /// A complete Kitty graphics APC string; `start..end` is its payload
    /// (after `ESC _ G`, before the terminating `ESC \`).
    KittyApc { start: usize, end: usize },
}

/// The stream from `i` on cut into pieces: a Kitty APC whose terminator is in
/// the stream becomes one piece, every other byte goes to the parser.
pub open spec fn pieces_from(s: Seq<u8>, i: int) -> Seq<StreamPiece>
    decreases s.len() - i,
{
    if i < 0 || i >= s.len() {
        Seq::empty()
    } else if kitty_apc_at(s, i) && st_from(s, i) is Some && st_from(s, i)->0 + 2 <= s.len() {
        let st = st_from(s, i)->0;
        if st + 2 > i {
            seq![StreamPiece::KittyApc { start: (i + 3) as usize, end: st as usize }] + pieces_from(s, st + 2)
        } else {
            Seq::empty()
        }
    } else {
        seq![StreamPiece::Byte(s[i])] + pieces_from(s, i + 1)
    }
}

proof fn lemma_st_from_bounds(s: Seq<u8>, j: int)
    requires
        0 <= j,
    ensures
        st_from(s, j) matches Some(k) ==> j <= k && k + 1 < s.len() && s[k] == 0x1b && s[k + 1] == 0x5c,
    decreases s.len() - j,
{
    if j + 1 < s.len() && !(s[j] == 0x1b && s[j + 1] == 0x5c) {
        lemma_st_from_bounds(s, j + 1);
    }
}

fn st_from_exec(data: &[u8], from: usize) -> (r: Option<usize>)
    ensures
        r matches Some(k) ==> st_from(data@, from as int) == Some(k as int),
        r is None ==> st_from(data@, from as int) is None,
{
    let mut j = from;
    while j < data.len() && j + 1 < data.len()
        invariant
            from <= j,
            st_from(data@, j as int) == st_from(data@, from as int),
        decreases data@.len() - j,
    {
        if data[j] == 0x1b && data[j + 1] == 0x5c {
            return Some(j);
        }
        j = j + 1;
    }
    None
}

/// Offset of the first `ESC \` (string terminator) in `data`. Only the 7-bit
/// two-byte form is recognised.
pub fn find_st(data: &[u8]) -> (r: Option<usize>)
    ensures
        r matches Some(k) ==> st_from(data@, 0) == Some(k as int),
        r is None ==> st_from(data@, 0) is None,
{
    st_from_exec(data, 0)
}

/// The raw stream cut into parser bytes and Kitty APC payloads, in order.
pub fn stream_pieces(bytes: &[u8]) -> (out: Vec<StreamPiece>)
    ensures
        out@ == pieces_from(bytes@, 0),
{
    let mut out: Vec<StreamPiece> = Vec::new();
    let mut i: usize = 0;
    while i < bytes.len()
        invariant
            i <= bytes@.len(),
            out@ + pieces_from(bytes@, i as int) == pieces_from(bytes@, 0),
        decreases bytes@.len() - i,
    {
        let ghost rest = pieces_from(bytes@, i as int);
        if bytes[i] == 0x1b && bytes.len() - i > 2 && bytes[i + 1] == 0x5f && bytes[i + 2] == 0x47 {
            match st_from_exec(bytes, i) {
                Some(st) => {
                    proof {
                        lemma_st_from_bounds(bytes@, i as int);
                    }
                    let ghost before = out@;
                    out.push(StreamPiece::KittyApc { start: i + 3, end: st });
                    assert(out@ + pieces_from(bytes@, st + 2) =~= before + rest);
                    i = st + 2;
                    continue;
                },
                None => {},
            }
        }
        let ghost before = out@;
        out.push(StreamPiece::Byte(bytes[i]));
        assert(out@ + pieces_from(bytes@, i + 1) =~= before + rest);
        i = i + 1;
    }
    assert(out@ + pieces_from(bytes@, i as int) =~= out@);
    out
}

/// Every Kitty piece's payload range lies inside the stream and past its `ESC _ G`.
pub proof fn lemma_pieces_in_range(s: Seq<u8>, i: int)
    requires
        0 <= i,
        s.len() <= usize::MAX,
    ensures
        forall|k: int| 0 <= k < pieces_from(s, i).len() ==> (#[trigger] pieces_from(s, i)[k] matches
            StreamPiece::KittyApc { start, end } ==> i + 3 <= start <= end && end + 2 <= s.len()),
    decreases s.len() - i,
{
    if 0 <= i < s.len() {
        if kitty_apc_at(s, i) && st_from(s, i) is Some && st_from(s, i)->0 + 2 <= s.len() {
            lemma_st_from_bounds(s, i);
            let st = st_from(s, i)->0;
            assert(st != i && st != i + 1 && st != i + 2);
            lemma_pieces_in_range(s, st + 2);
            assert forall|k: int| 0 <= k < pieces_from(s, i).len() implies (#[trigger] pieces_from(s, i)[k] matches
                StreamPiece::KittyApc { start, end } ==> i + 3 <= start <= end && end + 2 <= s.len()) by {
                if k > 0 {
                    assert(pieces_from(s, i)[k] == pieces_from(s, st + 2)[k - 1]);
                }
            }
        } else {
            lemma_pieces_in_range(s, i + 1);
            assert forall|k: int| 0 <= k < pieces_from(s, i).len() implies (#[trigger] pieces_from(s, i)[k] matches
                StreamPiece::KittyApc { start, end } ==> i + 3 <= start <= end && end + 2 <= s.len()) by {
                if k > 0 {
                    assert(pieces_from(s, i)[k] == pieces_from(s, i + 1)[k - 1]);
                }
            }
        }
    }
}

// ---------------------------------------------------------------------------
// Strings from the stream
// ---------------------------------------------------------------------------

/// Trusted: wraps `String::from_utf8`, which std documents as succeeding
/// exactly when the bytes are valid UTF-8, with the string those bytes encode.
#[verifier::external_body]
fn string_from_utf8(bytes: Vec<u8>) -> (r: Option<String>)
    ensures
        r is Some <==> valid_utf8(bytes@),
        r matches Some(s) ==> s@ == decode_utf8(bytes@),
{
    String::from_utf8(bytes).ok()
}

/// Trusted: wraps `std::str::from_utf8`, which std documents as succeeding
/// exactly when the bytes are valid UTF-8.
#[verifier::external_body]
fn is_utf8(bytes: &[u8]) -> (b: bool)
    ensures
        b == valid_utf8(bytes@),
{
    std::str::from_utf8(bytes).is_ok()
}

/// All the parts, one after another.
pub open spec fn concat_all(parts: Seq<Seq<u8>>) -> Seq<u8>
    decreases parts.len(),
{
    if parts.len() == 0 {
        Seq::empty()
    } else {
        concat_all(parts.drop_last()) + parts.last()
    }
}

/// The window title an OSC sequence sets, if it sets one: OSC 0 and OSC 2
/// with the remaining parameters joined, when they form valid UTF-8.
pub open spec fn osc_title(ps: Seq<Seq<u8>>) -> Option<Seq<char>> {
    if ps.len() >= 1 && (ps[0] == seq![0x30u8] || ps[0] == seq![0x32u8]) {
        let joined = concat_all(ps.subrange(1, ps.len() as int));
        if valid_utf8(joined) { Some(decode_utf8(joined)) } else { None }
    } else {
        None
    }
}

// ---------------------------------------------------------------------------
// Laws
// ---------------------------------------------------------------------------

/// Saving the cursor (CSI s) and restoring it (CSI u) after any cursor
/// movement puts the cursor back where it was saved; the same holds for
/// DECSC/DECRC (ESC 7 / ESC 8), whose restore is the same step.
pub proof fn law_save_restore_cursor(g: GridView, moved: GridView, ps: Seq<Seq<u16>>, inter: Seq<u8>, dfg: Rgb, dbg: Rgb)
    ensures
        csi_grid(moved, Some(g.cursor), ps, inter, 'u', dfg, dbg) == moved.with_cursor(g.cursor),
{
}

/// SGR 0 resets the pen to the default colours and no style, whatever came before.
pub proof fn law_sgr_reset(pen: Pen, dfg: Rgb, dbg: Rgb)
    ensures
        sgr_from(pen, seq![seq![0u16]], 0, dfg, dbg) == (dfg, dbg, CellFlags { bits: 0 }),
{
    let ps = seq![seq![0u16]];
    assert(first_or_zero(ps, 0) == 0);
    assert(sgr_from((dfg, dbg, CellFlags { bits: 0 }), ps, 1, dfg, dbg) == (dfg, dbg, CellFlags { bits: 0 }));
}

/// One SGR code (`CSI code m`) on a terminal: 30-37 and 90-97 set the
/// foreground to an ANSI colour (bright for the 90s), 40-47 and 100-107 set
/// the background, 39 and 49 restore the default foreground or background;
/// each leaves the other colour, the style bits, the cursor and the cells as
/// they were. 1, 3, 4, 7 and 9 add bold, italic, underline, inverse and
/// strikeout; 22, 23, 24 and 27 remove bold and dim, italic, underline and
/// inverse; those leave both colours alone.
pub proof fn law_sgr_single_code(g: GridView, code: u16, saved: Option<CursorPos>, inter: Seq<u8>, dfg: Rgb, dbg: Rgb)
    ensures
        ({
            let r = csi_grid(g, saved, seq![seq![code]], inter, 'm', dfg, dbg);
            &&& r.cursor == g.cursor
            &&& r.visible == g.visible
            &&& r.scrollback == g.scrollback
            &&& (30 <= code <= 37 ==> r.fg == ansi_color(code - 30) && r.bg == g.bg && r.flags == g.flags)
            &&& (40 <= code <= 47 ==> r.bg == ansi_color(code - 40) && r.fg == g.fg && r.flags == g.flags)
            &&& (90 <= code <= 97 ==> r.fg == ansi_color(code - 82) && r.bg == g.bg && r.flags == g.flags)
            &&& (100 <= code <= 107 ==> r.bg == ansi_color(code - 92) && r.fg == g.fg && r.flags == g.flags)
            &&& (code == 39 ==> r.fg == dfg && r.bg == g.bg && r.flags == g.flags)
            &&& (code == 49 ==> r.bg == dbg && r.fg == g.fg && r.flags == g.flags)
            &&& (code == 1 ==> r.flags.bits == g.flags.bits | BOLD && r.fg == g.fg && r.bg == g.bg)
            &&& (code == 3 ==> r.flags.bits == g.flags.bits | ITALIC && r.fg == g.fg && r.bg == g.bg)
            &&& (code == 4 ==> r.flags.bits == g.flags.bits | UNDERLINE && r.fg == g.fg && r.bg == g.bg)
            &&& (code == 7 ==> r.flags.bits == g.flags.bits | INVERSE && r.fg == g.fg && r.bg == g.bg)
            &&& (code == 9 ==> r.flags.bits == g.flags.bits | STRIKEOUT && r.fg == g.fg && r.bg == g.bg)
            &&& (code == 22 ==> r.flags.bits == g.flags.bits & !(BOLD | DIM) && r.fg == g.fg && r.bg == g.bg)
            &&& (code == 23 ==> r.flags.bits == g.flags.bits & !ITALIC && r.fg == g.fg && r.bg == g.bg)
            &&& (code == 24 ==> r.flags.bits == g.flags.bits & !UNDERLINE && r.fg == g.fg && r.bg == g.bg)
            &&& (code == 27 ==> r.flags.bits == g.flags.bits & !INVERSE && r.fg == g.fg && r.bg == g.bg)
        }),
{
    let ps = seq![seq![code]];
    assert(first_or_zero(ps, 0) == code);
    let pen = (g.fg, g.bg, g.flags);
    if code != 38 && code != 48 {
        let p2 = sgr_simple(pen, code, dfg, dbg);
        assert(sgr_from(p2, ps, 1, dfg, dbg) == p2);
        assert(sgr_from(pen, ps, 0, dfg, dbg) == p2);
    }
}

/// Extended colours: `38;2;r;g;b` / `48;2;r;g;b` set the foreground /
/// background to that truecolour and `38;5;n` / `48;5;n` to entry `n` of the
/// 256-colour palette, leaving the other colour and the style bits alone.
pub proof fn law_sgr_extended_colors(pen: Pen, r: u8, gr: u8, b: u8, n: u16, dfg: Rgb, dbg: Rgb)
    ensures
        sgr_from(pen, seq![seq![38u16], seq![2u16], seq![r as u16], seq![gr as u16], seq![b as u16]], 0, dfg, dbg)
            == (Rgb { r, g: gr, b }, pen.1, pen.2),
        sgr_from(pen, seq![seq![48u16], seq![2u16], seq![r as u16], seq![gr as u16], seq![b as u16]], 0, dfg, dbg)
            == (pen.0, Rgb { r, g: gr, b }, pen.2),
        sgr_from(pen, seq![seq![38u16], seq![5u16], seq![n]], 0, dfg, dbg) == (palette_256_spec(n), pen.1, pen.2),
        sgr_from(pen, seq![seq![48u16], seq![5u16], seq![n]], 0, dfg, dbg) == (pen.0, palette_256_spec(n), pen.2),
{
    let t38 = seq![seq![38u16], seq![2u16], seq![r as u16], seq![gr as u16], seq![b as u16]];
    let t48 = seq![seq![48u16], seq![2u16], seq![r as u16], seq![gr as u16], seq![b as u16]];
    let p38 = seq![seq![38u16], seq![5u16], seq![n]];
    let p48 = seq![seq![48u16], seq![5u16], seq![n]];
    assert(first_or_zero(t38, 0) == 38 && first_or_zero(t38, 1) == 2 && first_or_zero(t38, 2) == r as u16);
    assert(first_or_zero(t38, 3) == gr as u16 && first_or_zero(t38, 4) == b as u16);
    assert(first_or_zero(t48, 0) == 48 && first_or_zero(t48, 1) == 2 && first_or_zero(t48, 2) == r as u16);
    assert(first_or_zero(t48, 3) == gr as u16 && first_or_zero(t48, 4) == b as u16);
    assert(first_or_zero(p38, 0) == 38 && first_or_zero(p38, 1) == 5 && first_or_zero(p38, 2) == n);
    assert(first_or_zero(p48, 0) == 48 && first_or_zero(p48, 1) == 5 && first_or_zero(p48, 2) == n);
    assert((r as u16) as u8 == r && (gr as u16) as u8 == gr && (b as u16) as u8 == b);
    let c = Rgb { r, g: gr, b };
    assert(sgr_from(with_color(pen, false, c), t38, 5, dfg, dbg) == with_color(pen, false, c));
    assert(sgr_from(with_color(pen, true, c), t48, 5, dfg, dbg) == with_color(pen, true, c));
    let q = palette_256_spec(n);
    assert(sgr_from(with_color(pen, false, q), p38, 3, dfg, dbg) == with_color(pen, false, q));
    assert(sgr_from(with_color(pen, true, q), p48, 3, dfg, dbg) == with_color(pen, true, q));
}

/// Palette entries 16 to 231 are the 6x6x6 colour cube: entry
/// `16 + 36 r + 6 g + b` has red, green and blue levels `r`, `g`, `b`, where
/// level 0 is 0 and level `v` above it is `55 + 40 v`; entries 0 to 15 are
/// the ANSI colours.
pub proof fn law_color_cube(r: u16, g: u16, b: u16, i: u16)
    requires
        r < 6,
        g < 6,
        b < 6,
        i < 16,
    ensures
        palette_256_spec((16 + 36 * r + 6 * g + b) as u16) == (Rgb {
            r: (if r == 0 { 0 } else { 55 + 40 * r }) as u8,
            g: (if g == 0 { 0 } else { 55 + 40 * g }) as u8,
            b: (if b == 0 { 0 } else { 55 + 40 * b }) as u8,
        }),
        palette_256_spec(i) == ansi_color(i as int),
{
    let v = (36 * r + 6 * g + b) as u16;
    assert(v / 36 == r && (v % 36) / 6 == g && v % 6 == b) by (nonlinear_arith)
        requires v == 36 * r + 6 * g + b, r < 6, g < 6, b < 6;
}

/// The 16 ANSI colours: black, red, green, yellow, blue, magenta, cyan and
/// white, then their bright forms.
pub proof fn law_ansi_palette()
    ensures
        ansi_color(0) == (Rgb { r: 0x1e, g: 0x1e, b: 0x1e }),
        ansi_color(1) == (Rgb { r: 0xcc, g: 0x66, b: 0x66 }),
        ansi_color(2) == (Rgb { r: 0xb5, g: 0xbd, b: 0x68 }),
        ansi_color(3) == (Rgb { r: 0xf0, g: 0xc6, b: 0x74 }),
        ansi_color(4) == (Rgb { r: 0x81, g: 0xa2, b: 0xbe }),
        ansi_color(5) == (Rgb { r: 0xb2, g: 0x94, b: 0xbb }),
        ansi_color(6) == (Rgb { r: 0x8a, g: 0xbe, b: 0xb7 }),
        ansi_color(7) == (Rgb { r: 0xc5, g: 0xc8, b: 0xc6 }),
        ansi_color(8) == (Rgb { r: 0x66, g: 0x66, b: 0x66 }),
        ansi_color(9) == (Rgb { r: 0xd5, g: 0x4e, b: 0x53 }),
        ansi_color(10) == (Rgb { r: 0xb9, g: 0xca, b: 0x4a }),
        ansi_color(11) == (Rgb { r: 0xe7, g: 0xc5, b: 0x47 }),
        ansi_color(12) == (Rgb { r: 0x7a, g: 0xa6, b: 0xda }),
        ansi_color(13) == (Rgb { r: 0xc3, g: 0x97, b: 0xd8 }),
        ansi_color(14) == (Rgb { r: 0x70, g: 0xc0, b: 0xb1 }),
        ansi_color(15) == (Rgb { r: 0xea, g: 0xea, b: 0xea }),
{
}

/// Indices 232 to 255 of the 256-colour palette are the grey ramp 8, 18, ..., 238.
pub proof fn law_grey_ramp(idx: u16)
    requires
        232 <= idx <= 255,
    ensures
        palette_256_spec(idx).r == (idx - 232) * 10 + 8,
        palette_256_spec(idx).r == palette_256_spec(idx).g,
        palette_256_spec(idx).g == palette_256_spec(idx).b,
{
    let v = (idx - 232) as u16;
    assert(vstd::wrapping::u16_specs::wrapping_mul(v, 10) == v * 10) by {
        assert((v as nat * 10 as nat) % 0x1_0000 == v * 10);
    }
}

/// Absolute and vertical cursor positioning (CUP, HVP, CHA, VPA, CUD, CNL)
/// never leaves the screen.
pub proof fn law_positioning_stays_on_screen(g: GridView, ps: Seq<Seq<u16>>, inter: Seq<u8>, c: char, dfg: Rgb, dbg: Rgb, saved: Option<CursorPos>)
    requires
        g.rows >= 1,
        g.cols >= 1,
        c == 'H' || c == 'f' || c == 'G' || c == 'd' || c == 'B' || c == 'E' || c == 'C',
        g.cursor.row < g.rows,
        g.cursor.col < g.cols,
    ensures
        csi_grid(g, saved, ps, inter, c, dfg, dbg).cursor.row < g.rows,
        csi_grid(g, saved, ps, inter, c, dfg, dbg).cursor.col < g.cols,
{
}

/// A stream without ESC goes to the parser byte for byte.
pub proof fn law_plain_stream_goes_to_parser(s: Seq<u8>, i: int)
    requires
        0 <= i <= s.len(),
        forall|k: int| 0 <= k < s.len() ==> s[k] != 0x1b,
    ensures
        pieces_from(s, i) == s.subrange(i, s.len() as int).map_values(|b: u8| StreamPiece::Byte(b)),
    decreases s.len() - i,
{
    if i < s.len() {
        law_plain_stream_goes_to_parser(s, i + 1);
        assert(pieces_from(s, i) =~= s.subrange(i, s.len() as int).map_values(|b: u8| StreamPiece::Byte(b)));
    } else {
        assert(s.subrange(i, s.len() as int).map_values(|b: u8| StreamPiece::Byte(b)) =~= Seq::<StreamPiece>::empty());
    }
}

// ---------------------------------------------------------------------------
// The terminal
// ---------------------------------------------------------------------------

/// Which DCS payload is being collected through `hook`/`put`.
#[derive(Clone, Copy, Debug, PartialEq, Eq, Structural)]
pub enum DcsKind {
    Sixel,
}

pub open spec fn images_view(v: Seq<DecodedImage>) -> Seq<ImageView> {
    v.map_values(|i: DecodedImage| i@)
}

pub struct Term {
    pub grid: Grid,
    pub default_fg: Rgb,
    pub default_bg: Rgb,
    /// Set by OSC 0/2 (window title change) so the UI can update the tab label.
    pub title: Option<String>,
    /// Bell requested (BEL) — the UI can flash the tab or play a sound.
    pub bell: bool,
    /// Images decoded from Sixel/Kitty escape sequences, in arrival order.
    pub images: Vec<DecodedImage>,
    pub dcs_kind: Option<DcsKind>,
    pub dcs_buf: Vec<u8>,
    /// Cursor stashed by DECSC (ESC 7) / SCP (CSI s), restored by their
    /// counterparts.
    pub saved_cursor: Option<CursorPos>,
}

impl Term {
    pub open spec fn saved(&self) -> Option<CursorPos> {
        self.saved_cursor
    }

    pub open spec fn dcs(&self) -> Option<DcsKind> {
        self.dcs_kind
    }

    pub open spec fn dcs_data(&self) -> Seq<u8> {
        self.dcs_buf@
    }

    pub open spec fn wf(&self) -> bool {
        &&& self.grid.wf()
        &&& self.default_fg == default_fg()
        &&& self.default_bg == default_bg()
        &&& (self.saved_cursor matches Some(p) ==> p.row <= MAX_DIM && p.col <= MAX_DIM)
    }

    pub fn new(cols: usize, rows: usize, scrollback_limit: usize) -> (t: Term)
        requires
            cols <= MAX_DIM,
            rows <= MAX_DIM,
        ensures
            t.wf(),
            t.grid@ == fresh_grid(cols, rows, scrollback_limit),
            t.title is None,
            !t.bell,
            t.images@.len() == 0,
            t.dcs() is None,
            t.dcs_data().len() == 0,
            t.saved() is None,
    {
        Term {
            grid: Grid::new(cols, rows, scrollback_limit),
            default_fg: default_fg_color(),
            default_bg: default_bg_color(),
            title: None,
            bell: false,
            images: Vec::new(),
            dcs_kind: None,
            dcs_buf: Vec::new(),
            saved_cursor: None,
        }
    }

    pub fn resize(&mut self, cols: usize, rows: usize)
        requires
            old(self).wf(),
            cols <= MAX_DIM,
            rows <= MAX_DIM,
        ensures
            final(self).wf(),
            final(self).grid@ == old(self).grid@.resize(cols, rows),
            final(self).title == old(self).title,
            final(self).bell == old(self).bell,
            final(self).images@ == old(self).images@,
            final(self).dcs() == old(self).dcs(),
            final(self).dcs_data() == old(self).dcs_data(),
            final(self).saved() == old(self).saved(),
    {
        self.grid.resize(cols, rows);
    }

    /// A printable character: written at the cursor (see `GridView::put_char`).
    /// Returns `false`, changing nothing, when the character would have to
    /// wrap onto a new line of a terminal with no rows, which has no line
    /// to scroll.
    pub fn print(&mut self, c: char) -> (printed: bool)
        requires
            old(self).wf(),
        ensures
            final(self).wf(),
            printed == (old(self).grid.rows >= 1 || !old(self).grid@.wraps(c)),
            printed ==> final(self).grid@ == old(self).grid@.put_char(c),
            !printed ==> final(self).grid@ == old(self).grid@,
            final(self).title == old(self).title,
            final(self).bell == old(self).bell,
            final(self).images@ == old(self).images@,
            final(self).dcs() == old(self).dcs(),
            final(self).dcs_data() == old(self).dcs_data(),
            final(self).saved() == old(self).saved(),
    {
        let w = cell_width_of(c);
        if self.grid.rows == 0 && self.grid.cursor.col + w > self.grid.cols {
            return false;
        }
        self.grid.put_char(c);
        true
    }

    /// A C0 control: LF, CR, BS, BEL and HT (next multiple of 8, clamped to
    /// the last column).
    pub fn execute(&mut self, byte: u8)
        requires
            old(self).wf(),
            byte == 0x0a ==> old(self).grid.rows >= 1,
        ensures
            final(self).wf(),
            final(self).grid@ == (if byte == 0x0a {
                old(self).grid@.linefeed()
            } else if byte == 0x0d {
                old(self).grid@.carriage_return()
            } else if byte == 0x08 {
                old(self).grid@.backspace()
            } else if byte == 0x09 {
                old(self).grid@.with_cursor(CursorPos {
                    col: min_usize(
                        (old(self).grid.cursor.col / 8 + 1) * 8,
                        sat_sub(old(self).grid.cols as int, 1) as int,
                    ),
                    ..old(self).grid.cursor
                })
            } else {
                old(self).grid@
            }),
            final(self).bell == (old(self).bell || byte == 0x07),
            final(self).title == old(self).title,
            final(self).images@ == old(self).images@,
            final(self).dcs() == old(self).dcs(),
            final(self).dcs_data() == old(self).dcs_data(),
            final(self).saved() == old(self).saved(),
    {
        if byte == 0x0a {
            self.grid.linefeed();
        } else if byte == 0x0d {
            self.grid.carriage_return();
        } else if byte == 0x08 {
            self.grid.backspace();
        } else if byte == 0x07 {
            self.bell = true;
        } else if byte == 0x09 {
            let next = (self.grid.cursor.col / 8 + 1) * 8;
            let last = if self.grid.cols > 0 { self.grid.cols - 1 } else { 0 };
            self.grid.cursor.col = if next < last { next } else { last };
        }
    }

    fn sgr(&mut self, params: &Vec<Vec<u16>>)
        requires
            old(self).wf(),
        ensures
            final(self).wf(),
            final(self).grid@ == sgr_grid(old(self).grid@, params.deep_view(), default_fg(), default_bg()),
            final(self).title == old(self).title,
            final(self).bell == old(self).bell,
            final(self).images@ == old(self).images@,
            final(self).dcs() == old(self).dcs(),
            final(self).dcs_data() == old(self).dcs_data(),
            final(self).saved() == old(self).saved(),
    {
        let ghost ps = params.deep_view();
        let ghost target = sgr_from((self.grid.fg, self.grid.bg, self.grid.flags), ps, 0, default_fg(), default_bg());
        let dfg = self.default_fg;
        let dbg = self.default_bg;
        let mut fg = self.grid.fg;
        let mut bg = self.grid.bg;
        let mut flags = self.grid.flags;
        let len = params.len();
        let mut i: usize = 0;
        while i < len
            invariant
                len == params@.len(),
                i <= len,
                ps == params.deep_view(),
                dfg == default_fg(),
                dbg == default_bg(),
                sgr_from((fg, bg, flags), ps, i as int, dfg, dbg) == target,
            decreases len - i,
        {
            let code = first_or_zero_of(params, i);
            if code == 38 || code == 48 {
                if len - i > 1 {
                    let sel = first_or_zero_of(params, i + 1);
                    if sel == 2 {
                        let r = if len - i > 2 { first_or_zero_of(params, i + 2) } else { 0 };
                        let g = if len - i > 3 { first_or_zero_of(params, i + 3) } else { 0 };
                        let b = if len - i > 4 { first_or_zero_of(params, i + 4) } else { 0 };
                        let c = Rgb::new(r as u8, g as u8, b as u8);
                        if code == 48 { bg = c; } else { fg = c; }
                        i = if len - i > 5 { i + 5 } else { len };
                    } else if sel == 5 {
                        let idx = if len - i > 2 { first_or_zero_of(params, i + 2) } else { 0 };
                        let c = palette_256(idx);
                        if code == 48 { bg = c; } else { fg = c; }
                        i = if len - i > 3 { i + 3 } else { len };
                    } else {
                        i = i + 2;
                    }
                } else {
                    i = i + 1;
                }
            } else {
                if code == 0 {
                    fg = dfg;
                    bg = dbg;
                    flags = CellFlags::empty();
                } else if code == 1 {
                    flags = flags.with(BOLD);
                } else if code == 3 {
                    flags = flags.with(ITALIC);
                } else if code == 4 {
                    flags = flags.with(UNDERLINE);
                } else if code == 7 {
                    flags = flags.with(INVERSE);
                } else if code == 9 {
                    flags = flags.with(STRIKEOUT);
                } else if code == 22 {
                    flags = flags.without(BOLD | DIM);
                } else if code == 23 {
                    flags = flags.without(ITALIC);
                } else if code == 24 {
                    flags = flags.without(UNDERLINE);
                } else if code == 27 {
                    flags = flags.without(INVERSE);
                } else if code >= 30 && code <= 37 {
                    fg = ansi_color_of(code - 30);
                } else if code == 39 {
                    fg = dfg;
                } else if code >= 40 && code <= 47 {
                    bg = ansi_color_of(code - 40);
                } else if code == 49 {
                    bg = dbg;
                } else if code >= 90 && code <= 97 {
                    fg = ansi_color_of(code - 90 + 8);
                } else if code >= 100 && code <= 107 {
                    bg = ansi_color_of(code - 100 + 8);
                }
                i = i + 1;
            }
        }
        self.grid.fg = fg;
        self.grid.bg = bg;
        self.grid.flags = flags;
    }

    /// A control sequence (CSI) with parameters `params`, intermediate bytes
    /// `intermediates` and final character `c`.
    pub fn csi_dispatch(&mut self, params: &Vec<Vec<u16>>, intermediates: &[u8], c: char)
        requires
            old(self).wf(),
            csi_needs_screen(old(self).grid@, c),
        ensures
            final(self).wf(),
            final(self).grid@ == csi_grid(
                old(self).grid@,
                old(self).saved(),
                params.deep_view(),
                intermediates@,
                c,
                default_fg(),
                default_bg(),
            ),
            final(self).saved() == (if c == 's' { Some(old(self).grid.cursor) } else { old(self).saved() }),
            final(self).title == old(self).title,
            final(self).bell == old(self).bell,
            final(self).images@ == old(self).images@,
            final(self).dcs() == old(self).dcs(),
            final(self).dcs_data() == old(self).dcs_data(),
    {
        let p1 = param_of(params, 0, 1) as usize;
        let rows = self.grid.rows;
        let cols = self.grid.cols;
        let last_row = if rows > 0 { rows - 1 } else { 0 };
        let last_col = if cols > 0 { cols - 1 } else { 0 };
        if c == 'A' {
            self.grid.cursor.row = if self.grid.cursor.row > p1 { self.grid.cursor.row - p1 } else { 0 };
        } else if c == 'B' {
            let r = self.grid.cursor.row + p1;
            self.grid.cursor.row = if r < rows - 1 { r } else { rows - 1 };
        } else if c == 'C' {
            let k = self.grid.cursor.col + p1;
            self.grid.cursor.col = if k < cols - 1 { k } else { cols - 1 };
        } else if c == 'D' {
            self.grid.cursor.col = if self.grid.cursor.col > p1 { self.grid.cursor.col - p1 } else { 0 };
        } else if c == 'H' || c == 'f' {
            let row = (if p1 > 1 { p1 - 1 } else { 0 }) as usize;
            let p2 = param_of(params, 1, 1) as usize;
            let col = (if p2 > 1 { p2 - 1 } else { 0 }) as usize;
            self.grid.cursor.row = if row < last_row { row } else { last_row };
            self.grid.cursor.col = if col < last_col { col } else { last_col };
        } else if c == 'G' {
            let col = if p1 > 1 { p1 - 1 } else { 0 };
            self.grid.cursor.col = if col < last_col { col } else { last_col };
        } else if c == 'd' {
            let row = if p1 > 1 { p1 - 1 } else { 0 };
            self.grid.cursor.row = if row < last_row { row } else { last_row };
        } else if c == 'E' {
            self.grid.cursor.col = 0;
            let r = self.grid.cursor.row + p1;
            self.grid.cursor.row = if r < rows - 1 { r } else { rows - 1 };
        } else if c == 'F' {
            self.grid.cursor.col = 0;
            self.grid.cursor.row = if self.grid.cursor.row > p1 { self.grid.cursor.row - p1 } else { 0 };
        } else if c == 'J' {
            self.grid.erase_in_display(param_of(params, 0, 0));
        } else if c == 'K' {
            self.grid.erase_in_line(param_of(params, 0, 0));
        } else if c == '@' {
            self.grid.insert_chars(p1);
        } else if c == 'P' {
            self.grid.delete_chars(p1);
        } else if c == 'X' {
            self.grid.erase_chars(p1);
        } else if c == 'L' {
            self.grid.insert_lines(p1);
        } else if c == 'M' {
            self.grid.delete_lines(p1);
        } else if c == 's' {
            self.saved_cursor = Some(self.grid.cursor);
        } else if c == 'u' {
            match self.saved_cursor {
                Some(pos) => {
                    self.grid.cursor = pos;
                },
                None => {},
            }
        } else if (c == 'h' || c == 'l') && intermediates.len() > 0 && intermediates[0] == 0x3f {
            if param_of(params, 0, 0) == 25 {
                self.grid.cursor_visible = c == 'h';
            }
        } else if c == 'm' {
            self.sgr(params);
        }
    }

    /// An escape sequence: RI (`ESC M`), DECSC (`ESC 7`) and DECRC (`ESC 8`).
    pub fn esc_dispatch(&mut self, byte: u8)
        requires
            old(self).wf(),
        ensures
            final(self).wf(),
            final(self).grid@ == (if byte == 0x4d {
                old(self).grid@.reverse_index()
            } else if byte == 0x38 {
                match old(self).saved() {
                    Some(pos) => old(self).grid@.with_cursor(pos),
                    None => old(self).grid@,
                }
            } else {
                old(self).grid@
            }),
            final(self).saved() == (if byte == 0x37 { Some(old(self).grid.cursor) } else { old(self).saved() }),
            final(self).title == old(self).title,
            final(self).bell == old(self).bell,
            final(self).images@ == old(self).images@,
            final(self).dcs() == old(self).dcs(),
            final(self).dcs_data() == old(self).dcs_data(),
    {
        if byte == 0x4d {
            self.grid.reverse_index();
        } else if byte == 0x37 {
            self.saved_cursor = Some(self.grid.cursor);
        } else if byte == 0x38 {
            match self.saved_cursor {
                Some(pos) => {
                    self.grid.cursor = pos;
                },
                None => {},
            }
        }
    }

    /// DCS introducer: a Sixel image (final character `q`) starts being
    /// collected; any other DCS is dropped.
    pub fn hook(&mut self, action: char)
        requires
            old(self).wf(),
        ensures
            final(self).wf(),
            final(self).dcs() == (if action == 'q' { Some(DcsKind::Sixel) } else { None }),
            final(self).dcs_data().len() == 0,
            final(self).grid@ == old(self).grid@,
            final(self).title == old(self).title,
            final(self).bell == old(self).bell,
            final(self).images@ == old(self).images@,
            final(self).saved() == old(self).saved(),
    {
        self.dcs_buf.clear();
        self.dcs_kind = if action == 'q' { Some(DcsKind::Sixel) } else { None };
    }

    /// A byte of a DCS payload, kept while one is being collected.
    pub fn put(&mut self, byte: u8)
        requires
            old(self).wf(),
        ensures
            final(self).wf(),
            final(self).dcs_data() == (if old(self).dcs() is Some {
                old(self).dcs_data().push(byte)
            } else {
                old(self).dcs_data()
            }),
            final(self).dcs() == old(self).dcs(),
            final(self).grid@ == old(self).grid@,
            final(self).title == old(self).title,
            final(self).bell == old(self).bell,
            final(self).images@ == old(self).images@,
            final(self).saved() == old(self).saved(),
    {
        if self.dcs_kind.is_some() {
            self.dcs_buf.push(byte);
        }
    }

    /// End of a DCS string: a collected Sixel payload is decoded and, when it
    /// decodes, its image is added, anchored at the cursor.
    pub fn unhook(&mut self)
        requires
            old(self).wf(),
        ensures
            final(self).wf(),
            images_view(final(self).images@) == (if old(self).dcs() == Some(DcsKind::Sixel) {
                match sixel_decode(old(self).dcs_data(), old(self).grid.cursor.col, old(self).grid.cursor.row) {
                    Ok(img) => images_view(old(self).images@).push(img),
                    Err(_) => images_view(old(self).images@),
                }
            } else {
                images_view(old(self).images@)
            }),
            final(self).dcs() is None,
            final(self).dcs_data().len() == 0,
            final(self).grid@ == old(self).grid@,
            final(self).title == old(self).title,
            final(self).bell == old(self).bell,
            final(self).saved() == old(self).saved(),
    {
        let kind = self.dcs_kind;
        self.dcs_kind = None;
        let ghost before = self.images@;
        match kind {
            Some(DcsKind::Sixel) => {
                let col = self.grid.cursor.col;
                let row = self.grid.cursor.row;
                let data = self.dcs_buf.as_slice();
                assert(data@ == old(self).dcs_data());
                let r = decode_sixel(data, col, row);
                match r {
                    Ok(img) => {
                        assert(sixel_decode(old(self).dcs_data(), col, row) == Ok::<ImageView, ImageError>(img@));
                        self.images.push(img);
                        assert(images_view(self.images@) =~= images_view(before).push(img@));
                    },
                    Err(e) => {
                        assert(sixel_decode(old(self).dcs_data(), col, row) == Err::<ImageView, ImageError>(e));
                    },
                }
                assert(old(self).dcs() == Some(DcsKind::Sixel));
            },
            None => {
                assert(old(self).dcs() != Some(DcsKind::Sixel));
            },
        }
        self.dcs_buf.clear();
    }

    /// An operating system command: OSC 0 and OSC 2 set the window title.
    pub fn osc_dispatch(&mut self, params: &Vec<Vec<u8>>)
        requires
            old(self).wf(),
        ensures
            final(self).wf(),
            (match osc_title(params.deep_view()) {
                Some(t) => final(self).title matches Some(s) && s@ == t,
                None => final(self).title == old(self).title,
            }),
            final(self).grid@ == old(self).grid@,
            final(self).bell == old(self).bell,
            final(self).images@ == old(self).images@,
            final(self).dcs() == old(self).dcs(),
            final(self).dcs_data() == old(self).dcs_data(),
            final(self).saved() == old(self).saved(),
    {
        let ghost ps = params.deep_view();
        if params.len() >= 1 {
            let id = &params[0];
            let is_title = id.len() == 1 && (id[0] == 0x30 || id[0] == 0x32);
            proof {
                assert(ps[0] == params@[0]@);
                if is_title {
                    assert(ps[0] == seq![id[0]]);
                }
                if ps[0] == seq![0x30u8] || ps[0] == seq![0x32u8] {
                    assert(id@.len() == 1);
                }
            }
            if is_title {
                let mut joined: Vec<u8> = Vec::new();
                let mut k: usize = 1;
                while k < params.len()
                    invariant
                        1 <= k <= params@.len(),
                        ps == params.deep_view(),
                        joined@ == concat_all(ps.subrange(1, k as int)),
                    decreases params@.len() - k,
                {
                    let part = &params[k];
                    let mut j: usize = 0;
                    let ghost j0 = joined@;
                    while j < part.len()
                        invariant
                            j <= part@.len(),
                            joined@ == j0 + part@.take(j as int),
                        decreases part@.len() - j,
                    {
                        joined.push(part[j]);
                        assert(part@.take(j + 1) =~= part@.take(j as int).push(part@[j as int]));
                        j = j + 1;
                    }
                    proof {
                        assert(part@.take(j as int) =~= part@);
                        assert(ps.subrange(1, k + 1).drop_last() =~= ps.subrange(1, k as int));
                        assert(ps.subrange(1, k + 1).last() == part@);
                    }
                    k = k + 1;
                }
                proof {
                    assert(ps.subrange(1, k as int) =~= ps.subrange(1, ps.len() as int));
                }
                match string_from_utf8(joined) {
                    Some(s) => {
                        self.title = Some(s);
                    },
                    None => {},
                }
            }
        }
    }

    /// A Kitty graphics APC payload (the bytes after `ESC _ G`): when it is
    /// UTF-8 and decodes, the image is added, anchored at the cursor.
    /// Returns `false`, changing nothing, for a transmission whose pixel
    /// buffer would overflow (see `kitty_fits`).
    pub fn handle_kitty_apc(&mut self, payload: &[u8]) -> (handled: bool)
        requires
            old(self).wf(),
        ensures
            final(self).wf(),
            ({
                let p = payload@;
                let semi = find_byte(p, 0, p.len() as int, 0x3b);
                let ctrl = p.subrange(0, semi);
                let data = if semi < p.len() { p.subrange(semi + 1, p.len() as int) } else { Seq::empty() };
                let col = old(self).grid.cursor.col;
                let row = old(self).grid.cursor.row;
                &&& handled == (!valid_utf8(p) || kitty_fits(ctrl, data))
                &&& images_view(final(self).images@) == (if valid_utf8(p) && kitty_fits(ctrl, data) {
                    match kitty_decode(ctrl, data, col, row) {
                        Ok(img) => images_view(old(self).images@).push(img),
                        Err(_) => images_view(old(self).images@),
                    }
                } else {
                    images_view(old(self).images@)
                })
            }),
            final(self).grid@ == old(self).grid@,
            final(self).title == old(self).title,
            final(self).bell == old(self).bell,
            final(self).dcs() == old(self).dcs(),
            final(self).dcs_data() == old(self).dcs_data(),
            final(self).saved() == old(self).saved(),
    {
        if !is_utf8(payload) {
            return true;
        }
        let col = self.grid.cursor.col;
        let row = self.grid.cursor.row;
        assert(payload@.subrange(0, payload@.len() as int) =~= payload@);
        match decode_kitty_apc(payload, 0, payload.len(), col, row) {
            None => false,
            Some(Ok(img)) => {
                let ghost before = self.images@;
                self.images.push(img);
                assert(images_view(self.images@) =~= images_view(before).push(img@));
                true
            },
            Some(Err(_)) => true,
        }
    }
}

} // verus!
