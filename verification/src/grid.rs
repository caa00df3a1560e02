//! The terminal grid: a fixed-size visible viewport backed by a scrollback
//! buffer. Rows are kept in `VecDeque<Vec<Cell>>` so that scrolling pushes
//! and pops at either end instead of copying the whole grid.

use std::collections::VecDeque;
use vstd::prelude::*;

use crate::cell::{blank_cell, Cell, CellFlags, Rgb, WIDE_CHAR, WIDE_SPACER};
use crate::cell::{default_bg, default_bg_color, default_fg, default_fg_color};
use crate::text::string_from_chars;

verus! {

/// Bound on grid dimensions and cursor coordinates. A row of this many
/// cells could not be allocated, so no grid the program can build exceeds it.
pub const MAX_DIM: usize = usize::MAX / 16;

#[derive(Clone, Copy, Debug, PartialEq, Eq, Structural)]
pub struct CursorPos {
    pub row: usize,
    pub col: usize,
}

impl Default for CursorPos {
    fn default() -> (p: CursorPos)
        ensures
            p == (CursorPos { row: 0, col: 0 }),
    {
        CursorPos { row: 0, col: 0 }
    }
}

/// Display width of a character in columns, or `None` for a control character.
pub uninterp spec fn unicode_width(c: char) -> Option<usize>;

/// Trusted: wraps `unicode_width::UnicodeWidthChar::width`. The result is the
/// crate's table lookup, named `unicode_width`. The clauses beside the name are
/// what `tables::single_char_width` shows directly: code points below U+0020
/// and from U+007F up to U+00A0 are control characters (`None`), U+0020 to
/// U+007E are one column wide, and no table entry exceeds three columns
/// (U+17D8 is the one width-3 entry).
#[verifier::external_body]
fn char_width(c: char) -> (w: Option<usize>)
    ensures
        w == unicode_width(c),
        w is None <==> ((c as u32) < 0x20 || (0x7f <= (c as u32) && (c as u32) < 0xa0)),
        (0x20 <= (c as u32) && (c as u32) < 0x7f) ==> w == Some(1usize),
        w matches Some(n) ==> n <= 3,
{
    unicode_width::UnicodeWidthChar::width(c)
}

/// Columns a character of display width `w` (`None` for a control
/// character) advances the cursor by: control and zero-width characters
/// count as one column.
pub open spec fn advance_of(w: Option<usize>) -> usize {
    match w {
        Some(n) => if n == 0 { 1 } else { n },
        None => 1,
    }
}

/// Columns a printed character advances the cursor by.
pub open spec fn cell_width(c: char) -> usize {
    advance_of(unicode_width(c))
}

pub fn cell_width_of(c: char) -> (w: usize)
    ensures
        w == cell_width(c),
        1 <= w <= 3,
        (0x20 <= (c as u32) && (c as u32) < 0x7f) ==> w == 1,
{
    let w = match char_width(c) {
        Some(n) => n,
        None => 1,
    };
    if w < 1 {
        1
    } else {
        w
    }
}

/// `n` blank cells.
pub open spec fn blank_row(n: nat) -> Seq<Cell> {
    Seq::new(n, |i: int| blank_cell())
}

/// The last `limit` elements of `s` (all of `s` when it is shorter).
pub open spec fn keep_last<T>(s: Seq<T>, limit: nat) -> Seq<T> {
    if s.len() > limit {
        s.subrange(s.len() - limit, s.len() as int)
    } else {
        s
    }
}

/// A row truncated or padded with blank cells to `n` cells.
pub open spec fn resize_row(r: Seq<Cell>, n: nat) -> Seq<Cell> {
    if n <= r.len() {
        r.take(n as int)
    } else {
        r + blank_row((n - r.len()) as nat)
    }
}

/// The cells of `r` with positions in `[from, to)` set blank.
pub open spec fn clear_span(r: Seq<Cell>, from: int, to: int) -> Seq<Cell> {
    Seq::new(r.len(), |j: int| if from <= j && j < to { blank_cell() } else { r[j] })
}

/// The rows of a deque of rows.
pub open spec fn lines_of(d: VecDeque<Vec<Cell>>) -> Seq<Seq<Cell>> {
    d@.map_values(|r: Vec<Cell>| r@)
}

/// The characters of a row.
pub open spec fn row_chars(r: Seq<Cell>) -> Seq<char> {
    r.map_values(|c: Cell| c.c)
}

pub struct GridView {
    pub cols: usize,
    pub rows: usize,
    pub scrollback_limit: usize,
    pub scrollback: Seq<Seq<Cell>>,
    pub visible: Seq<Seq<Cell>>,
    pub cursor: CursorPos,
    pub cursor_visible: bool,
    pub fg: Rgb,
    pub bg: Rgb,
    pub flags: CellFlags,
    pub scroll_offset: usize,
}

pub struct Grid {
    pub cols: usize,
    pub rows: usize,
    pub scrollback_limit: usize,
    /// Lines that have scrolled off the top of the viewport, oldest first.
    pub scrollback: VecDeque<Vec<Cell>>,
    /// The visible viewport, `rows` long.
    pub visible: VecDeque<Vec<Cell>>,
    pub cursor: CursorPos,
    pub cursor_visible: bool,
    pub fg: Rgb,
    pub bg: Rgb,
    pub flags: CellFlags,
    /// Offset into scrollback when the user has scrolled up (0 = pinned to bottom).
    pub scroll_offset: usize,
}

impl View for Grid {
    type V = GridView;

    open spec fn view(&self) -> GridView {
        GridView {
            cols: self.cols,
            rows: self.rows,
            scrollback_limit: self.scrollback_limit,
            scrollback: lines_of(self.scrollback),
            visible: lines_of(self.visible),
            cursor: self.cursor,
            cursor_visible: self.cursor_visible,
            fg: self.fg,
            bg: self.bg,
            flags: self.flags,
            scroll_offset: self.scroll_offset,
        }
    }
}

/// A fresh grid: blank rows, empty scrollback, cursor at the origin, default pen.
pub open spec fn fresh_grid(cols: usize, rows: usize, scrollback_limit: usize) -> GridView {
    GridView {
        cols,
        rows,
        scrollback_limit,
        scrollback: Seq::empty(),
        visible: Seq::new(rows as nat, |i: int| blank_row(cols as nat)),
        cursor: CursorPos { row: 0, col: 0 },
        cursor_visible: true,
        fg: default_fg(),
        bg: default_bg(),
        flags: CellFlags { bits: 0 },
        scroll_offset: 0,
    }
}

impl GridView {
    /// The shape the grid keeps: `rows` rows of `cols` cells each, a
    /// scrollback no longer than its limit, and coordinates within `MAX_DIM`.
    pub open spec fn wf(self) -> bool {
        &&& self.visible.len() == self.rows
        &&& forall|i: int| 0 <= i < self.rows ==> #[trigger] self.visible[i].len() == self.cols
        &&& self.scrollback.len() <= self.scrollback_limit
        &&& self.cols <= MAX_DIM
        &&& self.rows <= MAX_DIM
        &&& self.cursor.row <= MAX_DIM
        &&& self.cursor.col <= MAX_DIM
    }

    pub open spec fn with_cursor(self, cursor: CursorPos) -> GridView {
        GridView { cursor, ..self }
    }

    pub open spec fn with_visible(self, visible: Seq<Seq<Cell>>) -> GridView {
        GridView { visible, ..self }
    }

    /// The top row scrolls into the scrollback and a blank row enters at the bottom.
    pub open spec fn newline(self) -> GridView {
        GridView {
            scrollback: keep_last(self.scrollback.push(self.visible[0]), self.scrollback_limit as nat),
            visible: self.visible.drop_first().push(blank_row(self.cols as nat)),
            ..self
        }
    }

    pub open spec fn carriage_return(self) -> GridView {
        self.with_cursor(CursorPos { col: 0, ..self.cursor })
    }

    pub open spec fn linefeed(self) -> GridView {
        if self.cursor.row + 1 >= self.rows {
            self.newline()
        } else {
            self.with_cursor(CursorPos { row: (self.cursor.row + 1) as usize, ..self.cursor })
        }
    }

    pub open spec fn backspace(self) -> GridView {
        if self.cursor.col > 0 {
            self.with_cursor(CursorPos { col: (self.cursor.col - 1) as usize, ..self.cursor })
        } else {
            self
        }
    }

    /// Cells `[from, to)` of visible row `row` set blank (nothing when the row
    /// is off the screen).
    pub open spec fn clear_cells(self, row: int, from: int, to: int) -> GridView {
        if 0 <= row < self.visible.len() {
            self.with_visible(self.visible.update(row, clear_span(self.visible[row], from, to)))
        } else {
            self
        }
    }

    /// Whether printing a character `w` columns wide at the cursor wraps to
    /// the next line first.
    pub open spec fn wraps_by(self, w: usize) -> bool {
        self.cursor.col + w > self.cols
    }

    /// Whether printing `c` at the cursor wraps to the next line first.
    pub open spec fn wraps(self, c: char) -> bool {
        self.wraps_by(cell_width(c))
    }

    /// Writes `c` at the cursor in the current pen, as a character `w` columns
    /// wide (a double-width one also gets its spacer), if the cursor is on
    /// the screen.
    pub open spec fn write_cell(self, c: char, w: usize) -> GridView {
        let row = self.cursor.row as int;
        let col = self.cursor.col as int;
        if 0 <= row < self.visible.len() && col < self.visible[row].len() {
            let line = self.visible[row];
            let flags = if w == 2 { CellFlags { bits: self.flags.bits | WIDE_CHAR } } else { self.flags };
            let l1 = line.update(col, Cell { c, fg: self.fg, bg: self.bg, flags });
            let l2 = if w == 2 && col + 1 < line.len() {
                l1.update(col + 1, Cell { c: ' ', fg: self.fg, bg: self.bg, flags: CellFlags { bits: WIDE_SPACER } })
            } else {
                l1
            };
            self.with_visible(self.visible.update(row, l2))
        } else {
            self
        }
    }

    pub open spec fn write_at_cursor(self, c: char) -> GridView {
        self.write_cell(c, cell_width(c))
    }

    /// Printing `c` as a character `w` columns wide: wrap to a new line when
    /// it does not fit, write it, and advance the cursor by `w`.
    pub open spec fn put_wide(self, c: char, w: usize) -> GridView {
        let g1 = if self.wraps_by(w) { self.carriage_return().linefeed() } else { self };
        let g2 = g1.write_cell(c, w);
        g2.with_cursor(CursorPos { col: (g1.cursor.col + w) as usize, ..g1.cursor })
    }

    /// Printing `c` at its display width.
    pub open spec fn put_char(self, c: char) -> GridView {
        self.put_wide(c, cell_width(c))
    }

    /// The span of visible row `i` that ED (erase in display) with `mode` blanks.
    pub open spec fn display_span(self, mode: u16, i: int) -> (int, int) {
        let r = self.cursor.row as int;
        let c = self.cursor.col as int;
        if mode == 0 {
            if i == r { (c, usize::MAX as int) } else if i > r { (0, usize::MAX as int) } else { (0, 0) }
        } else if mode == 1 {
            if i < r { (0, usize::MAX as int) } else if i == r { (0, c + 1) } else { (0, 0) }
        } else if mode == 2 || mode == 3 {
            (0, usize::MAX as int)
        } else {
            (0, 0)
        }
    }

    pub open spec fn erase_in_display(self, mode: u16) -> GridView {
        self.with_visible(Seq::new(self.visible.len(), |i: int|
            clear_span(self.visible[i], self.display_span(mode, i).0, self.display_span(mode, i).1)))
    }

    /// The span of the cursor row that EL (erase in line) with `mode` blanks.
    pub open spec fn line_span(self, mode: u16) -> (int, int) {
        let c = self.cursor.col as int;
        if mode == 0 {
            (c, usize::MAX as int)
        } else if mode == 1 {
            (0, c + 1)
        } else if mode == 2 {
            (0, usize::MAX as int)
        } else {
            (0, 0)
        }
    }

    pub open spec fn erase_in_line(self, mode: u16) -> GridView {
        self.clear_cells(self.cursor.row as int, self.line_span(mode).0, self.line_span(mode).1)
    }

    /// The visible rows after a resize: each row truncated or padded to `cols`,
    /// then blank rows added at the bottom or rows taken off the top.
    pub open spec fn resized_rows(self, cols: usize) -> Seq<Seq<Cell>> {
        Seq::new(self.visible.len(), |i: int| resize_row(self.visible[i], cols as nat))
    }

    pub open spec fn resize(self, cols: usize, rows: usize) -> GridView {
        let padded = self.resized_rows(cols);
        let n = padded.len();
        GridView {
            cols,
            rows,
            visible: if n < rows {
                padded + Seq::new((rows - n) as nat, |i: int| blank_row(cols as nat))
            } else {
                padded.subrange(n - rows, n as int)
            },
            scrollback: if n > rows {
                keep_last(self.scrollback + padded.take(n - rows), self.scrollback_limit as nat)
            } else {
                self.scrollback
            },
            cursor: CursorPos {
                row: if self.cursor.row < rows { self.cursor.row } else if rows == 0 { 0 } else { (rows - 1) as usize },
                col: if self.cursor.col < cols { self.cursor.col } else if cols == 0 { 0 } else { (cols - 1) as usize },
            },
            ..self
        }
    }

    /// ICH: `n` blank cells inserted at the cursor; the cells after it move
    /// right and those pushed past the right edge are lost.
    pub open spec fn insert_chars(self, n: usize) -> GridView {
        let row = self.cursor.row as int;
        let col = self.cursor.col as int;
        if 0 <= row < self.visible.len() && col < self.visible[row].len() {
            let line = self.visible[row];
            let k = if n < line.len() - col { n as int } else { line.len() - col };
            self.with_visible(self.visible.update(
                row,
                line.take(col) + blank_row(k as nat) + line.subrange(col, line.len() - k),
            ))
        } else {
            self
        }
    }

    /// DCH: `n` cells deleted at the cursor; the cells after them move left
    /// and blank cells fill the right edge.
    pub open spec fn delete_chars(self, n: usize) -> GridView {
        let row = self.cursor.row as int;
        let col = self.cursor.col as int;
        if 0 <= row < self.visible.len() && col < self.visible[row].len() {
            let line = self.visible[row];
            let k = if n < line.len() - col { n as int } else { line.len() - col };
            self.with_visible(self.visible.update(
                row,
                line.take(col) + line.subrange(col + k, line.len() as int) + blank_row(k as nat),
            ))
        } else {
            self
        }
    }

    /// ECH: `n` cells from the cursor set blank, nothing moves.
    pub open spec fn erase_chars(self, n: usize) -> GridView {
        self.clear_cells(self.cursor.row as int, self.cursor.col as int, self.cursor.col + n)
    }

    /// IL: `n` blank rows inserted at the cursor row; the rows below move
    /// down and those pushed past the bottom are lost.
    pub open spec fn insert_lines(self, n: usize) -> GridView {
        let row = self.cursor.row as int;
        let len = self.visible.len();
        if 0 <= row < len {
            let k = if n < len - row { n as int } else { len - row };
            self.with_visible(
                self.visible.take(row) + Seq::new(k as nat, |i: int| blank_row(self.cols as nat))
                    + self.visible.subrange(row, len - k),
            )
        } else {
            self
        }
    }

    /// DL: `n` rows deleted at the cursor row; the rows below move up and
    /// blank rows fill the bottom.
    pub open spec fn delete_lines(self, n: usize) -> GridView {
        let row = self.cursor.row as int;
        let len = self.visible.len();
        if 0 <= row < len {
            let k = if n < len - row { n as int } else { len - row };
            self.with_visible(
                self.visible.take(row) + self.visible.subrange(row + k, len as int)
                    + Seq::new(k as nat, |i: int| blank_row(self.cols as nat)),
            )
        } else {
            self
        }
    }

    /// RI: the cursor moves up a row; on the top row the screen scrolls down
    /// instead (a blank row enters at the top, the bottom row is lost).
    pub open spec fn reverse_index(self) -> GridView {
        if self.cursor.row == 0 {
            self.insert_lines(1)
        } else {
            self.with_cursor(CursorPos { row: (self.cursor.row - 1) as usize, ..self.cursor })
        }
    }
}

/// Appending one line to a trimmed scrollback trims like appending it to the untrimmed one.
pub proof fn lemma_keep_last_push<T>(s: Seq<T>, x: T, limit: nat)
    ensures
        keep_last(keep_last(s, limit).push(x), limit) == keep_last(s.push(x), limit),
{
    let k = keep_last(s, limit);
    if s.len() > limit {
        assert(keep_last(k.push(x), limit) =~= keep_last(s.push(x), limit));
    }
}

fn blank_line(cols: usize) -> (line: Vec<Cell>)
    ensures
        line@ == blank_row(cols as nat),
{
    let mut line: Vec<Cell> = Vec::new();
    let mut i: usize = 0;
    while i < cols
        invariant
            i <= cols,
            line@ =~= blank_row(i as nat),
        decreases cols - i,
    {
        line.push(Cell::blank());
        i = i + 1;
    }
    line
}

proof fn lemma_lines_push(d: VecDeque<Vec<Cell>>, d2: VecDeque<Vec<Cell>>, r: Vec<Cell>)
    requires
        d2@ == d@.push(r),
    ensures
        lines_of(d2) == lines_of(d).push(r@),
{
    assert(lines_of(d2) =~= lines_of(d).push(r@));
}

/// Trimming the scrollback as lines arrive keeps exactly what trimming once
/// at the end would: the last `limit` lines, oldest first.
pub proof fn law_scrollback_keeps_latest(s: Seq<Seq<Cell>>, lines: Seq<Seq<Cell>>, limit: nat)
    ensures
        keep_last(keep_last(s, limit) + lines, limit) == keep_last(s + lines, limit),
    decreases lines.len(),
{
    if lines.len() > 0 {
        let init = lines.drop_last();
        let x = lines.last();
        law_scrollback_keeps_latest(s, init, limit);
        lemma_keep_last_push(keep_last(s, limit) + init, x, limit);
        lemma_keep_last_push(s + init, x, limit);
        assert(keep_last(s, limit) + lines =~= (keep_last(s, limit) + init).push(x));
        assert(s + lines =~= (s + init).push(x));
    } else {
        assert(keep_last(s, limit) + lines =~= keep_last(s, limit));
        assert(s + lines =~= s);
        if s.len() > limit {
            assert(keep_last(keep_last(s, limit), limit) =~= keep_last(s, limit));
        }
    }
}

/// A resize leaves the cursor on the resized screen.
pub proof fn law_resize_keeps_cursor_on_screen(g: GridView, cols: usize, rows: usize)
    ensures
        rows > 0 ==> g.resize(cols, rows).cursor.row < rows,
        cols > 0 ==> g.resize(cols, rows).cursor.col < cols,
{
}

/// After a resize to `cols` x `rows` the grid has exactly `rows` rows of
/// `cols` cells, the cursor is clamped into the new size, and the scrollback
/// stays within its limit. No bound on the dimensions is needed.
pub proof fn law_resize_shape(g: GridView, cols: usize, rows: usize)
    requires
        g.scrollback.len() <= g.scrollback_limit,
    ensures
        g.resize(cols, rows).cols == cols,
        g.resize(cols, rows).rows == rows,
        g.resize(cols, rows).visible.len() == rows,
        forall|i: int| 0 <= i < rows ==> #[trigger] g.resize(cols, rows).visible[i].len() == cols,
        g.resize(cols, rows).cursor.row == (if g.cursor.row < rows { g.cursor.row as int } else if rows == 0 { 0 } else { rows - 1 }),
        g.resize(cols, rows).cursor.col == (if g.cursor.col < cols { g.cursor.col as int } else if cols == 0 { 0 } else { cols - 1 }),
        g.resize(cols, rows).scrollback.len() <= g.scrollback_limit,
{
    let r = g.resize(cols, rows);
    let padded = g.resized_rows(cols);
    let n = padded.len();
    assert forall|i: int| 0 <= i < rows implies #[trigger] r.visible[i].len() == cols by {
        if n < rows {
            if i >= n {
                assert(r.visible[i] == blank_row(cols as nat));
            } else {
                assert(r.visible[i] == resize_row(g.visible[i], cols as nat));
            }
        } else {
            assert(r.visible[i] == padded[n - rows + i]);
        }
    }
}

/// Printing a character `w` columns wide wraps exactly when it does not fit:
/// when `cursor.col + w <= cols` it is written at the cursor, which then
/// moves `w` columns right on the same row (so never past `cols`) and nothing
/// scrolls; otherwise it goes to column 0 of the next row (the same row,
/// after a scroll, on the bottom row) and the cursor ends `w` columns in.
pub proof fn law_put_char_wraps_exactly(g: GridView, c: char, w: usize)
    requires
        g.wf(),
        1 <= w,
        g.cursor.col + w <= MAX_DIM,
    ensures
        g.cursor.col + w <= g.cols ==> {
            let r = g.put_wide(c, w);
            &&& r.cursor == (CursorPos { row: g.cursor.row, col: (g.cursor.col + w) as usize })
            &&& r.cursor.col <= g.cols
            &&& r.scrollback == g.scrollback
            &&& (g.cursor.row < g.rows && g.cursor.col < g.cols ==> r.visible[g.cursor.row as int][g.cursor.col as int].c == c)
        },
        g.cursor.col + w > g.cols && g.rows >= 1 ==> {
            let r = g.put_wide(c, w);
            let row = if g.cursor.row + 1 >= g.rows { g.cursor.row as int } else { g.cursor.row + 1 };
            &&& r.cursor == (CursorPos { row: row as usize, col: w })
            &&& (g.cursor.row < g.rows && g.cols >= 1 ==> r.visible[row][0].c == c)
        },
{
    if g.cursor.col + w <= g.cols {
        let row = g.cursor.row as int;
        let col = g.cursor.col as int;
        if row < g.rows && col < g.cols {
            assert(g.visible[row].len() == g.cols);
        }
    } else if g.rows >= 1 {
        let g1 = g.carriage_return().linefeed();
        let row = if g.cursor.row + 1 >= g.rows { g.cursor.row as int } else { g.cursor.row + 1 };
        assert(g1.cursor.row == row && g1.cursor.col == 0);
        if g.cursor.row < g.rows && g.cols >= 1 {
            if g.cursor.row + 1 >= g.rows {
                assert(g1.visible.len() == g.rows);
                if row < g.rows - 1 {
                    assert(g1.visible[row] == g.visible[row + 1]);
                } else {
                    assert(g1.visible[row] == blank_row(g.cols as nat));
                }
            } else {
                assert(g1.visible[row] == g.visible[row]);
            }
            assert(g1.visible[row].len() == g.cols);
        }
    }
}

/// ED 2 (erase the whole display) leaves every visible cell blank.
pub proof fn law_erase_display_blanks_screen(g: GridView)
    requires
        g.wf(),
    ensures
        forall|i: int, j: int| 0 <= i < g.rows && 0 <= j < g.cols ==> #[trigger] g.erase_in_display(2).visible[i][j] == blank_cell(),
{
}

/// A line feed on the bottom row scrolls exactly one row into the scrollback
/// (while the scrollback is below its limit) and keeps the screen height.
pub proof fn law_linefeed_at_bottom_scrolls(g: GridView)
    requires
        g.wf(),
        g.rows >= 1,
        g.cursor.row + 1 >= g.rows,
        g.scrollback.len() < g.scrollback_limit,
    ensures
        g.linefeed().scrollback == g.scrollback.push(g.visible[0]),
        g.linefeed().visible.len() == g.rows,
        g.linefeed().visible.last() == blank_row(g.cols as nat),
{
}

impl Grid {
    pub open spec fn wf(&self) -> bool {
        self@.wf()
    }

    pub fn new(cols: usize, rows: usize, scrollback_limit: usize) -> (g: Grid)
        requires
            cols <= MAX_DIM,
            rows <= MAX_DIM,
        ensures
            g.wf(),
            g@ == fresh_grid(cols, rows, scrollback_limit),
    {
        let mut visible: VecDeque<Vec<Cell>> = VecDeque::with_capacity(rows);
        let mut i: usize = 0;
        while i < rows
            invariant
                i <= rows,
                lines_of(visible) =~= Seq::new(i as nat, |k: int| blank_row(cols as nat)),
            decreases rows - i,
        {
            let ghost before = visible;
            let line = blank_line(cols);
            visible.push_back(line);
            proof {
                lemma_lines_push(before, visible, line);
            }
            i = i + 1;
        }
        let cap = if scrollback_limit < 4096 { scrollback_limit } else { 4096 };
        let scrollback: VecDeque<Vec<Cell>> = VecDeque::with_capacity(cap);
        assert(lines_of(scrollback) =~= Seq::<Seq<Cell>>::empty());
        Grid {
            cols,
            rows,
            scrollback_limit,
            scrollback,
            visible,
            cursor: CursorPos { row: 0, col: 0 },
            cursor_visible: true,
            fg: default_fg_color(),
            bg: default_bg_color(),
            flags: CellFlags::empty(),
            scroll_offset: 0,
        }
    }

    fn push_scrollback(&mut self, line: Vec<Cell>)
        requires
            old(self)@.scrollback.len() <= old(self).scrollback_limit,
        ensures
            final(self)@ == (GridView {
                scrollback: keep_last(old(self)@.scrollback.push(line@), old(self).scrollback_limit as nat),
                ..old(self)@
            }),
    {
        let ghost before = self.scrollback;
        self.scrollback.push_back(line);
        proof {
            lemma_lines_push(before, self.scrollback, line);
        }
        if self.scrollback.len() > self.scrollback_limit {
            let ghost mid = self.scrollback;
            let _ = self.scrollback.pop_front();
            assert(lines_of(self.scrollback) =~= lines_of(mid).drop_first());
        }
        assert(lines_of(self.scrollback) =~= keep_last(
            lines_of(before).push(line@),
            self.scrollback_limit as nat,
        ));
    }

    /// Takes visible row `row` out of the deque (the caller puts it back).
    fn take_row(&mut self, row: usize) -> (line: Vec<Cell>)
        requires
            row < old(self).visible@.len(),
        ensures
            line@ == lines_of(old(self).visible)[row as int],
            lines_of(final(self).visible) == lines_of(old(self).visible).remove(row as int),
            final(self).visible@.len() + 1 == old(self).visible@.len(),
            final(self).scrollback == old(self).scrollback,
            final(self).cols == old(self).cols,
            final(self).rows == old(self).rows,
            final(self).scrollback_limit == old(self).scrollback_limit,
            final(self).cursor == old(self).cursor,
            final(self).cursor_visible == old(self).cursor_visible,
            final(self).fg == old(self).fg,
            final(self).bg == old(self).bg,
            final(self).flags == old(self).flags,
            final(self).scroll_offset == old(self).scroll_offset,
    {
        let ghost before = self.visible;
        let line = match self.visible.remove(row) {
            Some(line) => line,
            None => Vec::new(),
        };
        assert(lines_of(self.visible) =~= lines_of(before).remove(row as int));
        line
    }

    /// Puts a row back at position `row`, replacing what `take_row` took out.
    fn put_row(&mut self, row: usize, line: Vec<Cell>, Ghost(orig): Ghost<GridView>)
        requires
            row < orig.visible.len(),
            old(self).visible@.len() + 1 == orig.visible.len(),
            lines_of(old(self).visible) == orig.visible.remove(row as int),
            old(self)@.scrollback == orig.scrollback,
            old(self).cols == orig.cols,
            old(self).rows == orig.rows,
            old(self).scrollback_limit == orig.scrollback_limit,
            old(self).cursor == orig.cursor,
            old(self).cursor_visible == orig.cursor_visible,
            old(self).fg == orig.fg,
            old(self).bg == orig.bg,
            old(self).flags == orig.flags,
            old(self).scroll_offset == orig.scroll_offset,
        ensures
            final(self)@ == orig.with_visible(orig.visible.update(row as int, line@)),
            final(self).visible@.len() == orig.visible.len(),
    {
        let ghost before = self.visible;
        self.visible.insert(row, line);
        assert(lines_of(self.visible) =~= orig.visible.update(row as int, line@)) by {
            assert forall|i: int| 0 <= i < orig.visible.len() implies #[trigger] lines_of(self.visible)[i]
                == orig.visible.update(row as int, line@)[i] by {
                if i < row {
                    assert(lines_of(before)[i] == orig.visible.remove(row as int)[i]);
                } else if i > row {
                    assert(lines_of(before)[i - 1] == orig.visible.remove(row as int)[i - 1]);
                }
            }
        }
    }

    /// Blanks cells `[from, to)` of visible row `row`; nothing when the row is
    /// off the screen.
    fn clear_cells(&mut self, row: usize, from: usize, to: usize)
        requires
            old(self).wf(),
        ensures
            final(self)@ == old(self)@.clear_cells(row as int, from as int, to as int),
            final(self).wf(),
    {
        if row < self.visible.len() {
            let ghost orig = self@;
            let mut line = self.take_row(row);
            let ghost l0 = line@;
            let end = if to < line.len() { to } else { line.len() };
            let mut j = from;
            while j < end
                invariant
                    from <= j,
                    j <= end || j == from,
                    end <= l0.len(),
                    line@ =~= clear_span(l0, from as int, j as int),
                decreases end - j,
            {
                line.set(j, Cell::blank());
                j = j + 1;
            }
            assert(line@ =~= clear_span(l0, from as int, to as int));
            self.put_row(row, line, Ghost(orig));
        }
    }

    pub fn resize(&mut self, cols: usize, rows: usize)
        requires
            old(self).wf(),
            cols <= MAX_DIM,
            rows <= MAX_DIM,
        ensures
            final(self)@ == old(self)@.resize(cols, rows),
            final(self).wf(),
    {
        let ghost orig = self@;
        let n = self.visible.len();
        let mut i: usize = 0;
        while i < n
            invariant
                n == orig.visible.len(),
                i <= n,
                self.visible@.len() == n,
                self@.scrollback == orig.scrollback,
                self.cols == orig.cols,
                self.rows == orig.rows,
                self.scrollback_limit == orig.scrollback_limit,
                self.cursor == orig.cursor,
                self.cursor_visible == orig.cursor_visible,
                self.fg == orig.fg,
                self.bg == orig.bg,
                self.flags == orig.flags,
                self.scroll_offset == orig.scroll_offset,
                forall|k: int| 0 <= k < n ==> #[trigger] lines_of(self.visible)[k] == (if k < i {
                    resize_row(orig.visible[k], cols as nat)
                } else {
                    orig.visible[k]
                }),
            decreases n - i,
        {
            let ghost cur = self@;
            let mut line = self.take_row(i);
            let ghost old_line = line@;
            if cols <= line.len() {
                line.truncate(cols);
            } else {
                while line.len() < cols
                    invariant
                        old_line.len() <= line@.len() <= cols,
                        line@ =~= old_line + blank_row((line@.len() - old_line.len()) as nat),
                    decreases cols - line@.len(),
                {
                    line.push(Cell::blank());
                }
            }
            assert(line@ =~= resize_row(old_line, cols as nat));
            self.put_row(i, line, Ghost(cur));
            i = i + 1;
        }
        assert(lines_of(self.visible) =~= orig.resized_rows(cols));
        let ghost padded = orig.resized_rows(cols);
        while self.visible.len() < rows
            invariant
                n == padded.len(),
                lines_of(self.visible).len() <= rows || lines_of(self.visible).len() == n,
                n < rows ==> lines_of(self.visible) =~= padded + Seq::new(
                    (lines_of(self.visible).len() - n) as nat,
                    |k: int| blank_row(cols as nat),
                ),
                n >= rows ==> lines_of(self.visible) == padded,
                self@.scrollback == orig.scrollback,
                self.cols == orig.cols,
                self.rows == orig.rows,
                self.scrollback_limit == orig.scrollback_limit,
                self.cursor == orig.cursor,
                self.cursor_visible == orig.cursor_visible,
                self.fg == orig.fg,
                self.bg == orig.bg,
                self.flags == orig.flags,
                self.scroll_offset == orig.scroll_offset,
            decreases rows - self.visible@.len(),
        {
            let ghost before = self.visible;
            let line = blank_line(cols);
            self.visible.push_back(line);
            proof {
                lemma_lines_push(before, self.visible, line);
            }
        }
        let ghost mut popped: int = 0;
        while self.visible.len() > rows
            invariant
                n == padded.len(),
                n > rows ==> 0 <= popped <= n - rows,
                n > rows ==> lines_of(self.visible) == padded.subrange(popped, n as int),
                n > rows ==> self@.scrollback == keep_last(
                    orig.scrollback + padded.take(popped),
                    orig.scrollback_limit as nat,
                ),
                n <= rows ==> lines_of(self.visible).len() == rows,
                n < rows ==> lines_of(self.visible) =~= padded + Seq::new(
                    (rows - n) as nat,
                    |k: int| blank_row(cols as nat),
                ),
                n == rows ==> lines_of(self.visible) == padded,
                n <= rows ==> self@.scrollback == orig.scrollback,
                orig.scrollback.len() <= orig.scrollback_limit,
                self@.scrollback.len() <= orig.scrollback_limit,
                self.cols == orig.cols,
                self.rows == orig.rows,
                self.scrollback_limit == orig.scrollback_limit,
                self.cursor == orig.cursor,
                self.cursor_visible == orig.cursor_visible,
                self.fg == orig.fg,
                self.bg == orig.bg,
                self.flags == orig.flags,
                self.scroll_offset == orig.scroll_offset,
            decreases self.visible@.len(),
        {
            let ghost before = self.visible;
            let ghost sb_before = self@.scrollback;
            let line = match self.visible.pop_front() {
                Some(l) => l,
                None => Vec::new(),
            };
            assert(lines_of(self.visible) =~= lines_of(before).drop_first());
            assert(line@ == lines_of(before)[0]);
            self.push_scrollback(line);
            proof {
                assert(line@ == padded[popped]);
                lemma_keep_last_push(orig.scrollback + padded.take(popped), line@, orig.scrollback_limit as nat);
                assert((orig.scrollback + padded.take(popped)).push(line@) =~= orig.scrollback + padded.take(popped + 1));
                popped = popped + 1;
                assert(lines_of(self.visible) =~= padded.subrange(popped, n as int));
            }
        }
        self.cols = cols;
        self.rows = rows;
        let max_row = if rows == 0 { 0 } else { rows - 1 };
        let max_col = if cols == 0 { 0 } else { cols - 1 };
        self.cursor.row = if self.cursor.row < max_row { self.cursor.row } else { max_row };
        self.cursor.col = if self.cursor.col < max_col { self.cursor.col } else { max_col };
        proof {
            let target = orig.resize(cols, rows);
            if n > rows {
                assert(padded.subrange(n - rows, n as int) =~= padded.subrange(popped, n as int));
            }
            assert(self@.visible =~= target.visible);
            assert forall|k: int| 0 <= k < rows implies #[trigger] self@.visible[k].len() == cols by {
                if n < rows && k >= n {
                    assert(self@.visible[k] == blank_row(cols as nat));
                } else if n > rows {
                    assert(self@.visible[k] == padded[k + (n - rows)]);
                } else {
                    assert(self@.visible[k] == padded[k]);
                }
            }
        }
    }

    pub fn newline(&mut self)
        requires
            old(self).wf(),
            old(self).rows >= 1,
        ensures
            final(self)@ == old(self)@.newline(),
            final(self).wf(),
    {
        let ghost orig = self@;
        let ghost before = self.visible;
        let top = match self.visible.pop_front() {
            Some(l) => l,
            None => Vec::new(),
        };
        assert(lines_of(self.visible) =~= orig.visible.drop_first());
        self.push_scrollback(top);
        let ghost mid = self.visible;
        let line = blank_line(self.cols);
        self.visible.push_back(line);
        proof {
            lemma_lines_push(mid, self.visible, line);
            assert(self@.visible =~= orig.newline().visible);
            assert forall|k: int| 0 <= k < self.rows implies #[trigger] self@.visible[k].len() == self.cols by {
                if k < self.rows - 1 {
                    assert(self@.visible[k] == orig.visible[k + 1]);
                }
            }
        }
    }

    /// Writes `c` at the cursor in the current pen, wrapping to a new line
    /// first when it does not fit, then advances the cursor by its width.
    pub fn put_char(&mut self, c: char)
        requires
            old(self).wf(),
            old(self).rows >= 1 || !old(self)@.wraps(c),
        ensures
            final(self)@ == old(self)@.put_char(c),
            final(self).wf(),
    {
        let w = char_width(c);
        self.put_char_of_width(c, w);
    }

    /// `put_char` for a character whose display width is `width` (`None` for
    /// a control character), as `unicode_width` measures it.
    pub fn put_char_of_width(&mut self, c: char, width: Option<usize>)
        requires
            old(self).wf(),
            width matches Some(n) ==> n <= MAX_DIM,
            old(self).rows >= 1 || !old(self)@.wraps_by(advance_of(width)),
        ensures
            final(self)@ == old(self)@.put_wide(c, advance_of(width)),
            final(self).wf(),
    {
        let ghost orig = self@;
        let width = match width {
            Some(n) => if n == 0 { 1 } else { n },
            None => 1,
        };
        if self.cursor.col + width > self.cols {
            self.carriage_return();
            self.linefeed();
        }
        let ghost g1 = self@;
        let row = self.cursor.row;
        let col = self.cursor.col;
        if row < self.visible.len() {
            let mut line = self.take_row(row);
            if col < line.len() {
                let flags = if width == 2 { self.flags.with(WIDE_CHAR) } else { self.flags };
                line.set(col, Cell { c, fg: self.fg, bg: self.bg, flags });
                if width == 2 && col + 1 < line.len() {
                    line.set(col + 1, Cell { c: ' ', fg: self.fg, bg: self.bg, flags: CellFlags::from_bits(WIDE_SPACER) });
                }
            }
            self.put_row(row, line, Ghost(g1));
        }
        proof {
            assert(self@ == g1.write_cell(c, width)) by {
                if (row as int) < g1.visible.len() {
                    assert(self@.visible =~= g1.write_cell(c, width).visible);
                }
            }
        }
        self.cursor.col = self.cursor.col + width;
        proof {
            assert forall|k: int| 0 <= k < self.rows implies #[trigger] self@.visible[k].len() == self.cols by {
                assert(g1.visible[k].len() == self.cols);
            }
        }
    }

    pub fn carriage_return(&mut self)
        ensures
            final(self)@ == old(self)@.carriage_return(),
    {
        self.cursor.col = 0;
    }

    pub fn linefeed(&mut self)
        requires
            old(self).wf(),
            old(self).rows >= 1,
        ensures
            final(self)@ == old(self)@.linefeed(),
            final(self).wf(),
    {
        if self.cursor.row + 1 >= self.rows {
            self.newline();
        } else {
            self.cursor.row = self.cursor.row + 1;
        }
    }

    pub fn backspace(&mut self)
        ensures
            final(self)@ == old(self)@.backspace(),
    {
        if self.cursor.col > 0 {
            self.cursor.col = self.cursor.col - 1;
        }
    }

    pub fn erase_in_display(&mut self, mode: u16)
        requires
            old(self).wf(),
        ensures
            final(self)@ == old(self)@.erase_in_display(mode),
            final(self).wf(),
    {
        let ghost orig = self@;
        let r = self.cursor.row;
        let c = self.cursor.col;
        let n = self.visible.len();
        let mut i: usize = 0;
        while i < n
            invariant
                n == orig.visible.len(),
                i <= n,
                self.wf(),
                self@.cursor == orig.cursor,
                r == orig.cursor.row,
                c == orig.cursor.col,
                self@ == orig.with_visible(self@.visible),
                self@.visible.len() == n,
                forall|k: int| 0 <= k < n ==> #[trigger] self@.visible[k] == (if k < i {
                    clear_span(orig.visible[k], orig.display_span(mode, k).0, orig.display_span(mode, k).1)
                } else {
                    orig.visible[k]
                }),
            decreases n - i,
        {
            let (from, to): (usize, usize) = if mode == 0 {
                if i == r { (c, usize::MAX) } else if i > r { (0, usize::MAX) } else { (0, 0) }
            } else if mode == 1 {
                if i < r { (0, usize::MAX) } else if i == r { (0, c + 1) } else { (0, 0) }
            } else if mode == 2 || mode == 3 {
                (0, usize::MAX)
            } else {
                (0, 0)
            };
            assert(from as int == orig.display_span(mode, i as int).0);
            assert(to as int == orig.display_span(mode, i as int).1);
            self.clear_cells(i, from, to);
            i = i + 1;
        }
        assert(self@.visible =~= orig.erase_in_display(mode).visible);
    }

    pub fn erase_in_line(&mut self, mode: u16)
        requires
            old(self).wf(),
        ensures
            final(self)@ == old(self)@.erase_in_line(mode),
            final(self).wf(),
    {
        let c = self.cursor.col;
        let (from, to): (usize, usize) = if mode == 0 {
            (c, usize::MAX)
        } else if mode == 1 {
            (0, c + 1)
        } else if mode == 2 {
            (0, usize::MAX)
        } else {
            (0, 0)
        };
        self.clear_cells(self.cursor.row, from, to);
    }

    /// ICH: inserts `n` blank cells at the cursor.
    pub fn insert_chars(&mut self, n: usize)
        requires
            old(self).wf(),
        ensures
            final(self)@ == old(self)@.insert_chars(n),
            final(self).wf(),
    {
        let ghost orig = self@;
        let row = self.cursor.row;
        let col = self.cursor.col;
        if row < self.visible.len() {
            let mut line = self.take_row(row);
            if col < line.len() {
                let len = line.len();
                let k = if n < len - col { n } else { len - col };
                let ghost l0 = line@;
                let mut j: usize = 0;
                while j < k
                    invariant
                        j <= k,
                        k <= len - col,
                        col < len,
                        len == l0.len(),
                        line@ =~= l0.take(col as int) + blank_row(j as nat) + l0.subrange(col as int, len - j),
                    decreases k - j,
                {
                    line.insert(col, Cell::blank());
                    let _ = line.pop();
                    j = j + 1;
                }
            }
            self.put_row(row, line, Ghost(orig));
            assert(self@.visible =~= orig.insert_chars(n).visible);
        }
        proof {
            assert forall|k: int| 0 <= k < self.rows implies #[trigger] self@.visible[k].len() == self.cols by {
                assert(orig.visible[k].len() == self.cols);
            }
        }
    }

    /// DCH: deletes `n` cells at the cursor.
    pub fn delete_chars(&mut self, n: usize)
        requires
            old(self).wf(),
        ensures
            final(self)@ == old(self)@.delete_chars(n),
            final(self).wf(),
    {
        let ghost orig = self@;
        let row = self.cursor.row;
        let col = self.cursor.col;
        if row < self.visible.len() {
            let mut line = self.take_row(row);
            if col < line.len() {
                let len = line.len();
                let k = if n < len - col { n } else { len - col };
                let ghost l0 = line@;
                let mut j: usize = 0;
                while j < k
                    invariant
                        j <= k,
                        k <= len - col,
                        col < len,
                        len == l0.len(),
                        line@ =~= l0.take(col as int) + l0.subrange(col + j, len as int) + blank_row(j as nat),
                    decreases k - j,
                {
                    let _ = line.remove(col);
                    line.push(Cell::blank());
                    j = j + 1;
                }
            }
            self.put_row(row, line, Ghost(orig));
            assert(self@.visible =~= orig.delete_chars(n).visible);
        }
        proof {
            assert forall|k: int| 0 <= k < self.rows implies #[trigger] self@.visible[k].len() == self.cols by {
                assert(orig.visible[k].len() == self.cols);
            }
        }
    }

    /// ECH: blanks `n` cells from the cursor.
    pub fn erase_chars(&mut self, n: usize)
        requires
            old(self).wf(),
            n <= MAX_DIM,
        ensures
            final(self)@ == old(self)@.erase_chars(n),
            final(self).wf(),
    {
        self.clear_cells(self.cursor.row, self.cursor.col, self.cursor.col + n);
    }

    /// IL: inserts `n` blank rows at the cursor row.
    pub fn insert_lines(&mut self, n: usize)
        requires
            old(self).wf(),
        ensures
            final(self)@ == old(self)@.insert_lines(n),
            final(self).wf(),
    {
        let ghost orig = self@;
        let row = self.cursor.row;
        let len = self.visible.len();
        if row < len {
            let k = if n < len - row { n } else { len - row };
            let mut j: usize = 0;
            while j < k
                invariant
                    j <= k,
                    k <= len - row,
                    row < len,
                    len == orig.visible.len(),
                    self.visible@.len() == len,
                    self@ == orig.with_visible(self@.visible),
                    self@.visible =~= orig.visible.take(row as int) + Seq::new(
                        j as nat,
                        |i: int| blank_row(orig.cols as nat),
                    ) + orig.visible.subrange(row as int, len - j),
                decreases k - j,
            {
                let ghost v0 = self@.visible;
                let line = blank_line(self.cols);
                self.visible.insert(row, line);
                let ghost v1 = self.visible;
                let _ = self.visible.pop_back();
                assert(lines_of(self.visible) =~= v0.insert(row as int, line@).drop_last());
                j = j + 1;
            }
        }
        proof {
            assert(self@.visible =~= orig.insert_lines(n).visible);
            assert forall|i: int| 0 <= i < self.rows implies #[trigger] self@.visible[i].len() == self.cols by {
                if row < len {
                    let k = if n < len - row { n as int } else { len - row };
                    if i < row {
                        assert(self@.visible[i] == orig.visible[i]);
                    } else if i < row + k {
                        assert(self@.visible[i] == blank_row(orig.cols as nat));
                    } else {
                        assert(self@.visible[i] == orig.visible[i - k]);
                    }
                }
            }
        }
    }

    /// DL: deletes `n` rows at the cursor row.
    pub fn delete_lines(&mut self, n: usize)
        requires
            old(self).wf(),
        ensures
            final(self)@ == old(self)@.delete_lines(n),
            final(self).wf(),
    {
        let ghost orig = self@;
        let row = self.cursor.row;
        let len = self.visible.len();
        if row < len {
            let k = if n < len - row { n } else { len - row };
            let mut j: usize = 0;
            while j < k
                invariant
                    j <= k,
                    k <= len - row,
                    row < len,
                    len == orig.visible.len(),
                    self.visible@.len() == len,
                    self@ == orig.with_visible(self@.visible),
                    self@.visible =~= orig.visible.take(row as int) + orig.visible.subrange(row + j, len as int)
                        + Seq::new(j as nat, |i: int| blank_row(orig.cols as nat)),
                decreases k - j,
            {
                let ghost v0 = self@.visible;
                let _ = self.visible.remove(row);
                let ghost v1 = self.visible;
                let line = blank_line(self.cols);
                self.visible.push_back(line);
                proof {
                    lemma_lines_push(v1, self.visible, line);
                    assert(lines_of(v1) =~= v0.remove(row as int));
                }
                j = j + 1;
            }
        }
        proof {
            assert(self@.visible =~= orig.delete_lines(n).visible);
            assert forall|i: int| 0 <= i < self.rows implies #[trigger] self@.visible[i].len() == self.cols by {
                if row < len {
                    let k = if n < len - row { n as int } else { len - row };
                    if i < row {
                        assert(self@.visible[i] == orig.visible[i]);
                    } else if i < len - k {
                        assert(self@.visible[i] == orig.visible[i + k]);
                    } else {
                        assert(self@.visible[i] == blank_row(orig.cols as nat));
                    }
                }
            }
        }
    }

    /// RI: moves the cursor up a row, scrolling the screen down on the top row.
    pub fn reverse_index(&mut self)
        requires
            old(self).wf(),
        ensures
            final(self)@ == old(self)@.reverse_index(),
            final(self).wf(),
    {
        if self.cursor.row == 0 {
            self.insert_lines(1);
        } else {
            self.cursor.row = self.cursor.row - 1;
        }
    }

    /// Text of a visible row (empty for a row off the screen).
    pub fn row_text(&self, row: usize) -> (s: String)
        ensures
            s@ == (if row < self@.visible.len() { row_chars(self@.visible[row as int]) } else { Seq::empty() }),
    {
        let mut chars: Vec<char> = Vec::new();
        if row < self.visible.len() {
            let line = &self.visible[row];
            let mut j: usize = 0;
            while j < line.len()
                invariant
                    j <= line@.len(),
                    line@ == self@.visible[row as int],
                    chars@ =~= row_chars(line@).take(j as int),
                decreases line@.len() - j,
            {
                chars.push(line[j].c);
                j = j + 1;
            }
            assert(chars@ =~= row_chars(line@));
        }
        string_from_chars(&chars)
    }
}

} // verus!
