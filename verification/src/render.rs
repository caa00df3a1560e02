//! What the renderer draws, in cells: the text it shapes for a pane, the
//! cells that need a background quad, the search highlights and the labels
//! of the search box and the context menu. Turning cells into pixels is the
//! program's business.

use vstd::prelude::*;

use crate::cell::{Cell, Rgb, INVERSE};
use crate::grid::{row_chars, Grid};
use crate::menu::MenuItem;
use crate::search::{Match, SearchState};
use crate::text::{chars_of, string_from_chars};

verus! {

/// The characters of rows `rows[0..k]`, rows separated by a line break.
pub open spec fn joined_rows(rows: Seq<Seq<Cell>>, k: int) -> Seq<char>
    decreases k,
{
    if k <= 0 {
        Seq::empty()
    } else if k == 1 {
        row_chars(rows[0])
    } else {
        joined_rows(rows, k - 1) + seq!['\n'] + row_chars(rows[k - 1])
    }
}

/// The visible rows of a grid as one text, one line per row.
pub fn grid_to_text(grid: &Grid) -> (s: String)
    ensures
        s@ == joined_rows(grid@.visible, grid@.visible.len() as int),
{
    let mut out: Vec<char> = Vec::new();
    let n = grid.visible.len();
    let mut i: usize = 0;
    while i < n
        invariant
            i <= n,
            n == grid@.visible.len(),
            out@ == joined_rows(grid@.visible, i as int),
        decreases n - i,
    {
        let row = &grid.visible[i];
        assert(row@ == grid@.visible[i as int]);
        let ghost before = out@;
        if i > 0 {
            out.push('\n');
        }
        let ghost mid = out@;
        let mut j: usize = 0;
        while j < row.len()
            invariant
                j <= row@.len(),
                out@ == mid + row_chars(row@).take(j as int),
            decreases row@.len() - j,
        {
            out.push(row[j].c);
            assert(row_chars(row@).take(j + 1) =~= row_chars(row@).take(j as int).push(row@[j as int].c));
            j = j + 1;
        }
        assert(row_chars(row@).take(j as int) =~= row_chars(row@));
        if i == 0 {
            assert(out@ =~= joined_rows(grid@.visible, 1));
        } else {
            assert(out@ =~= joined_rows(grid@.visible, i + 1));
        }
        i = i + 1;
    }
    string_from_chars(&out)
}

// ---------------------------------------------------------------------------
// Cell backgrounds
// ---------------------------------------------------------------------------

/// A cell whose background differs from the pane's: its position in the
/// viewport and the colour to paint under it.
#[derive(Clone, Copy, Debug, PartialEq, Eq, Structural)]
pub struct BgQuad {
    pub row: usize,
    pub col: usize,
    pub color: Rgb,
}

/// The colour painted under `cell` on a pane cleared to `pane_bg`: none when
/// the clear colour already shows, the foreground for an inverse cell, the
/// background otherwise.
pub open spec fn cell_background_spec(cell: Cell, pane_bg: Rgb) -> Option<Rgb> {
    let inverse = cell.flags.bits & INVERSE == INVERSE;
    if cell.bg == pane_bg && !inverse {
        None
    } else if inverse {
        Some(cell.fg)
    } else {
        Some(cell.bg)
    }
}

pub fn cell_background(cell: &Cell, pane_bg: Rgb) -> (r: Option<Rgb>)
    ensures
        r == cell_background_spec(*cell, pane_bg),
{
    let inverse = cell.flags.contains(INVERSE);
    if cell.bg == pane_bg && !inverse {
        None
    } else if inverse {
        Some(cell.fg)
    } else {
        Some(cell.bg)
    }
}

/// Quads for the first `j` cells of row `r`, left to right.
pub open spec fn row_quads(row: Seq<Cell>, r: int, pane_bg: Rgb, j: int) -> Seq<BgQuad>
    decreases j,
{
    if j <= 0 {
        Seq::empty()
    } else {
        let before = row_quads(row, r, pane_bg, j - 1);
        match cell_background_spec(row[j - 1], pane_bg) {
            Some(color) => before.push(BgQuad { row: r as usize, col: (j - 1) as usize, color }),
            None => before,
        }
    }
}

/// Quads for the first `k` rows, top to bottom.
pub open spec fn grid_quads(rows: Seq<Seq<Cell>>, pane_bg: Rgb, k: int) -> Seq<BgQuad>
    decreases k,
{
    if k <= 0 {
        Seq::empty()
    } else {
        grid_quads(rows, pane_bg, k - 1) + row_quads(rows[k - 1], k - 1, pane_bg, rows[k - 1].len() as int)
    }
}

/// The background quads of the visible rows, against the grid's current
/// background colour.
pub fn background_quads(grid: &Grid) -> (out: Vec<BgQuad>)
    ensures
        out@ == grid_quads(grid@.visible, grid@.bg, grid@.visible.len() as int),
{
    let mut out: Vec<BgQuad> = Vec::new();
    let n = grid.visible.len();
    let mut i: usize = 0;
    while i < n
        invariant
            i <= n,
            n == grid@.visible.len(),
            out@ == grid_quads(grid@.visible, grid@.bg, i as int),
        decreases n - i,
    {
        let row = &grid.visible[i];
        assert(row@ == grid@.visible[i as int]);
        let ghost before = out@;
        let mut j: usize = 0;
        while j < row.len()
            invariant
                j <= row@.len(),
                out@ == before + row_quads(row@, i as int, grid@.bg, j as int),
            decreases row@.len() - j,
        {
            match cell_background(&row[j], grid.bg) {
                Some(color) => {
                    out.push(BgQuad { row: i, col: j, color });
                    assert(out@ =~= before + row_quads(row@, i as int, grid@.bg, j + 1));
                },
                None => {},
            }
            j = j + 1;
        }
        i = i + 1;
    }
    out
}

// ---------------------------------------------------------------------------
// Search highlights and the search box
// ---------------------------------------------------------------------------

/// A search match drawn on the viewport: its visible row, first column, width
/// in cells, and whether it is the current match.
#[derive(Clone, Copy, Debug, PartialEq, Eq, Structural)]
pub struct Highlight {
    pub row: usize,
    pub col: usize,
    pub width: usize,
    pub current: bool,
}

/// Match `i` as drawn over a viewport below `scrollback_len` scrollback rows:
/// nothing for a match in the scrollback, else at least one cell wide.
pub open spec fn highlight_of(m: Match, i: int, current: int, scrollback_len: int) -> Option<Highlight> {
    if m.row < scrollback_len {
        None
    } else {
        let w = if m.col_end > m.col_start { m.col_end - m.col_start } else { 0 };
        Some(Highlight {
            row: (m.row - scrollback_len) as usize,
            col: m.col_start,
            width: (if w < 1 { 1 } else { w }) as usize,
            current: i == current,
        })
    }
}

/// Highlights of the first `k` matches, in match order.
pub open spec fn highlights_upto(ms: Seq<Match>, current: int, scrollback_len: int, k: int) -> Seq<Highlight>
    decreases k,
{
    if k <= 0 {
        Seq::empty()
    } else {
        let before = highlights_upto(ms, current, scrollback_len, k - 1);
        match highlight_of(ms[k - 1], k - 1, current, scrollback_len) {
            Some(h) => before.push(h),
            None => before,
        }
    }
}

/// What the active pane highlights: nothing without a query, else every
/// match on the viewport.
pub open spec fn search_highlights_spec(query: Seq<char>, ms: Seq<Match>, current: int, scrollback_len: int) -> Seq<Highlight> {
    if query.len() == 0 {
        Seq::empty()
    } else {
        highlights_upto(ms, current, scrollback_len, ms.len() as int)
    }
}

pub fn search_highlights(state: &SearchState, scrollback_len: usize) -> (out: Vec<Highlight>)
    ensures
        out@ == search_highlights_spec(state.query@, state.matches@, state.current as int, scrollback_len as int),
{
    let mut out: Vec<Highlight> = Vec::new();
    if chars_of(state.query.as_str()).len() == 0 {
        return out;
    }
    let n = state.matches.len();
    let mut i: usize = 0;
    while i < n
        invariant
            i <= n,
            n == state.matches@.len(),
            out@ == highlights_upto(state.matches@, state.current as int, scrollback_len as int, i as int),
        decreases n - i,
    {
        let m = state.matches[i];
        if m.row >= scrollback_len {
            let w = if m.col_end > m.col_start { m.col_end - m.col_start } else { 0 };
            out.push(Highlight {
                row: m.row - scrollback_len,
                col: m.col_start,
                width: if w < 1 { 1 } else { w },
                current: i == state.current,
            });
        }
        i = i + 1;
    }
    out
}

/// The character of decimal digit `d`.
pub open spec fn digit_char(d: nat) -> char {
    ((48 + d) as u8) as char
}

/// `n` written in decimal, without leading zeros.
pub open spec fn decimal(n: nat) -> Seq<char>
    decreases n,
{
    if n < 10 {
        seq![digit_char(n)]
    } else {
        decimal(n / 10).push(digit_char(n % 10))
    }
}

/// Appends `n` in decimal to `out`.
fn push_decimal(out: &mut Vec<char>, n: usize)
    ensures
        final(out)@ == old(out)@ + decimal(n as nat),
    decreases n,
{
    if n >= 10 {
        push_decimal(out, n / 10);
    }
    let d = (n % 10) as u8;
    out.push((48 + d) as char);
    proof {
        if n < 10 {
            assert(final(out)@ =~= old(out)@ + decimal(n as nat));
        } else {
            assert(final(out)@ =~= old(out)@ + decimal(n as nat));
        }
    }
}

/// The search box's label: a prompt while the query is empty, then the query
/// with "no matches" or the current match's number out of the count.
pub open spec fn search_label_spec(query: Seq<char>, count: nat, current: nat) -> Seq<char> {
    if query.len() == 0 {
        "Search: (type to search)"@
    } else if count == 0 {
        "Search: "@ + query + "  no matches"@
    } else {
        "Search: "@ + query + "  "@ + decimal(current + 1) + seq!['/'] + decimal(count)
    }
}

pub fn search_label(state: &SearchState) -> (s: String)
    requires
        state.query@.len() == 0 || state.matches@.len() == 0 || state.current < usize::MAX,
    ensures
        s@ == search_label_spec(state.query@, state.matches@.len(), state.current as nat),
{
    let q = chars_of(state.query.as_str());
    if q.len() == 0 {
        let v = chars_of("Search: (type to search)");
        return string_from_chars(&v);
    }
    let mut out = chars_of("Search: ");
    out.extend_from_slice(q.as_slice());
    if state.matches.len() == 0 {
        let tail = chars_of("  no matches");
        out.extend_from_slice(tail.as_slice());
        assert(out@ =~= search_label_spec(state.query@, state.matches@.len(), state.current as nat));
    } else {
        let gap = chars_of("  ");
        out.extend_from_slice(gap.as_slice());
        push_decimal(&mut out, state.current + 1);
        out.push('/');
        push_decimal(&mut out, state.matches.len());
        assert(out@ =~= search_label_spec(state.query@, state.matches@.len(), state.current as nat));
    }
    string_from_chars(&out)
}

// ---------------------------------------------------------------------------
// Context menu rows
// ---------------------------------------------------------------------------

/// A menu row `cols` cells wide: the label, then the shortcut flush against
/// the right edge, with at least one space between them.
pub open spec fn menu_row_text(label: Seq<char>, shortcut: Seq<char>, cols: nat) -> Seq<char> {
    let used = label.len() + shortcut.len();
    let gap: nat = if cols > used { (cols - used) as nat } else { 1 };
    label + Seq::new(gap, |i: int| ' ') + shortcut
}

/// The text of the selectable rows among the first `k` menu items, each with
/// its item index.
pub open spec fn menu_rows_spec(items: Seq<MenuItem>, cols: nat, k: int) -> Seq<(usize, Seq<char>)>
    decreases k,
{
    if k <= 0 {
        Seq::empty()
    } else {
        let before = menu_rows_spec(items, cols, k - 1);
        let it = items[k - 1];
        if it.action is Some {
            before.push(((k - 1) as usize, menu_row_text(it.label@, it.shortcut@, cols)))
        } else {
            before
        }
    }
}

pub fn menu_row(item: &MenuItem, cols: usize) -> (s: String)
    ensures
        s@ == menu_row_text(item.label@, item.shortcut@, cols as nat),
{
    let mut out = chars_of(item.label);
    let short = chars_of(item.shortcut);
    let ll = out.len();
    let sl = short.len();
    let gap: usize = if cols > ll && cols - ll > sl { cols - ll - sl } else { 1 };
    let ghost before = out@;
    let mut k: usize = 0;
    while k < gap
        invariant
            k <= gap,
            out@ == before + Seq::new(k as nat, |i: int| ' '),
        decreases gap - k,
    {
        out.push(' ');
        assert(out@ =~= before + Seq::new((k + 1) as nat, |i: int| ' '));
        k = k + 1;
    }
    out.extend_from_slice(short.as_slice());
    assert(out@ =~= menu_row_text(item.label@, item.shortcut@, cols as nat));
    string_from_chars(&out)
}

/// The text of every selectable menu row, each with its item index, top to
/// bottom; separators have none.
pub fn menu_rows(items: &Vec<MenuItem>, cols: usize) -> (out: Vec<(usize, String)>)
    ensures
        out@.len() == menu_rows_spec(items@, cols as nat, items@.len() as int).len(),
        forall|i: int| 0 <= i < out@.len() ==> (#[trigger] out@[i]).0 == menu_rows_spec(items@, cols as nat, items@.len() as int)[i].0
            && out@[i].1@ == menu_rows_spec(items@, cols as nat, items@.len() as int)[i].1,
{
    let mut out: Vec<(usize, String)> = Vec::new();
    let n = items.len();
    let mut k: usize = 0;
    while k < n
        invariant
            k <= n,
            n == items@.len(),
            out@.len() == menu_rows_spec(items@, cols as nat, k as int).len(),
            forall|i: int| 0 <= i < out@.len() ==> (#[trigger] out@[i]).0 == menu_rows_spec(items@, cols as nat, k as int)[i].0
                && out@[i].1@ == menu_rows_spec(items@, cols as nat, k as int)[i].1,
        decreases n - k,
    {
        let it = &items[k];
        if it.action.is_some() {
            let text = menu_row(it, cols);
            out.push((k, text));
        }
        k = k + 1;
    }
    out
}

/// Whether a pane draws its cursor: only the focused pane, and only while
/// the cursor is visible.
pub fn shows_cursor(is_active: bool, grid: &Grid) -> (b: bool)
    ensures
        b == (is_active && grid.cursor_visible),
{
    is_active && grid.cursor_visible
}

/// Chrome drawn on a context menu row beyond its panel.
#[derive(Clone, Copy, Debug, PartialEq, Eq, Structural)]
pub enum MenuMark {
    /// The hairline across a separator row.
    Hairline,
    /// The highlight under the hovered selectable row.
    Highlight,
}

/// The marks of the first `k` menu rows, top to bottom: a hairline on each
/// separator, a highlight on the hovered row when it is selectable.
pub open spec fn menu_marks_spec(items: Seq<MenuItem>, hovered: Option<usize>, k: int) -> Seq<(usize, MenuMark)>
    decreases k,
{
    if k <= 0 {
        Seq::empty()
    } else {
        let before = menu_marks_spec(items, hovered, k - 1);
        if items[k - 1].action is None {
            before.push(((k - 1) as usize, MenuMark::Hairline))
        } else if hovered == Some((k - 1) as usize) {
            before.push(((k - 1) as usize, MenuMark::Highlight))
        } else {
            before
        }
    }
}

pub fn menu_marks(items: &Vec<MenuItem>, hovered: Option<usize>) -> (out: Vec<(usize, MenuMark)>)
    ensures
        out@ == menu_marks_spec(items@, hovered, items@.len() as int),
{
    let mut out: Vec<(usize, MenuMark)> = Vec::new();
    let n = items.len();
    let mut k: usize = 0;
    while k < n
        invariant
            k <= n,
            n == items@.len(),
            out@ == menu_marks_spec(items@, hovered, k as int),
        decreases n - k,
    {
        if items[k].action.is_none() {
            out.push((k, MenuMark::Hairline));
        } else {
            match hovered {
                Some(h) => {
                    if h == k {
                        out.push((k, MenuMark::Highlight));
                    }
                },
                None => {},
            }
        }
        k = k + 1;
    }
    out
}

} // verus!
