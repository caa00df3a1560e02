//! Mouse text selection. Ctrl+C copies when there is a selection with
//! something other than whitespace in it, and falls through to SIGINT
//! otherwise (`copy_text`).

use vstd::prelude::*;

use crate::grid::{row_chars, Grid, GridView};
use crate::text::string_from_chars;

verus! {

#[derive(Clone, Copy, Debug, PartialEq, Eq, Structural)]
pub struct GridPos {
    pub row: usize,
    pub col: usize,
}

#[derive(Clone, Copy, Debug, PartialEq, Eq, Structural)]
pub struct Selection {
    pub anchor: GridPos,
    pub active: GridPos,
}

/// `(a.row, a.col) <= (b.row, b.col)` in lexicographic order.
pub open spec fn pos_le(a: GridPos, b: GridPos) -> bool {
    a.row < b.row || (a.row == b.row && a.col <= b.col)
}

/// Characters of visible row `r` (none for a row off the screen).
pub open spec fn line_chars(g: GridView, r: int) -> Seq<char> {
    if 0 <= r < g.visible.len() { row_chars(g.visible[r]) } else { Seq::empty() }
}

/// The first and last selected column of row `r`, for a selection from
/// `s` to `e` (inclusive); nothing is taken from the row when the first
/// exceeds the last.
pub open spec fn row_span(g: GridView, s: GridPos, e: GridPos, r: int) -> (int, int) {
    let n = line_chars(g, r).len() as int;
    let last = if n > 0 { n - 1 } else { 0 };
    let cs = if r == s.row { s.col as int } else { 0 };
    let ce = if r == e.row { if (e.col as int) < last { e.col as int } else { last } } else { last };
    (cs, ce)
}

/// The text of rows `r..=e.row` of a selection from `s` to `e`: the selected
/// characters of each row, rows separated by a line break.
pub open spec fn selected_from(g: GridView, s: GridPos, e: GridPos, r: int) -> Seq<char>
    decreases e.row - r,
{
    if r > e.row {
        Seq::empty()
    } else {
        let (cs, ce) = row_span(g, s, e, r);
        let piece = if cs <= ce { line_chars(g, r).subrange(cs, ce + 1) } else { Seq::empty() };
        if r == e.row {
            piece
        } else {
            piece + seq!['\n'] + selected_from(g, s, e, r + 1)
        }
    }
}

/// Whether every row of a selection from `s` to `e` can be cut: a row whose
/// selected span starts at column 0 needs at least one character.
pub open spec fn rows_extractable(g: GridView, s: GridPos, e: GridPos) -> bool {
    forall|r: int| s.row <= r <= e.row ==> (line_chars(g, r).len() > 0 || #[trigger] row_span(g, s, e, r).0 > 0)
}

/// The White_Space property of Unicode, as `char::is_whitespace` tests it.
pub open spec fn is_white_space(c: char) -> bool {
    let u = c as u32;
    (0x09 <= u <= 0x0d) || u == 0x20 || u == 0x85 || u == 0xa0 || u == 0x1680 || (0x2000 <= u <= 0x200a)
        || u == 0x2028 || u == 0x2029 || u == 0x202f || u == 0x205f || u == 0x3000
}

pub fn is_white_space_char(c: char) -> (b: bool)
    ensures
        b == is_white_space(c),
{
    let u = c as u32;
    (0x09 <= u && u <= 0x0d) || u == 0x20 || u == 0x85 || u == 0xa0 || u == 0x1680 || (0x2000 <= u && u
        <= 0x200a) || u == 0x2028 || u == 0x2029 || u == 0x202f || u == 0x205f || u == 0x3000
}

/// Whether a text is empty once leading and trailing whitespace is trimmed.
pub open spec fn blank_text(t: Seq<char>) -> bool {
    forall|i: int| 0 <= i < t.len() ==> is_white_space(#[trigger] t[i])
}

impl Selection {
    pub fn new(at: GridPos) -> (s: Selection)
        ensures
            s.anchor == at,
            s.active == at,
    {
        Selection { anchor: at, active: at }
    }

    pub fn extend(&mut self, to: GridPos)
        ensures
            final(self).anchor == old(self).anchor,
            final(self).active == to,
    {
        self.active = to;
    }

    pub open spec fn start(self) -> GridPos {
        if pos_le(self.anchor, self.active) { self.anchor } else { self.active }
    }

    pub open spec fn end(self) -> GridPos {
        if pos_le(self.anchor, self.active) { self.active } else { self.anchor }
    }

    /// Anchor and active end, earlier position first.
    pub fn ordered(&self) -> (r: (GridPos, GridPos))
        ensures
            r == (self.start(), self.end()),
    {
        if self.anchor.row < self.active.row || (self.anchor.row == self.active.row && self.anchor.col
            <= self.active.col) {
            (self.anchor, self.active)
        } else {
            (self.active, self.anchor)
        }
    }

    /// The text `extract_text` gives for this selection.
    pub open spec fn text(self, g: GridView) -> Seq<char> {
        selected_from(g, self.start(), self.end(), self.start().row as int)
    }

    /// Whether `extract_text` can cut every selected row (see `rows_extractable`).
    pub fn can_extract(&self, grid: &Grid) -> (b: bool)
        requires
            grid.wf(),
        ensures
            b == rows_extractable(grid@, self.start(), self.end()),
    {
        let (start, end) = self.ordered();
        let mut r = start.row;
        loop
            invariant
                start == self.start(),
                end == self.end(),
                grid.wf(),
                start.row <= r <= end.row,
                forall|k: int| start.row <= k < r ==> (line_chars(grid@, k).len() > 0 || #[trigger] row_span(grid@, start, end, k).0 > 0),
            decreases end.row - r,
        {
            let n = if r < grid.visible.len() { grid.cols } else { 0 };
            assert(n == line_chars(grid@, r as int).len());
            let cs = if r == start.row { start.col } else { 0 };
            assert(row_span(grid@, start, end, r as int).0 == cs as int);
            if n == 0 && cs == 0 {
                return false;
            }
            if r == end.row {
                return true;
            }
            r = r + 1;
        }
    }

    /// The selected text out of the visible grid, row-major ("stream"
    /// selection): from the earlier end to the later one, inclusive, rows
    /// separated by line breaks.
    pub fn extract_text(&self, grid: &Grid) -> (s: String)
        requires
            grid.wf(),
            rows_extractable(grid@, self.start(), self.end()),
        ensures
            s@ == self.text(grid@),
    {
        let (start, end) = self.ordered();
        let ghost g = grid@;
        let ghost target = selected_from(g, start, end, start.row as int);
        let mut out: Vec<char> = Vec::new();
        let mut row = start.row;
        loop
            invariant
                start == self.start(),
                end == self.end(),
                g == grid@,
                grid.wf(),
                rows_extractable(g, start, end),
                start.row <= row <= end.row,
                target == selected_from(g, start, end, start.row as int),
                out@ + selected_from(g, start, end, row as int) == target,
            decreases end.row - row,
        {
            let ghost before = out@;
            let line = grid.row_text(row);
            let chars = crate::text::chars_of(line.as_str());
            let n = chars.len();
            assert(chars@ == line_chars(g, row as int));
            let last = if n > 0 { n - 1 } else { 0 };
            let col_start = if row == start.row { start.col } else { 0 };
            let col_end = if row == end.row { if end.col < last { end.col } else { last } } else { last };
            assert(row_span(g, start, end, row as int) == (col_start as int, col_end as int));
            if col_start <= col_end {
                assert(n > 0 || row_span(g, start, end, row as int).0 > 0);
                let mut j = col_start;
                while j <= col_end
                    invariant
                        col_start <= j <= col_end + 1,
                        col_end < n,
                        n == chars@.len(),
                        out@ == before + chars@.subrange(col_start as int, j as int),
                    decreases col_end + 1 - j,
                {
                    out.push(chars[j]);
                    assert(chars@.subrange(col_start as int, j + 1) =~= chars@.subrange(col_start as int, j as int).push(chars@[j as int]));
                    j = j + 1;
                }
            }
            let ghost piece = if col_start <= col_end {
                chars@.subrange(col_start as int, col_end + 1)
            } else {
                Seq::<char>::empty()
            };
            assert(out@ =~= before + piece);
            if row == end.row {
                assert(selected_from(g, start, end, row as int) == piece);
                let s = string_from_chars(&out);
                return s;
            }
            out.push('\n');
            assert(selected_from(g, start, end, row as int) == piece + seq!['\n'] + selected_from(g, start, end, row + 1));
            assert(out@ + selected_from(g, start, end, row + 1) =~= target);
            row = row + 1;
        }
    }
}

/// What Ctrl+C copies: the selected text, when there is a selection whose
/// text is not all whitespace. `None` means the key goes to the shell as
/// SIGINT (0x03) instead.
pub open spec fn copy_text_spec(selection: Option<Selection>, g: GridView) -> Option<Seq<char>> {
    match selection {
        Some(sel) => if blank_text(sel.text(g)) { None } else { Some(sel.text(g)) },
        None => None,
    }
}

pub fn copy_text(selection: &Option<Selection>, grid: &Grid) -> (r: Option<String>)
    requires
        grid.wf(),
        selection matches Some(sel) ==> rows_extractable(grid@, sel.start(), sel.end()),
    ensures
        (match copy_text_spec(*selection, grid@) {
            Some(t) => r matches Some(s) && s@ == t,
            None => r is None,
        }),
{
    match selection {
        Some(sel) => {
            let text = sel.extract_text(grid);
            let chars = crate::text::chars_of(text.as_str());
            let mut i: usize = 0;
            while i < chars.len()
                invariant
                    i <= chars@.len(),
                    chars@ == text@,
                    copy_text_spec(*selection, grid@) == (if blank_text(text@) { None } else { Some(text@) }),
                    forall|k: int| 0 <= k < i ==> is_white_space(#[trigger] chars@[k]),
                decreases chars@.len() - i,
            {
                if !is_white_space_char(chars[i]) {
                    assert(!is_white_space(text@[i as int]));
                    return Some(text);
                }
                i = i + 1;
            }
            None
        },
        None => None,
    }
}

/// Selecting from `a` to `b` or from `b` to `a` selects the same text.
pub proof fn law_selection_direction(a: GridPos, b: GridPos, g: GridView)
    ensures
        (Selection { anchor: a, active: b }).text(g) == (Selection { anchor: b, active: a }).text(g),
{
    if pos_le(a, b) && pos_le(b, a) {
        assert(a == b);
    }
}

/// With no selection, Ctrl+C copies nothing (and goes to the shell).
pub proof fn law_no_selection_no_copy(g: GridView)
    ensures
        (copy_text_spec(None, g) is None),
{
}

/// Characters of the selected rows from `r` on, when every selected row
/// holds only spaces: the text is spaces and line breaks.
proof fn lemma_selected_spaces(g: GridView, s: GridPos, e: GridPos, r: int)
    requires
        forall|q: int| r <= q <= e.row ==> (line_chars(g, q).len() > 0 || #[trigger] row_span(g, s, e, q).0 > 0),
        forall|q: int, j: int| r <= q <= e.row && 0 <= j < line_chars(g, q).len() ==> #[trigger] line_chars(g, q)[j] == ' ',
    ensures
        forall|k: int| 0 <= k < selected_from(g, s, e, r).len() ==> (#[trigger] selected_from(g, s, e, r)[k] == ' '
            || selected_from(g, s, e, r)[k] == '\n'),
    decreases e.row - r,
{
    if r <= e.row {
        let (cs, ce) = row_span(g, s, e, r);
        let line = line_chars(g, r);
        let piece = if cs <= ce { line.subrange(cs, ce + 1) } else { Seq::empty() };
        assert(line.len() > 0 || row_span(g, s, e, r).0 > 0);
        assert forall|k: int| 0 <= k < piece.len() implies #[trigger] piece[k] == ' ' by {
            assert(piece[k] == line[cs + k]);
        }
        if r < e.row {
            lemma_selected_spaces(g, s, e, r + 1);
            let rest = selected_from(g, s, e, r + 1);
            let all = piece + seq!['\n'] + rest;
            assert forall|k: int| 0 <= k < all.len() implies (#[trigger] all[k] == ' ' || all[k] == '\n') by {
                if k > piece.len() {
                    assert(all[k] == rest[k - piece.len() - 1]);
                }
            }
        }
    }
}

/// A selection over rows that hold nothing but spaces is not copied, however
/// many rows it spans (the line breaks between them are whitespace too), so
/// Ctrl+C then goes to the shell.
pub proof fn law_blank_rows_not_copied(sel: Selection, g: GridView)
    requires
        rows_extractable(g, sel.start(), sel.end()),
        forall|q: int, j: int| sel.start().row <= q <= sel.end().row && 0 <= j < line_chars(g, q).len()
            ==> #[trigger] line_chars(g, q)[j] == ' ',
    ensures
        copy_text_spec(Some(sel), g) is None,
{
    lemma_selected_spaces(g, sel.start(), sel.end(), sel.start().row as int);
    let t = sel.text(g);
    assert forall|i: int| 0 <= i < t.len() implies is_white_space(#[trigger] t[i]) by {
        assert(t[i] == ' ' || t[i] == '\n');
    }
}

/// A selected text with a printable ASCII character (anything from `!` to
/// `~`) in it is copied whole.
pub proof fn law_visible_text_is_copied(sel: Selection, g: GridView, i: int)
    requires
        0 <= i < sel.text(g).len(),
        0x21 <= (sel.text(g)[i] as u32) <= 0x7e,
    ensures
        copy_text_spec(Some(sel), g) == Some(sel.text(g)),
{
}

/// Tabs, line feeds, vertical tabs, form feeds, carriage returns and spaces
/// are whitespace; printable ASCII is not.
pub proof fn law_ascii_white_space(c: char)
    requires
        (c as u32) < 0x80,
    ensures
        is_white_space(c) <==> (c == '\t' || c == '\n' || c == '\x0b' || c == '\x0c' || c == '\r' || c == ' '),
{
}

} // verus!
