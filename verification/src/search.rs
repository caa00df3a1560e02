//! Scrollback search: case-insensitive substring search across the
//! scrollback and the visible viewport.
//!
//! Rows are numbered with the scrollback first (`0..scrollback.len()`) and
//! the visible viewport after it. Columns of a match are byte offsets into
//! the lowercased UTF-8 text of its row; a match spans as many columns as
//! the lowercased query has characters.

use vstd::prelude::*;
use vstd::string::StringSliceAdditionalSpecFns;
use vstd::utf8::encode_utf8;

use crate::grid::{lines_of, row_chars, Grid};
use crate::cell::Cell;
use crate::text::string_from_chars;

verus! {

/// Unicode lowercase mapping of a string.
pub uninterp spec fn lowercase(s: Seq<char>) -> Seq<char>;

/// Trusted: wraps `str::to_lowercase`. Its result, which follows the Unicode
/// `Lowercase` mapping (including context-dependent final sigma), is named
/// `lowercase`; it depends on the string alone.
#[verifier::external_body]
fn to_lowercase(s: &str) -> (r: String)
    ensures
        r@ == lowercase(s@),
{
    s.to_lowercase()
}

#[derive(Clone, Copy, Debug, PartialEq, Eq, Structural)]
pub struct Match {
    /// Row index: scrollback rows first, then the visible rows.
    pub row: usize,
    pub col_start: usize,
    pub col_end: usize,
}

/// Whether `needle` occurs in `h` at `p`.
pub open spec fn occurs_at(h: Seq<u8>, needle: Seq<u8>, p: int) -> bool {
    0 <= p && p + needle.len() <= h.len() && h.subrange(p, p + needle.len()) == needle
}

/// First position at or after `start` where `needle` occurs in `h`.
pub open spec fn find_from(h: Seq<u8>, needle: Seq<u8>, start: int) -> Option<int>
    decreases h.len() + 1 - start,
{
    if start < 0 || start + needle.len() > h.len() {
        None
    } else if occurs_at(h, needle, start) {
        Some(start)
    } else {
        find_from(h, needle, start + 1)
    }
}

/// The matches of `needle` in row text `h` from `start` on: each search
/// resumes after the previous match (one byte on for an empty needle) and
/// stops at the end of the text.
pub open spec fn matches_from(h: Seq<u8>, needle: Seq<u8>, nchars: nat, row: int, start: int) -> Seq<Match>
    decreases h.len() - start,
{
    match find_from(h, needle, start) {
        None => Seq::empty(),
        Some(abs) => {
            let m = Match { row: row as usize, col_start: abs as usize, col_end: (abs + nchars) as usize };
            let next = abs + if needle.len() > 0 { needle.len() as int } else { 1 };
            if next >= h.len() || next <= start {
                seq![m]
            } else {
                seq![m] + matches_from(h, needle, nchars, row, next)
            }
        },
    }
}

/// The lowercased UTF-8 text of a row.
pub open spec fn row_haystack(line: Seq<Cell>) -> Seq<u8> {
    encode_utf8(lowercase(row_chars(line)))
}

/// The matches in rows `lines[0..k]`, row `i` numbered `i`.
pub open spec fn rows_matches(lines: Seq<Seq<Cell>>, needle: Seq<u8>, nchars: nat, k: int) -> Seq<Match>
    decreases k,
{
    if k <= 0 {
        Seq::empty()
    } else {
        rows_matches(lines, needle, nchars, k - 1) + matches_from(row_haystack(lines[k - 1]), needle, nchars, k - 1, 0)
    }
}

/// What a search for `query` finds in the scrollback and the visible rows.
pub open spec fn search_spec(scrollback: Seq<Seq<Cell>>, visible: Seq<Seq<Cell>>, query: Seq<char>) -> Seq<Match> {
    if query.len() == 0 {
        Seq::empty()
    } else {
        let lines = scrollback + visible;
        rows_matches(lines, encode_utf8(lowercase(query)), lowercase(query).len(), lines.len() as int)
    }
}

pub open spec fn next_index(current: int, n: int) -> int {
    (current + 1) % n
}

pub open spec fn prev_index(current: int, n: int) -> int {
    if current == 0 { n - 1 } else { current - 1 }
}

/// Moving to the next match and then to the previous one (or the other way
/// round) comes back to the same match.
pub proof fn law_next_prev_inverse(current: int, n: int)
    requires
        0 <= current < n,
    ensures
        prev_index(next_index(current, n), n) == current,
        next_index(prev_index(current, n), n) == current,
        0 <= next_index(current, n) < n,
        0 <= prev_index(current, n) < n,
{
    if current + 1 < n {
        assert((current + 1) % n == current + 1) by (nonlinear_arith)
            requires 0 <= current + 1 < n;
    } else {
        assert((current + 1) % n == 0) by (nonlinear_arith)
            requires current + 1 == n, n > 0;
    }
    if current == 0 {
        assert((n - 1 + 1) % n == 0) by (nonlinear_arith)
            requires n > 0;
    } else {
        assert((current - 1 + 1) % n == current) by (nonlinear_arith)
            requires 0 <= current < n;
    }
}

/// The search ignores case: two non-empty queries with the same lowercase
/// form find the same matches.
pub proof fn law_search_ignores_case(scrollback: Seq<Seq<Cell>>, visible: Seq<Seq<Cell>>, q1: Seq<char>, q2: Seq<char>)
    requires
        q1.len() > 0,
        q2.len() > 0,
        lowercase(q1) == lowercase(q2),
    ensures
        search_spec(scrollback, visible, q1) == search_spec(scrollback, visible, q2),
{
}

/// Every match reported in a row is an occurrence of the lowercased query
/// in the lowercased text of that row, and matches come in increasing,
/// non-overlapping order.
pub proof fn law_matches_are_occurrences(h: Seq<u8>, needle: Seq<u8>, nchars: nat, row: int, start: int)
    requires
        0 <= start,
        h.len() <= usize::MAX,
    ensures
        forall|k: int| 0 <= k < matches_from(h, needle, nchars, row, start).len() ==> {
            let m = #[trigger] matches_from(h, needle, nchars, row, start)[k];
            &&& start <= m.col_start
            &&& occurs_at(h, needle, m.col_start as int)
        },
        forall|k: int| 0 < k < matches_from(h, needle, nchars, row, start).len() ==>
            #[trigger] matches_from(h, needle, nchars, row, start)[k].col_start
                >= matches_from(h, needle, nchars, row, start)[k - 1].col_start + needle.len(),
    decreases h.len() - start,
{
    lemma_find_from_bounds(h, needle, start);
    match find_from(h, needle, start) {
        None => {},
        Some(abs) => {
            let next = abs + if needle.len() > 0 { needle.len() as int } else { 1 };
            let ms = matches_from(h, needle, nchars, row, start);
            if !(next >= h.len() || next <= start) {
                law_matches_are_occurrences(h, needle, nchars, row, next);
                let rest = matches_from(h, needle, nchars, row, next);
                assert forall|k: int| 0 < k < ms.len() implies #[trigger] ms[k].col_start >= ms[k - 1].col_start + needle.len() by {
                    assert(ms[k] == rest[k - 1]);
                    if k > 1 {
                        assert(ms[k - 1] == rest[k - 2]);
                    }
                }
                assert forall|k: int| 0 <= k < ms.len() implies ({
                    let m = #[trigger] ms[k];
                    &&& start <= m.col_start
                    &&& occurs_at(h, needle, m.col_start as int)
                }) by {
                    if k > 0 {
                        assert(ms[k] == rest[k - 1]);
                    }
                }
            }
        },
    }
}

pub struct SearchState {
    pub query: String,
    pub matches: Vec<Match>,
    pub current: usize,
}

proof fn lemma_encode_len(cs: Seq<char>)
    ensures
        encode_utf8(cs).len() >= cs.len(),
    decreases cs.len(),
{
    if cs.len() > 0 {
        lemma_encode_len(cs.drop_first());
    }
}

proof fn lemma_find_from_bounds(h: Seq<u8>, needle: Seq<u8>, start: int)
    ensures
        find_from(h, needle, start) matches Some(p) ==> start <= p && occurs_at(h, needle, p),
    decreases h.len() + 1 - start,
{
    if !(start < 0 || start + needle.len() > h.len()) && !occurs_at(h, needle, start) {
        lemma_find_from_bounds(h, needle, start + 1);
    }
}

fn occurs_at_exec(h: &[u8], needle: &[u8], p: usize) -> (b: bool)
    requires
        p + needle@.len() <= h@.len(),
    ensures
        b == occurs_at(h@, needle@, p as int),
{
    let hl = h.len();
    let mut k: usize = 0;
    while k < needle.len()
        invariant
            k <= needle@.len(),
            hl == h@.len(),
            p + needle@.len() <= h@.len(),
            forall|j: int| 0 <= j < k ==> h@[p + j] == needle@[j],
        decreases needle@.len() - k,
    {
        if h[p + k] != needle[k] {
            assert(h@.subrange(p as int, p + needle@.len())[k as int] != needle@[k as int]);
            return false;
        }
        k = k + 1;
    }
    assert(h@.subrange(p as int, p + needle@.len()) =~= needle@);
    true
}

fn find_from_exec(h: &[u8], needle: &[u8], start: usize) -> (r: Option<usize>)
    ensures
        r matches Some(p) ==> find_from(h@, needle@, start as int) == Some(p as int),
        r is None ==> find_from(h@, needle@, start as int) is None,
{
    if needle.len() > h.len() {
        return None;
    }
    let last = h.len() - needle.len();
    let mut p = start;
    while p <= last
        invariant
            start <= p,
            last + needle@.len() == h@.len(),
            find_from(h@, needle@, p as int) == find_from(h@, needle@, start as int),
        decreases last + 1 - p,
    {
        if occurs_at_exec(h, needle, p) {
            return Some(p);
        }
        if p == last {
            assert(find_from(h@, needle@, p + 1) is None);
            return None;
        }
        p = p + 1;
    }
    None
}

/// Adds the matches of `needle` in the row text `text` (row `row`) to `out`.
pub fn find_in_line(text: &[u8], needle: &[u8], nchars: usize, row: usize, out: &mut Vec<Match>)
    requires
        nchars <= needle@.len(),
    ensures
        final(out)@ == old(out)@ + matches_from(text@, needle@, nchars as nat, row as int, 0),
{
    let ghost target = old(out)@ + matches_from(text@, needle@, nchars as nat, row as int, 0);
    let tl = text.len();
    let mut start: usize = 0;
    loop
        invariant
            nchars <= needle@.len(),
            tl == text@.len(),
            target == old(out)@ + matches_from(text@, needle@, nchars as nat, row as int, 0),
            start <= text@.len(),
            out@ + matches_from(text@, needle@, nchars as nat, row as int, start as int) == target,
        decreases text@.len() - start,
    {
        let ghost before = out@;
        match find_from_exec(text, needle, start) {
            None => {
                assert(out@ =~= target);
                return;
            },
            Some(abs) => {
                proof {
                    lemma_find_from_bounds(text@, needle@, start as int);
                }
                out.push(Match { row, col_start: abs, col_end: abs + nchars });
                let step = if needle.len() > 0 { needle.len() } else { 1 };
                if text.len() - abs <= step {
                    assert(out@ =~= target);
                    return;
                }
                assert(out@ + matches_from(text@, needle@, nchars as nat, row as int, (abs + step) as int) =~= target);
                start = abs + step;
            },
        }
    }
}

/// The lowercased UTF-8 text of a row of cells.
fn lowercase_row(line: &Vec<Cell>) -> (bytes: Vec<u8>)
    ensures
        bytes@ == row_haystack(line@),
{
    let mut chars: Vec<char> = Vec::new();
    let mut j: usize = 0;
    while j < line.len()
        invariant
            j <= line@.len(),
            chars@ =~= row_chars(line@).take(j as int),
        decreases line@.len() - j,
    {
        chars.push(line[j].c);
        j = j + 1;
    }
    assert(chars@ =~= row_chars(line@));
    let text = string_from_chars(&chars);
    let lower = to_lowercase(text.as_str());
    let b = lower.as_str().as_bytes();
    let mut out: Vec<u8> = Vec::new();
    let mut k: usize = 0;
    while k < b.len()
        invariant
            k <= b@.len(),
            out@ =~= b@.take(k as int),
        decreases b@.len() - k,
    {
        out.push(b[k]);
        k = k + 1;
    }
    assert(out@ =~= b@);
    out
}

impl SearchState {
    /// The current index points at a match, or there are no matches.
    pub open spec fn index_ok(&self) -> bool {
        self.matches@.len() == 0 || self.current < self.matches@.len()
    }

    pub fn new() -> (s: SearchState)
        ensures
            s.query@.len() == 0,
            s.matches@.len() == 0,
            s.current == 0,
            s.index_ok(),
    {
        SearchState { query: String::new(), matches: Vec::new(), current: 0 }
    }

    /// Re-runs the search for `query` over the grid's scrollback (rows
    /// `0..scrollback.len()`) and visible viewport (the rows after it).
    pub fn run(&mut self, grid: &Grid)
        requires
            grid@.scrollback.len() + grid@.visible.len() <= usize::MAX + 1,
        ensures
            final(self).matches@ == search_spec(grid@.scrollback, grid@.visible, old(self).query@),
            final(self).current == 0,
            final(self).query == old(self).query,
            final(self).index_ok(),
    {
        self.matches.clear();
        self.current = 0;
        if self.query.as_str().is_empty() {
            assert(self.matches@ =~= Seq::<Match>::empty());
            return;
        }
        let lower = to_lowercase(self.query.as_str());
        let needle = lower.as_str().as_bytes();
        proof {
            lemma_encode_len(lower@);
        }
        let nchars = char_count(&lower);
        let ghost lines = grid@.scrollback + grid@.visible;
        let ghost nd = needle@;
        let nsb = grid.scrollback.len();
        let mut i: usize = 0;
        while i < nsb
            invariant
                i <= nsb,
                nsb == grid@.scrollback.len(),
                self.current == 0,
                self.query == old(self).query,
                lines == grid@.scrollback + grid@.visible,
                nd == needle@,
                nchars <= needle@.len(),
                self.matches@ == rows_matches(lines, nd, nchars as nat, i as int),
            decreases nsb - i,
        {
            let line = &grid.scrollback[i];
            let text = lowercase_row(line);
            proof {
                assert(lines[i as int] == line@);
            }
            find_in_line(text.as_slice(), needle, nchars, i, &mut self.matches);
            i = i + 1;
        }
        let nvis = grid.visible.len();
        let mut k: usize = 0;
        while k < nvis
            invariant
                k <= nvis,
                nsb == grid@.scrollback.len(),
                nvis == grid@.visible.len(),
                self.current == 0,
                self.query == old(self).query,
                nsb + nvis <= usize::MAX + 1,
                lines == grid@.scrollback + grid@.visible,
                nd == needle@,
                nchars <= needle@.len(),
                self.matches@ == rows_matches(lines, nd, nchars as nat, nsb + k),
            decreases nvis - k,
        {
            let line = &grid.visible[k];
            let text = lowercase_row(line);
            proof {
                assert(lines[nsb + k] == line@);
            }
            find_in_line(text.as_slice(), needle, nchars, nsb + k, &mut self.matches);
            k = k + 1;
        }
        proof {
            assert(lines.len() == nsb + nvis);
        }
    }

    /// Moves to the next match (wrapping around) and returns it.
    pub fn next_match(&mut self) -> (m: Option<Match>)
        requires
            old(self).matches@.len() == 0 || old(self).current < usize::MAX,
        ensures
            final(self).matches == old(self).matches,
            final(self).query == old(self).query,
            old(self).index_ok() ==> final(self).index_ok(),
            old(self).matches@.len() == 0 ==> m is None && final(self).current == old(self).current,
            old(self).matches@.len() > 0 ==> {
                &&& final(self).current == next_index(old(self).current as int, old(self).matches@.len() as int)
                &&& m == Some(old(self).matches@[final(self).current as int])
            },
    {
        if self.matches.len() == 0 {
            return None;
        }
        self.current = (self.current + 1) % self.matches.len();
        Some(self.matches[self.current])
    }

    /// Moves to the previous match (wrapping around) and returns it.
    pub fn prev_match(&mut self) -> (m: Option<Match>)
        requires
            old(self).matches@.len() == 0 || old(self).current <= old(self).matches@.len(),
        ensures
            final(self).matches == old(self).matches,
            final(self).query == old(self).query,
            old(self).index_ok() ==> final(self).index_ok(),
            old(self).matches@.len() == 0 ==> m is None && final(self).current == old(self).current,
            old(self).matches@.len() > 0 ==> {
                &&& final(self).current == prev_index(old(self).current as int, old(self).matches@.len() as int)
                &&& m == Some(old(self).matches@[final(self).current as int])
            },
    {
        if self.matches.len() == 0 {
            return None;
        }
        self.current = if self.current == 0 { self.matches.len() - 1 } else { self.current - 1 };
        Some(self.matches[self.current])
    }
}

/// Number of characters of a string.
fn char_count(s: &String) -> (n: usize)
    ensures
        n == s@.len(),
{
    let bl = s.as_str().as_bytes().len();
    proof {
        lemma_encode_len(s@);
    }
    let mut n: usize = 0;
    for c in iter: s.as_str().chars()
        invariant
            n == iter.index(),
            iter.seq() == s@,
            s@.len() <= bl,
    {
        n = n + 1;
    }
    n
}

} // verus!
