//! Tabs and split panes: a tab holds a binary tree of panes that tile its
//! viewport, split horizontally (side by side) or vertically (stacked).
//! The tree and the tab bookkeeping are generic over the pane type: the
//! program's panes own a pseudo-terminal.

use vstd::prelude::*;

verus! {

#[derive(Clone, Copy, Debug, PartialEq, Eq, Structural)]
pub enum SplitDir {
    /// Side by side.
    Horizontal,
    /// Stacked.
    Vertical,
}

/// Share of a split given to its first child when it is created: a half.
pub const HALF_PERMILLE: u16 = 500;

/// A binary tree describing how panes tile a tab's viewport.
pub enum Layout {
    /// Index into the tab's panes.
    Leaf(usize),
    Split {
        dir: SplitDir,
        /// Share of the space given to `first`, in thousandths.
        ratio_permille: u16,
        first: Box<Layout>,
        second: Box<Layout>,
    },
}

impl Layout {
    /// The panes of the tree, left to right (first child before second).
    pub open spec fn leaves(self) -> Seq<usize>
        decreases self,
    {
        match self {
            Layout::Leaf(i) => seq![i],
            Layout::Split { first, second, .. } => first.leaves() + second.leaves(),
        }
    }

    /// The tree with the first leaf showing `target` split in direction
    /// `dir`: the old pane first, `new_leaf` second, half each. The flag
    /// says whether such a leaf was found (the tree is unchanged if not).
    pub open spec fn replaced(self, target: usize, new_leaf: usize, dir: SplitDir) -> (Layout, bool)
        decreases self,
    {
        match self {
            Layout::Leaf(i) => if i == target {
                (
                    Layout::Split {
                        dir,
                        ratio_permille: HALF_PERMILLE,
                        first: Box::new(Layout::Leaf(target)),
                        second: Box::new(Layout::Leaf(new_leaf)),
                    },
                    true,
                )
            } else {
                (self, false)
            },
            Layout::Split { dir: d, ratio_permille, first, second } => {
                let (f2, found) = (*first).replaced(target, new_leaf, dir);
                if found {
                    (Layout::Split { dir: d, ratio_permille, first: Box::new(f2), second }, true)
                } else {
                    let (s2, found2) = (*second).replaced(target, new_leaf, dir);
                    (Layout::Split { dir: d, ratio_permille, first, second: Box::new(s2) }, found2)
                }
            },
        }
    }

    fn replaced_exec(self, target: usize, new_leaf: usize, dir: SplitDir) -> (r: (Layout, bool))
        ensures
            r == self.replaced(target, new_leaf, dir),
        decreases self,
    {
        match self {
            Layout::Leaf(i) => {
                if i == target {
                    (
                        Layout::Split {
                            dir,
                            ratio_permille: HALF_PERMILLE,
                            first: Box::new(Layout::Leaf(target)),
                            second: Box::new(Layout::Leaf(new_leaf)),
                        },
                        true,
                    )
                } else {
                    (Layout::Leaf(i), false)
                }
            },
            Layout::Split { dir: d, ratio_permille, first, second } => {
                proof {
                    lemma_replace_leaves(*first, target, new_leaf, dir);
                }
                let (f2, found) = (*first).replaced_exec(target, new_leaf, dir);
                if found {
                    (Layout::Split { dir: d, ratio_permille, first: Box::new(f2), second }, true)
                } else {
                    let (s2, found2) = (*second).replaced_exec(target, new_leaf, dir);
                    (Layout::Split { dir: d, ratio_permille, first: Box::new(f2), second: Box::new(s2) }, found2)
                }
            },
        }
    }

    /// Splits the first leaf showing `target` (see `replaced`); returns whether
    /// it found one.
    pub fn replace_leaf(&mut self, target: usize, new_leaf: usize, dir: SplitDir) -> (found: bool)
        ensures
            (*final(self), found) == old(self).replaced(target, new_leaf, dir),
    {
        let mut l = Layout::Leaf(0);
        std::mem::swap(&mut l, self);
        let (l2, found) = l.replaced_exec(target, new_leaf, dir);
        *self = l2;
        found
    }
}

/// `s` with `new_leaf` inserted right after the first `target`.
pub open spec fn insert_after_first(s: Seq<usize>, target: usize, new_leaf: usize) -> Seq<usize>
    decreases s.len(),
{
    if s.len() == 0 {
        s
    } else if s[0] == target {
        seq![target, new_leaf] + s.drop_first()
    } else {
        seq![s[0]] + insert_after_first(s.drop_first(), target, new_leaf)
    }
}

proof fn lemma_contains_cons(s: Seq<usize>, x: usize)
    requires
        s.len() > 0,
    ensures
        s.contains(x) == (s[0] == x || s.drop_first().contains(x)),
{
    if s.contains(x) {
        let k = choose|k: int| 0 <= k < s.len() && s[k] == x;
        if k > 0 {
            assert(s.drop_first()[k - 1] == x);
        }
    }
    if s.drop_first().contains(x) {
        let k = choose|k: int| 0 <= k < s.drop_first().len() && s.drop_first()[k] == x;
        assert(s[k + 1] == x);
    }
}

proof fn lemma_insert_concat(a: Seq<usize>, b: Seq<usize>, t: usize, n: usize)
    ensures
        (a + b).contains(t) == (a.contains(t) || b.contains(t)),
        insert_after_first(a + b, t, n) == (if a.contains(t) {
            insert_after_first(a, t, n) + b
        } else {
            a + insert_after_first(b, t, n)
        }),
    decreases a.len(),
{
    if a.len() == 0 {
        assert(a + b =~= b);
        assert(!a.contains(t));
    } else {
        lemma_insert_concat(a.drop_first(), b, t, n);
        assert((a + b).drop_first() =~= a.drop_first() + b);
        assert((a + b)[0] == a[0]);
        lemma_contains_cons(a, t);
        lemma_contains_cons(a + b, t);
        if a[0] == t {
            assert(insert_after_first(a + b, t, n) =~= insert_after_first(a, t, n) + b);
        } else if a.drop_first().contains(t) {
            assert(insert_after_first(a + b, t, n) =~= insert_after_first(a, t, n) + b);
        } else {
            assert(insert_after_first(a + b, t, n) =~= a + insert_after_first(b, t, n));
        }
    }
}

proof fn lemma_insert_absent(s: Seq<usize>, t: usize, n: usize)
    requires
        !s.contains(t),
    ensures
        insert_after_first(s, t, n) == s,
    decreases s.len(),
{
    if s.len() > 0 {
        lemma_contains_cons(s, t);
        lemma_insert_absent(s.drop_first(), t, n);
        assert(insert_after_first(s, t, n) =~= s);
    }
}

/// Every leaf after the insertion is the new one or an old one.
proof fn lemma_insert_members(s: Seq<usize>, t: usize, n: usize)
    ensures
        forall|k: int| 0 <= k < insert_after_first(s, t, n).len() ==> (#[trigger] insert_after_first(s, t, n)[k] == n
            || s.contains(insert_after_first(s, t, n)[k])),
    decreases s.len(),
{
    if s.len() > 0 {
        lemma_insert_members(s.drop_first(), t, n);
        let r = insert_after_first(s, t, n);
        assert forall|k: int| 0 <= k < r.len() implies (#[trigger] r[k] == n || s.contains(r[k])) by {
            if s[0] == t {
                if k == 0 {
                    assert(s[0] == r[k]);
                } else if k >= 2 {
                    assert(s[k - 1] == r[k]);
                }
            } else {
                if k == 0 {
                    assert(s[0] == r[k]);
                } else {
                    let r2 = insert_after_first(s.drop_first(), t, n);
                    assert(r[k] == r2[k - 1]);
                    if s.drop_first().contains(r[k]) {
                        lemma_contains_cons(s, r[k]);
                    }
                }
            }
        }
    }
}

/// Inserting keeps every old leaf, adds the new one when the target is
/// there, and adds no duplicate when the new leaf was not there before.
proof fn lemma_insert_keeps(s: Seq<usize>, t: usize, n: usize)
    ensures
        forall|x: usize| s.contains(x) ==> #[trigger] insert_after_first(s, t, n).contains(x),
        s.contains(t) ==> insert_after_first(s, t, n).contains(n),
        s.no_duplicates() && !s.contains(n) ==> insert_after_first(s, t, n).no_duplicates(),
    decreases s.len(),
{
    if s.len() > 0 {
        let rest = s.drop_first();
        let r = insert_after_first(s, t, n);
        lemma_insert_keeps(rest, t, n);
        lemma_contains_cons(s, t);
        assert forall|x: usize| s.contains(x) implies #[trigger] r.contains(x) by {
            lemma_contains_cons(s, x);
            if s[0] == x {
                assert(r[0] == x);
            } else if s[0] == t {
                let k = choose|k: int| 0 <= k < rest.len() && rest[k] == x;
                assert(r[k + 2] == x);
            } else {
                let r2 = insert_after_first(rest, t, n);
                assert(r2.contains(x));
                let k = choose|k: int| 0 <= k < r2.len() && r2[k] == x;
                assert(r[k + 1] == x);
            }
        }
        if s.contains(t) {
            if s[0] == t {
                assert(r[1] == n);
            } else {
                let r2 = insert_after_first(rest, t, n);
                assert(rest.contains(t));
                let k = choose|k: int| 0 <= k < r2.len() && r2[k] == n;
                assert(r[k + 1] == n);
            }
        }
        if s.no_duplicates() && !s.contains(n) {
            assert(rest.no_duplicates()) by {
                assert forall|i: int, j: int| 0 <= i < rest.len() && 0 <= j < rest.len() && i != j implies rest[i] != rest[j] by {
                    assert(rest[i] == s[i + 1] && rest[j] == s[j + 1]);
                }
            }
            assert(!rest.contains(n)) by {
                if rest.contains(n) {
                    lemma_contains_cons(s, n);
                }
            }
            assert(!rest.contains(s[0])) by {
                if rest.contains(s[0]) {
                    let k = choose|k: int| 0 <= k < rest.len() && rest[k] == s[0];
                    assert(s[k + 1] == s[0]);
                }
            }
            assert(s[0] != n) by {
                assert(s.contains(s[0]));
            }
            if s[0] == t {
                assert forall|i: int, j: int| 0 <= i < r.len() && 0 <= j < r.len() && i != j implies r[i] != r[j] by {
                    if i >= 2 && j >= 2 {
                        assert(r[i] == rest[i - 2] && r[j] == rest[j - 2]);
                    } else if i >= 2 {
                        assert(r[i] == rest[i - 2]);
                    } else if j >= 2 {
                        assert(r[j] == rest[j - 2]);
                    }
                }
            } else {
                let r2 = insert_after_first(rest, t, n);
                lemma_insert_members(rest, t, n);
                assert forall|i: int, j: int| 0 <= i < r.len() && 0 <= j < r.len() && i != j implies r[i] != r[j] by {
                    if i >= 1 && j >= 1 {
                        assert(r[i] == r2[i - 1] && r[j] == r2[j - 1]);
                    } else if i >= 1 {
                        assert(r[i] == r2[i - 1]);
                        assert(r2[i - 1] == n || rest.contains(r2[i - 1]));
                    } else if j >= 1 {
                        assert(r[j] == r2[j - 1]);
                        assert(r2[j - 1] == n || rest.contains(r2[j - 1]));
                    }
                }
            }
        }
    }
}

/// A split finds its target exactly when the tree shows that pane, and the
/// new pane then comes right after the first leaf that showed it.
pub proof fn lemma_replace_leaves(l: Layout, target: usize, new_leaf: usize, dir: SplitDir)
    ensures
        l.replaced(target, new_leaf, dir).1 == l.leaves().contains(target),
        l.replaced(target, new_leaf, dir).0.leaves() == insert_after_first(l.leaves(), target, new_leaf),
        !l.replaced(target, new_leaf, dir).1 ==> l.replaced(target, new_leaf, dir).0 == l,
    decreases l,
{
    match l {
        Layout::Leaf(i) => {
            lemma_contains_cons(l.leaves(), target);
            assert(l.leaves().drop_first() =~= Seq::<usize>::empty());
            if i == target {
                assert(insert_after_first(l.leaves(), target, new_leaf) =~= seq![target, new_leaf]);
                let first = Layout::Leaf(target);
                let second = Layout::Leaf(new_leaf);
                assert(first.leaves() == seq![target]);
                assert(second.leaves() == seq![new_leaf]);
                assert(l.replaced(target, new_leaf, dir).0.leaves() =~= seq![target, new_leaf]);
            } else {
                assert(insert_after_first(l.leaves().drop_first(), target, new_leaf) =~= Seq::<usize>::empty());
                assert(insert_after_first(l.leaves(), target, new_leaf) =~= l.leaves());
            }
        },
        Layout::Split { dir: d, ratio_permille, first, second } => {
            lemma_replace_leaves(*first, target, new_leaf, dir);
            lemma_replace_leaves(*second, target, new_leaf, dir);
            lemma_insert_concat(first.leaves(), second.leaves(), target, new_leaf);
            if !first.leaves().contains(target) {
                lemma_insert_absent(first.leaves(), target, new_leaf);
            }
        },
    }
}

/// Whether `node` is `l` itself or one of its subtrees.
pub open spec fn has_node(l: Layout, node: Layout) -> bool
    decreases l,
{
    l == node || match l {
        Layout::Leaf(_) => false,
        Layout::Split { first, second, .. } => has_node(*first, node) || has_node(*second, node),
    }
}

/// Splitting a pane, wherever it sits in the tree, puts in its place a split
/// in the requested direction, half each, with the old pane first and the new
/// one second.
pub proof fn law_split_has_requested_dir(l: Layout, target: usize, new_leaf: usize, dir: SplitDir)
    requires
        l.leaves().contains(target),
    ensures
        has_node(
            l.replaced(target, new_leaf, dir).0,
            Layout::Split {
                dir,
                ratio_permille: 500,
                first: Box::new(Layout::Leaf(target)),
                second: Box::new(Layout::Leaf(new_leaf)),
            },
        ),
    decreases l,
{
    match l {
        Layout::Leaf(i) => {
            assert(l.leaves()[0] == i);
            let k = choose|k: int| 0 <= k < l.leaves().len() && l.leaves()[k] == target;
            assert(k == 0);
        },
        Layout::Split { dir: d, ratio_permille, first, second } => {
            lemma_replace_leaves(*first, target, new_leaf, dir);
            lemma_insert_concat(first.leaves(), second.leaves(), target, new_leaf);
            if first.leaves().contains(target) {
                law_split_has_requested_dir(*first, target, new_leaf, dir);
            } else {
                law_split_has_requested_dir(*second, target, new_leaf, dir);
            }
        },
    }
}

/// Size (columns, rows) for a pane split off a viewport of `cols` x `rows`:
/// half the width for a horizontal split, half the height for a vertical
/// one, at least one of each.
pub open spec fn split_size_spec(dir: SplitDir, cols: u16, rows: u16) -> (u16, u16) {
    let (c, r) = match dir {
        SplitDir::Horizontal => ((cols / 2) as u16, rows),
        SplitDir::Vertical => (cols, (rows / 2) as u16),
    };
    (if c < 1 { 1 } else { c }, if r < 1 { 1 } else { r })
}

pub fn split_size(dir: SplitDir, cols: u16, rows: u16) -> (r: (u16, u16))
    ensures
        r == split_size_spec(dir, cols, rows),
{
    let (c, r) = match dir {
        SplitDir::Horizontal => (cols / 2, rows),
        SplitDir::Vertical => (cols, rows / 2),
    };
    (if c < 1 { 1 } else { c }, if r < 1 { 1 } else { r })
}

pub struct Tab<P> {
    pub title: String,
    pub panes: Vec<P>,
    pub layout: Layout,
    pub active_pane: usize,
}

impl<P> Tab<P> {
    /// A tab keeps a pane in focus, and its layout shows every pane it has
    /// exactly once and nothing else.
    pub open spec fn wf(&self) -> bool {
        &&& self.active_pane < self.panes@.len()
        &&& forall|k: int| 0 <= k < self.layout.leaves().len() ==> #[trigger] self.layout.leaves()[k] < self.panes@.len()
        &&& forall|i: usize| i < self.panes@.len() ==> #[trigger] self.layout.leaves().contains(i)
        &&& self.layout.leaves().no_duplicates()
    }

    /// A tab with one pane filling it.
    pub fn new(pane: P) -> (t: Tab<P>)
        ensures
            t.wf(),
            t.title@ == "rterm"@,
            t.panes@ == seq![pane],
            t.layout == Layout::Leaf(0),
            t.active_pane == 0,
    {
        let mut panes: Vec<P> = Vec::new();
        panes.push(pane);
        let t = Tab { title: "rterm".to_owned(), panes, layout: Layout::Leaf(0), active_pane: 0 };
        assert(t.layout.leaves()[0] == 0);
        t
    }

    /// Adds `pane` by splitting the active pane in direction `dir`; the new
    /// pane becomes the active one.
    pub fn split_active(&mut self, dir: SplitDir, pane: P)
        requires
            old(self).wf(),
        ensures
            final(self).wf(),
            final(self).panes@ == old(self).panes@.push(pane),
            final(self).layout == old(self).layout.replaced(old(self).active_pane, old(self).panes@.len() as usize, dir).0,
            final(self).active_pane == old(self).panes@.len(),
            final(self).title == old(self).title,
    {
        let new_idx = self.panes.len();
        self.panes.push(pane);
        proof {
            lemma_replace_leaves(self.layout, self.active_pane, new_idx, dir);
        }
        let ghost old_leaves = self.layout.leaves();
        let _ = self.layout.replace_leaf(self.active_pane, new_idx, dir);
        proof {
            lemma_insert_members(old_leaves, old(self).active_pane, new_idx);
            lemma_insert_keeps(old_leaves, old(self).active_pane, new_idx);
            let l = self.layout.leaves();
            assert forall|k: int| 0 <= k < l.len() implies #[trigger] l[k] < self.panes@.len() by {
                if l[k] != new_idx {
                    let j = choose|j: int| 0 <= j < old_leaves.len() && old_leaves[j] == l[k];
                    assert(old_leaves[j] < old(self).panes@.len());
                }
            }
            assert(!old_leaves.contains(new_idx)) by {
                if old_leaves.contains(new_idx) {
                    let j = choose|j: int| 0 <= j < old_leaves.len() && old_leaves[j] == new_idx;
                    assert(old_leaves[j] < old(self).panes@.len());
                }
            }
            assert(old_leaves.contains(old(self).active_pane));
            assert forall|i: usize| i < self.panes@.len() implies #[trigger] l.contains(i) by {
                if i < old(self).panes@.len() {
                    assert(old_leaves.contains(i));
                }
            }
        }
        self.active_pane = new_idx;
    }

    /// The pane in focus, to change in place.
    pub fn active_pane_mut(&mut self) -> (p: &mut P)
        requires
            old(self).active_pane < old(self).panes@.len(),
        ensures
            *p == old(self).panes@[old(self).active_pane as int],
            final(self).panes@ == old(self).panes@.update(old(self).active_pane as int, *final(p)),
            final(self).active_pane == old(self).active_pane,
            final(self).layout == old(self).layout,
            final(self).title == old(self).title,
            old(self).wf() ==> final(self).wf(),
    {
        &mut self.panes[self.active_pane]
    }

    /// Moves focus to the next pane in creation order, wrapping around.
    pub fn focus_next_pane(&mut self)
        requires
            old(self).panes@.len() == 0 || old(self).active_pane < usize::MAX,
        ensures
            final(self).active_pane == (if old(self).panes@.len() == 0 {
                old(self).active_pane as int
            } else {
                (old(self).active_pane + 1) % (old(self).panes@.len() as int)
            }),
            final(self).panes == old(self).panes,
            final(self).layout == old(self).layout,
            final(self).title == old(self).title,
            old(self).wf() ==> final(self).wf(),
    {
        if self.panes.len() == 0 {
            return;
        }
        self.active_pane = (self.active_pane + 1) % self.panes.len();
    }
}

pub struct TabBar<P> {
    pub tabs: Vec<Tab<P>>,
    pub active_tab: usize,
}

impl<P> TabBar<P> {
    /// There is always a tab, and one of them is active.
    pub open spec fn wf(&self) -> bool {
        &&& self.tabs@.len() >= 1
        &&& self.active_tab < self.tabs@.len()
    }

    pub fn new(tab: Tab<P>) -> (b: TabBar<P>)
        ensures
            b.wf(),
            b.tabs@ == seq![tab],
            b.active_tab == 0,
    {
        let mut tabs: Vec<Tab<P>> = Vec::new();
        tabs.push(tab);
        TabBar { tabs, active_tab: 0 }
    }

    /// Adds a tab at the end and makes it the active one.
    pub fn new_tab(&mut self, tab: Tab<P>)
        ensures
            final(self).wf(),
            final(self).tabs@ == old(self).tabs@.push(tab),
            final(self).active_tab == old(self).tabs@.len(),
    {
        self.tabs.push(tab);
        self.active_tab = self.tabs.len() - 1;
    }

    /// The tab in focus, to change in place.
    pub fn active_tab_mut(&mut self) -> (t: &mut Tab<P>)
        requires
            old(self).active_tab < old(self).tabs@.len(),
        ensures
            *t == old(self).tabs@[old(self).active_tab as int],
            final(self).tabs@ == old(self).tabs@.update(old(self).active_tab as int, *final(t)),
            final(self).active_tab == old(self).active_tab,
    {
        &mut self.tabs[self.active_tab]
    }

    /// Closes the active tab unless it is the last one; the tab after it
    /// (or the new last tab) becomes active.
    pub fn close_active_tab(&mut self)
        requires
            old(self).tabs@.len() <= 1 || old(self).active_tab < old(self).tabs@.len(),
        ensures
            old(self).tabs@.len() <= 1 ==> final(self).tabs@ == old(self).tabs@ && final(self).active_tab
                == old(self).active_tab,
            old(self).tabs@.len() > 1 ==> {
                &&& final(self).tabs@ == old(self).tabs@.remove(old(self).active_tab as int)
                &&& final(self).active_tab == (if old(self).active_tab < final(self).tabs@.len() {
                    old(self).active_tab as int
                } else {
                    final(self).tabs@.len() - 1
                })
            },
            old(self).tabs@.len() > 1 ==> final(self).wf(),
    {
        if self.tabs.len() <= 1 {
            return;
        }
        let _ = self.tabs.remove(self.active_tab);
        if self.active_tab >= self.tabs.len() {
            self.active_tab = self.tabs.len() - 1;
        }
    }
}

} // verus!
