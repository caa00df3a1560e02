use petir::pane::{split_size, Layout, SplitDir, Tab, TabBar};

fn leaves(l: &Layout) -> Vec<usize> {
    match l {
        Layout::Leaf(i) => vec![*i],
        Layout::Split { first, second, .. } => {
            let mut v = leaves(first);
            v.extend(leaves(second));
            v
        }
    }
}

#[test]
fn replace_leaf_splits_first_match() {
    let mut l = Layout::Leaf(0);
    assert!(l.replace_leaf(0, 1, SplitDir::Horizontal));
    assert_eq!(leaves(&l), vec![0, 1]);
    assert!(l.replace_leaf(0, 2, SplitDir::Vertical));
    assert_eq!(leaves(&l), vec![0, 2, 1]);
    assert!(!l.replace_leaf(7, 3, SplitDir::Vertical));
    assert_eq!(leaves(&l), vec![0, 2, 1]);
    match &l {
        Layout::Split { dir, ratio_permille, .. } => {
            assert_eq!(*dir, SplitDir::Horizontal);
            assert_eq!(*ratio_permille, 500);
        }
        _ => panic!("expected a split"),
    }
}

#[test]
fn split_active_adds_and_focuses_pane() {
    let mut tab: Tab<u32> = Tab::new(10);
    assert_eq!(tab.title, "rterm");
    tab.split_active(SplitDir::Vertical, 20);
    assert_eq!(tab.panes, vec![10, 20]);
    assert_eq!(tab.active_pane, 1);
    tab.active_pane = 0;
    tab.split_active(SplitDir::Horizontal, 30);
    assert_eq!(leaves(&tab.layout), vec![0, 2, 1]);
    assert_eq!(tab.active_pane, 2);
}

#[test]
fn focus_cycles_through_panes() {
    let mut tab: Tab<u32> = Tab::new(1);
    tab.split_active(SplitDir::Horizontal, 2);
    tab.split_active(SplitDir::Horizontal, 3);
    assert_eq!(tab.active_pane, 2);
    tab.focus_next_pane();
    assert_eq!(tab.active_pane, 0);
    tab.focus_next_pane();
    assert_eq!(tab.active_pane, 1);
}

#[test]
fn split_sizes() {
    assert_eq!(split_size(SplitDir::Horizontal, 80, 24), (40, 24));
    assert_eq!(split_size(SplitDir::Vertical, 80, 24), (80, 12));
    assert_eq!(split_size(SplitDir::Horizontal, 1, 1), (1, 1));
    assert_eq!(split_size(SplitDir::Vertical, 0, 0), (1, 1));
}

#[test]
fn tab_bar_keeps_last_tab() {
    let mut bar: TabBar<u32> = TabBar::new(Tab::new(1));
    bar.close_active_tab();
    assert_eq!(bar.tabs.len(), 1);
    bar.new_tab(Tab::new(2));
    bar.new_tab(Tab::new(3));
    assert_eq!(bar.active_tab, 2);
    bar.close_active_tab();
    assert_eq!(bar.tabs.len(), 2);
    assert_eq!(bar.active_tab, 1);
    bar.active_tab = 0;
    bar.close_active_tab();
    assert_eq!(bar.tabs.len(), 1);
    assert_eq!(bar.active_tab, 0);
    assert_eq!(bar.tabs[0].panes, vec![2]);
}

#[test]
fn every_pane_is_shown_exactly_once() {
    let mut tab: Tab<u32> = Tab::new(0);
    for k in 1..8u32 {
        let dir = if k % 2 == 0 { SplitDir::Vertical } else { SplitDir::Horizontal };
        tab.split_active(dir, k);
        if k % 3 == 0 {
            tab.focus_next_pane();
        }
    }
    let mut shown = leaves(&tab.layout);
    shown.sort();
    assert_eq!(shown, (0..8).collect::<Vec<usize>>());
}
