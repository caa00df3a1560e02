//! Right-click context menu entries. Every entry is also a keybinding, and
//! the menu shows that binding next to the label.

use vstd::prelude::*;

verus! {

#[derive(Clone, Copy, Debug, PartialEq, Eq, Structural)]
pub enum MenuAction {
    Copy,
    Paste,
    SplitHorizontal,
    SplitVertical,
    NewTab,
    CloseTab,
    Search,
    Clear,
}

pub struct MenuItem {
    pub label: &'static str,
    /// Shown right-aligned; an empty string renders as a separator row.
    pub shortcut: &'static str,
    /// `None` for a separator row.
    pub action: Option<MenuAction>,
}

/// A selectable entry.
pub fn item(label: &'static str, shortcut: &'static str, action: MenuAction) -> (m: MenuItem)
    ensures
        m.label == label,
        m.shortcut == shortcut,
        m.action == Some(action),
{
    MenuItem { label, shortcut, action: Some(action) }
}

/// A separator row.
pub fn separator() -> (m: MenuItem)
    ensures
        m.label@.len() == 0,
        m.shortcut@.len() == 0,
        m.action is None,
{
    proof {
        reveal_strlit("");
    }
    MenuItem { label: "", shortcut: "", action: None }
}

/// The context menu's rows, top to bottom: copy and paste, the two splits,
/// new and close tab, find and clear, with separators between the groups.
pub fn context_menu_items() -> (items: Vec<MenuItem>)
    ensures
        items@.len() == 11,
        items@[0].label@ == "Copy"@ && items@[0].shortcut@ == "Ctrl+C"@,
        items@[0].action == Some(MenuAction::Copy),
        items@[1].label@ == "Paste"@ && items@[1].shortcut@ == "Ctrl+V"@,
        items@[1].action == Some(MenuAction::Paste),
        items@[2].label@.len() == 0 && items@[2].shortcut@.len() == 0 && items@[2].action is None,
        items@[3].label@ == "Split horizontally"@ && items@[3].shortcut@ == "Ctrl+Shift+E"@,
        items@[3].action == Some(MenuAction::SplitHorizontal),
        items@[4].label@ == "Split vertically"@ && items@[4].shortcut@ == "Ctrl+Shift+D"@,
        items@[4].action == Some(MenuAction::SplitVertical),
        items@[5].label@.len() == 0 && items@[5].shortcut@.len() == 0 && items@[5].action is None,
        items@[6].label@ == "New tab"@ && items@[6].shortcut@ == "Ctrl+Shift+T"@,
        items@[6].action == Some(MenuAction::NewTab),
        items@[7].label@ == "Close tab"@ && items@[7].shortcut@ == "Ctrl+Shift+W"@,
        items@[7].action == Some(MenuAction::CloseTab),
        items@[8].label@.len() == 0 && items@[8].shortcut@.len() == 0 && items@[8].action is None,
        items@[9].label@ == "Find"@ && items@[9].shortcut@ == "Ctrl+Shift+F"@,
        items@[9].action == Some(MenuAction::Search),
        items@[10].label@ == "Clear screen"@ && items@[10].shortcut@ == "Ctrl+L"@,
        items@[10].action == Some(MenuAction::Clear),
{
    let mut items: Vec<MenuItem> = Vec::new();
    items.push(item("Copy", "Ctrl+C", MenuAction::Copy));
    items.push(item("Paste", "Ctrl+V", MenuAction::Paste));
    items.push(separator());
    items.push(item("Split horizontally", "Ctrl+Shift+E", MenuAction::SplitHorizontal));
    items.push(item("Split vertically", "Ctrl+Shift+D", MenuAction::SplitVertical));
    items.push(separator());
    items.push(item("New tab", "Ctrl+Shift+T", MenuAction::NewTab));
    items.push(item("Close tab", "Ctrl+Shift+W", MenuAction::CloseTab));
    items.push(separator());
    items.push(item("Find", "Ctrl+Shift+F", MenuAction::Search));
    items.push(item("Clear screen", "Ctrl+L", MenuAction::Clear));
    items
}

} // verus!
