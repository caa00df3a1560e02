use petir::config::{ClipboardConfig, Colors, ScrollConfig};
use petir::keys::{decide_key, key_to_bytes, KeyAction, KeyInput};
use petir::menu::{context_menu_items, item, MenuAction};

fn ch(s: &str) -> KeyInput {
    KeyInput::Character(s.to_string())
}

#[test]
fn config_defaults() {
    let c = ClipboardConfig::default();
    assert!(c.smart_ctrl_c_ctrl_v && c.copy_on_select);
    let s = ScrollConfig::default();
    assert_eq!((s.history_lines, s.lines_per_tick), (100_000, 3));
    let colors = Colors::default();
    assert_eq!(colors.background, "#1e1e1e");
    assert_eq!(colors.foreground, "#d8d8d8");
    assert_eq!(colors.cursor, "#ffffff");
}

#[test]
fn menu_entries() {
    let items = context_menu_items();
    assert_eq!(items.len(), 11);
    assert_eq!(items[0].label, "Copy");
    assert_eq!(items[0].shortcut, "Ctrl+C");
    assert_eq!(items[2].action, None);
    assert_eq!(items[10].action, Some(MenuAction::Clear));
    let i = item("Find", "Ctrl+Shift+F", MenuAction::Search);
    assert_eq!(i.action, Some(MenuAction::Search));
}

#[test]
fn key_bytes() {
    assert_eq!(key_to_bytes(&ch("é")), "é".as_bytes().to_vec());
    assert_eq!(key_to_bytes(&KeyInput::Enter), vec![b'\r']);
    assert_eq!(key_to_bytes(&KeyInput::Backspace), vec![0x7f]);
    assert_eq!(key_to_bytes(&KeyInput::ArrowUp), b"\x1b[A".to_vec());
    assert_eq!(key_to_bytes(&KeyInput::Delete), b"\x1b[3~".to_vec());
    assert_eq!(key_to_bytes(&KeyInput::End), b"\x1b[F".to_vec());
    assert!(key_to_bytes(&KeyInput::Other).is_empty());
}

#[test]
fn shortcuts() {
    assert_eq!(decide_key(true, true, true, &ch("T"), true, false), KeyAction::NewTab);
    assert_eq!(decide_key(true, true, true, &ch("w"), true, false), KeyAction::CloseTab);
    assert_eq!(decide_key(true, true, true, &ch("E"), true, false), KeyAction::SplitHorizontal);
    assert_eq!(decide_key(true, true, true, &ch("d"), true, false), KeyAction::SplitVertical);
    assert_eq!(decide_key(true, true, true, &ch("F"), true, false), KeyAction::ToggleSearch);
    assert_eq!(decide_key(true, true, true, &ch("C"), false, false), KeyAction::CopySelection);
    assert_eq!(decide_key(true, true, true, &ch("v"), false, false), KeyAction::Paste);
    assert_eq!(decide_key(true, true, true, &ch("x"), true, false), KeyAction::SendKey);
}

#[test]
fn smart_ctrl_c_and_ctrl_v() {
    assert_eq!(decide_key(true, true, false, &ch("c"), true, false), KeyAction::CopyOrInterrupt);
    assert_eq!(decide_key(true, true, false, &ch("C"), false, false), KeyAction::Interrupt);
    assert_eq!(decide_key(true, true, false, &ch("v"), true, false), KeyAction::Paste);
    assert_eq!(decide_key(true, true, false, &ch("v"), false, false), KeyAction::SendKey);
    assert_eq!(decide_key(true, true, false, &ch("l"), true, false), KeyAction::ClearScreen);
    assert_eq!(decide_key(true, true, false, &KeyInput::Tab, true, false), KeyAction::FocusNextPane);
}

#[test]
fn escape_and_plain_keys() {
    assert_eq!(decide_key(true, false, false, &KeyInput::Escape, true, true), KeyAction::CloseSearch);
    assert_eq!(decide_key(true, false, false, &KeyInput::Escape, true, false), KeyAction::SendKey);
    assert_eq!(decide_key(false, true, true, &ch("T"), true, false), KeyAction::Ignore);
    assert_eq!(decide_key(true, false, false, &KeyInput::Other, true, false), KeyAction::Ignore);
    assert_eq!(decide_key(true, false, false, &ch("q"), true, false), KeyAction::SendKey);
}

#[test]
fn shortcut_case_does_not_matter() {
    for (upper, lower) in [("T", "t"), ("W", "w"), ("E", "e"), ("D", "d"), ("F", "f"), ("C", "c"), ("V", "v"), ("L", "l"), ("Q", "q")] {
        for ctrl in [false, true] {
            for shift in [false, true] {
                for smart in [false, true] {
                    assert_eq!(
                        decide_key(true, ctrl, shift, &ch(upper), smart, false),
                        decide_key(true, ctrl, shift, &ch(lower), smart, false)
                    );
                }
            }
        }
    }
}
