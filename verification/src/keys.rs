//! Keyboard input: which keys are application shortcuts, and the bytes the
//! other keys send to the shell.

use vstd::prelude::*;
use vstd::string::StringSliceAdditionalSpecFns;
use vstd::utf8::encode_utf8;

verus! {

/// A key press, as far as the terminal distinguishes keys.
pub enum KeyInput {
    /// A key that produces text.
    Character(String),
    Enter,
    Backspace,
    Tab,
    Space,
    ArrowUp,
    ArrowDown,
    ArrowRight,
    ArrowLeft,
    Escape,
    Delete,
    Home,
    End,
    Other,
}

/// The bytes a key sends to the shell (none for keys the terminal ignores).
pub open spec fn key_bytes(k: KeyInput) -> Seq<u8> {
    match k {
        KeyInput::Character(s) => encode_utf8(s@),
        KeyInput::Enter => seq![0x0du8],
        KeyInput::Backspace => seq![0x7fu8],
        KeyInput::Tab => seq![0x09u8],
        KeyInput::Space => seq![0x20u8],
        KeyInput::ArrowUp => seq![0x1bu8, 0x5bu8, 0x41u8],
        KeyInput::ArrowDown => seq![0x1bu8, 0x5bu8, 0x42u8],
        KeyInput::ArrowRight => seq![0x1bu8, 0x5bu8, 0x43u8],
        KeyInput::ArrowLeft => seq![0x1bu8, 0x5bu8, 0x44u8],
        KeyInput::Escape => seq![0x1bu8],
        KeyInput::Delete => seq![0x1bu8, 0x5bu8, 0x33u8, 0x7eu8],
        KeyInput::Home => seq![0x1bu8, 0x5bu8, 0x48u8],
        KeyInput::End => seq![0x1bu8, 0x5bu8, 0x46u8],
        KeyInput::Other => Seq::empty(),
    }
}

fn push_all(out: &mut Vec<u8>, bytes: &[u8])
    ensures
        final(out)@ == old(out)@ + bytes@,
{
    let mut i: usize = 0;
    while i < bytes.len()
        invariant
            i <= bytes@.len(),
            out@ == old(out)@ + bytes@.take(i as int),
        decreases bytes@.len() - i,
    {
        out.push(bytes[i]);
        assert(bytes@.take(i + 1) =~= bytes@.take(i as int).push(bytes@[i as int]));
        i = i + 1;
    }
    assert(bytes@.take(i as int) =~= bytes@);
}

pub fn key_to_bytes(key: &KeyInput) -> (out: Vec<u8>)
    ensures
        out@ == key_bytes(*key),
{
    let mut out: Vec<u8> = Vec::new();
    match key {
        KeyInput::Character(s) => {
            push_all(&mut out, s.as_str().as_bytes());
            assert(out@ =~= encode_utf8(s@));
        },
        KeyInput::Enter => out.push(0x0d),
        KeyInput::Backspace => out.push(0x7f),
        KeyInput::Tab => out.push(0x09),
        KeyInput::Space => out.push(0x20),
        KeyInput::ArrowUp => {
            out.push(0x1b);
            out.push(0x5b);
            out.push(0x41);
        },
        KeyInput::ArrowDown => {
            out.push(0x1b);
            out.push(0x5b);
            out.push(0x42);
        },
        KeyInput::ArrowRight => {
            out.push(0x1b);
            out.push(0x5b);
            out.push(0x43);
        },
        KeyInput::ArrowLeft => {
            out.push(0x1b);
            out.push(0x5b);
            out.push(0x44);
        },
        KeyInput::Escape => out.push(0x1b),
        KeyInput::Delete => {
            out.push(0x1b);
            out.push(0x5b);
            out.push(0x33);
            out.push(0x7e);
        },
        KeyInput::Home => {
            out.push(0x1b);
            out.push(0x5b);
            out.push(0x48);
        },
        KeyInput::End => {
            out.push(0x1b);
            out.push(0x5b);
            out.push(0x46);
        },
        KeyInput::Other => {},
    }
    assert(out@ =~= key_bytes(*key));
    out
}

/// What a key press asks of the program.
#[derive(Clone, Copy, Debug, PartialEq, Eq, Structural)]
pub enum KeyAction {
    NewTab,
    CloseTab,
    SplitHorizontal,
    SplitVertical,
    ToggleSearch,
    /// Copy the selection, if any.
    CopySelection,
    Paste,
    /// Copy the selection when there is one worth copying; otherwise send
    /// SIGINT (0x03) to the shell.
    CopyOrInterrupt,
    /// Send SIGINT (0x03) to the shell.
    Interrupt,
    ClearScreen,
    FocusNextPane,
    CloseSearch,
    /// Send the key's bytes (`key_to_bytes`) to the shell.
    SendKey,
    Ignore,
}

/// Whether a character key is the ASCII letter `upper` or its lowercase form.
pub open spec fn is_letter(k: KeyInput, upper: u8) -> bool {
    k matches KeyInput::Character(s) && (encode_utf8(s@) == seq![upper] || encode_utf8(s@) == seq![
        (upper + 0x20) as u8,
    ])
}

/// The decision for a key press. With Ctrl+Shift: T new tab, W close tab,
/// E split horizontally, D split vertically, F toggle search, C copy, V
/// paste. With Ctrl alone: C copies or interrupts (plain interrupt when
/// smart copy/paste is off), V pastes (when smart copy/paste is on), L
/// clears the screen, Tab focuses the next pane. Escape closes an open
/// search. Any other key (and one that fell through) sends its bytes.
pub open spec fn key_action(pressed: bool, ctrl: bool, shift: bool, k: KeyInput, smart: bool, search_active: bool) -> KeyAction {
    if !pressed {
        KeyAction::Ignore
    } else if ctrl && shift && is_letter(k, 0x54) {
        KeyAction::NewTab
    } else if ctrl && shift && is_letter(k, 0x57) {
        KeyAction::CloseTab
    } else if ctrl && shift && is_letter(k, 0x45) {
        KeyAction::SplitHorizontal
    } else if ctrl && shift && is_letter(k, 0x44) {
        KeyAction::SplitVertical
    } else if ctrl && shift && is_letter(k, 0x46) {
        KeyAction::ToggleSearch
    } else if ctrl && shift && is_letter(k, 0x43) {
        KeyAction::CopySelection
    } else if ctrl && shift && is_letter(k, 0x56) {
        KeyAction::Paste
    } else if ctrl && !shift && is_letter(k, 0x43) {
        if smart { KeyAction::CopyOrInterrupt } else { KeyAction::Interrupt }
    } else if ctrl && !shift && is_letter(k, 0x56) && smart {
        KeyAction::Paste
    } else if ctrl && !shift && is_letter(k, 0x4c) {
        KeyAction::ClearScreen
    } else if ctrl && !shift && k is Tab {
        KeyAction::FocusNextPane
    } else if k is Escape && search_active {
        KeyAction::CloseSearch
    } else if key_bytes(k).len() > 0 {
        KeyAction::SendKey
    } else {
        KeyAction::Ignore
    }
}

fn letter_is(key: &KeyInput, upper: u8) -> (b: bool)
    requires
        0x41 <= upper <= 0x5a,
    ensures
        b == is_letter(*key, upper),
{
    match key {
        KeyInput::Character(s) => {
            let bytes = s.as_str().as_bytes();
            let r = bytes.len() == 1 && (bytes[0] == upper || bytes[0] == upper + 0x20);
            proof {
                if r {
                    if bytes[0] == upper {
                        assert(bytes@ =~= seq![upper]);
                    } else {
                        assert(bytes@ =~= seq![(upper + 0x20) as u8]);
                    }
                } else {
                    assert(bytes@ != seq![upper]);
                    assert(bytes@ != seq![(upper + 0x20) as u8]);
                }
            }
            r
        },
        _ => false,
    }
}

pub fn decide_key(pressed: bool, ctrl: bool, shift: bool, key: &KeyInput, smart_ctrl_c_ctrl_v: bool, search_active: bool) -> (a: KeyAction)
    ensures
        a == key_action(pressed, ctrl, shift, *key, smart_ctrl_c_ctrl_v, search_active),
{
    if !pressed {
        return KeyAction::Ignore;
    }
    if ctrl && shift {
        if letter_is(key, 0x54) {
            return KeyAction::NewTab;
        }
        if letter_is(key, 0x57) {
            return KeyAction::CloseTab;
        }
        if letter_is(key, 0x45) {
            return KeyAction::SplitHorizontal;
        }
        if letter_is(key, 0x44) {
            return KeyAction::SplitVertical;
        }
        if letter_is(key, 0x46) {
            return KeyAction::ToggleSearch;
        }
        if letter_is(key, 0x43) {
            return KeyAction::CopySelection;
        }
        if letter_is(key, 0x56) {
            return KeyAction::Paste;
        }
    }
    if ctrl && !shift {
        if letter_is(key, 0x43) {
            return if smart_ctrl_c_ctrl_v { KeyAction::CopyOrInterrupt } else { KeyAction::Interrupt };
        }
        if letter_is(key, 0x56) && smart_ctrl_c_ctrl_v {
            return KeyAction::Paste;
        }
        if letter_is(key, 0x4c) {
            return KeyAction::ClearScreen;
        }
        if let KeyInput::Tab = key {
            return KeyAction::FocusNextPane;
        }
    }
    if let KeyInput::Escape = key {
        if search_active {
            return KeyAction::CloseSearch;
        }
    }
    let bytes = key_to_bytes(key);
    if bytes.len() > 0 {
        KeyAction::SendKey
    } else {
        KeyAction::Ignore
    }
}

/// Shortcuts ignore the letter's case: a key typing an ASCII capital and the
/// key typing its lowercase form get the same decision in every state.
pub proof fn law_shortcuts_ignore_case(
    upper_key: KeyInput,
    lower_key: KeyInput,
    upper: u8,
    pressed: bool,
    ctrl: bool,
    shift: bool,
    smart: bool,
    search_active: bool,
)
    requires
        0x41 <= upper <= 0x5a,
        upper_key matches KeyInput::Character(s) && encode_utf8(s@) == seq![upper],
        lower_key matches KeyInput::Character(s) && encode_utf8(s@) == seq![(upper + 0x20) as u8],
    ensures
        key_action(pressed, ctrl, shift, upper_key, smart, search_active) == key_action(
            pressed,
            ctrl,
            shift,
            lower_key,
            smart,
            search_active,
        ),
{
    assert forall|x: u8| 0x41 <= x <= 0x5a implies is_letter(upper_key, x) == is_letter(lower_key, x) by {
        let su = seq![upper];
        let sl = seq![(upper + 0x20) as u8];
        let sx = seq![x];
        let sx2 = seq![(x + 0x20) as u8];
        assert(su == sx ==> su[0] == sx[0]);
        assert(su == sx2 ==> su[0] == sx2[0]);
        assert(sl == sx ==> sl[0] == sx[0]);
        assert(sl == sx2 ==> sl[0] == sx2[0]);
        if upper == x {
            assert(su =~= sx);
            assert(sl =~= sx2);
        }
    }
    assert(is_letter(upper_key, 0x54) == is_letter(lower_key, 0x54));
    assert(is_letter(upper_key, 0x57) == is_letter(lower_key, 0x57));
    assert(is_letter(upper_key, 0x45) == is_letter(lower_key, 0x45));
    assert(is_letter(upper_key, 0x44) == is_letter(lower_key, 0x44));
    assert(is_letter(upper_key, 0x46) == is_letter(lower_key, 0x46));
    assert(is_letter(upper_key, 0x43) == is_letter(lower_key, 0x43));
    assert(is_letter(upper_key, 0x56) == is_letter(lower_key, 0x56));
    assert(is_letter(upper_key, 0x4c) == is_letter(lower_key, 0x4c));
}

/// Ctrl+C copies when there is something to copy and interrupts otherwise,
/// as long as smart copy/paste is on; with it off, Ctrl+C always interrupts.
/// Ctrl+Shift+C always copies. None of this depends on the search box.
pub proof fn law_ctrl_c(k: KeyInput, smart: bool, search_active: bool)
    requires
        is_letter(k, 0x43),
    ensures
        key_action(true, true, false, k, smart, search_active) == (if smart {
            KeyAction::CopyOrInterrupt
        } else {
            KeyAction::Interrupt
        }),
        key_action(true, true, true, k, smart, search_active) == KeyAction::CopySelection,
{
    let s = k->Character_0;
    let e = encode_utf8(s@);
    assert forall|x: u8| 0x41 <= x <= 0x5a && x != 0x43 implies !is_letter(k, x) by {
        let sx = seq![x];
        let sx2 = seq![(x + 0x20) as u8];
        assert(e == sx ==> e[0] == sx[0]);
        assert(e == sx2 ==> e[0] == sx2[0]);
        assert(e == seq![0x43u8] ==> e[0] == 0x43);
        assert(e == seq![0x63u8] ==> e[0] == 0x63);
    }
    assert(!is_letter(k, 0x54));
    assert(!is_letter(k, 0x57));
    assert(!is_letter(k, 0x45));
    assert(!is_letter(k, 0x44));
    assert(!is_letter(k, 0x46));
}

/// The cursor keys send `ESC [` and their own final letter: A up, B down,
/// C right, D left; Home and End send `ESC [ H` and `ESC [ F`, Delete
/// `ESC [ 3 ~`. Enter sends CR, Backspace DEL, Tab HT, Space a space and
/// Escape ESC. A text key sends its text in UTF-8.
pub proof fn law_key_bytes(s: String)
    ensures
        key_bytes(KeyInput::ArrowUp) == seq![0x1bu8, 0x5bu8, 0x41u8],
        key_bytes(KeyInput::ArrowDown) == seq![0x1bu8, 0x5bu8, 0x42u8],
        key_bytes(KeyInput::ArrowRight) == seq![0x1bu8, 0x5bu8, 0x43u8],
        key_bytes(KeyInput::ArrowLeft) == seq![0x1bu8, 0x5bu8, 0x44u8],
        key_bytes(KeyInput::Home) == seq![0x1bu8, 0x5bu8, 0x48u8],
        key_bytes(KeyInput::End) == seq![0x1bu8, 0x5bu8, 0x46u8],
        key_bytes(KeyInput::Delete) == seq![0x1bu8, 0x5bu8, 0x33u8, 0x7eu8],
        key_bytes(KeyInput::Enter) == seq![0x0du8],
        key_bytes(KeyInput::Backspace) == seq![0x7fu8],
        key_bytes(KeyInput::Tab) == seq![0x09u8],
        key_bytes(KeyInput::Space) == seq![0x20u8],
        key_bytes(KeyInput::Escape) == seq![0x1bu8],
        key_bytes(KeyInput::Other).len() == 0,
        key_bytes(KeyInput::Character(s)) == encode_utf8(s@),
{
}

/// No two keys that send bytes of their own send the same bytes.
pub proof fn law_named_keys_distinct(a: KeyInput, b: KeyInput)
    requires
        !(a is Character) && !(b is Character) && !(a is Other) && !(b is Other),
        key_bytes(a) == key_bytes(b),
    ensures
        a == b,
{
    let x = key_bytes(a);
    let y = key_bytes(b);
    assert(x.len() == y.len());
    if x.len() >= 3 {
        assert(x[2] == y[2]);
    }
    if x.len() == 1 {
        assert(x[0] == y[0]);
    }
}

} // verus!
