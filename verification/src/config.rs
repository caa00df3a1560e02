//! Configuration sections the terminal logic reads. Loading them from the
//! TOML file is the program's business; these are the values and their
//! defaults.

use vstd::prelude::*;

verus! {

#[derive(Clone, Copy, Debug)]
pub struct ClipboardConfig {
    /// Plain Ctrl+C copies when there is a selection and falls through to
    /// SIGINT otherwise; plain Ctrl+V pastes. False restores
    /// Ctrl+Shift+C/V-only behaviour.
    pub smart_ctrl_c_ctrl_v: bool,
    /// Also copy the selection to the clipboard on mouse-up.
    pub copy_on_select: bool,
}

impl Default for ClipboardConfig {
    fn default() -> (c: ClipboardConfig)
        ensures
            c.smart_ctrl_c_ctrl_v,
            c.copy_on_select,
    {
        ClipboardConfig { smart_ctrl_c_ctrl_v: true, copy_on_select: true }
    }
}

#[derive(Clone, Copy, Debug)]
pub struct ScrollConfig {
    pub history_lines: usize,
    pub lines_per_tick: usize,
}

impl Default for ScrollConfig {
    fn default() -> (c: ScrollConfig)
        ensures
            c.history_lines == 100_000,
            c.lines_per_tick == 3,
    {
        ScrollConfig { history_lines: 100_000, lines_per_tick: 3 }
    }
}

#[derive(Clone, Debug)]
pub struct Colors {
    pub background: String,
    pub foreground: String,
    pub cursor: String,
}

impl Default for Colors {
    fn default() -> (c: Colors)
        ensures
            c.background@ == "#1e1e1e"@,
            c.foreground@ == "#d8d8d8"@,
            c.cursor@ == "#ffffff"@,
    {
        Colors {
            background: "#1e1e1e".to_owned(),
            foreground: "#d8d8d8".to_owned(),
            cursor: "#ffffff".to_owned(),
        }
    }
}

} // verus!
