use vstd::prelude::*;

verus! {

/// The keys the interface responds to; every other key is `Other`.
#[derive(Debug, Clone, Copy, PartialEq, Eq, Structural)]
pub enum KeyCode {
    Char(char),
    Enter,
    Esc,
    Backspace,
    Up,
    Down,
    Left,
    Right,
    Other,
}

/// A key press: the key and whether Shift was held.
#[derive(Debug, Clone, Copy, PartialEq, Eq, Structural)]
pub struct KeyPress {
    pub code: KeyCode,
    pub shift: bool,
}

impl KeyPress {
    pub fn new(code: KeyCode, shift: bool) -> (k: KeyPress)
        ensures
            k == (KeyPress { code, shift }),
    {
        KeyPress { code, shift }
    }
}

/// Whether `k` is the character `c`.
pub open spec fn is_char(k: KeyCode, c: char) -> bool {
    k == KeyCode::Char(c)
}

/// Whether `k` moves down a list: `j` or the Down arrow.
pub open spec fn is_down(k: KeyCode) -> bool {
    is_char(k, 'j') || k == KeyCode::Down
}

/// Whether `k` moves up a list: `k` or the Up arrow.
pub open spec fn is_up(k: KeyCode) -> bool {
    is_char(k, 'k') || k == KeyCode::Up
}

/// Whether `k` goes into the selection: Enter, `l` or the Right arrow.
pub open spec fn is_into(k: KeyCode) -> bool {
    k == KeyCode::Enter || is_char(k, 'l') || k == KeyCode::Right
}

/// Whether `k` goes back out: Backspace, `h` or the Left arrow.
pub open spec fn is_out(k: KeyCode) -> bool {
    k == KeyCode::Backspace || is_char(k, 'h') || k == KeyCode::Left
}

} // verus!
