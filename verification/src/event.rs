//! Keyboard input to user actions.

use vstd::prelude::*;

verus! {

/// User actions derived from key input.
#[derive(Debug, Clone, Copy, PartialEq, Eq, Structural)]
pub enum Action {
    Quit,
    TogglePause,
    OpenProfiles,
    MoveProfileUp,
    MoveProfileDown,
    SelectProfile,
    Cancel,
    Idle,
}

/// The keys the monitor tells apart.
#[derive(Debug, Clone, Copy, PartialEq, Eq, Structural)]
pub enum Key {
    Char(char),
    Esc,
    Enter,
    Up,
    Down,
    Other,
}

/// A key event: the key, whether Control was held, and whether it is a key
/// release (releases are ignored).
#[derive(Debug, Clone, Copy, PartialEq, Eq, Structural)]
pub struct KeyInput {
    pub key: Key,
    pub control: bool,
    pub release: bool,
}

/// The action of a key: `q` and Ctrl-C quit, `Esc` cancels (closes the
/// chooser, or quits), space and `p` pause, `l` opens the layout chooser,
/// `k`/Up and `j`/Down move in it, and Enter selects.
pub open spec fn key_action(input: KeyInput) -> Action {
    if input.release {
        Action::Idle
    } else {
        match input.key {
            Key::Char(c) => if c == 'q' {
                Action::Quit
            } else if c == 'c' && input.control {
                Action::Quit
            } else if c == ' ' || c == 'p' {
                Action::TogglePause
            } else if c == 'l' {
                Action::OpenProfiles
            } else if c == 'k' {
                Action::MoveProfileUp
            } else if c == 'j' {
                Action::MoveProfileDown
            } else {
                Action::Idle
            },
            Key::Esc => Action::Cancel,
            Key::Enter => Action::SelectProfile,
            Key::Up => Action::MoveProfileUp,
            Key::Down => Action::MoveProfileDown,
            Key::Other => Action::Idle,
        }
    }
}

/// Map a key event to its action.
pub fn action_for_key(input: KeyInput) -> (a: Action)
    ensures
        a == key_action(input),
{
    if input.release {
        return Action::Idle;
    }
    match input.key {
        Key::Char(c) => {
            if c == 'q' {
                Action::Quit
            } else if c == 'c' && input.control {
                Action::Quit
            } else if c == ' ' || c == 'p' {
                Action::TogglePause
            } else if c == 'l' {
                Action::OpenProfiles
            } else if c == 'k' {
                Action::MoveProfileUp
            } else if c == 'j' {
                Action::MoveProfileDown
            } else {
                Action::Idle
            }
        },
        Key::Esc => Action::Cancel,
        Key::Enter => Action::SelectProfile,
        Key::Up => Action::MoveProfileUp,
        Key::Down => Action::MoveProfileDown,
        Key::Other => Action::Idle,
    }
}

} // verus!
