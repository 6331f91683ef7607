//! Key bindings.
use vstd::prelude::*;
use crate::session::action::Action;

verus! {

/// The keys the editor tells apart.
#[derive(Debug, Clone, Copy, PartialEq, Eq, Structural)]
pub enum KeyCode {
    Enter,
    Esc,
    Backspace,
    Tab,
    BackTab,
    Left,
    Right,
    Up,
    Down,
    Char(char),
    /// Any other key.
    Other,
}

/// A key press: the key and whether Control was held.
#[derive(Debug, Clone, Copy, PartialEq, Eq, Structural)]
pub struct KeyEvent {
    pub code: KeyCode,
    pub control: bool,
}

/// The action a key press asks for. While an edit prompt is open, Enter
/// confirms, Esc cancels, Backspace deletes and a character is typed;
/// otherwise Ctrl-C and `q` quit, Ctrl-W closes the tab, and the other
/// bindings are those of the list below.
pub open spec fn action_of(key: KeyEvent, editing: bool) -> Action {
    if editing {
        match key.code {
            KeyCode::Enter => Action::ConfirmEdit,
            KeyCode::Esc => Action::CancelEdit,
            KeyCode::Backspace => Action::Backspace,
            KeyCode::Char(c) => Action::InputChar(c),
            _ => Action::Noop,
        }
    } else if key.control && key.code == KeyCode::Char('c') {
        Action::RequestQuit
    } else if key.control && key.code == KeyCode::Char('w') {
        Action::CloseActiveTab
    } else {
        match key.code {
            KeyCode::Char('q') => Action::RequestQuit,
            KeyCode::Char('s') => Action::SaveActive,
            KeyCode::Char('e') => Action::StartEdit,
            KeyCode::Enter => Action::StartEdit,
            KeyCode::Char('o') => Action::OpenSelected,
            KeyCode::Tab => Action::FocusNext,
            KeyCode::BackTab => Action::PreviousTab,
            KeyCode::Char('[') => Action::PreviousTab,
            KeyCode::Char(']') => Action::NextTab,
            KeyCode::Left => Action::MoveLeft,
            KeyCode::Char('h') => Action::MoveLeft,
            KeyCode::Right => Action::MoveRight,
            KeyCode::Char('l') => Action::MoveRight,
            KeyCode::Up => Action::MoveUp,
            KeyCode::Char('k') => Action::MoveUp,
            KeyCode::Down => Action::MoveDown,
            KeyCode::Char('j') => Action::MoveDown,
            _ => Action::Noop,
        }
    }
}

/// The action a key press asks for.
pub fn action_from_key(key: KeyEvent, editing: bool) -> (r: Action)
    ensures
        r == action_of(key, editing),
{
    if editing {
        return match key.code {
            KeyCode::Enter => Action::ConfirmEdit,
            KeyCode::Esc => Action::CancelEdit,
            KeyCode::Backspace => Action::Backspace,
            KeyCode::Char(value) => Action::InputChar(value),
            _ => Action::Noop,
        };
    }
    if key.control && key.code == KeyCode::Char('c') {
        return Action::RequestQuit;
    }
    if key.control && key.code == KeyCode::Char('w') {
        return Action::CloseActiveTab;
    }
    match key.code {
        KeyCode::Char('q') => Action::RequestQuit,
        KeyCode::Char('s') => Action::SaveActive,
        KeyCode::Char('e') | KeyCode::Enter => Action::StartEdit,
        KeyCode::Char('o') => Action::OpenSelected,
        KeyCode::Tab => Action::FocusNext,
        KeyCode::BackTab => Action::PreviousTab,
        KeyCode::Char('[') => Action::PreviousTab,
        KeyCode::Char(']') => Action::NextTab,
        KeyCode::Left | KeyCode::Char('h') => Action::MoveLeft,
        KeyCode::Right | KeyCode::Char('l') => Action::MoveRight,
        KeyCode::Up | KeyCode::Char('k') => Action::MoveUp,
        KeyCode::Down | KeyCode::Char('j') => Action::MoveDown,
        _ => Action::Noop,
    }
}

} // verus!
