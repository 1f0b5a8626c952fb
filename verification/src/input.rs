//! What comes in from the keyboard, and the action it asks for.

use crate::store::Action;
use vstd::prelude::*;

verus! {

/// One event of the input device.
#[derive(Debug, Clone, Copy, PartialEq, Eq, Structural)]
pub enum InputEvent {
    /// A printable character.
    Char(char),
    /// The backspace key.
    Backspace,
    /// The signal to leave the program.
    Exit,
    /// Anything else.
    Unrecognized,
}

/// The action that `event` asks for. An unrecognized event asks for none.
pub open spec fn asked_by(event: InputEvent) -> Option<Action> {
    match event {
        InputEvent::Char(c) => Some(Action::CharTyped(c)),
        InputEvent::Backspace => Some(Action::BackspacePressed),
        InputEvent::Exit => Some(Action::RequestExit),
        InputEvent::Unrecognized => None,
    }
}

/// Turns an input event into the action it asks for.
pub fn action_of(event: InputEvent) -> (action: Option<Action>)
    ensures
        action == asked_by(event),
{
    match event {
        InputEvent::Char(c) => Some(Action::CharTyped(c)),
        InputEvent::Backspace => Some(Action::BackspacePressed),
        InputEvent::Exit => Some(Action::RequestExit),
        InputEvent::Unrecognized => None,
    }
}

} // verus!
