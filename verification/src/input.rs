//! The input source: a poll-bounded check for event availability and a
//! blocking read of exactly one event, classified into the key kinds the
//! runtime reacts to.

use vstd::prelude::*;
use crate::terminal::TermError;

verus! {

/// One external input event, as the entities see it.
#[derive(Clone, Copy, PartialEq, Eq, Structural)]
pub enum InputEvent {
    /// A printable character key.
    Char(char),
    /// The backspace key.
    Backspace,
    /// The enter key.
    Enter,
    /// Any other key, or a non-key event.
    Other,
}

/// Relies on crossterm::event::poll: reports whether an input event is
/// available, blocking for at most `interval_ms` milliseconds. Whether one is
/// depends on the user, so nothing is promised of the answer.
#[verifier::external_body]
pub fn input_poll(interval_ms: u64) -> (r: Result<bool, TermError>) {
    match crossterm::event::poll(core::time::Duration::from_millis(interval_ms)) {
        Ok(b) => Ok(b),
        Err(e) => Err(TermError { source: e }),
    }
}

/// Relies on crossterm::event::read: blocks until one input event is
/// available and returns it. Which event arrives depends on the user, so
/// nothing is promised of the value.
#[verifier::external_body]
pub fn input_read() -> (r: Result<InputEvent, TermError>) {
    match crossterm::event::read() {
        Ok(crossterm::event::Event::Key(k)) => Ok(match k.code {
            crossterm::event::KeyCode::Char(c) => InputEvent::Char(c),
            crossterm::event::KeyCode::Backspace => InputEvent::Backspace,
            crossterm::event::KeyCode::Enter => InputEvent::Enter,
            _ => InputEvent::Other,
        }),
        Ok(_) => Ok(InputEvent::Other),
        Err(e) => Err(TermError { source: e }),
    }
}

} // verus!
