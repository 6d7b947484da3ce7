//! The commands that an event source can send to a document, and what each
//! of them does to it.

use vstd::prelude::*;
use crate::document::{error_of, Document};
use crate::error::Error;

verus! {

/// One request from the keyboard.
#[derive(Debug, PartialEq, Eq)]
pub enum Command {
    /// Move the caret one column to the left.
    MoveLeft,
    /// Move the caret one column to the right.
    MoveRight,
    /// Move the caret to the line above.
    MoveUp,
    /// Move the caret to the line below.
    MoveDown,
    /// Type a text at the caret.
    InsertText(String),
    /// Remove the character in front of the caret.
    DeleteBeforeCursor,
    /// Type a line feed at the caret.
    InsertNewline,
    /// Leave the editor.
    Quit,
}

/// What the event loop has to do after a command.
#[derive(Debug, Clone, Copy, PartialEq, Eq, Structural)]
pub struct Outcome {
    /// The editor is to be left.
    pub quit: bool,
    /// The view is to be drawn again.
    pub rerender: bool,
    /// The command was refused, and why.
    pub error: Option<Error>,
}

/// What `command` makes of the document `before`, and what it asks of the
/// event loop: each command but the last is one operation of the document,
/// after which the view is drawn again; the last changes nothing and asks to
/// leave.
pub open spec fn applied(
    after: &Document,
    before: &Document,
    command: Command,
    outcome: Outcome,
) -> bool {
    &&& outcome.quit == (command is Quit)
    &&& outcome.rerender == !(command is Quit)
    &&& match command {
        Command::MoveLeft => after.moved_left_from(before) && outcome.error is None,
        Command::MoveRight => after.moved_right_from(before) && outcome.error is None,
        Command::MoveUp => after.moved_up_from(before) && outcome.error is None,
        Command::MoveDown => after.moved_down_from(before) && outcome.error is None,
        Command::InsertText(text) => after.typed_from(before, text@, outcome.error),
        Command::DeleteBeforeCursor => after.removed_from(before, outcome.error),
        Command::InsertNewline => after.typed_char_from(before, '\n', outcome.error),
        Command::Quit => *after == *before && outcome.error is None,
    }
}

/// The outcome of an edit that ended as `done`.
fn edited(done: Result<(), Error>) -> (outcome: Outcome)
    ensures
        !outcome.quit,
        outcome.rerender,
        outcome.error == error_of(done),
{
    match done {
        Ok(()) => Outcome { quit: false, rerender: true, error: None },
        Err(error) => Outcome { quit: false, rerender: true, error: Some(error) },
    }
}

impl Document {
    /// Carries out one command.
    pub fn apply(&mut self, command: &Command) -> (outcome: Outcome)
        ensures
            applied(final(self), old(self), *command, outcome),
    {
        match command {
            Command::MoveLeft => {
                self.move_cursor_left();
                Outcome { quit: false, rerender: true, error: None }
            },
            Command::MoveRight => {
                self.move_cursor_right();
                Outcome { quit: false, rerender: true, error: None }
            },
            Command::MoveUp => {
                self.move_cursor_up();
                Outcome { quit: false, rerender: true, error: None }
            },
            Command::MoveDown => {
                self.move_cursor_down();
                Outcome { quit: false, rerender: true, error: None }
            },
            Command::InsertText(text) => {
                let done = self.insert_text(text.as_str());
                edited(done)
            },
            Command::DeleteBeforeCursor => {
                let done = self.remove_char();
                edited(done)
            },
            Command::InsertNewline => {
                let done = self.newline();
                edited(done)
            },
            Command::Quit => Outcome { quit: true, rerender: false, error: None },
        }
    }
}

} // verus!
