use moonlit::cursor::Cursor;
use moonlit::document::Document;
use moonlit::error::Error;
use moonlit::input::{Command, Outcome};

const DONE: Outcome = Outcome { quit: false, rerender: true, error: None };

#[test]
fn command_moves_map_to_caret_moves() {
    let mut doc = Document::from_str("ab\ncd");
    assert_eq!(doc.apply(&Command::MoveRight), DONE);
    assert_eq!(doc.cursor(), Cursor { x: 1, y: 0 });
    assert_eq!(doc.apply(&Command::MoveDown), DONE);
    assert_eq!(doc.cursor(), Cursor { x: 0, y: 1 });
    assert_eq!(doc.apply(&Command::MoveLeft), DONE);
    assert_eq!(doc.cursor(), Cursor { x: 2, y: 0 });
    assert_eq!(doc.apply(&Command::MoveDown), DONE);
    assert_eq!(doc.apply(&Command::MoveUp), DONE);
    assert_eq!(doc.cursor(), Cursor { x: 0, y: 0 });
    assert_eq!(doc.buffer().to_string(), "ab\ncd");
}

#[test]
fn command_edits_map_to_document_edits() {
    let mut doc = Document::default();
    assert_eq!(doc.apply(&Command::InsertText("hey".to_string())), DONE);
    assert_eq!(doc.apply(&Command::InsertNewline), DONE);
    assert_eq!(doc.apply(&Command::InsertText("you".to_string())), DONE);
    assert_eq!(doc.buffer().to_string(), "hey\nyou");
    assert_eq!(doc.cursor(), Cursor { x: 3, y: 1 });
    assert_eq!(doc.apply(&Command::DeleteBeforeCursor), DONE);
    assert_eq!(doc.buffer().to_string(), "hey\nyo");
    assert_eq!(doc.cursor(), Cursor { x: 2, y: 1 });
    assert_eq!(doc.history().len(), 8);
}

#[test]
fn command_quit_asks_to_leave() {
    let mut doc = Document::from_str("ab");
    assert_eq!(
        doc.apply(&Command::Quit),
        Outcome { quit: true, rerender: false, error: None }
    );
    assert_eq!(doc.buffer().to_string(), "ab");
    assert_eq!(doc.cursor(), Cursor { x: 0, y: 0 });
}

#[test]
fn command_refused_edit_reports_the_error() {
    let mut doc = Document::from_str("ab");
    doc.set_cursor(Cursor { x: 9, y: 0 });
    let refused = Outcome { quit: false, rerender: true, error: Some(Error::OutOfBounds) };
    assert_eq!(doc.apply(&Command::InsertText("x".to_string())), refused);
    assert_eq!(doc.apply(&Command::InsertNewline), refused);
    assert_eq!(doc.apply(&Command::DeleteBeforeCursor), refused);
    assert_eq!(doc.buffer().to_string(), "ab");
    assert_eq!(doc.cursor(), Cursor { x: 9, y: 0 });
}
