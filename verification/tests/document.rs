use moonlit::cursor::Cursor;
use moonlit::document::{Document, DEFAULT_HISTORY_CAPACITY, LOADED_HISTORY_CAPACITY};
use moonlit::error::Error;
use moonlit::history::Edit;
use moonlit::syntax::ParseKind;

fn at(x: usize, y: usize) -> Cursor {
    Cursor { x, y }
}

#[test]
fn document_from_str_starts_at_origin() {
    let doc = Document::from_str("Hello, world!");
    assert_eq!(doc.buffer().to_string(), "Hello, world!");
    assert_eq!(doc.cursor(), at(0, 0));
    assert_eq!(doc.cursor_index(), Some(0));
    assert!(doc.history().is_empty());
    assert_eq!(doc.history().capacity(), 1024);
    assert_eq!(DEFAULT_HISTORY_CAPACITY, 1024);
    assert!(!doc.has_parser());
    assert!(doc.tree().is_none());
    assert_eq!(doc.last_parse(), ParseKind::Skipped);
}

#[test]
fn document_default_is_empty() {
    let doc = Document::default();
    assert_eq!(doc.buffer().to_string(), "");
    assert_eq!(doc.buffer().len_lines(), 1);
    assert_eq!(doc.cursor(), at(0, 0));
    assert_eq!(doc.history().capacity(), 1024);
}

#[test]
fn document_from_bytes_decodes_utf8() {
    let doc = Document::from_bytes("gr\u{fc}n\n".as_bytes()).ok().unwrap();
    assert_eq!(doc.buffer().to_string(), "gr\u{fc}n\n");
    assert_eq!(doc.buffer().len_chars(), 5);
    assert_eq!(doc.history().capacity(), 256);
    assert_eq!(Document::from_bytes(&[0x66, 0xfe]).err(), Some(Error::InvalidUtf8));
}

#[test]
fn document_with_history_capacity_checks_the_capacity() {
    assert!(Document::with_history_capacity("a", 0).is_none());
    assert!(Document::with_history_capacity("a", 12).is_none());
    let doc = Document::with_history_capacity("a", 16).unwrap();
    assert_eq!(doc.history().capacity(), 16);
    assert_eq!(doc.buffer().to_string(), "a");
}

#[test]
fn scenario_typing_hi_and_a_line_feed() {
    let mut doc = Document::default();
    assert_eq!(doc.insert_char('H'), Ok(()));
    assert_eq!(doc.cursor(), at(1, 0));
    assert_eq!(doc.insert_char('i'), Ok(()));
    assert_eq!(doc.cursor(), at(2, 0));
    assert_eq!(doc.insert_char('\n'), Ok(()));
    assert_eq!(doc.buffer().to_string(), "Hi\n");
    assert_eq!(doc.cursor(), at(0, 1));
    assert_eq!(doc.cursor_index(), Some(3));
}

#[test]
fn scenario_removing_at_end_of_line() {
    let mut doc = Document::from_str("ab");
    doc.set_cursor(at(2, 0));
    assert_eq!(doc.remove_char(), Ok(()));
    assert_eq!(doc.buffer().to_string(), "a");
    assert_eq!(doc.cursor(), at(1, 0));
}

#[test]
fn scenario_moving_down_and_right() {
    let mut doc = Document::from_str("a\nb");
    assert_eq!(doc.cursor(), at(0, 0));
    doc.move_cursor_down();
    assert_eq!(doc.cursor(), at(0, 1));
    doc.move_cursor_right();
    assert_eq!(doc.cursor(), at(1, 1));
    doc.move_cursor_right();
    assert_eq!(doc.cursor(), at(1, 1));
}

#[test]
fn scenario_inserting_behind_the_end_is_refused() {
    let mut doc = Document::from_str("ab");
    doc.set_cursor(at(3, 0));
    assert_eq!(doc.cursor_index(), None);
    assert_eq!(doc.insert_text("x"), Err(Error::OutOfBounds));
    assert_eq!(doc.buffer().to_string(), "ab");
    assert_eq!(doc.cursor(), at(3, 0));
    assert!(doc.history().is_empty());
    assert_eq!(doc.insert_char('x'), Err(Error::OutOfBounds));
    assert_eq!(doc.newline(), Err(Error::OutOfBounds));
    assert_eq!(doc.remove_char(), Err(Error::OutOfBounds));
    assert_eq!(doc.buffer().to_string(), "ab");
    assert_eq!(doc.cursor(), at(3, 0));
    assert!(doc.history().is_empty());
}

#[test]
fn document_caret_on_a_missing_line_is_refused() {
    let mut doc = Document::from_str("ab");
    doc.set_cursor(at(0, 3));
    assert_eq!(doc.cursor_index(), None);
    assert_eq!(doc.insert_text("x"), Err(Error::OutOfBounds));
    assert_eq!(doc.remove_char(), Err(Error::OutOfBounds));
    assert_eq!(doc.buffer().to_string(), "ab");
    assert_eq!(doc.cursor(), at(0, 3));
    doc.set_cursor(at(usize::MAX, usize::MAX));
    assert_eq!(doc.insert_char('x'), Err(Error::OutOfBounds));
    doc.set_cursor(at(usize::MAX, 0));
    assert_eq!(doc.insert_char('x'), Err(Error::OutOfBounds));
    assert_eq!(doc.buffer().to_string(), "ab");
}

#[test]
fn document_insert_text_moves_caret_behind_it() {
    let mut doc = Document::from_str("ad");
    doc.set_cursor(at(1, 0));
    assert_eq!(doc.insert_text("bc"), Ok(()));
    assert_eq!(doc.buffer().to_string(), "abcd");
    assert_eq!(doc.cursor(), at(3, 0));
    assert_eq!(doc.cursor_index(), Some(3));
}

#[test]
fn document_insert_text_with_line_feeds() {
    let mut doc = Document::from_str("one\ntwo");
    doc.set_cursor(at(1, 1));
    assert_eq!(doc.insert_text("x\ny\nzz"), Ok(()));
    assert_eq!(doc.buffer().to_string(), "one\ntx\ny\nzzwo");
    assert_eq!(doc.cursor(), at(2, 3));
    assert_eq!(doc.cursor_index(), Some(11));
    assert_eq!(doc.buffer().len_lines(), 4);
}

#[test]
fn document_insert_text_records_one_edit_per_character() {
    let mut doc = Document::from_str("ab");
    doc.set_cursor(at(1, 0));
    assert_eq!(doc.insert_text("x\ny"), Ok(()));
    assert_eq!(
        doc.history().to_vec(),
        vec![
            Edit::Insert { char_idx: 1, ch: 'x', point: at(1, 0) },
            Edit::Insert { char_idx: 1, ch: '\n', point: at(2, 0) },
            Edit::Insert { char_idx: 1, ch: 'y', point: at(0, 1) },
        ]
    );
}

#[test]
fn document_insert_empty_text_changes_nothing() {
    let mut doc = Document::from_str("ab");
    doc.set_cursor(at(1, 0));
    assert_eq!(doc.insert_text(""), Ok(()));
    assert_eq!(doc.buffer().to_string(), "ab");
    assert_eq!(doc.cursor(), at(1, 0));
    assert!(doc.history().is_empty());
}

#[test]
fn document_insert_char_records_the_edit() {
    let mut doc = Document::from_str("a\nb");
    doc.set_cursor(at(1, 1));
    assert_eq!(doc.insert_char('\u{e9}'), Ok(()));
    assert_eq!(doc.buffer().to_string(), "a\nb\u{e9}");
    assert_eq!(doc.cursor(), at(2, 1));
    assert_eq!(
        doc.history().to_vec(),
        vec![Edit::Insert { char_idx: 3, ch: '\u{e9}', point: at(1, 1) }]
    );
}

#[test]
fn document_newline_splits_the_line() {
    let mut doc = Document::from_str("abcd");
    doc.set_cursor(at(2, 0));
    assert_eq!(doc.newline(), Ok(()));
    assert_eq!(doc.buffer().to_string(), "ab\ncd");
    assert_eq!(doc.cursor(), at(0, 1));
    assert_eq!(
        doc.history().to_vec(),
        vec![Edit::Insert { char_idx: 2, ch: '\n', point: at(2, 0) }]
    );
}

#[test]
fn document_remove_at_start_changes_nothing() {
    let mut doc = Document::from_str("ab");
    assert_eq!(doc.remove_char(), Ok(()));
    assert_eq!(doc.buffer().to_string(), "ab");
    assert_eq!(doc.cursor(), at(0, 0));
    assert!(doc.history().is_empty());
}

#[test]
fn document_remove_joins_lines() {
    let mut doc = Document::from_str("ab\ncd");
    doc.set_cursor(at(0, 1));
    assert_eq!(doc.remove_char(), Ok(()));
    assert_eq!(doc.buffer().to_string(), "abcd");
    assert_eq!(doc.cursor(), at(2, 0));
    assert_eq!(
        doc.history().to_vec(),
        vec![Edit::Delete { char_idx: 2, ch: '\n', point: at(0, 1) }]
    );
}

#[test]
fn document_remove_last_line_feed_keeps_caret_on_a_line() {
    let mut doc = Document::from_str("a\n");
    doc.set_cursor(at(0, 1));
    assert_eq!(doc.remove_char(), Ok(()));
    assert_eq!(doc.buffer().to_string(), "a");
    assert_eq!(doc.cursor(), at(1, 0));
    assert_eq!(doc.buffer().len_lines(), 1);
    assert_eq!(doc.insert_char('b'), Ok(()));
    assert_eq!(doc.buffer().to_string(), "ab");
}

#[test]
fn document_remove_records_the_removed_character() {
    let mut doc = Document::from_str("x\u{20ac}y");
    doc.set_cursor(at(2, 0));
    assert_eq!(doc.remove_char(), Ok(()));
    assert_eq!(doc.buffer().to_string(), "xy");
    assert_eq!(doc.cursor(), at(1, 0));
    assert_eq!(
        doc.history().to_vec(),
        vec![Edit::Delete { char_idx: 1, ch: '\u{20ac}', point: at(2, 0) }]
    );
}

#[test]
fn document_typing_then_removing_gives_back_the_text() {
    let mut doc = Document::from_str("one\ntwo");
    doc.set_cursor(at(2, 1));
    assert_eq!(doc.insert_text("a\nbc"), Ok(()));
    assert_eq!(doc.buffer().to_string(), "one\ntwa\nbco");
    for _ in 0..4 {
        assert_eq!(doc.remove_char(), Ok(()));
    }
    assert_eq!(doc.buffer().to_string(), "one\ntwo");
    assert_eq!(doc.cursor(), at(2, 1));
}

#[test]
fn document_caret_index_stays_in_the_text() {
    let mut doc = Document::from_str("ab\n\ncd");
    let steps: [fn(&mut Document); 8] = [
        |d| d.move_cursor_right(),
        |d| d.move_cursor_down(),
        |d| {
            let _ = d.insert_text("x\ny");
        },
        |d| d.move_cursor_left(),
        |d| {
            let _ = d.remove_char();
        },
        |d| d.move_cursor_up(),
        |d| {
            let _ = d.newline();
        },
        |d| d.move_cursor_down(),
    ];
    for round in 0..40 {
        steps[(round * 5 + round / 3) % 8](&mut doc);
        let cursor = doc.cursor();
        let start = doc.buffer().line_to_char(cursor.y).unwrap();
        assert!(cursor.y < doc.buffer().len_lines());
        assert!(start + cursor.x <= doc.buffer().len_chars());
        assert_eq!(doc.cursor_index(), Some(start + cursor.x));
        assert!(cursor.x <= doc.content_len(cursor.y));
    }
}

#[test]
fn document_move_down_stops_on_last_line() {
    let mut doc = Document::from_str("a\nb\n");
    doc.move_cursor_down();
    doc.move_cursor_down();
    assert_eq!(doc.cursor(), at(0, 2));
    doc.move_cursor_down();
    assert_eq!(doc.cursor(), at(0, 2));
}

#[test]
fn document_move_up_stops_on_first_line() {
    let mut doc = Document::from_str("a\nbc");
    doc.set_cursor(at(2, 1));
    doc.move_cursor_up();
    assert_eq!(doc.cursor(), at(0, 0));
    doc.move_cursor_up();
    assert_eq!(doc.cursor(), at(0, 0));
}

#[test]
fn document_move_left_goes_to_end_of_previous_line() {
    let mut doc = Document::from_str("abc\nd");
    doc.set_cursor(at(1, 1));
    doc.move_cursor_left();
    assert_eq!(doc.cursor(), at(0, 1));
    doc.move_cursor_left();
    assert_eq!(doc.cursor(), at(3, 0));
    doc.set_cursor(at(0, 0));
    doc.move_cursor_left();
    assert_eq!(doc.cursor(), at(0, 0));
}

#[test]
fn document_move_right_stops_in_front_of_the_line_feed() {
    let mut doc = Document::from_str("ab\nc");
    doc.move_cursor_right();
    doc.move_cursor_right();
    assert_eq!(doc.cursor(), at(2, 0));
    doc.move_cursor_right();
    assert_eq!(doc.cursor(), at(2, 0));
    assert_eq!(doc.content_len(0), 2);
    assert_eq!(doc.content_len(1), 1);
    assert_eq!(doc.content_len(2), 0);
}

#[test]
fn document_moves_leave_text_and_history_alone() {
    let mut doc = Document::from_str("ab\ncd");
    doc.move_cursor_right();
    doc.move_cursor_down();
    doc.move_cursor_left();
    doc.move_cursor_up();
    assert_eq!(doc.buffer().to_string(), "ab\ncd");
    assert!(doc.history().is_empty());
}

#[test]
fn document_history_is_bounded() {
    let mut doc = Document::with_history_capacity("", 4).unwrap();
    assert_eq!(doc.insert_text("abcdefg"), Ok(()));
    assert_eq!(doc.buffer().to_string(), "abcdefg");
    assert_eq!(
        doc.history().to_vec(),
        vec![
            Edit::Insert { char_idx: 0, ch: 'd', point: at(3, 0) },
            Edit::Insert { char_idx: 0, ch: 'e', point: at(4, 0) },
            Edit::Insert { char_idx: 0, ch: 'f', point: at(5, 0) },
            Edit::Insert { char_idx: 0, ch: 'g', point: at(6, 0) },
        ]
    );
}

#[test]
fn document_without_parser_skips_the_parse() {
    let mut doc = Document::from_str("fn main() {}");
    assert_eq!(doc.reparse(), ParseKind::Skipped);
    assert_eq!(doc.insert_char('a'), Ok(()));
    assert_eq!(doc.last_parse(), ParseKind::Skipped);
    assert!(doc.tree().is_none());
    assert!(!doc.has_parser());
}

#[test]
fn error_messages() {
    assert_eq!(Error::OutOfBounds.message(), "position outside the text");
    assert_eq!(Error::IncompatibleLanguage.message(), "grammar not compatible with the parser");
    assert_eq!(Error::InvalidUtf8.message(), "text is not valid UTF-8");
}
