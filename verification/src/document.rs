//! The document: a text, the caret in it, the record of its edits and, once
//! one is configured, the parser that follows them. Every change to the text
//! goes through here.

use vstd::prelude::*;
use vstd::arithmetic::power2::is_pow2;
use vstd::utf8::{decode_utf8, encode_utf8, valid_utf8};
use tree_sitter::Language;
use tree_sitter::Tree;
use crate::buffer::TextBuffer;
use crate::cursor::Cursor;
use crate::error::Error;
use crate::history::{newest, pushed_all, Edit, EditHistory};
use crate::syntax::{language_accepted, ParseKind, ParserBinding, SyntaxEdit};
use crate::text::{
    advanced, advanced_all, char_of, cursor_at, cursor_index, cursor_valid, inserted, lf_count,
    line_content_len, line_count, removed,
};

verus! {

/// The number of edits that a new document's history keeps.
pub const DEFAULT_HISTORY_CAPACITY: usize = 1024;

/// The number of edits that the history of a document keeps whose text was
/// loaded from a file.
pub const LOADED_HISTORY_CAPACITY: usize = 256;

/// A text with its caret, its history and its optional parser.
pub struct Document {
    buffer: TextBuffer,
    cursor: Cursor,
    syntax: Option<ParserBinding>,
    history: EditHistory,
}

/// The error that an edit reported, if it reported one.
pub open spec fn error_of(done: Result<(), Error>) -> Option<Error> {
    match done {
        Ok(_) => None,
        Err(error) => Some(error),
    }
}

/// The entries that typing the text `t` at character index `at` records: one
/// for each character, each with the caret as it stood before that character.
pub open spec fn insert_edits(t: Seq<char>, at: usize, c: Cursor) -> Seq<Edit>
    decreases t.len(),
{
    if t.len() == 0 {
        Seq::empty()
    } else {
        insert_edits(t.drop_last(), at, c).push(
            Edit::Insert {
                char_idx: at,
                ch: char_of(t, t.len() - 1),
                point: advanced_all(c, t.drop_last()),
            },
        )
    }
}

impl Document {
    /// The characters of the document.
    pub closed spec fn text(&self) -> Seq<char> {
        self.buffer@
    }

    /// The caret.
    pub closed spec fn caret(&self) -> Cursor {
        self.cursor
    }

    /// The recorded edits, oldest first.
    pub closed spec fn edits(&self) -> Seq<Edit> {
        self.history@
    }

    /// The number of edits that the history keeps at most.
    pub closed spec fn history_capacity(&self) -> nat {
        self.history.spec_capacity()
    }

    /// Whether a parser is configured.
    pub closed spec fn is_parsed(&self) -> bool {
        self.syntax is Some
    }

    /// Whether a tree from an earlier parse is at hand that describes a text
    /// of as many bytes as the document's text takes, so that the parser can
    /// be handed it with that text.
    pub closed spec fn has_tree(&self) -> bool {
        self.syntax matches Some(binding) && binding.serves(self.buffer@)
    }

    /// Whether a parser is configured whose every parse gives a tree.
    pub closed spec fn parser_ready(&self) -> bool {
        self.syntax matches Some(binding) && binding.ready()
    }

    /// How the latest request for a parse was answered.
    pub closed spec fn latest_parse(&self) -> ParseKind {
        match self.syntax {
            Some(binding) => binding.latest(),
            None => ParseKind::Skipped,
        }
    }

    /// The caret stands on a line of the text and not behind that line's content.
    pub open spec fn valid(&self) -> bool {
        cursor_valid(self.text(), self.caret())
    }

    /// The character index that the caret stands for.
    pub open spec fn char_index(&self) -> int {
        cursor_index(self.text(), self.caret())
    }

    /// The caret's line is one of the text, or the one just behind the last,
    /// and its character index is not behind the end of the text. An edit at
    /// a caret that is out of bounds is refused.
    pub open spec fn in_bounds(&self) -> bool {
        self.caret().y <= line_count(self.text()) && self.char_index() <= self.text().len()
    }

    /// What the parse kept by the document is after an edit or a request to
    /// parse: without a parser nothing happens and there is no tree; with one
    /// the text is parsed, with the previous tree at hand if there was one,
    /// and a parser that is ready has given a tree.
    pub open spec fn parsed_from(&self, before: &Document) -> bool {
        &&& self.is_parsed() == before.is_parsed()
        &&& self.parser_ready() == before.parser_ready()
        &&& self.latest_parse() == if !before.is_parsed() {
            before.latest_parse()
        } else if before.has_tree() {
            ParseKind::Incremental
        } else {
            ParseKind::Full
        }
        &&& !self.is_parsed() ==> !self.has_tree()
        &&& self.parser_ready() ==> self.has_tree()
    }

    /// Everything but the caret is as it was in `before`.
    pub open spec fn same_but_caret(&self, before: &Document) -> bool {
        &&& self.text() == before.text()
        &&& self.edits() == before.edits()
        &&& self.history_capacity() == before.history_capacity()
        &&& self.is_parsed() == before.is_parsed()
        &&& self.parser_ready() == before.parser_ready()
        &&& self.has_tree() == before.has_tree()
        &&& self.latest_parse() == before.latest_parse()
    }

    /// What typing the text `t` makes of the document `before`, and what is
    /// reported of it. With the caret out of bounds the document stays as it
    /// was and the error is reported. Else `t` stands in the text in front of
    /// the caret's old index, one edit is recorded for each of its
    /// characters, the caret has advanced over each of them, and the text
    /// was parsed anew. From a valid caret the new caret is valid too and
    /// stands just behind `t`.
    pub open spec fn typed_from(
        &self,
        before: &Document,
        t: Seq<char>,
        error: Option<Error>,
    ) -> bool {
        &&& !before.in_bounds() ==> error == Some(Error::OutOfBounds) && *self
            == *before
        &&& before.in_bounds() ==> {
            &&& error is None
            &&& self.text() == inserted(before.text(), before.char_index(), t)
            &&& self.caret() == advanced_all(before.caret(), t)
            &&& self.edits() == pushed_all(
                before.edits(),
                before.history_capacity(),
                insert_edits(t, before.char_index() as usize, before.caret()),
            )
            &&& self.history_capacity() == before.history_capacity()
            &&& self.parsed_from(before)
        }
        &&& before.valid() ==> error is None && self.valid() && self.char_index()
            == before.char_index() + t.len()
    }

    /// What typing the one character `ch` makes of the document `before`:
    /// what typing the text made of `ch` alone makes of it.
    pub open spec fn typed_char_from(
        &self,
        before: &Document,
        ch: char,
        error: Option<Error>,
    ) -> bool {
        &&& !before.in_bounds() ==> error == Some(Error::OutOfBounds) && *self
            == *before
        &&& before.in_bounds() ==> {
            &&& error is None
            &&& self.text() == inserted(before.text(), before.char_index(), seq![ch])
            &&& self.caret() == advanced(before.caret(), ch)
            &&& self.edits() == newest(
                before.edits().push(
                    Edit::Insert {
                        char_idx: before.char_index() as usize,
                        ch,
                        point: before.caret(),
                    },
                ),
                before.history_capacity(),
            )
            &&& self.history_capacity() == before.history_capacity()
            &&& self.parsed_from(before)
        }
        &&& before.valid() ==> error is None && self.valid() && self.char_index()
            == before.char_index() + 1
    }

    /// What removing the character in front of the caret makes of the
    /// document `before`, and what is reported of it. With the caret out of
    /// bounds the document stays as it was and the error is reported. At the
    /// start of the text nothing but the parse changes. Else the character in
    /// front of the caret's old index is gone from the text, the edit is
    /// recorded, the caret is the row and column of where that character
    /// stood, and the text was parsed anew. From a valid caret that is
    /// one column to the left, or, from the start of a line, the end of the
    /// content of the line above.
    pub open spec fn removed_from(&self, before: &Document, error: Option<Error>) -> bool {
        &&& !before.in_bounds() ==> error == Some(Error::OutOfBounds) && *self
            == *before
        &&& before.in_bounds() ==> {
            &&& error is None
            &&& self.history_capacity() == before.history_capacity()
            &&& self.parsed_from(before)
        }
        &&& before.in_bounds() && before.char_index() == 0 ==> {
            &&& self.text() == before.text()
            &&& self.caret() == before.caret()
            &&& self.edits() == before.edits()
        }
        &&& before.in_bounds() && before.char_index() > 0 ==> {
            &&& self.text() == removed(
                before.text(),
                before.char_index() - 1,
                before.char_index(),
            )
            &&& cursor_at(self.text(), self.caret(), before.char_index() - 1)
            &&& self.valid()
            &&& self.edits() == newest(
                before.edits().push(
                    Edit::Delete {
                        char_idx: (before.char_index() - 1) as usize,
                        ch: char_of(before.text(), before.char_index() - 1),
                        point: before.caret(),
                    },
                ),
                before.history_capacity(),
            )
        }
        &&& before.valid() ==> error is None && self.valid()
        &&& before.valid() && before.caret().x > 0 ==> self.caret() == (Cursor {
            x: (before.caret().x - 1) as usize,
            y: before.caret().y,
        })
        &&& before.valid() && before.caret().x == 0 && before.caret().y > 0 ==> self.caret() == (
        Cursor {
            x: line_content_len(before.text(), (before.caret().y - 1) as nat) as usize,
            y: (before.caret().y - 1) as usize,
        })
    }

    /// The caret of `before` has moved to the start of the next line, if the
    /// text has one; nothing else has changed, and a valid caret stays valid.
    pub open spec fn moved_down_from(&self, before: &Document) -> bool {
        &&& self.same_but_caret(before)
        &&& self.caret() == if before.caret().y + 1 < line_count(before.text()) {
            Cursor { x: 0, y: (before.caret().y + 1) as usize }
        } else {
            before.caret()
        }
        &&& before.valid() ==> self.valid()
    }

    /// The caret of `before` has moved to the start of the previous line, if
    /// it was not on the first; nothing else has changed, and a valid caret
    /// stays valid.
    pub open spec fn moved_up_from(&self, before: &Document) -> bool {
        &&& self.same_but_caret(before)
        &&& self.caret() == if before.caret().y > 0 {
            Cursor { x: 0, y: (before.caret().y - 1) as usize }
        } else {
            before.caret()
        }
        &&& before.valid() ==> self.valid()
    }

    /// The caret of `before` has moved one column to the left, or from the
    /// start of a line to the end of the content of the line above; at the
    /// start of the document it has stayed. Nothing else has changed, and a
    /// valid caret stays valid.
    pub open spec fn moved_left_from(&self, before: &Document) -> bool {
        &&& self.same_but_caret(before)
        &&& self.caret() == if before.caret().x > 0 {
            Cursor { x: (before.caret().x - 1) as usize, y: before.caret().y }
        } else if before.caret().y > 0 {
            Cursor {
                x: line_content_len(before.text(), (before.caret().y - 1) as nat) as usize,
                y: (before.caret().y - 1) as usize,
            }
        } else {
            before.caret()
        }
        &&& before.valid() ==> self.valid()
    }

    /// The caret of `before` has moved one column to the right, unless it
    /// stood at or behind the end of the content of its line. Nothing else
    /// has changed, and a valid caret stays valid.
    pub open spec fn moved_right_from(&self, before: &Document) -> bool {
        &&& self.same_but_caret(before)
        &&& self.caret() == if before.caret().x < line_content_len(
            before.text(),
            before.caret().y as nat,
        ) {
            Cursor { x: (before.caret().x + 1) as usize, y: before.caret().y }
        } else {
            before.caret()
        }
        &&& before.valid() ==> self.valid()
    }

    /// A document that holds `text`, with the caret at its start, no parser,
    /// and an empty history of the given capacity. The capacity has to be a
    /// power of two and no more than [`crate::history::MAX_HISTORY_CAPACITY`].
    pub fn with_history_capacity(text: &str, capacity: usize) -> (document: Option<Self>)
        ensures
            document is Some <==> is_pow2(capacity as int) && capacity
                <= crate::history::MAX_HISTORY_CAPACITY,
            document matches Some(d) ==> {
                &&& d.text() == text@
                &&& d.caret() == (Cursor { x: 0, y: 0 })
                &&& d.edits() == Seq::<Edit>::empty()
                &&& d.history_capacity() == capacity
                &&& !d.is_parsed()
                &&& !d.has_tree()
                &&& d.latest_parse() == ParseKind::Skipped
                &&& d.valid()
            },
    {
        match EditHistory::with_capacity(capacity) {
            Some(history) => Some(
                Document {
                    buffer: TextBuffer::from_str(text),
                    cursor: Cursor { x: 0, y: 0 },
                    syntax: None,
                    history,
                },
            ),
            None => None,
        }
    }

    /// A document that holds `text`, with the caret at its start, no parser
    /// and an empty history of [`DEFAULT_HISTORY_CAPACITY`] entries.
    pub fn from_str(text: &str) -> (document: Self)
        ensures
            document.text() == text@,
            document.caret() == (Cursor { x: 0, y: 0 }),
            document.edits() == Seq::<Edit>::empty(),
            document.history_capacity() == DEFAULT_HISTORY_CAPACITY,
            !document.is_parsed(),
            !document.has_tree(),
            document.latest_parse() == ParseKind::Skipped,
            document.valid(),
    {
        proof {
            reveal_with_fuel(is_pow2, 12);
        }
        Self::with_history_capacity(text, DEFAULT_HISTORY_CAPACITY).unwrap()
    }

    /// A document for the bytes of a file: it holds the text of which they
    /// are the UTF-8 encoding, with the caret at its start, no parser and an
    /// empty history of [`LOADED_HISTORY_CAPACITY`] entries. Bytes that are no
    /// such encoding are refused.
    pub fn from_bytes(bytes: &[u8]) -> (document: Result<Self, Error>)
        ensures
            valid_utf8(bytes@) ==> document is Ok,
            !valid_utf8(bytes@) ==> (document matches Err(e) && e == Error::InvalidUtf8),
            document matches Ok(d) ==> {
                &&& d.text() == decode_utf8(bytes@)
                &&& d.caret() == (Cursor { x: 0, y: 0 })
                &&& d.edits() == Seq::<Edit>::empty()
                &&& d.history_capacity() == LOADED_HISTORY_CAPACITY
                &&& !d.is_parsed()
                &&& !d.has_tree()
                &&& d.latest_parse() == ParseKind::Skipped
                &&& d.valid()
            },
    {
        proof {
            reveal_with_fuel(is_pow2, 12);
        }
        match (TextBuffer::from_utf8(bytes), EditHistory::with_capacity(LOADED_HISTORY_CAPACITY)) {
            (Ok(buffer), Some(history)) => Ok(
                Document { buffer, cursor: Cursor { x: 0, y: 0 }, syntax: None, history },
            ),
            _ => Err(Error::InvalidUtf8),
        }
    }

    /// The character index that the caret stands for, if the caret is in bounds.
    pub fn cursor_index(&self) -> (index: Option<usize>)
        ensures
            self.in_bounds() ==> index is Some && index.unwrap() == self.char_index(),
            !self.in_bounds() ==> index is None,
    {
        match self.buffer.line_to_char(self.cursor.y) {
            Some(start) => {
                let len = self.buffer.len_chars();
                if self.cursor.x <= len - start {
                    Some(start + self.cursor.x)
                } else {
                    None
                }
            },
            None => None,
        }
    }

    /// Hands the tree at hand the change that was made to the text, and
    /// parses the text anew. Without a parser it does nothing. The text had
    /// `bytes_before` bytes before the change, which `edit` leads from there
    /// to the bytes it has now; without a change there is no `edit`.
    fn after_edit(&mut self, edit: Option<SyntaxEdit>, Ghost(bytes_before): Ghost<nat>)
        requires
            edit matches Some(e) ==> e.fits(bytes_before) && e.extent_after(bytes_before)
                == encode_utf8(old(self).text()).len(),
            edit is None ==> bytes_before == encode_utf8(old(self).text()).len(),
        ensures
            final(self).text() == old(self).text(),
            final(self).caret() == old(self).caret(),
            final(self).edits() == old(self).edits(),
            final(self).history_capacity() == old(self).history_capacity(),
            final(self).is_parsed() == old(self).is_parsed(),
            final(self).parser_ready() == old(self).parser_ready(),
            final(self).parser_ready() ==> final(self).has_tree(),
            final(self).latest_parse() == match old(self).syntax {
                None => ParseKind::Skipped,
                Some(binding) => if binding.has_tree() && binding.extent() == bytes_before {
                    ParseKind::Incremental
                } else {
                    ParseKind::Full
                },
            },
    {
        // The buffer can count its bytes, so their number fits the machine's word.
        let _ = self.buffer.len_bytes();
        match &mut self.syntax {
            Some(binding) => {
                match edit {
                    Some(edit) => {
                        binding.note_edit(&edit);
                    },
                    None => {},
                }
                binding.reparse(&self.buffer);
            },
            None => {},
        }
    }

    /// Types `text` at the caret: inserts it into the buffer in one piece,
    /// records one edit for each of its characters, moves the caret behind
    /// it, and has the text parsed anew. With the caret out of bounds nothing
    /// is done and the error is reported.
    pub fn insert_text(&mut self, text: &str) -> (done: Result<(), Error>)
        ensures
            final(self).typed_from(old(self), text@, error_of(done)),
    {
        let char_idx = match self.cursor_index() {
            Some(index) => index,
            None => {
                proof {
                    if old(self).valid() {
                        crate::text::lemma_valid_cursor_in_text(old(self).text(), old(self).caret());
                    }
                }
                return Err(Error::OutOfBounds);
            },
        };
        let ghost before = self.buffer@;
        let ghost start = self.cursor;
        let ghost recorded = self.history@;
        let ghost capacity = self.history.spec_capacity();
        let _ = self.buffer.insert(char_idx, text);
        proof {
            lemma_inserted_counts(before, char_idx as int, text@);
        }
        let mut count: usize = 0;
        for ch in it: text.chars()
            invariant
                count == it.index(),
                it.seq() == text@,
                self.buffer@ == inserted(before, char_idx as int, text@),
                self.syntax == old(self).syntax,
                start.x + text@.len() <= usize::MAX,
                start.y + lf_count(text@) <= usize::MAX,
                self.cursor == advanced_all(start, text@.subrange(0, count as int)),
                self.history@ == pushed_all(
                    recorded,
                    capacity,
                    insert_edits(text@.subrange(0, count as int), char_idx, start),
                ),
                self.history.spec_capacity() == capacity,
        {
            proof {
                lemma_lf_count_prefix(text@, count as int);
                lemma_lf_count_prefix(text@, count + 1);
                lemma_advanced_all_bounds(start, text@.subrange(0, count as int));
                lemma_typing_step(recorded, capacity, text@, count as int, char_idx, start);
            }
            self.history.push(Edit::Insert { char_idx, ch, point: self.cursor });
            if ch == '\n' {
                self.cursor.newline();
            } else {
                self.cursor.move_right();
            }
            count += 1;
        }
        assert(text@.subrange(0, count as int) =~= text@);
        let edit = self.buffer.insertion_edit(char_idx, count);
        proof {
            crate::syntax::lemma_insertion_edit_fits(before, char_idx as int, text@);
        }
        self.after_edit(edit, Ghost(encode_utf8(before).len()));
        proof {
            if old(self).valid() {
                crate::text::lemma_cursor_valid_iff_at(before, start);
                crate::text::lemma_insert_text_advances(before, start, char_idx as int, text@);
                crate::text::lemma_cursor_valid_iff_at(self.text(), self.caret());
            }
        }
        Ok(())
    }

    /// Types the character `ch` at the caret: inserts it into the buffer,
    /// records the edit, moves the caret behind it, to the start of the next
    /// line if it is a line feed, and has the text parsed anew. With the
    /// caret out of bounds nothing is done and the error is reported.
    pub fn insert_char(&mut self, ch: char) -> (done: Result<(), Error>)
        ensures
            final(self).typed_char_from(old(self), ch, error_of(done)),
    {
        let char_idx = match self.cursor_index() {
            Some(index) => index,
            None => {
                proof {
                    if old(self).valid() {
                        crate::text::lemma_valid_cursor_in_text(old(self).text(), old(self).caret());
                    }
                }
                return Err(Error::OutOfBounds);
            },
        };
        let ghost before = self.buffer@;
        let ghost start = self.cursor;
        let _ = self.buffer.insert_char(char_idx, ch);
        proof {
            lemma_inserted_counts(before, char_idx as int, seq![ch]);
            assert(seq![ch].drop_last() =~= Seq::<char>::empty());
            crate::text::lemma_line_start_bound(before, start.y as nat);
        }
        self.history.push(Edit::Insert { char_idx, ch, point: self.cursor });
        if ch == '\n' {
            self.cursor.newline();
        } else {
            self.cursor.move_right();
        }
        let edit = self.buffer.insertion_edit(char_idx, 1);
        proof {
            crate::syntax::lemma_insertion_edit_fits(before, char_idx as int, seq![ch]);
        }
        self.after_edit(edit, Ghost(encode_utf8(before).len()));
        proof {
            if old(self).valid() {
                crate::text::lemma_cursor_valid_iff_at(before, start);
                crate::text::lemma_insert_char_advances(before, start, char_idx as int, ch);
                crate::text::lemma_cursor_valid_iff_at(self.text(), self.caret());
            }
        }
        Ok(())
    }

    /// Types a line feed at the caret, as [`Document::insert_char`] does.
    pub fn newline(&mut self) -> (done: Result<(), Error>)
        ensures
            final(self).typed_char_from(old(self), '\n', error_of(done)),
    {
        self.insert_char('\n')
    }

    /// Removes the character in front of the caret, records the edit, puts
    /// the caret where that character stood, and has the text parsed anew.
    /// At the start of the document there is nothing to remove, and only the
    /// parse is made. With the caret out of bounds nothing is done and the
    /// error is reported.
    pub fn remove_char(&mut self) -> (done: Result<(), Error>)
        ensures
            final(self).removed_from(old(self), error_of(done)),
    {
        let char_idx = match self.cursor_index() {
            Some(index) => index,
            None => {
                proof {
                    if old(self).valid() {
                        crate::text::lemma_valid_cursor_in_text(old(self).text(), old(self).caret());
                    }
                }
                return Err(Error::OutOfBounds);
            },
        };
        let ghost before = self.buffer@;
        let ghost start = self.cursor;
        if char_idx == 0 {
            proof {
                if old(self).valid() {
                    crate::text::lemma_line_start_after_lf(before, start.y as nat);
                }
            }
            self.after_edit(None, Ghost(encode_utf8(before).len()));
            return Ok(());
        }
        let removed_idx = char_idx - 1;
        let ch = match self.buffer.char_at(removed_idx) {
            Some(ch) => ch,
            None => return Err(Error::OutOfBounds),
        };
        let edit = self.buffer.removal_edit(removed_idx, char_idx);
        let _ = self.buffer.remove(removed_idx, char_idx);
        proof {
            crate::syntax::lemma_removal_edit_fits(before, removed_idx as int, char_idx as int);
        }
        let row = match self.buffer.char_to_line(removed_idx) {
            Some(row) => row,
            None => return Err(Error::OutOfBounds),
        };
        let row_start = match self.buffer.line_to_char(row) {
            Some(row_start) => row_start,
            None => return Err(Error::OutOfBounds),
        };
        proof {
            crate::text::lemma_position_bounds(self.buffer@, removed_idx as int);
            crate::text::lemma_cursor_valid_iff_at(
                self.buffer@,
                Cursor { x: (removed_idx - row_start) as usize, y: row },
            );
        }
        self.history.push(Edit::Delete { char_idx: removed_idx, ch, point: self.cursor });
        self.cursor = Cursor { x: removed_idx - row_start, y: row };
        self.after_edit(edit, Ghost(encode_utf8(before).len()));
        proof {
            if old(self).valid() {
                crate::text::lemma_cursor_valid_iff_at(before, start);
                crate::text::lemma_remove_char_retreats(before, start, char_idx as int);
            }
        }
        Ok(())
    }

    /// Moves the caret to the start of the next line, if there is one.
    pub fn move_cursor_down(&mut self)
        ensures
            final(self).moved_down_from(old(self)),
    {
        if self.cursor.y < self.buffer.len_lines() - 1 {
            self.cursor.move_down();
        }
    }

    /// Moves the caret to the start of the previous line, if there is one.
    pub fn move_cursor_up(&mut self)
        ensures
            final(self).moved_up_from(old(self)),
    {
        self.cursor.move_up();
    }

    /// Moves the caret one column to the left, and from the start of a line
    /// to the end of the content of the line above it. At the start of the
    /// document the caret stays.
    pub fn move_cursor_left(&mut self)
        ensures
            final(self).moved_left_from(old(self)),
    {
        if self.cursor.x > 0 {
            self.cursor.move_left();
        } else if self.cursor.y > 0 {
            let above = self.cursor.y - 1;
            let column = self.content_len(above);
            self.cursor = Cursor { x: column, y: above };
        }
    }

    /// Moves the caret one column to the right, but not behind the content
    /// of its line.
    pub fn move_cursor_right(&mut self)
        ensures
            final(self).moved_right_from(old(self)),
    {
        let column = self.content_len(self.cursor.y);
        if self.cursor.x < column {
            self.cursor.move_right();
        }
    }

    /// The length of line `line` without its line feed; `0` for a line that
    /// the text does not have.
    pub fn content_len(&self, line: usize) -> (len: usize)
        ensures
            len == line_content_len(self.text(), line as nat),
    {
        let lines = self.buffer.len_lines();
        match self.buffer.line_len(line) {
            Some(len) => {
                if line < lines - 1 {
                    proof {
                        crate::text::lemma_terminated_line_len(self.buffer@, line as nat);
                    }
                    len - 1
                } else {
                    len
                }
            },
            None => {
                proof {
                    crate::text::lemma_line_start_bound(self.buffer@, line as nat);
                    crate::text::lemma_line_start_bound(self.buffer@, line as nat + 1);
                }
                0
            },
        }
    }

    /// Takes over a parser binding, or the error that came in its place. A
    /// binding is installed in place of any earlier one, without any tree it
    /// may have brought, and the text is parsed from scratch; an error is
    /// handed on and changes nothing.
    pub fn adopt(&mut self, binding: Result<ParserBinding, Error>) -> (done: Result<(), Error>)
        ensures
            final(self).text() == old(self).text(),
            final(self).caret() == old(self).caret(),
            final(self).edits() == old(self).edits(),
            final(self).history_capacity() == old(self).history_capacity(),
            binding is Ok ==> done is Ok && final(self).is_parsed() && final(self).latest_parse()
                == ParseKind::Full,
            binding matches Ok(b) ==> final(self).parser_ready() == b.ready() && (b.ready()
                ==> final(self).has_tree()),
            binding matches Err(e) ==> done == Err::<(), Error>(e) && *final(self) == *old(self),
    {
        match binding {
            Ok(mut binding) => {
                binding.forget_tree();
                self.syntax = Some(binding);
                self.after_edit(None, Ghost(encode_utf8(self.buffer@).len()));
                Ok(())
            },
            Err(error) => Err(error),
        }
    }

    /// Configures the parser for `language` and parses the text from
    /// scratch, which gives a tree. From then on the text is parsed anew
    /// after every edit. This succeeds where the parsing library accepts the
    /// grammar; where it does not, the document stays as it was.
    pub fn configure_parser(&mut self, language: Language) -> (done: Result<(), Error>)
        ensures
            final(self).text() == old(self).text(),
            final(self).caret() == old(self).caret(),
            final(self).edits() == old(self).edits(),
            final(self).history_capacity() == old(self).history_capacity(),
            done is Ok <==> language_accepted(language),
            done is Ok ==> final(self).is_parsed() && final(self).parser_ready(),
            done is Ok ==> final(self).has_tree() && final(self).latest_parse()
                == ParseKind::Full,
            done is Err ==> done == Err::<(), Error>(Error::IncompatibleLanguage) && *final(self)
                == *old(self),
    {
        self.adopt(ParserBinding::new(language))
    }

    /// Parses the text anew, with the previous tree at hand if there is one.
    /// Without a parser this does nothing, which is no error.
    pub fn reparse(&mut self) -> (kind: ParseKind)
        ensures
            final(self).text() == old(self).text(),
            final(self).caret() == old(self).caret(),
            final(self).edits() == old(self).edits(),
            final(self).history_capacity() == old(self).history_capacity(),
            final(self).parsed_from(old(self)),
            kind == if !old(self).is_parsed() {
                ParseKind::Skipped
            } else if old(self).has_tree() {
                ParseKind::Incremental
            } else {
                ParseKind::Full
            },
    {
        match &mut self.syntax {
            Some(binding) => binding.reparse(&self.buffer),
            None => ParseKind::Skipped,
        }
    }

    /// The text.
    pub fn buffer(&self) -> (buffer: &TextBuffer)
        ensures
            buffer@ == self.text(),
    {
        &self.buffer
    }

    /// The caret.
    pub fn cursor(&self) -> (cursor: Cursor)
        ensures
            cursor == self.caret(),
    {
        self.cursor
    }

    /// Puts the caret at `cursor`, wherever that is. A caret that is out of
    /// bounds for the text makes the next edit fail; nothing else changes.
    pub fn set_cursor(&mut self, cursor: Cursor)
        ensures
            final(self).caret() == cursor,
            final(self).text() == old(self).text(),
            final(self).edits() == old(self).edits(),
            final(self).history_capacity() == old(self).history_capacity(),
            final(self).is_parsed() == old(self).is_parsed(),
            final(self).parser_ready() == old(self).parser_ready(),
            final(self).has_tree() == old(self).has_tree(),
            final(self).latest_parse() == old(self).latest_parse(),
    {
        self.cursor = cursor;
    }

    /// The recorded edits.
    pub fn history(&self) -> (history: &EditHistory)
        ensures
            history@ == self.edits(),
            history.spec_capacity() == self.history_capacity(),
    {
        &self.history
    }

    /// Whether a parser is configured.
    pub fn has_parser(&self) -> (yes: bool)
        ensures
            yes == self.is_parsed(),
    {
        self.syntax.is_some()
    }

    /// How the latest request for a parse was answered.
    pub fn last_parse(&self) -> (kind: ParseKind)
        ensures
            kind == self.latest_parse(),
    {
        match &self.syntax {
            Some(binding) => binding.latest_parse(),
            None => ParseKind::Skipped,
        }
    }

    /// The tree of the latest parse, if a parser is configured and produced
    /// one that describes a text of as many bytes as the document's text
    /// takes.
    pub fn tree(&self) -> (tree: Option<&Tree>)
        ensures
            tree is Some == self.has_tree(),
    {
        match &self.syntax {
            Some(binding) => {
                if binding.tree_extent() == self.buffer.len_bytes() {
                    binding.tree()
                } else {
                    None
                }
            },
            None => None,
        }
    }
}

impl Default for Document {
    /// An empty document, as [`Document::from_str`] makes it.
    fn default() -> (document: Self)
        ensures
            document.text() == Seq::<char>::empty(),
            document.caret() == (Cursor { x: 0, y: 0 }),
            document.edits() == Seq::<Edit>::empty(),
            document.history_capacity() == DEFAULT_HISTORY_CAPACITY,
            !document.is_parsed(),
            !document.has_tree(),
            document.latest_parse() == ParseKind::Skipped,
            document.valid(),
    {
        proof {
            reveal_strlit("");
        }
        let document = Document::from_str("");
        assert(document.text() =~= Seq::<char>::empty());
        document
    }
}

/// An inserted text adds its characters and its line feeds to those of the
/// text around it.
pub proof fn lemma_inserted_counts(s: Seq<char>, at: int, t: Seq<char>)
    requires
        0 <= at <= s.len(),
    ensures
        inserted(s, at, t).len() == s.len() + t.len(),
        lf_count(inserted(s, at, t)) == lf_count(s) + lf_count(t),
{
    let p = s.subrange(0, at);
    let q = s.subrange(at, s.len() as int);
    assert(p + q =~= s);
    crate::text::lemma_lf_count_concat(p, q);
    crate::text::lemma_lf_count_concat(p, t);
    crate::text::lemma_lf_count_concat(p + t, q);
}

/// A prefix of a text holds no more line feeds than the text.
pub proof fn lemma_lf_count_prefix(t: Seq<char>, i: int)
    requires
        0 <= i <= t.len(),
    ensures
        lf_count(t.subrange(0, i)) <= lf_count(t),
        i < t.len() ==> lf_count(t.subrange(0, i)) + (if t[i] == '\n' { 1int } else { 0int })
            == lf_count(t.subrange(0, i + 1)),
{
    crate::text::lemma_row_of_monotone(t, i, i);
    if i < t.len() {
        assert(t.subrange(0, i + 1).drop_last() =~= t.subrange(0, i));
    }
}

/// Typing moves the caret down by one line for each line feed, and to the
/// right by no more than one column for each character.
pub proof fn lemma_advanced_all_bounds(c: Cursor, t: Seq<char>)
    requires
        c.x + t.len() <= usize::MAX,
        c.y + lf_count(t) <= usize::MAX,
    ensures
        advanced_all(c, t).x <= c.x + t.len(),
        advanced_all(c, t).y == c.y + lf_count(t),
    decreases t.len(),
{
    if t.len() > 0 {
        lemma_advanced_all_bounds(c, t.drop_last());
    }
}

/// Typing one character more moves the caret over that character and
/// records one entry more.
pub proof fn lemma_typing_step(
    recorded: Seq<Edit>,
    cap: nat,
    t: Seq<char>,
    i: int,
    at: usize,
    c: Cursor,
)
    requires
        0 <= i < t.len(),
    ensures
        advanced_all(c, t.subrange(0, i + 1)) == advanced(advanced_all(c, t.subrange(0, i)), t[i]),
        pushed_all(recorded, cap, insert_edits(t.subrange(0, i + 1), at, c)) == newest(
            pushed_all(recorded, cap, insert_edits(t.subrange(0, i), at, c)).push(
                Edit::Insert {
                    char_idx: at,
                    ch: char_of(t, i),
                    point: advanced_all(c, t.subrange(0, i)),
                },
            ),
            cap,
        ),
{
    let longer = t.subrange(0, i + 1);
    let typed = insert_edits(t.subrange(0, i), at, c);
    let entry = Edit::Insert {
        char_idx: at,
        ch: char_of(t, i),
        point: advanced_all(c, t.subrange(0, i)),
    };
    assert(longer.drop_last() =~= t.subrange(0, i));
    assert(insert_edits(longer, at, c) == typed.push(entry));
    assert(typed.push(entry).drop_last() =~= typed);
}

/// Only a document with a parser has a tree at hand, and only such a
/// document has a parser that is ready.
pub proof fn lemma_tree_needs_parser(document: &Document)
    ensures
        document.has_tree() ==> document.is_parsed(),
        document.parser_ready() ==> document.is_parsed(),
{
}

/// The caret of a document stands for a character index that is never
/// negative; a valid caret is in bounds, so that its index is not behind the
/// end of the text and an edit at it is not refused.
pub proof fn lemma_valid_document_in_bounds(document: &Document)
    ensures
        0 <= document.char_index(),
        document.valid() ==> document.in_bounds() && document.char_index()
            <= document.text().len(),
{
    crate::text::lemma_valid_cursor_in_text(document.text(), document.caret());
}

/// Typing one character is typing the text that holds that character alone:
/// the two leave the same text, the same caret, the same record and the same
/// report.
pub proof fn lemma_typed_char_is_typed_text(
    after: &Document,
    before: &Document,
    ch: char,
    error: Option<Error>,
)
    ensures
        after.typed_char_from(before, ch, error) <==> after.typed_from(before, seq![ch], error),
{
    let t = seq![ch];
    let c = before.caret();
    let at = before.char_index() as usize;
    let entry = Edit::Insert { char_idx: at, ch, point: c };
    reveal_with_fuel(advanced_all, 2);
    reveal_with_fuel(insert_edits, 2);
    reveal_with_fuel(pushed_all, 2);
    assert(t.drop_last() =~= Seq::<char>::empty());
    assert(t.last() == ch);
    assert(advanced_all(c, t) == advanced(c, ch));
    assert(insert_edits(t.drop_last(), at, c) =~= Seq::<Edit>::empty());
    assert(insert_edits(t, at, c) =~= seq![entry]);
    assert(seq![entry].drop_last() =~= Seq::<Edit>::empty());
    assert(pushed_all(before.edits(), before.history_capacity(), seq![entry]) == newest(
        before.edits().push(entry),
        before.history_capacity(),
    ));
}

} // verus!
