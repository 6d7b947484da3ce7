//! The text itself: a rope, seen by the rest of the library as the sequence of
//! characters it holds.
//!
//! The rope is built without its `cr_lines` and `unicode_lines` features, so
//! that the only line break it knows is the line feed, the one character for
//! which the caret starts a new line.

use vstd::prelude::*;
use vstd::slice::slice_subrange;
use vstd::utf8::{decode_utf8, encode_utf8, valid_utf8};
use crate::error::Error;
use crate::text::{
    byte_offset, inserted, line_count, line_len, line_start, line_text, removed, row_of,
};

verus! {

/// `ropey::Rope`, of which nothing is known but what the functions below say.
#[verifier::external_type_specification]
#[verifier::external_body]
pub struct ExRope(ropey::Rope);

/// The characters that a rope holds, in order.
pub uninterp spec fn rope_text(rope: ropey::Rope) -> Seq<char>;

/// `core::str::from_utf8`: the bytes as a string where they are valid UTF-8,
/// and nothing where they are not.
#[verifier::external_body]
fn str_from_utf8(bytes: &[u8]) -> (text: Option<&str>)
    ensures
        text is Some <==> valid_utf8(bytes@),
        text matches Some(s) ==> encode_utf8(s@) == bytes@,
{
    match core::str::from_utf8(bytes) {
        Ok(text) => Some(text),
        Err(_) => None,
    }
}

/// `ropey::Rope::from_str`: the new rope holds the characters of `text`.
#[verifier::external_body]
fn rope_from_str(text: &str) -> (rope: ropey::Rope)
    ensures
        rope_text(rope) == text@,
{
    ropey::Rope::from_str(text)
}

/// `ropey::Rope::len_chars`: the number of characters held.
#[verifier::external_body]
fn rope_len_chars(rope: &ropey::Rope) -> (n: usize)
    ensures
        n == rope_text(*rope).len(),
{
    rope.len_chars()
}

/// `ropey::Rope::len_bytes`: the length of the text's UTF-8 encoding.
#[verifier::external_body]
fn rope_len_bytes(rope: &ropey::Rope) -> (n: usize)
    ensures
        n == encode_utf8(rope_text(*rope)).len(),
{
    rope.len_bytes()
}

/// `ropey::Rope::len_lines`: one more than the number of line breaks, which
/// without the crate's line-break features are the line feeds.
#[verifier::external_body]
fn rope_len_lines(rope: &ropey::Rope) -> (n: usize)
    ensures
        n == line_count(rope_text(*rope)),
{
    rope.len_lines()
}

/// `ropey::Rope::line_to_char`: the character index at which a line starts,
/// the first at `0` and each later one just behind a line feed; the index one
/// past the last line gives the length of the text. It panics on a larger
/// line index.
#[verifier::external_body]
fn rope_line_to_char(rope: &ropey::Rope, line: usize) -> (i: usize)
    requires
        line <= line_count(rope_text(*rope)),
    ensures
        i == line_start(rope_text(*rope), line as nat),
{
    rope.line_to_char(line)
}

/// `ropey::Rope::line`, turned into a string by `String::from`: the
/// characters of a line, from its start to the start of the next, so with
/// its line feed. It panics on a line index that is not below the number of
/// lines.
#[verifier::external_body]
fn rope_line(rope: &ropey::Rope, line: usize) -> (text: String)
    requires
        line < line_count(rope_text(*rope)),
    ensures
        text@ == line_text(rope_text(*rope), line as nat),
{
    String::from(rope.line(line))
}

/// `ropey::Rope::char`: the character at an index below the length.
#[verifier::external_body]
fn rope_char(rope: &ropey::Rope, char_idx: usize) -> (ch: char)
    requires
        char_idx < rope_text(*rope).len(),
    ensures
        ch == rope_text(*rope)[char_idx as int],
{
    rope.char(char_idx)
}

/// `ropey::Rope::char_to_byte`: the length of the UTF-8 encoding of the
/// characters in front of a character index, which may be the length.
#[verifier::external_body]
fn rope_char_to_byte(rope: &ropey::Rope, char_idx: usize) -> (byte_idx: usize)
    requires
        char_idx <= rope_text(*rope).len(),
    ensures
        byte_idx == encode_utf8(rope_text(*rope).subrange(0, char_idx as int)).len(),
{
    rope.char_to_byte(char_idx)
}

/// `ropey::Rope::char_to_line`: the number of line breaks in front of a
/// character index, which may be the length.
#[verifier::external_body]
fn rope_char_to_line(rope: &ropey::Rope, char_idx: usize) -> (line: usize)
    requires
        char_idx <= rope_text(*rope).len(),
    ensures
        line == row_of(rope_text(*rope), char_idx as int),
{
    rope.char_to_line(char_idx)
}

/// `ropey::Rope::insert`: puts the characters of `text` in front of a
/// character index, which may be the length. It panics on a larger one.
#[verifier::external_body]
fn rope_insert(rope: &mut ropey::Rope, char_idx: usize, text: &str)
    requires
        char_idx <= rope_text(*old(rope)).len(),
    ensures
        rope_text(*final(rope)) == inserted(rope_text(*old(rope)), char_idx as int, text@),
{
    rope.insert(char_idx, text)
}

/// `ropey::Rope::insert_char`: puts one character in front of a character
/// index, which may be the length. It panics on a larger one.
#[verifier::external_body]
fn rope_insert_char(rope: &mut ropey::Rope, char_idx: usize, ch: char)
    requires
        char_idx <= rope_text(*old(rope)).len(),
    ensures
        rope_text(*final(rope)) == inserted(rope_text(*old(rope)), char_idx as int, seq![ch]),
{
    rope.insert_char(char_idx, ch)
}

/// `ropey::Rope::remove`: takes out the characters of a half-open range of
/// character indices. It panics where the range runs backwards or ends
/// behind the text.
#[verifier::external_body]
fn rope_remove(rope: &mut ropey::Rope, start: usize, end: usize)
    requires
        start <= end <= rope_text(*old(rope)).len(),
    ensures
        rope_text(*final(rope)) == removed(rope_text(*old(rope)), start as int, end as int),
{
    rope.remove(start..end)
}

/// `ropey::Rope::chunk_at_byte`, of whose result the chunk and the byte index
/// of its start are handed on. The chunk is a piece of the encoded text, and
/// holds the byte asked for unless that is the one past the end. Which piece
/// it is depends on how the rope came to be, so nothing more is said. It
/// panics on a byte index behind the encoded length.
#[verifier::external_body]
fn rope_chunk_at_byte<'a>(rope: &'a ropey::Rope, byte_idx: usize) -> (chunk: (&'a str, usize))
    requires
        byte_idx <= encode_utf8(rope_text(*rope)).len(),
    ensures
        chunk.1 <= byte_idx <= chunk.1 + encode_utf8(chunk.0@).len(),
        chunk.1 + encode_utf8(chunk.0@).len() <= encode_utf8(rope_text(*rope)).len(),
        byte_idx < encode_utf8(rope_text(*rope)).len() ==> byte_idx < chunk.1 + encode_utf8(
            chunk.0@,
        ).len(),
        encode_utf8(chunk.0@) == encode_utf8(rope_text(*rope)).subrange(
            chunk.1 as int,
            chunk.1 + encode_utf8(chunk.0@).len(),
        ),
{
    let (text, start, _, _) = rope.chunk_at_byte(byte_idx);
    (text, start)
}

/// `String::from(&ropey::Rope)`: the text as one string.
#[verifier::external_body]
fn rope_to_string(rope: &ropey::Rope) -> (text: String)
    ensures
        text@ == rope_text(*rope),
{
    String::from(rope)
}

/// A place in a text as a parser counts it: in bytes of the UTF-8 encoding.
#[derive(Debug, Clone, Copy, PartialEq, Eq, Structural)]
pub struct TextPoint {
    /// The number of bytes in front of the place.
    pub byte: usize,
    /// The number of line feeds in front of the place.
    pub row: usize,
    /// The number of bytes between the start of the row and the place.
    pub column: usize,
}

/// The place of character index `i` in the text `s`.
pub open spec fn point_of(s: Seq<char>, i: int) -> TextPoint {
    TextPoint {
        byte: byte_offset(s, i) as usize,
        row: row_of(s, i) as usize,
        column: (byte_offset(s, i) - byte_offset(s, line_start(s, row_of(s, i)) as int)) as usize,
    }
}

/// A mutable text, addressed by character index and by line.
pub struct TextBuffer {
    rope: ropey::Rope,
}

impl View for TextBuffer {
    type V = Seq<char>;

    closed spec fn view(&self) -> Seq<char> {
        rope_text(self.rope)
    }
}

impl TextBuffer {
    /// A buffer that holds the characters of `text`.
    pub fn from_str(text: &str) -> (buffer: Self)
        ensures
            buffer@ == text@,
    {
        TextBuffer { rope: rope_from_str(text) }
    }

    /// A buffer that holds the text of which `bytes` is the UTF-8 encoding.
    /// Bytes that are no such encoding are refused.
    pub fn from_utf8(bytes: &[u8]) -> (buffer: Result<Self, Error>)
        ensures
            valid_utf8(bytes@) ==> (buffer matches Ok(b) && b@ == decode_utf8(bytes@)),
            !valid_utf8(bytes@) ==> (buffer matches Err(e) && e == Error::InvalidUtf8),
    {
        match str_from_utf8(bytes) {
            Some(text) => {
                proof {
                    vstd::utf8::encode_utf8_decode_utf8(text@);
                }
                Ok(Self::from_str(text))
            },
            None => Err(Error::InvalidUtf8),
        }
    }

    /// Has the rope count its characters and lines, which shows that the
    /// counts fit the machine's word.
    fn measure(&self)
        ensures
            self@.len() <= usize::MAX,
            line_count(self@) <= usize::MAX,
    {
        let _ = rope_len_chars(&self.rope);
        let _ = rope_len_lines(&self.rope);
    }

    /// The number of characters in the buffer.
    pub fn len_chars(&self) -> (n: usize)
        ensures
            n == self@.len(),
    {
        rope_len_chars(&self.rope)
    }

    /// The number of bytes that the buffer's text takes in UTF-8.
    pub fn len_bytes(&self) -> (n: usize)
        ensures
            n == encode_utf8(self@).len(),
    {
        rope_len_bytes(&self.rope)
    }

    /// The number of lines in the buffer: at least one.
    pub fn len_lines(&self) -> (n: usize)
        ensures
            n == line_count(self@),
    {
        rope_len_lines(&self.rope)
    }

    /// Inserts `text` in front of character index `char_idx`. An index behind
    /// the end of the buffer is refused, and nothing is inserted.
    pub fn insert(&mut self, char_idx: usize, text: &str) -> (done: Result<(), Error>)
        ensures
            char_idx <= old(self)@.len() ==> done is Ok && final(self)@ == inserted(
                old(self)@,
                char_idx as int,
                text@,
            ),
            char_idx > old(self)@.len() ==> done == Err::<(), Error>(Error::OutOfBounds)
                && *final(self) == *old(self),
            final(self)@.len() <= usize::MAX,
            line_count(final(self)@) <= usize::MAX,
    {
        if char_idx > rope_len_chars(&self.rope) {
            self.measure();
            return Err(Error::OutOfBounds);
        }
        rope_insert(&mut self.rope, char_idx, text);
        self.measure();
        Ok(())
    }

    /// Inserts one character in front of character index `char_idx`. An index
    /// behind the end of the buffer is refused, and nothing is inserted.
    pub fn insert_char(&mut self, char_idx: usize, ch: char) -> (done: Result<(), Error>)
        ensures
            char_idx <= old(self)@.len() ==> done is Ok && final(self)@ == inserted(
                old(self)@,
                char_idx as int,
                seq![ch],
            ),
            char_idx > old(self)@.len() ==> done == Err::<(), Error>(Error::OutOfBounds)
                && *final(self) == *old(self),
            final(self)@.len() <= usize::MAX,
            line_count(final(self)@) <= usize::MAX,
    {
        if char_idx > rope_len_chars(&self.rope) {
            self.measure();
            return Err(Error::OutOfBounds);
        }
        rope_insert_char(&mut self.rope, char_idx, ch);
        self.measure();
        Ok(())
    }

    /// Removes the characters from index `start` up to, not including, `end`.
    /// An empty range removes nothing. A range that runs backwards or ends
    /// behind the buffer is refused, and nothing is removed.
    pub fn remove(&mut self, start: usize, end: usize) -> (done: Result<(), Error>)
        ensures
            start <= end <= old(self)@.len() ==> done is Ok && final(self)@ == removed(
                old(self)@,
                start as int,
                end as int,
            ),
            start == end <= old(self)@.len() ==> final(self)@ == old(self)@,
            !(start <= end <= old(self)@.len()) ==> done == Err::<(), Error>(Error::OutOfBounds)
                && *final(self) == *old(self),
    {
        if start > end || end > rope_len_chars(&self.rope) {
            return Err(Error::OutOfBounds);
        }
        rope_remove(&mut self.rope, start, end);
        assert(removed(old(self)@, start as int, start as int) =~= old(self)@);
        Ok(())
    }

    /// The character index at which line `line` starts. The line one past the
    /// last starts at the end of the buffer; there is no line behind that.
    pub fn line_to_char(&self, line: usize) -> (start: Option<usize>)
        ensures
            line <= line_count(self@) ==> start is Some && start.unwrap() == line_start(
                self@,
                line as nat,
            ) <= self@.len(),
            line > line_count(self@) ==> start is None,
    {
        if line > rope_len_lines(&self.rope) {
            return None;
        }
        proof {
            crate::text::lemma_line_start_bound(self@, line as nat);
        }
        self.measure();
        Some(rope_line_to_char(&self.rope, line))
    }

    /// The length of line `line`, its line feed included, if there is such a line.
    pub fn line_len(&self, line: usize) -> (len: Option<usize>)
        ensures
            line < line_count(self@) ==> len is Some && len.unwrap() == line_len(
                self@,
                line as nat,
            ) <= self@.len(),
            line >= line_count(self@) ==> len is None,
    {
        if line >= rope_len_lines(&self.rope) {
            return None;
        }
        proof {
            crate::text::lemma_line_start_bound(self@, line as nat + 1);
            crate::text::lemma_line_start_monotone(self@, line as nat, line as nat + 1);
        }
        self.measure();
        let start = rope_line_to_char(&self.rope, line);
        let next = rope_line_to_char(&self.rope, line + 1);
        Some(next - start)
    }

    /// The characters of line `line`, its line feed included, if there is
    /// such a line.
    pub fn line(&self, line: usize) -> (text: Option<String>)
        ensures
            line < line_count(self@) ==> text is Some && text.unwrap()@ == line_text(
                self@,
                line as nat,
            ),
            line >= line_count(self@) ==> text is None,
    {
        if line >= rope_len_lines(&self.rope) {
            return None;
        }
        Some(rope_line(&self.rope, line))
    }

    /// The character at index `char_idx`, if the buffer is that long.
    pub fn char_at(&self, char_idx: usize) -> (ch: Option<char>)
        ensures
            char_idx < self@.len() ==> ch == Some(self@[char_idx as int]),
            char_idx >= self@.len() ==> ch is None,
    {
        if char_idx >= rope_len_chars(&self.rope) {
            return None;
        }
        Some(rope_char(&self.rope, char_idx))
    }

    /// The number of bytes that the characters in front of `char_idx` take in
    /// UTF-8, if the index lies in the buffer or at its end.
    pub fn char_to_byte(&self, char_idx: usize) -> (byte_idx: Option<usize>)
        ensures
            char_idx <= self@.len() ==> byte_idx is Some && byte_idx.unwrap() == byte_offset(
                self@,
                char_idx as int,
            ),
            char_idx > self@.len() ==> byte_idx is None,
    {
        if char_idx > rope_len_chars(&self.rope) {
            return None;
        }
        Some(rope_char_to_byte(&self.rope, char_idx))
    }

    /// The line on which character index `char_idx` stands, if the index lies
    /// in the buffer or at its end.
    pub fn char_to_line(&self, char_idx: usize) -> (line: Option<usize>)
        ensures
            char_idx <= self@.len() ==> line is Some && line.unwrap() == row_of(
                self@,
                char_idx as int,
            ) < line_count(self@),
            char_idx > self@.len() ==> line is None,
    {
        if char_idx > rope_len_chars(&self.rope) {
            return None;
        }
        proof {
            crate::text::lemma_position_bounds(self@, char_idx as int);
        }
        self.measure();
        Some(rope_char_to_line(&self.rope, char_idx))
    }

    /// The place of character index `char_idx` as a parser counts it, if the
    /// index lies in the buffer or at its end.
    pub fn point_at(&self, char_idx: usize) -> (point: Option<TextPoint>)
        ensures
            char_idx <= self@.len() ==> point == Some(point_of(self@, char_idx as int)),
            char_idx <= self@.len() ==> {
                &&& byte_offset(self@, char_idx as int) <= usize::MAX
                &&& row_of(self@, char_idx as int) <= usize::MAX
                &&& byte_offset(self@, line_start(self@, row_of(self@, char_idx as int)) as int)
                    <= byte_offset(self@, char_idx as int)
            },
            char_idx > self@.len() ==> point is None,
    {
        if char_idx > rope_len_chars(&self.rope) {
            return None;
        }
        let row = rope_char_to_line(&self.rope, char_idx);
        proof {
            crate::text::lemma_position_bounds(self@, char_idx as int);
            crate::text::lemma_byte_offset_monotone(
                self@,
                line_start(self@, row as nat) as int,
                char_idx as int,
            );
        }
        let row_start = rope_line_to_char(&self.rope, row);
        let byte = rope_char_to_byte(&self.rope, char_idx);
        let row_byte = rope_char_to_byte(&self.rope, row_start);
        Some(TextPoint { byte, row, column: byte - row_byte })
    }

    /// A piece of the buffer's UTF-8 encoding that starts at byte `offset`:
    /// never empty while `offset` lies inside the encoding, and empty from its
    /// end on. A reader that asks again at the end of each piece is handed the
    /// whole text without its ever being copied into one place.
    pub fn text_at_byte(&self, offset: usize) -> (piece: &[u8])
        ensures
            offset >= encode_utf8(self@).len() ==> piece@.len() == 0,
            offset < encode_utf8(self@).len() ==> piece@.len() > 0,
            offset < encode_utf8(self@).len() ==> offset + piece@.len() <= encode_utf8(self@).len(),
            offset < encode_utf8(self@).len() ==> piece@ == encode_utf8(self@).subrange(
                offset as int,
                offset + piece@.len(),
            ),
    {
        if offset >= rope_len_bytes(&self.rope) {
            return &[];
        }
        let (chunk, start) = rope_chunk_at_byte(&self.rope, offset);
        let bytes = chunk.as_bytes();
        slice_subrange(bytes, offset - start, bytes.len())
    }

    /// A piece of the buffer's UTF-8 encoding that starts at byte `offset`
    /// and does not reach behind byte `end`: never empty while `offset` lies
    /// in front of `end` and inside the encoding, and empty else. A reader
    /// that asks again at the end of each piece is handed the bytes from
    /// `offset` to `end`.
    pub fn text_between(&self, offset: usize, end: usize) -> (piece: &[u8])
        ensures
            offset >= end || offset >= encode_utf8(self@).len() ==> piece@.len() == 0,
            offset < end && offset < encode_utf8(self@).len() ==> {
                &&& piece@.len() > 0
                &&& offset + piece@.len() <= end
                &&& offset + piece@.len() <= encode_utf8(self@).len()
                &&& piece@ == encode_utf8(self@).subrange(offset as int, offset + piece@.len())
            },
    {
        if offset >= end {
            return &[];
        }
        let piece = self.text_at_byte(offset);
        let room = end - offset;
        if piece.len() > room {
            let cut = slice_subrange(piece, 0, room);
            assert(cut@ =~= encode_utf8(self@).subrange(offset as int, offset + room));
            cut
        } else {
            piece
        }
    }

    /// The buffer's text as one string.
    pub fn to_string(&self) -> (text: String)
        ensures
            text@ == self@,
    {
        rope_to_string(&self.rope)
    }
}

} // verus!
