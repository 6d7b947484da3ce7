//! The mathematical model of a document's text: a sequence of characters, cut
//! into lines by line feeds, with positions given either as one character
//! index or as a row and a column.

use vstd::prelude::*;
use vstd::utf8::encode_utf8;
use crate::cursor::Cursor;

verus! {

/// The number of line feeds in `s`.
pub open spec fn lf_count(s: Seq<char>) -> nat
    decreases s.len(),
{
    if s.len() == 0 {
        0
    } else {
        lf_count(s.drop_last()) + if s.last() == '\n' { 1nat } else { 0nat }
    }
}

/// The number of lines of `s`: one more than its line feeds, so the text after
/// the last line feed is a line even when it is empty.
pub open spec fn line_count(s: Seq<char>) -> nat {
    lf_count(s) + 1
}

/// The character index at which line `k` starts: `0` for the first line, the
/// index just behind the `k`-th line feed for a later one, and the length of
/// `s` when `s` has fewer than `k` line feeds.
pub open spec fn line_start(s: Seq<char>, k: nat) -> nat
    decreases s.len(),
{
    if s.len() == 0 {
        0
    } else if k <= lf_count(s.drop_last()) {
        line_start(s.drop_last(), k)
    } else {
        s.len()
    }
}

/// The length of line `k`, its line feed included.
pub open spec fn line_len(s: Seq<char>, k: nat) -> nat {
    (line_start(s, k + 1) - line_start(s, k)) as nat
}

/// The characters of line `k`, its line feed included.
pub open spec fn line_text(s: Seq<char>, k: nat) -> Seq<char> {
    s.subrange(line_start(s, k) as int, line_start(s, k + 1) as int)
}

/// The length of line `k` without its line feed: the largest column a caret
/// can take on that line.
pub open spec fn line_content_len(s: Seq<char>, k: nat) -> nat {
    if k < lf_count(s) {
        (line_len(s, k) - 1) as nat
    } else {
        line_len(s, k)
    }
}

/// The row of character index `i`: the number of line feeds in front of it.
pub open spec fn row_of(s: Seq<char>, i: int) -> nat {
    lf_count(s.subrange(0, i))
}

/// The column of character index `i`: its distance from the start of its row.
pub open spec fn col_of(s: Seq<char>, i: int) -> int {
    i - line_start(s, row_of(s, i))
}

/// The character at index `i` of `s`. A record built from an element of a
/// text takes it through here, as a value of its own type.
pub open spec fn char_of(s: Seq<char>, i: int) -> char {
    s[i]
}

/// `s` with `t` put in front of character index `at`.
pub open spec fn inserted(s: Seq<char>, at: int, t: Seq<char>) -> Seq<char> {
    s.subrange(0, at) + t + s.subrange(at, s.len() as int)
}

/// `s` without the characters from index `from` up to, not including, `to`.
pub open spec fn removed(s: Seq<char>, from: int, to: int) -> Seq<char> {
    s.subrange(0, from) + s.subrange(to, s.len() as int)
}

/// Line feeds add up over concatenation.
pub proof fn lemma_lf_count_concat(a: Seq<char>, b: Seq<char>)
    ensures
        lf_count(a + b) == lf_count(a) + lf_count(b),
    decreases b.len(),
{
    if b.len() == 0 {
        assert(a + b =~= a);
    } else {
        assert((a + b).drop_last() =~= a + b.drop_last());
        lemma_lf_count_concat(a, b.drop_last());
    }
}

/// A longer prefix holds at least as many line feeds, and at most one more per
/// added character.
pub proof fn lemma_row_of_monotone(s: Seq<char>, i: int, j: int)
    requires
        0 <= i <= j <= s.len(),
    ensures
        row_of(s, i) <= row_of(s, j) <= row_of(s, i) + (j - i),
        row_of(s, j) <= lf_count(s),
{
    lemma_lf_count_concat(s.subrange(0, i), s.subrange(i, j));
    assert(s.subrange(0, i) + s.subrange(i, j) =~= s.subrange(0, j));
    lemma_lf_count_bound(s.subrange(i, j));
    lemma_lf_count_concat(s.subrange(0, j), s.subrange(j, s.len() as int));
    assert(s.subrange(0, j) + s.subrange(j, s.len() as int) =~= s);
}

/// A text holds no more line feeds than characters.
pub proof fn lemma_lf_count_bound(s: Seq<char>)
    ensures
        lf_count(s) <= s.len(),
    decreases s.len(),
{
    if s.len() > 0 {
        lemma_lf_count_bound(s.drop_last());
    }
}

/// A line starts inside the text or at its end.
pub proof fn lemma_line_start_bound(s: Seq<char>, k: nat)
    ensures
        line_start(s, k) <= s.len(),
        k == 0 ==> line_start(s, k) == 0,
        k > lf_count(s) ==> line_start(s, k) == s.len(),
    decreases s.len(),
{
    if s.len() > 0 {
        lemma_line_start_bound(s.drop_last(), k);
    }
}

/// Later lines start later.
pub proof fn lemma_line_start_monotone(s: Seq<char>, j: nat, k: nat)
    requires
        j <= k,
    ensures
        line_start(s, j) <= line_start(s, k),
    decreases s.len(),
{
    lemma_line_start_bound(s, j);
    if s.len() > 0 && k <= lf_count(s.drop_last()) {
        lemma_line_start_monotone(s.drop_last(), j, k);
    }
}

/// A line that ends in a line feed is at least that one character long.
pub proof fn lemma_terminated_line_len(s: Seq<char>, k: nat)
    requires
        k < lf_count(s),
    ensures
        line_start(s, k) < line_start(s, k + 1) <= s.len(),
        line_len(s, k) >= 1,
        s[line_start(s, k + 1) - 1] == '\n',
{
    lemma_line_start_after_lf(s, k);
    lemma_line_start_after_lf(s, k + 1);
    lemma_line_start_bound(s, k);
    lemma_line_start_bound(s, k + 1);
    if line_start(s, k + 1) <= line_start(s, k) {
        lemma_row_of_monotone(s, line_start(s, k + 1) as int, line_start(s, k) as int);
    }
}

/// Where a line starts is decided by the text up to any point behind its line
/// feed: appending to a prefix that holds `k` line feeds does not move line `k`.
pub proof fn lemma_line_start_prefix(p: Seq<char>, q: Seq<char>, k: nat)
    requires
        k <= lf_count(p),
    ensures
        line_start(p + q, k) == line_start(p, k),
    decreases q.len(),
{
    if q.len() == 0 {
        assert(p + q =~= p);
    } else {
        assert((p + q).drop_last() =~= p + q.drop_last());
        lemma_lf_count_concat(p, q.drop_last());
        lemma_line_start_prefix(p, q.drop_last(), k);
    }
}

/// A line after the first starts just behind a line feed, and exactly `k` line
/// feeds stand in front of the start of line `k`.
pub proof fn lemma_line_start_after_lf(s: Seq<char>, k: nat)
    requires
        k <= lf_count(s),
    ensures
        row_of(s, line_start(s, k) as int) == k,
        k > 0 ==> line_start(s, k) > 0 && s[line_start(s, k) - 1] == '\n',
    decreases s.len(),
{
    lemma_line_start_bound(s, k);
    if s.len() == 0 {
        assert(s.subrange(0, 0) =~= s);
    } else if k <= lf_count(s.drop_last()) {
        let p = s.drop_last();
        lemma_line_start_after_lf(p, k);
        lemma_line_start_bound(p, k);
        let i = line_start(p, k) as int;
        assert(p.subrange(0, i) =~= s.subrange(0, i));
    } else {
        assert(s.subrange(0, s.len() as int) =~= s);
    }
}

/// The start of the row of a character index is not behind it, and its column
/// is one that a caret can take on that row.
pub proof fn lemma_position_bounds(s: Seq<char>, i: int)
    requires
        0 <= i <= s.len(),
    ensures
        row_of(s, i) <= lf_count(s),
        line_start(s, row_of(s, i)) <= i,
        0 <= col_of(s, i) <= line_content_len(s, row_of(s, i)),
{
    let r = row_of(s, i);
    let p = s.subrange(0, i);
    let q = s.subrange(i, s.len() as int);
    assert(p + q =~= s);
    lemma_row_of_monotone(s, i, i);
    lemma_line_start_prefix(p, q, r);
    lemma_line_start_bound(p, r);
    lemma_line_start_bound(s, r + 1);
    if r < lf_count(s) {
        let j = line_start(s, r + 1) as int;
        lemma_line_start_after_lf(s, r + 1);
        if j <= i {
            lemma_row_of_monotone(s, j, i);
        }
    }
}

/// Every column up to the content length of a line belongs to that line.
pub proof fn lemma_row_of_column(s: Seq<char>, k: nat, x: nat)
    requires
        k <= lf_count(s),
        x <= line_content_len(s, k),
    ensures
        line_start(s, k) + x <= s.len(),
        row_of(s, (line_start(s, k) + x) as int) == k,
        col_of(s, (line_start(s, k) + x) as int) == x,
{
    let a = line_start(s, k) as int;
    let i = a + x;
    lemma_line_start_bound(s, k);
    lemma_line_start_bound(s, k + 1);
    lemma_line_start_monotone(s, k, k + 1);
    lemma_line_start_after_lf(s, k);
    if k < lf_count(s) {
        lemma_line_start_after_lf(s, k + 1);
    }
    lemma_row_of_monotone(s, a, i);
    if row_of(s, i) > k {
        let p = s.subrange(0, i);
        let q = s.subrange(i, s.len() as int);
        assert(p + q =~= s);
        lemma_row_of_monotone(s, i, i);
        lemma_line_start_prefix(p, q, k + 1);
        lemma_line_start_bound(p, k + 1);
    }
}

/// A caret that is on a line of the text and not behind that line's content.
pub open spec fn cursor_valid(s: Seq<char>, c: Cursor) -> bool {
    c.y < line_count(s) && c.x <= line_content_len(s, c.y as nat)
}

/// The character index that a caret stands for.
pub open spec fn cursor_index(s: Seq<char>, c: Cursor) -> int {
    line_start(s, c.y as nat) + c.x
}

/// The caret `c` is the row and column of character index `i`.
pub open spec fn cursor_at(s: Seq<char>, c: Cursor, i: int) -> bool {
    0 <= i <= s.len() && c.y == row_of(s, i) && c.x == col_of(s, i)
}

/// A valid caret is the row and column of its own character index, which lies
/// in the text; and a caret that is the row and column of an index is valid.
pub proof fn lemma_cursor_valid_iff_at(s: Seq<char>, c: Cursor)
    ensures
        cursor_valid(s, c) <==> cursor_at(s, c, cursor_index(s, c)),
        forall|i: int| cursor_at(s, c, i) ==> i == cursor_index(s, c),
{
    if cursor_valid(s, c) {
        lemma_row_of_column(s, c.y as nat, c.x as nat);
    }
    if cursor_at(s, c, cursor_index(s, c)) {
        lemma_position_bounds(s, cursor_index(s, c));
    }
}

/// The caret after typing `ch`: the start of the next line for a line feed,
/// one column further for anything else.
pub open spec fn advanced(c: Cursor, ch: char) -> Cursor {
    if ch == '\n' {
        Cursor { x: 0, y: (c.y + 1) as usize }
    } else {
        Cursor { x: (c.x + 1) as usize, y: c.y }
    }
}

/// The caret after typing the characters of `t` in order.
pub open spec fn advanced_all(c: Cursor, t: Seq<char>) -> Cursor
    decreases t.len(),
{
    if t.len() == 0 {
        c
    } else {
        advanced(advanced_all(c, t.drop_last()), t.last())
    }
}

/// Typing one character at a caret's index leaves the advanced caret standing
/// just behind that character.
pub proof fn lemma_insert_char_advances(s: Seq<char>, c: Cursor, i: int, ch: char)
    requires
        cursor_at(s, c, i),
        s.len() < usize::MAX,
    ensures
        cursor_at(inserted(s, i, seq![ch]), advanced(c, ch), i + 1),
{
    let p = s.subrange(0, i);
    let q = s.subrange(i, s.len() as int);
    let s2 = inserted(s, i, seq![ch]);
    let grown = p + seq![ch];
    let r = row_of(s, i);
    assert(p + q =~= s);
    assert(grown + q =~= s2);
    assert(s2.subrange(0, i + 1) =~= grown);
    assert(grown.drop_last() =~= p);
    lemma_position_bounds(s, i);
    lemma_lf_count_bound(s);
    lemma_row_of_monotone(s, i, i);
    lemma_line_start_prefix(p, q, r);
    if ch == '\n' {
        lemma_line_start_prefix(grown, q, r + 1);
    } else {
        lemma_line_start_prefix(grown, q, r);
    }
}

/// Typing a text at a caret's index leaves the caret, advanced over each of
/// its characters, standing just behind the text.
pub proof fn lemma_insert_text_advances(s: Seq<char>, c: Cursor, i: int, t: Seq<char>)
    requires
        cursor_at(s, c, i),
        s.len() + t.len() <= usize::MAX,
    ensures
        cursor_at(inserted(s, i, t), advanced_all(c, t), i + t.len()),
    decreases t.len(),
{
    if t.len() == 0 {
        assert(inserted(s, i, t) =~= s);
    } else {
        let t0 = t.drop_last();
        let s0 = inserted(s, i, t0);
        lemma_insert_text_advances(s, c, i, t0);
        lemma_insert_char_advances(s0, advanced_all(c, t0), i + t0.len(), t.last());
        assert(inserted(s0, i + t0.len(), seq![t.last()]) =~= inserted(s, i, t));
    }
}

/// Removing the character in front of a caret's index leaves that index one
/// column to the left of the caret if the caret was not at the start of its
/// line, and at the end of the previous line's content if it was.
pub proof fn lemma_remove_char_retreats(s: Seq<char>, c: Cursor, i: int)
    requires
        cursor_at(s, c, i),
        i > 0,
    ensures
        c.x > 0 ==> row_of(removed(s, i - 1, i), i - 1) == c.y && col_of(
            removed(s, i - 1, i),
            i - 1,
        ) == c.x - 1,
        c.x == 0 ==> c.y > 0 && row_of(removed(s, i - 1, i), i - 1) == c.y - 1 && col_of(
            removed(s, i - 1, i),
            i - 1,
        ) == line_content_len(s, (c.y - 1) as nat),
{
    let p = s.subrange(0, i - 1);
    let q = s.subrange(i, s.len() as int);
    let s2 = removed(s, i - 1, i);
    let r = row_of(s, i);
    assert(p + q =~= s2);
    assert(s2.subrange(0, i - 1) =~= p);
    assert(p + s.subrange(i - 1, s.len() as int) =~= s);
    assert(s.subrange(0, i).drop_last() =~= p);
    lemma_position_bounds(s, i);
    lemma_position_bounds(s, i - 1);
    lemma_row_of_monotone(s, i - 1, i);
    lemma_line_start_after_lf(s, r);
    lemma_line_start_bound(s, r);
    if c.x > 0 {
        let a = line_start(s, r) as int;
        lemma_row_of_monotone(s, a, i - 1);
        lemma_line_start_prefix(p, q, r);
        lemma_line_start_prefix(p, s.subrange(i - 1, s.len() as int), r);
    } else {
        assert(s.subrange(0, i).last() == s[i - 1]);
        let k = (r - 1) as nat;
        lemma_line_start_monotone(s, k, r);
        lemma_line_start_prefix(p, q, k);
        lemma_line_start_prefix(p, s.subrange(i - 1, s.len() as int), k);
        lemma_line_start_bound(s, k);
    }
}

/// The number of bytes that the characters in front of character index `i`
/// take in UTF-8.
pub open spec fn byte_offset(s: Seq<char>, i: int) -> nat {
    encode_utf8(s.subrange(0, i)).len()
}

/// The encoding of a text is the encoding of a first part, followed by that
/// of the rest.
pub proof fn lemma_encode_concat(a: Seq<char>, b: Seq<char>)
    ensures
        encode_utf8(a + b) == encode_utf8(a) + encode_utf8(b),
    decreases a.len(),
{
    if a.len() == 0 {
        assert(a + b =~= b);
        assert(encode_utf8(a) + encode_utf8(b) =~= encode_utf8(b));
    } else {
        assert((a + b).drop_first() =~= a.drop_first() + b);
        lemma_encode_concat(a.drop_first(), b);
        assert(encode_utf8(a + b) =~= encode_utf8(a) + encode_utf8(b));
    }
}

/// A later character starts at a later byte, and none behind the end of the
/// encoding.
pub proof fn lemma_byte_offset_monotone(s: Seq<char>, i: int, j: int)
    requires
        0 <= i <= j <= s.len(),
    ensures
        byte_offset(s, i) <= byte_offset(s, j) <= encode_utf8(s).len(),
{
    lemma_encode_concat(s.subrange(0, i), s.subrange(i, j));
    assert(s.subrange(0, i) + s.subrange(i, j) =~= s.subrange(0, j));
    lemma_encode_concat(s.subrange(0, j), s.subrange(j, s.len() as int));
    assert(s.subrange(0, j) + s.subrange(j, s.len() as int) =~= s);
}

/// The text after each insertion of `ops` was made in order: an insertion is
/// a character index and the text put in front of it.
pub open spec fn inserted_all(s: Seq<char>, ops: Seq<(int, Seq<char>)>) -> Seq<char>
    decreases ops.len(),
{
    if ops.len() == 0 {
        s
    } else {
        inserted(inserted_all(s, ops.drop_last()), ops.last().0, ops.last().1)
    }
}

/// Each insertion of `ops` is made at an index of the text as it is when its
/// turn comes.
pub open spec fn insertions_fit(s: Seq<char>, ops: Seq<(int, Seq<char>)>) -> bool
    decreases ops.len(),
{
    ops.len() == 0 || (insertions_fit(s, ops.drop_last()) && 0 <= ops.last().0 <= inserted_all(
        s,
        ops.drop_last(),
    ).len())
}

/// The text after the ranges that the insertions of `ops` filled were removed
/// again, the one filled last first.
pub open spec fn removed_all(s: Seq<char>, ops: Seq<(int, Seq<char>)>) -> Seq<char>
    decreases ops.len(),
{
    if ops.len() == 0 {
        s
    } else {
        removed_all(
            removed(s, ops.last().0, ops.last().0 + ops.last().1.len()),
            ops.drop_last(),
        )
    }
}

/// Removing the range that an insertion filled gives back the text as it was.
pub proof fn lemma_remove_undoes_insert(s: Seq<char>, at: int, t: Seq<char>)
    requires
        0 <= at <= s.len(),
    ensures
        removed(inserted(s, at, t), at, at + t.len()) == s,
{
    assert(removed(inserted(s, at, t), at, at + t.len()) =~= s);
}

/// After any sequence of insertions, removing the ranges they filled in
/// reverse order gives back the text as it was before the first of them.
pub proof fn lemma_round_trip(s: Seq<char>, ops: Seq<(int, Seq<char>)>)
    requires
        insertions_fit(s, ops),
    ensures
        removed_all(inserted_all(s, ops), ops) == s,
    decreases ops.len(),
{
    if ops.len() > 0 {
        lemma_remove_undoes_insert(inserted_all(s, ops.drop_last()), ops.last().0, ops.last().1);
        lemma_round_trip(s, ops.drop_last());
    }
}

/// The text after `n` times the character in front of index `i`, then of the
/// index before it, and so on, was removed.
pub open spec fn removed_before(s: Seq<char>, i: int, n: nat) -> Seq<char>
    decreases n,
{
    if n == 0 {
        s
    } else {
        removed_before(removed(s, i - 1, i), i - 1, (n - 1) as nat)
    }
}

/// Removing one character after the other in front of an index removes the
/// range that ends there.
pub proof fn lemma_removed_before_is_range(s: Seq<char>, i: int, n: nat)
    requires
        0 <= i - n,
        i <= s.len(),
    ensures
        removed_before(s, i, n) == removed(s, i - n, i),
    decreases n,
{
    if n == 0 {
        assert(removed(s, i, i) =~= s);
    } else {
        lemma_removed_before_is_range(removed(s, i - 1, i), i - 1, (n - 1) as nat);
        assert(removed(removed(s, i - 1, i), i - n, i - 1) =~= removed(s, i - n, i));
    }
}

/// Removing, one by one from its end, as many characters as a typed text has
/// gives back the text as it was before the typing.
pub proof fn lemma_backspace_undoes_typing(s: Seq<char>, at: int, t: Seq<char>)
    requires
        0 <= at <= s.len(),
    ensures
        removed_before(inserted(s, at, t), at + t.len(), t.len()) == s,
{
    lemma_removed_before_is_range(inserted(s, at, t), at + t.len(), t.len());
    lemma_remove_undoes_insert(s, at, t);
}

/// The character index that a caret stands for is never negative, and that
/// of a valid caret is not behind the end of the text.
pub proof fn lemma_valid_cursor_in_text(s: Seq<char>, c: Cursor)
    ensures
        0 <= cursor_index(s, c),
        cursor_valid(s, c) ==> c.y <= line_count(s) && cursor_index(s, c) <= s.len(),
{
    if cursor_valid(s, c) {
        lemma_row_of_column(s, c.y as nat, c.x as nat);
    }
}

} // verus!
