//! The optional parser: an incremental parsing library that reads the text
//! piece by piece and is told, before each new parse, what has changed since
//! the tree it produced last.

use vstd::prelude::*;
use vstd::utf8::encode_utf8;
use tree_sitter::Language;
use tree_sitter::LanguageError;
use tree_sitter::Parser;
use tree_sitter::Tree;
use crate::buffer::{point_of, TextBuffer, TextPoint};
use crate::error::Error;
use crate::text::{byte_offset, inserted, removed};

verus! {

/// `tree_sitter::Language`: a grammar, handed on as it came.
#[verifier::external_type_specification]
#[verifier::external_body]
pub struct ExLanguage(Language);

/// `tree_sitter::LanguageError`: the refusal of a grammar.
#[verifier::external_type_specification]
#[verifier::external_body]
pub struct ExLanguageError(LanguageError);

/// `tree_sitter::Parser`, of which nothing is known.
#[verifier::external_type_specification]
#[verifier::external_body]
pub struct ExParser(Parser);

/// `tree_sitter::Tree`, of which nothing is known.
#[verifier::external_type_specification]
#[verifier::external_body]
pub struct ExTree(Tree);

/// A change to a text as a parser wants to hear of it: where the changed part
/// starts, where it ended before the change, and where it ends now.
#[derive(Debug, Clone, Copy, PartialEq, Eq, Structural)]
pub struct SyntaxEdit {
    pub start: TextPoint,
    pub old_end: TextPoint,
    pub new_end: TextPoint,
}

impl SyntaxEdit {
    /// The change can have been made to a text of `extent` bytes: its start
    /// is not behind its old end nor behind its new end, and its old end is
    /// not behind the end of that text.
    pub open spec fn fits(&self, extent: nat) -> bool {
        self.start.byte <= self.old_end.byte <= extent && self.start.byte <= self.new_end.byte
    }

    /// The number of bytes of a text that had `extent` of them before the
    /// change: those up to the new end, and those that stood behind the old
    /// end.
    pub open spec fn extent_after(&self, extent: nat) -> int {
        self.new_end.byte + (extent - self.old_end.byte)
    }
}

/// How the latest request for a parse was answered.
#[derive(Debug, Clone, Copy, PartialEq, Eq, Structural)]
pub enum ParseKind {
    /// No parser is configured, so nothing was parsed.
    Skipped,
    /// The text was parsed from scratch.
    Full,
    /// The text was parsed with the previous tree at hand for reuse.
    Incremental,
}

/// Whether `tree_sitter::Parser::set_language` accepts the grammar: whether
/// the version of the parsing library for which the grammar was generated is
/// one that the library at hand reads.
pub uninterp spec fn language_accepted(language: Language) -> bool;

/// Whether a grammar is assigned to the parser.
pub uninterp spec fn parser_has_language(parser: Parser) -> bool;

/// Whether the parser works without a limit: neither a timeout nor a
/// cancellation flag is set on it.
pub uninterp spec fn parser_unlimited(parser: Parser) -> bool;

/// `tree_sitter::Parser::new`: a parser on which neither a timeout nor a
/// cancellation flag is set.
#[verifier::external_body]
fn parser_new() -> (parser: Parser)
    ensures
        parser_unlimited(parser),
{
    Parser::new()
}

/// `tree_sitter::Parser::set_language`: whether the grammar is accepted is
/// decided by the version it was generated for, and so by the grammar alone.
/// An accepted grammar is assigned to the parser. Timeout and cancellation
/// flag stay as they are.
#[verifier::external_body]
fn parser_set_language(parser: &mut Parser, language: Language) -> (accepted: Result<
    (),
    LanguageError,
>)
    ensures
        accepted is Ok <==> language_accepted(language),
        accepted is Ok ==> parser_has_language(*final(parser)),
        parser_unlimited(*final(parser)) == parser_unlimited(*old(parser)),
{
    parser.set_language(language)
}

/// `tree_sitter::Parser::parse_with`, reading the buffer through
/// [`TextBuffer::text_at_byte`]. A parser gives no tree only where it has no
/// grammar, where its timeout ran out, or where its cancellation flag was
/// set; so one with a grammar and without a limit gives a tree. Nothing is
/// promised of what the tree holds. Grammar, timeout and cancellation flag
/// stay as they are.
#[verifier::external_body]
fn parser_parse(parser: &mut Parser, buffer: &TextBuffer, old_tree: Option<&Tree>) -> (tree:
    Option<Tree>)
    ensures
        parser_has_language(*old(parser)) && parser_unlimited(*old(parser)) ==> tree is Some,
        parser_has_language(*final(parser)) == parser_has_language(*old(parser)),
        parser_unlimited(*final(parser)) == parser_unlimited(*old(parser)),
{
    parser.parse_with(&mut |offset, _point| buffer.text_at_byte(offset), old_tree)
}

/// `tree_sitter::Tree::edit`: shifts the tree's nodes to where the change
/// has moved their text.
#[verifier::external_body]
fn tree_edit(tree: &mut Tree, edit: &SyntaxEdit) {
    tree.edit(
        &tree_sitter::InputEdit {
            start_byte: edit.start.byte,
            old_end_byte: edit.old_end.byte,
            new_end_byte: edit.new_end.byte,
            start_position: tree_sitter::Point::new(edit.start.row, edit.start.column),
            old_end_position: tree_sitter::Point::new(edit.old_end.row, edit.old_end.column),
            new_end_position: tree_sitter::Point::new(edit.new_end.row, edit.new_end.column),
        },
    )
}

/// What a parser is told after `count` characters were inserted in front of
/// character index `at`, where `after` is the text with them in it.
pub open spec fn insertion_edit(after: Seq<char>, at: int, count: int) -> SyntaxEdit {
    SyntaxEdit {
        start: point_of(after, at),
        old_end: point_of(after, at),
        new_end: point_of(after, at + count),
    }
}

/// What a parser is told when the characters from index `from` up to `to`
/// are about to be removed from the text `before`.
pub open spec fn removal_edit(before: Seq<char>, from: int, to: int) -> SyntaxEdit {
    SyntaxEdit {
        start: point_of(before, from),
        old_end: point_of(before, to),
        new_end: point_of(before, from),
    }
}

impl TextBuffer {
    /// The change to report after `count` characters were inserted in front
    /// of `char_idx`, if that many characters now stand there.
    pub fn insertion_edit(&self, char_idx: usize, count: usize) -> (edit: Option<SyntaxEdit>)
        ensures
            char_idx + count <= self@.len() ==> edit == Some(
                insertion_edit(self@, char_idx as int, count as int),
            ) && byte_offset(self@, char_idx + count) <= usize::MAX,
            char_idx + count > self@.len() ==> edit is None,
    {
        let n = self.len_chars();
        if char_idx > n || count > n - char_idx {
            return None;
        }
        match (self.point_at(char_idx), self.point_at(char_idx + count)) {
            (Some(start), Some(new_end)) => Some(SyntaxEdit { start, old_end: start, new_end }),
            _ => None,
        }
    }

    /// The change to report before the characters from `start` up to `end`
    /// are removed, if they stand in the buffer.
    pub fn removal_edit(&self, start: usize, end: usize) -> (edit: Option<SyntaxEdit>)
        ensures
            start <= end <= self@.len() ==> edit == Some(
                removal_edit(self@, start as int, end as int),
            ) && byte_offset(self@, end as int) <= usize::MAX,
            !(start <= end <= self@.len()) ==> edit is None,
    {
        if start > end || end > self.len_chars() {
            return None;
        }
        match (self.point_at(start), self.point_at(end)) {
            (Some(from), Some(to)) => Some(SyntaxEdit { start: from, old_end: to, new_end: from }),
            _ => None,
        }
    }
}

/// A configured parser together with the tree of its latest parse and the
/// number of bytes of the text that this tree describes: that of the text
/// it was parsed from, brought forward by each change it was told of.
pub struct ParserBinding {
    parser: Parser,
    tree: Option<Tree>,
    extent: usize,
    latest: ParseKind,
}

impl ParserBinding {
    /// Whether a tree from an earlier parse is at hand.
    pub closed spec fn has_tree(&self) -> bool {
        self.tree is Some
    }

    /// The number of bytes of the text that the tree at hand describes.
    pub closed spec fn extent(&self) -> nat {
        self.extent as nat
    }

    /// Whether every parse gives a tree: the parser has a grammar, and
    /// neither a timeout nor a cancellation flag is set on it.
    pub closed spec fn ready(&self) -> bool {
        parser_has_language(self.parser) && parser_unlimited(self.parser)
    }

    /// A tree is at hand that can be handed to the parser with the text `s`:
    /// it describes a text of as many bytes as `s` takes.
    pub open spec fn serves(&self, s: Seq<char>) -> bool {
        self.has_tree() && self.extent() == encode_utf8(s).len()
    }

    /// How the latest parse was made.
    pub closed spec fn latest(&self) -> ParseKind {
        self.latest
    }

    /// Binds a parser on which a grammar was set, given what the parser
    /// answered to that: a binding without a tree if it accepted the
    /// grammar, and no binding if it did not.
    pub fn bind(parser: Parser, accepted: Result<(), LanguageError>) -> (binding: Result<
        Self,
        Error,
    >)
        ensures
            accepted is Ok ==> binding is Ok,
            accepted is Err ==> (binding matches Err(e) && e == Error::IncompatibleLanguage),
            binding matches Ok(b) ==> !b.has_tree() && b.latest() == ParseKind::Skipped
                && b.ready() == (parser_has_language(parser) && parser_unlimited(parser)),
    {
        match accepted {
            Ok(()) => Ok(
                ParserBinding { parser, tree: None, extent: 0, latest: ParseKind::Skipped },
            ),
            Err(_) => Err(Error::IncompatibleLanguage),
        }
    }

    /// Makes a parser for `language`: a binding without a tree, whose every
    /// parse gives one, if the parsing library accepts the grammar, and the
    /// error that says so if it does not.
    pub fn new(language: Language) -> (binding: Result<Self, Error>)
        ensures
            binding is Ok <==> language_accepted(language),
            binding matches Err(e) ==> e == Error::IncompatibleLanguage,
            binding matches Ok(b) ==> !b.has_tree() && b.latest() == ParseKind::Skipped
                && b.ready(),
    {
        let mut parser = parser_new();
        let accepted = parser_set_language(&mut parser, language);
        Self::bind(parser, accepted)
    }

    /// Lets go of the tree at hand, so that the next parse starts from
    /// scratch.
    pub fn forget_tree(&mut self)
        ensures
            !final(self).has_tree(),
            final(self).extent() == old(self).extent(),
            final(self).latest() == old(self).latest(),
            final(self).ready() == old(self).ready(),
    {
        self.tree = None;
    }

    /// Tells the tree at hand, if there is one, of a change to the text. It
    /// has to be told of every change made since it was parsed before it is
    /// handed back to the parser. A change that fits the text which the tree
    /// describes is handed to the tree, which from then on describes a text
    /// of as many bytes as the change leaves. A change that does not fit it
    /// cannot be followed: the tree is let go of. Without a tree nothing
    /// happens.
    pub fn note_edit(&mut self, edit: &SyntaxEdit)
        ensures
            final(self).latest() == old(self).latest(),
            final(self).ready() == old(self).ready(),
            !old(self).has_tree() ==> *final(self) == *old(self),
            old(self).has_tree() && edit.fits(old(self).extent()) && edit.extent_after(
                old(self).extent(),
            ) <= usize::MAX ==> final(self).has_tree() && final(self).extent()
                == edit.extent_after(old(self).extent()),
            old(self).has_tree() && !(edit.fits(old(self).extent()) && edit.extent_after(
                old(self).extent(),
            ) <= usize::MAX) ==> !final(self).has_tree() && final(self).extent() == old(self).extent(),
    {
        if self.tree.is_none() {
            return;
        }
        if edit.start.byte > edit.old_end.byte || edit.old_end.byte > self.extent
            || edit.start.byte > edit.new_end.byte {
            self.tree = None;
            return;
        }
        let behind = self.extent - edit.old_end.byte;
        if behind > usize::MAX - edit.new_end.byte {
            self.tree = None;
            return;
        }
        match &mut self.tree {
            Some(tree) => {
                tree_edit(tree, edit);
            },
            None => {},
        }
        self.extent = edit.new_end.byte + behind;
    }

    /// Parses the text of `buffer` and keeps the new tree, which describes
    /// that text. The parser is handed the tree of the previous parse where
    /// there is one and it describes a text of as many bytes as `buffer`
    /// holds; a tree that does not is let go of first. Says whether the
    /// parser had a tree at hand. A parser that is ready gives a tree.
    pub fn reparse(&mut self, buffer: &TextBuffer) -> (kind: ParseKind)
        ensures
            kind == if old(self).serves(buffer@) {
                ParseKind::Incremental
            } else {
                ParseKind::Full
            },
            final(self).latest() == kind,
            final(self).extent() == encode_utf8(buffer@).len(),
            final(self).ready() == old(self).ready(),
            old(self).ready() ==> final(self).has_tree(),
    {
        let bytes = buffer.len_bytes();
        let kind = if self.tree.is_some() && self.extent == bytes {
            ParseKind::Incremental
        } else {
            self.tree = None;
            ParseKind::Full
        };
        let tree = parser_parse(&mut self.parser, buffer, self.tree.as_ref());
        self.tree = tree;
        self.extent = bytes;
        self.latest = kind;
        kind
    }

    /// How the latest parse was made.
    pub fn latest_parse(&self) -> (kind: ParseKind)
        ensures
            kind == self.latest(),
    {
        self.latest
    }

    /// The number of bytes of the text that the tree at hand describes.
    pub fn tree_extent(&self) -> (bytes: usize)
        ensures
            bytes == self.extent(),
    {
        self.extent
    }

    /// The tree of the latest parse, if the parser produced one.
    pub fn tree(&self) -> (tree: Option<&Tree>)
        ensures
            tree is Some == self.has_tree(),
    {
        self.tree.as_ref()
    }
}

/// What is reported of an insertion fits the text as it was before, and
/// leads from its bytes to those of the text with the insertion in it.
pub proof fn lemma_insertion_edit_fits(before: Seq<char>, at: int, t: Seq<char>)
    requires
        0 <= at <= before.len(),
        byte_offset(inserted(before, at, t), at + t.len()) <= usize::MAX,
    ensures
        insertion_edit(inserted(before, at, t), at, t.len() as int).fits(
            encode_utf8(before).len(),
        ),
        insertion_edit(inserted(before, at, t), at, t.len() as int).extent_after(
            encode_utf8(before).len(),
        ) == encode_utf8(inserted(before, at, t)).len(),
{
    let after = inserted(before, at, t);
    let head = before.subrange(0, at);
    let tail = before.subrange(at, before.len() as int);
    assert(head + tail =~= before);
    assert(after.subrange(0, at) =~= head);
    assert(after.subrange(0, at + t.len()) =~= head + t);
    crate::text::lemma_encode_concat(head, tail);
    crate::text::lemma_encode_concat(head, t);
    crate::text::lemma_encode_concat(head + t, tail);
}

/// What is reported of a removal fits the text as it was before, and leads
/// from its bytes to those of the text without the removed range.
pub proof fn lemma_removal_edit_fits(before: Seq<char>, from: int, to: int)
    requires
        0 <= from <= to <= before.len(),
        byte_offset(before, to) <= usize::MAX,
    ensures
        removal_edit(before, from, to).fits(encode_utf8(before).len()),
        removal_edit(before, from, to).extent_after(encode_utf8(before).len()) == encode_utf8(
            removed(before, from, to),
        ).len(),
{
    let head = before.subrange(0, from);
    let middle = before.subrange(from, to);
    let tail = before.subrange(to, before.len() as int);
    assert(head + middle =~= before.subrange(0, to));
    assert(head + middle + tail =~= before);
    crate::text::lemma_encode_concat(head, middle);
    crate::text::lemma_encode_concat(head + middle, tail);
    crate::text::lemma_encode_concat(head, tail);
}

} // verus!
