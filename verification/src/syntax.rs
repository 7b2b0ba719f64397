//! Raw token kinds, trivia classification, and the plain data records that
//! the token source works over.

use vstd::prelude::*;

verus! {

/// Kind of a raw token as produced by the character-level lexer.
///
/// The trivia kinds and the end-of-input sentinel are distinguished because
/// the token source reads them; every other token is significant and carries
/// a language-specific code that this layer never interprets.
#[derive(Debug, Clone, Copy, PartialEq, Eq, Structural)]
pub enum TokenKind {
    /// End of input.
    Eof,
    /// A run of horizontal whitespace.
    Whitespace,
    /// A line break.
    Newline,
    /// A single-line comment.
    LineComment,
    /// A multi-line comment.
    MultiLineComment,
    /// A significant token; the code identifies it to the grammar.
    Significant(u16),
}

/// The subkind a trivia piece is recorded under in the trivia log.
#[derive(Debug, Clone, Copy, PartialEq, Eq, Structural)]
pub enum TriviaPieceKind {
    Whitespace,
    Newline,
    SingleLineComment,
    MultiLineComment,
    /// A significant token that the parser deliberately discarded.
    Skipped,
}

/// A byte range of the source text, half open: `start <= end`.
#[derive(Debug, Clone, Copy, PartialEq, Eq, Structural)]
pub struct TextRange {
    pub start: u32,
    pub end: u32,
}

/// One raw token of the pre-lexed stream handed to the raw lexer: its kind,
/// its byte range, and whether its text contains a unicode escape.
#[derive(Debug, Clone, Copy, PartialEq, Eq, Structural)]
pub struct RawToken {
    pub kind: TokenKind,
    pub range: TextRange,
    /// Whether the token's text contains a unicode escape sequence.
    pub unicode_escape: bool,
}

/// One entry of the trivia log: the classified piece, its byte range, and
/// whether it attaches to the preceding (`trailing`) or the following
/// (leading) significant token.
#[derive(Debug, Clone, Copy, PartialEq, Eq, Structural)]
pub struct Trivia {
    pub kind: TriviaPieceKind,
    pub range: TextRange,
    pub trailing: bool,
}

/// The lexing context under which the parser asks for the next token.
/// A non-regular context can legally re-tokenize upcoming text differently,
/// so cached lookahead is unsound across it.
#[derive(Debug, Clone, Copy, PartialEq, Eq, Structural)]
pub enum LexContext {
    Regular,
    TemplateElement,
    JsxChild,
    JsxAttributeValue,
}

/// Trivia classification: which trivia subkind a raw token kind is, or `None`
/// for a significant token (end of input included).
pub open spec fn trivia_kind_of(kind: TokenKind) -> Option<TriviaPieceKind> {
    match kind {
        TokenKind::Whitespace => Some(TriviaPieceKind::Whitespace),
        TokenKind::Newline => Some(TriviaPieceKind::Newline),
        TokenKind::LineComment => Some(TriviaPieceKind::SingleLineComment),
        TokenKind::MultiLineComment => Some(TriviaPieceKind::MultiLineComment),
        _ => None,
    }
}

/// Whether a raw token kind is trivia.
pub open spec fn is_trivia(kind: TokenKind) -> bool {
    trivia_kind_of(kind) is Some
}

impl TokenKind {
    /// Classifies this kind as a trivia subkind, or `None` for a significant
    /// token.
    pub fn classify_trivia(self) -> (r: Option<TriviaPieceKind>)
        ensures
            r == trivia_kind_of(self),
    {
        match self {
            TokenKind::Whitespace => Some(TriviaPieceKind::Whitespace),
            TokenKind::Newline => Some(TriviaPieceKind::Newline),
            TokenKind::LineComment => Some(TriviaPieceKind::SingleLineComment),
            TokenKind::MultiLineComment => Some(TriviaPieceKind::MultiLineComment),
            _ => None,
        }
    }

    /// Whether this kind is trivia.
    pub fn is_trivia(self) -> (r: bool)
        ensures
            r == is_trivia(self),
    {
        self.classify_trivia().is_some()
    }
}

impl TriviaPieceKind {
    /// Whether this trivia piece bears a line break. Trivia at or after the
    /// first newline-bearing piece of a run is leading trivia of the next
    /// significant token.
    pub fn is_newline(self) -> (r: bool)
        ensures
            r == (self is Newline),
    {
        matches!(self, TriviaPieceKind::Newline)
    }
}

impl LexContext {
    /// Whether this is the default context, under which cached lookahead
    /// stays valid.
    pub fn is_regular(self) -> (r: bool)
        ensures
            r == (self is Regular),
    {
        matches!(self, LexContext::Regular)
    }
}

} // verus!
