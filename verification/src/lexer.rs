//! The raw lexer boundary, modeled over a pre-lexed token stream.
//!
//! The character-level lexer is an external collaborator: it turns source
//! text into raw tokens (trivia included) whose ranges tile the text. This
//! module holds that output as plain data and exposes the cursor interface
//! the token source drives: current token, one-token advance, an indexed
//! non-consuming lookahead, checkpoint/rewind, and re-interpretation of the
//! current token's kind.

use vstd::prelude::*;

use crate::stream::preceded_by_line_break;
use crate::stream::wf_token_at;
use crate::stream::wf_tokens;
use crate::syntax::is_trivia;
use crate::syntax::RawToken;
use crate::syntax::TextRange;
use crate::syntax::TokenKind;

verus! {

/// Cursor over a pre-lexed raw token stream.
///
/// `pos` counts consumed tokens: the current token is `tokens[pos - 1]`, and
/// a fresh lexer (`pos == 0`) stands before the first token. The current
/// kind is held separately because a re-lex may reinterpret it; the buffer
/// itself never changes.
pub struct RawLexer {
    tokens: Vec<RawToken>,
    pos: usize,
    current_kind: TokenKind,
    after_newline: bool,
}

/// A resumable snapshot of the raw lexer's cursor.
#[derive(Debug, Clone, Copy)]
pub struct RawLexerCheckpoint {
    pos: u32,
    current_kind: TokenKind,
    after_newline: bool,
    current_start: u32,
}

impl RawLexer {
    /// The pre-lexed raw token stream.
    pub closed spec fn toks(self) -> Seq<RawToken> {
        self.tokens@
    }

    /// How many raw tokens have been consumed; the current token is the
    /// last consumed one.
    pub closed spec fn pos(self) -> int {
        self.pos as int
    }

    /// The kind of the current token, a re-lex override included.
    pub closed spec fn cur(self) -> TokenKind {
        self.current_kind
    }

    /// Whether the current token is preceded by a line break.
    pub closed spec fn nl(self) -> bool {
        self.after_newline
    }

    /// Well-formedness: the stream is well formed, the cursor is in range,
    /// and the current kind agrees with the buffer on everything a re-lex
    /// cannot change (trivia tokens exactly, significance, end of input,
    /// the line-break flag).
    pub open spec fn wf(self) -> bool {
        &&& wf_tokens(self.toks())
        &&& 0 <= self.pos() <= self.toks().len()
        &&& self.pos() >= 1 ==> {
            &&& is_trivia(self.cur()) == is_trivia(self.toks()[self.pos() - 1].kind)
            &&& ((self.cur() is Eof) <==> (self.toks()[self.pos() - 1].kind is Eof))
            &&& is_trivia(self.toks()[self.pos() - 1].kind) ==> self.cur() == self.toks()[self.pos()
                - 1].kind
            &&& self.nl() == preceded_by_line_break(self.toks(), self.pos() - 1)
        }
    }

    /// Checks at run time that a token stream is well formed.
    pub fn check_tokens(tokens: &Vec<RawToken>) -> (r: bool)
        ensures
            r == wf_tokens(tokens@),
    {
        let n = tokens.len();
        if n == 0 || n > u32::MAX as usize {
            return false;
        }
        let mut i: usize = 0;
        while i < n
            invariant
                n == tokens@.len(),
                1 <= n <= u32::MAX,
                0 <= i <= n,
                forall|m: int| 0 <= m < i ==> wf_token_at(tokens@, m),
            decreases n - i,
        {
            let t = tokens[i];
            let ok = t.range.start <= t.range.end && (if i == 0 {
                t.range.start == 0
            } else {
                t.range.start == tokens[i - 1].range.end
            }) && (matches!(t.kind, TokenKind::Eof) == (i == n - 1));
            if !ok {
                assert(!wf_token_at(tokens@, i as int));
                return false;
            }
            assert(wf_token_at(tokens@, i as int));
            i += 1;
        }
        true
    }

    /// A fresh lexer standing before the first token of a well-formed
    /// stream.
    pub fn new(tokens: Vec<RawToken>) -> (r: RawLexer)
        requires
            wf_tokens(tokens@),
        ensures
            r.wf(),
            r.toks() == tokens@,
            r.pos() == 0,
    {
        RawLexer { tokens, pos: 0, current_kind: TokenKind::Eof, after_newline: false }
    }

    /// The kind of the current token.
    pub fn current(&self) -> (k: TokenKind)
        requires
            self.pos() >= 1,
        ensures
            k == self.cur(),
    {
        self.current_kind
    }

    /// The byte range of the current token.
    pub fn current_range(&self) -> (r: TextRange)
        requires
            self.wf(),
            self.pos() >= 1,
        ensures
            r == self.toks()[self.pos() - 1].range,
    {
        self.tokens[self.pos - 1].range
    }

    /// Whether the current token is preceded by a line break.
    pub fn has_preceding_line_break(&self) -> (r: bool)
        requires
            self.wf(),
            self.pos() >= 1,
        ensures
            r == preceded_by_line_break(self.toks(), self.pos() - 1),
    {
        self.after_newline
    }

    /// Whether the current token's text contains a unicode escape.
    pub fn has_unicode_escape(&self) -> (r: bool)
        requires
            self.wf(),
            self.pos() >= 1,
        ensures
            r == self.toks()[self.pos() - 1].unicode_escape,
    {
        self.tokens[self.pos - 1].unicode_escape
    }

    /// Advances by exactly one raw token and returns its kind; at the end of
    /// input it stays on the `Eof` token.
    pub fn next_token(&mut self) -> (k: TokenKind)
        requires
            old(self).wf(),
        ensures
            final(self).wf(),
            final(self).toks() == old(self).toks(),
            old(self).pos() < final(self).toks().len() ==> final(self).pos() == old(self).pos()
                + 1,
            old(self).pos() == final(self).toks().len() ==> *final(self) == *old(self),
            final(self).pos() >= 1 && final(self).cur() == final(self).toks()[final(self).pos()
                - 1].kind,
            k == final(self).cur(),
    {
        if self.pos < self.tokens.len() {
            let was_trivia = if self.pos == 0 {
                false
            } else {
                self.current_kind.is_trivia()
            };
            self.after_newline = if self.pos == 0 {
                false
            } else if !was_trivia {
                false
            } else {
                self.after_newline || matches!(self.current_kind, TokenKind::Newline)
            };
            self.pos = self.pos + 1;
            self.current_kind = self.tokens[self.pos - 1].kind;
            assert(self.nl() == preceded_by_line_break(self.toks(), self.pos() - 1));
        } else {
            proof {
                assert(wf_token_at(self.toks(), self.pos() - 1));
            }
            assert(self.cur() == self.toks()[self.pos() - 1].kind);
        }
        self.current_kind
    }

    /// The raw token `d` places past the current one, without consuming it;
    /// `None` past the end of input.
    pub fn peek_raw(&self, d: usize) -> (r: Option<RawToken>)
        requires
            self.wf(),
        ensures
            r == if self.pos() + d < self.toks().len() {
                Some(self.toks()[self.pos() + d])
            } else {
                None::<RawToken>
            },
    {
        if d < self.tokens.len() - self.pos {
            Some(self.tokens[self.pos + d])
        } else {
            None
        }
    }

    /// Reinterprets the current token as the given kind.
    ///
    /// Which kind the current text takes under a re-lex mode is the
    /// character-level lexer's concern; this cursor records the outcome. A
    /// reinterpretation is always a significant token and can neither make
    /// nor unmake the end of input.
    pub fn re_lex(&mut self, relexed: TokenKind) -> (k: TokenKind)
        requires
            old(self).wf(),
            old(self).pos() >= 1,
            !is_trivia(old(self).cur()),
            !is_trivia(relexed),
            (relexed is Eof) <==> (old(self).cur() is Eof),
        ensures
            final(self).wf(),
            final(self).toks() == old(self).toks(),
            final(self).pos() == old(self).pos(),
            final(self).nl() == old(self).nl(),
            final(self).cur() == relexed,
            k == relexed,
    {
        self.current_kind = relexed;
        relexed
    }

    /// Captures the cursor so that `rewind` can later restore it.
    pub fn checkpoint(&self) -> (cp: RawLexerCheckpoint)
        requires
            self.wf(),
            self.pos() >= 1,
            !is_trivia(self.cur()),
        ensures
            cp.wf_for(self.toks()),
            cp.pos() == self.pos(),
            cp.cur() == self.cur(),
            cp.nl() == self.nl(),
            cp.start() == self.toks()[self.pos() - 1].range.start,
    {
        RawLexerCheckpoint {
            pos: self.pos as u32,
            current_kind: self.current_kind,
            after_newline: self.after_newline,
            current_start: self.tokens[self.pos - 1].range.start,
        }
    }

    /// Restores the cursor captured by `checkpoint`.
    pub fn rewind(&mut self, cp: RawLexerCheckpoint)
        requires
            old(self).wf(),
            cp.wf_for(old(self).toks()),
        ensures
            final(self).wf(),
            final(self).toks() == old(self).toks(),
            final(self).pos() == cp.pos(),
            final(self).cur() == cp.cur(),
            final(self).nl() == cp.nl(),
    {
        self.pos = cp.pos as usize;
        self.current_kind = cp.current_kind;
        self.after_newline = cp.after_newline;
    }
}

impl RawLexerCheckpoint {
    /// The captured consumed-token count.
    pub closed spec fn pos(self) -> int {
        self.pos as int
    }

    /// The captured current kind.
    pub closed spec fn cur(self) -> TokenKind {
        self.current_kind
    }

    /// The captured line-break flag.
    pub closed spec fn nl(self) -> bool {
        self.after_newline
    }

    /// The captured start offset of the current token.
    pub closed spec fn start(self) -> int {
        self.current_start as int
    }

    /// Consistency of a captured cursor with a stream: everything `rewind`
    /// needs to restore a well-formed lexer whose current token is
    /// significant.
    pub open spec fn wf_for(self, toks: Seq<RawToken>) -> bool {
        &&& 1 <= self.pos() <= toks.len()
        &&& !is_trivia(self.cur())
        &&& !is_trivia(toks[self.pos() - 1].kind)
        &&& ((self.cur() is Eof) <==> (toks[self.pos() - 1].kind is Eof))
        &&& self.nl() == preceded_by_line_break(toks, self.pos() - 1)
        &&& self.start() == toks[self.pos() - 1].range.start
    }

    /// The captured byte offset in the source text.
    pub fn current_start(&self) -> (r: u32)
        ensures
            r == self.start(),
    {
        self.current_start
    }
}

} // verus!
