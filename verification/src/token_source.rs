//! The token source: presents the parser with the stream of significant
//! tokens, records every skipped trivia piece in an append-only log, caches
//! resolved lookahead tokens, and supports checkpoint/rewind and
//! context-sensitive re-lexing.

use std::collections::VecDeque;

use vstd::prelude::*;

use crate::lexer::RawLexer;
use crate::lexer::RawLexerCheckpoint;
use crate::stream::bump_pos;
use crate::stream::count_true;
use crate::stream::interleave;
use crate::stream::lemma_count_true_bounds;
use crate::stream::lemma_interleave_snoc_false;
use crate::stream::lemma_interleave_snoc_true;
use crate::stream::lemma_newline_in_extend;
use crate::stream::lemma_next_significant;
use crate::stream::lemma_next_significant_of_run;
use crate::stream::lemma_nth_significant_beyond;
use crate::stream::lemma_nth_significant_beyond_from;
use crate::stream::lemma_nth_significant_bounds;
use crate::stream::lemma_nth_significant_mono;
use crate::stream::lemma_nth_significant_succ;
use crate::stream::lemma_nth_significant_unfold;
use crate::stream::lemma_preceded_of_run;
use crate::stream::newline_in;
use crate::stream::next_significant;
use crate::stream::nth_significant;
use crate::stream::preceded_by_line_break;
use crate::stream::ranges_upto;
use crate::stream::run_trivia;
use crate::stream::trivia_ranges;
use crate::stream::wf_tokens;
use crate::syntax::is_trivia;
use crate::syntax::trivia_kind_of;
use crate::syntax::LexContext;
use crate::syntax::RawToken;
use crate::syntax::TextRange;
use crate::syntax::TokenKind;
use crate::syntax::Trivia;
use crate::syntax::TriviaPieceKind;

verus! {

/// A resolved, cached description of an upcoming significant token.
#[derive(Debug, Clone, Copy, PartialEq, Eq, Structural)]
pub struct Lookahead {
    pub kind: TokenKind,
    pub after_newline: bool,
}

/// The append-only record of everything consumed so far: `pattern` has one
/// entry per raw token before the current one — `true` where its range went
/// to the trivia log, `false` where it was handed to the parser as a
/// significant token (those ranges stand in `sig`) — and merging the two
/// range sequences under the pattern gives back the ranges of exactly the
/// consumed raw tokens, in order.
pub open spec fn log_inv(
    toks: Seq<RawToken>,
    pos: int,
    pattern: Seq<bool>,
    log: Seq<Trivia>,
    sig: Seq<TextRange>,
) -> bool {
    &&& pattern.len() == pos - 1
    &&& log.len() == count_true(pattern)
    &&& sig.len() == pattern.len() - log.len()
    &&& interleave(pattern, trivia_ranges(log), sig) == ranges_upto(toks, pos - 1)
}

/// One cache entry describes the `i + 1`-th upcoming significant token.
pub open spec fn cache_entry_ok(
    toks: Seq<RawToken>,
    pos: int,
    cache: Seq<Lookahead>,
    i: int,
) -> bool {
    let j = nth_significant(toks, pos, i);
    &&& j < toks.len()
    &&& cache[i].kind == toks[j].kind
    &&& cache[i].after_newline == preceded_by_line_break(toks, j)
}

/// The lookahead cache is a gapless queue of upcoming significant tokens,
/// and the offset counts exactly the raw tokens scanned to resolve them:
/// it stands immediately after the last cached significant token.
pub open spec fn cache_inv(toks: Seq<RawToken>, pos: int, cache: Seq<Lookahead>, off: int) -> bool {
    &&& forall|i: int| 0 <= i < cache.len() ==> #[trigger] cache_entry_ok(toks, pos, cache, i)
    &&& off == if cache.len() == 0 {
        0int
    } else {
        nth_significant(toks, pos, cache.len() - 1) + 1 - pos
    }
}

/// The raw index of the last significant token the lookahead scan has
/// resolved; the current token's index when nothing is cached.
pub open spec fn last_cached_significant(toks: Seq<RawToken>, pos: int, cache_len: int) -> int {
    if cache_len == 0 {
        pos - 1
    } else {
        nth_significant(toks, pos, cache_len - 1)
    }
}

/// What a lookahead resolution returns for the `n`-th upcoming significant
/// token (`n >= 1`): its kind and line-break flag, or `None` past the end of
/// input.
pub open spec fn spec_lookahead(toks: Seq<RawToken>, pos: int, n: int) -> Option<Lookahead> {
    let j = nth_significant(toks, pos, n - 1);
    if j < toks.len() {
        Some(Lookahead { kind: toks[j].kind, after_newline: preceded_by_line_break(toks, j) })
    } else {
        None
    }
}

/// The kind `nth` reports for `n >= 1`: the `n`-th upcoming significant
/// token, or the end-of-input sentinel if fewer remain.
pub open spec fn spec_nth(toks: Seq<RawToken>, pos: int, n: int) -> TokenKind {
    match spec_lookahead(toks, pos, n) {
        Some(la) => la.kind,
        None => TokenKind::Eof,
    }
}

/// Token source for the parser that skips over any trivia token.
pub struct JsTokenSource {
    lexer: RawLexer,
    /// The skipped trivia, in source order; needed to reconstruct the
    /// concrete syntax tree.
    trivia_list: Vec<Trivia>,
    /// Cache of already-resolved upcoming significant tokens; the front is
    /// the first lookahead token.
    non_trivia_lookahead: VecDeque<Lookahead>,
    /// Count of raw tokens (trivia included) scanned by lookahead that the
    /// main cursor has not yet passed.
    lookahead_offset: usize,
    /// Which consumed raw tokens went to the trivia log (`true`) and which
    /// were handed to the parser (`false`).
    consumed: Ghost<Seq<bool>>,
    /// Ranges of the tokens handed to the parser as significant, in order.
    sig_ranges: Ghost<Seq<TextRange>>,
}

/// A resumable snapshot of the token source.
#[derive(Clone, Copy)]
pub struct TokenSourceCheckpoint {
    lexer: RawLexerCheckpoint,
    /// Length of the trivia log at capture time. A `u32` is enough: the
    /// token count of a file fits a 32-bit count.
    trivia_len: u32,
    snapshot_trivia: Ghost<Seq<Trivia>>,
    snapshot_pattern: Ghost<Seq<bool>>,
    snapshot_sig: Ghost<Seq<TextRange>>,
}

impl TokenSourceCheckpoint {
    /// The captured raw-lexer cursor.
    pub closed spec fn lexer_cp(self) -> RawLexerCheckpoint {
        self.lexer
    }

    /// The captured consumed-token count.
    pub open spec fn pos(self) -> int {
        self.lexer_cp().pos()
    }

    /// The captured current kind.
    pub open spec fn cur(self) -> TokenKind {
        self.lexer_cp().cur()
    }

    /// The captured trivia-log length.
    pub closed spec fn trivia_len_spec(self) -> int {
        self.trivia_len as int
    }

    /// The captured trivia log.
    pub closed spec fn snap_trivia(self) -> Seq<Trivia> {
        self.snapshot_trivia@
    }

    /// The captured consumption pattern.
    pub closed spec fn snap_pattern(self) -> Seq<bool> {
        self.snapshot_pattern@
    }

    /// The captured significant-token ranges.
    pub closed spec fn snap_sig(self) -> Seq<TextRange> {
        self.snapshot_sig@
    }

    /// Whether this checkpoint may be rewound to from state `s`: it was
    /// captured on the same stream, the log has not shrunk below the
    /// captured length, and the log up to that length still is the captured
    /// log. A checkpoint of an abandoned parse path fails this.
    pub open spec fn valid_for(self, s: JsTokenSource) -> bool {
        &&& self.lexer_cp().wf_for(s.toks())
        &&& self.trivia_len_spec() == self.snap_trivia().len()
        &&& self.trivia_len_spec() <= s.trivia().len()
        &&& s.trivia().take(self.trivia_len_spec()) == self.snap_trivia()
        &&& log_inv(s.toks(), self.pos(), self.snap_pattern(), self.snap_trivia(), self.snap_sig())
    }

    /// The captured byte offset of the then-current token in the source
    /// text.
    pub fn current_start(&self) -> (r: u32)
        ensures
            r == self.lexer_cp().start(),
    {
        self.lexer.current_start()
    }

    /// The captured trivia-log length.
    pub fn trivia_position(&self) -> (r: usize)
        ensures
            r == self.trivia_len_spec(),
    {
        self.trivia_len as usize
    }
}

impl JsTokenSource {
    /// The raw lexer this source drives.
    pub closed spec fn lexer_spec(self) -> RawLexer {
        self.lexer
    }

    /// The pre-lexed raw token stream.
    pub open spec fn toks(self) -> Seq<RawToken> {
        self.lexer_spec().toks()
    }

    /// Count of consumed raw tokens; the current token is the last one.
    pub open spec fn pos(self) -> int {
        self.lexer_spec().pos()
    }

    /// The kind of the current significant token.
    pub open spec fn cur_kind(self) -> TokenKind {
        self.lexer_spec().cur()
    }

    /// The trivia log.
    pub closed spec fn trivia(self) -> Seq<Trivia> {
        self.trivia_list@
    }

    /// The lookahead cache.
    pub closed spec fn cache(self) -> Seq<Lookahead> {
        self.non_trivia_lookahead@
    }

    /// The lookahead cursor offset.
    pub closed spec fn offset(self) -> int {
        self.lookahead_offset as int
    }

    /// Which consumed raw tokens were logged as trivia.
    pub closed spec fn pattern(self) -> Seq<bool> {
        self.consumed@
    }

    /// Ranges of the tokens handed to the parser, in order.
    pub closed spec fn significant(self) -> Seq<TextRange> {
        self.sig_ranges@
    }

    /// Well-formedness: the lexer cursor is well formed and stands on a
    /// significant token, the trivia log and the significant-token ranges
    /// together cover the consumed raw tokens exactly, and the lookahead
    /// cache is sound.
    pub open spec fn wf(self) -> bool {
        &&& self.lexer_spec().wf()
        &&& self.pos() >= 1
        &&& !is_trivia(self.cur_kind())
        &&& log_inv(self.toks(), self.pos(), self.pattern(), self.trivia(), self.significant())
        &&& cache_inv(self.toks(), self.pos(), self.cache(), self.offset())
    }

    /// Creates a token source over a well-formed pre-lexed stream and
    /// advances it to the first significant token, logging any leading
    /// trivia; `None` if the stream is not well formed.
    pub fn from_tokens(tokens: Vec<RawToken>) -> (r: Option<JsTokenSource>)
        ensures
            r is Some <==> wf_tokens(tokens@),
            r matches Some(s) ==> ({
                let j = next_significant(tokens@, 0);
                &&& s.wf()
                &&& s.toks() == tokens@
                &&& s.pos() == j + 1
                &&& s.cur_kind() == tokens@[j].kind
                &&& s.trivia() == run_trivia(tokens@, 0, j, false)
                &&& s.significant() == Seq::<TextRange>::empty()
                &&& s.cache() == Seq::<Lookahead>::empty()
            }),
    {
        if !RawLexer::check_tokens(&tokens) {
            return None;
        }
        let ghost toks = tokens@;
        let mut source = JsTokenSource {
            lexer: RawLexer::new(tokens),
            trivia_list: Vec::new(),
            non_trivia_lookahead: VecDeque::new(),
            lookahead_offset: 0,
            consumed: Ghost(Seq::empty()),
            sig_ranges: Ghost(Seq::empty()),
        };
        proof {
            assert(interleave(
                source.pattern(),
                trivia_ranges(source.trivia()),
                source.significant(),
            ) =~= ranges_upto(toks, 0));
        }
        source.advance_to_significant(true);
        proof {
            assert(source.trivia() =~= run_trivia(toks, 0, next_significant(toks, 0), false));
            assert(source.cache() =~= Seq::<Lookahead>::empty());
        }
        Some(source)
    }

    /// The kind of the current significant token.
    pub fn current(&self) -> (k: TokenKind)
        requires
            self.wf(),
        ensures
            k == self.cur_kind(),
    {
        self.lexer.current()
    }

    /// The byte range of the current significant token.
    pub fn current_range(&self) -> (r: TextRange)
        requires
            self.wf(),
        ensures
            r == self.toks()[self.pos() - 1].range,
    {
        self.lexer.current_range()
    }

    /// The byte offset of the current significant token in the source text.
    pub fn position(&self) -> (r: u32)
        requires
            self.wf(),
        ensures
            r == self.toks()[self.pos() - 1].range.start,
    {
        self.lexer.current_range().start
    }

    /// Whether the current token is preceded by a line break.
    pub fn has_preceding_line_break(&self) -> (r: bool)
        requires
            self.wf(),
        ensures
            r == preceded_by_line_break(self.toks(), self.pos() - 1),
    {
        self.lexer.has_preceding_line_break()
    }

    /// Whether the current token's text contains a unicode escape.
    pub fn has_unicode_escape(&self) -> (r: bool)
        requires
            self.wf(),
        ensures
            r == self.toks()[self.pos() - 1].unicode_escape,
    {
        self.lexer.has_unicode_escape()
    }

    /// Whether any trivia stands between the current token and the next raw
    /// token boundary (trailing trivia of the current token or leading
    /// trivia of the next).
    pub fn has_next_preceding_trivia(&self) -> (r: bool)
        requires
            self.wf(),
        ensures
            r == (self.pos() < self.toks().len() && is_trivia(self.toks()[self.pos()].kind)),
    {
        match self.lexer.peek_raw(0) {
            Some(t) => t.kind.is_trivia(),
            None => false,
        }
    }

    /// Advances to the next significant token under the regular context.
    pub fn bump(&mut self)
        requires
            old(self).wf(),
        ensures
            final(self).wf(),
            final(self).toks() == old(self).toks(),
            old(self).cur_kind() is Eof ==> *final(self) == *old(self),
            !(old(self).cur_kind() is Eof) ==> ({
                let toks = old(self).toks();
                let j = next_significant(toks, old(self).pos());
                &&& final(self).pos() == j + 1
                &&& final(self).pos() == bump_pos(toks, old(self).pos())
                &&& final(self).cur_kind() == toks[j].kind
                &&& final(self).trivia() == old(self).trivia() + run_trivia(
                    toks,
                    old(self).pos(),
                    j,
                    true,
                )
                &&& final(self).significant() == old(self).significant().push(
                    toks[old(self).pos() - 1].range,
                )
            }),
    {
        self.bump_with_context(LexContext::Regular)
    }

    /// Advances to the next significant token under the given context. A
    /// non-regular context can re-tokenize upcoming text differently, so
    /// the lookahead cache and its offset are discarded first. No-op at the
    /// end of input.
    pub fn bump_with_context(&mut self, context: LexContext)
        requires
            old(self).wf(),
        ensures
            final(self).wf(),
            final(self).toks() == old(self).toks(),
            old(self).cur_kind() is Eof ==> *final(self) == *old(self),
            !(old(self).cur_kind() is Eof) ==> ({
                let toks = old(self).toks();
                let j = next_significant(toks, old(self).pos());
                &&& final(self).pos() == j + 1
                &&& final(self).pos() == bump_pos(toks, old(self).pos())
                &&& final(self).cur_kind() == toks[j].kind
                &&& final(self).trivia() == old(self).trivia() + run_trivia(
                    toks,
                    old(self).pos(),
                    j,
                    true,
                )
                &&& final(self).significant() == old(self).significant().push(
                    toks[old(self).pos() - 1].range,
                )
            }),
    {
        let kind = self.lexer.current();
        if !matches!(kind, TokenKind::Eof) {
            if !context.is_regular() {
                self.lookahead_offset = 0;
                self.non_trivia_lookahead.clear();
            }
            let ghost toks = self.toks();
            let ghost pos0 = self.pos();
            let ghost x = self.toks()[self.pos() - 1].range;
            proof {
                lemma_count_true_bounds(self.pattern());
                lemma_interleave_snoc_false(
                    self.pattern(),
                    trivia_ranges(self.trivia()),
                    self.significant(),
                    x,
                );
                assert(ranges_upto(toks, pos0 - 1).push(x) =~= ranges_upto(toks, pos0));
            }
            self.consumed = Ghost(self.consumed@.push(false));
            self.sig_ranges = Ghost(self.sig_ranges@.push(x));
            proof {
                assert(self.pattern().drop_last() =~= old(self).pattern());
                assert(count_true(self.pattern()) == count_true(old(self).pattern()));
            }
            self.advance_to_significant(false);
            proof {
                assert(crate::stream::wf_token_at(toks, pos0 - 1));
                assert(pos0 < toks.len());
            }
        }
    }

    /// Logs the current token itself as skipped trivia (it attaches to the
    /// following token) and advances under the regular context — used when
    /// the parser deliberately discards an unexpected token for error
    /// recovery.
    pub fn skip_as_trivia(&mut self)
        requires
            old(self).wf(),
        ensures
            final(self).wf(),
            final(self).toks() == old(self).toks(),
            old(self).cur_kind() is Eof ==> *final(self) == *old(self),
            !(old(self).cur_kind() is Eof) ==> ({
                let toks = old(self).toks();
                let j = next_significant(toks, old(self).pos());
                &&& final(self).pos() == j + 1
                &&& final(self).cur_kind() == toks[j].kind
                &&& final(self).trivia() == old(self).trivia() + seq![
                    Trivia {
                        kind: TriviaPieceKind::Skipped,
                        range: toks[old(self).pos() - 1].range,
                        trailing: false,
                    },
                ] + run_trivia(toks, old(self).pos(), j, false)
                &&& final(self).significant() == old(self).significant()
            }),
    {
        self.skip_as_trivia_with_context(LexContext::Regular)
    }

    /// As `skip_as_trivia`, under the given context.
    pub fn skip_as_trivia_with_context(&mut self, context: LexContext)
        requires
            old(self).wf(),
        ensures
            final(self).wf(),
            final(self).toks() == old(self).toks(),
            old(self).cur_kind() is Eof ==> *final(self) == *old(self),
            !(old(self).cur_kind() is Eof) ==> ({
                let toks = old(self).toks();
                let j = next_significant(toks, old(self).pos());
                &&& final(self).pos() == j + 1
                &&& final(self).cur_kind() == toks[j].kind
                &&& final(self).trivia() == old(self).trivia() + seq![
                    Trivia {
                        kind: TriviaPieceKind::Skipped,
                        range: toks[old(self).pos() - 1].range,
                        trailing: false,
                    },
                ] + run_trivia(toks, old(self).pos(), j, false)
                &&& final(self).significant() == old(self).significant()
            }),
    {
        let kind = self.lexer.current();
        if !matches!(kind, TokenKind::Eof) {
            if !context.is_regular() {
                self.lookahead_offset = 0;
                self.non_trivia_lookahead.clear();
            }
            let ghost toks = self.toks();
            let ghost pos0 = self.pos();
            let range = self.lexer.current_range();
            let entry = Trivia { kind: TriviaPieceKind::Skipped, range, trailing: false };
            proof {
                lemma_count_true_bounds(self.pattern());
                lemma_interleave_snoc_true(
                    self.pattern(),
                    trivia_ranges(self.trivia()),
                    self.significant(),
                    range,
                );
                assert(ranges_upto(toks, pos0 - 1).push(range) =~= ranges_upto(toks, pos0));
                assert(trivia_ranges(self.trivia().push(entry)) =~= trivia_ranges(
                    self.trivia(),
                ).push(range));
            }
            self.trivia_list.push(entry);
            self.consumed = Ghost(self.consumed@.push(true));
            proof {
                assert(self.pattern().drop_last() =~= old(self).pattern());
                assert(count_true(self.pattern()) == count_true(old(self).pattern()) + 1);
            }
            self.advance_to_significant(true);
            proof {
                assert(self.trivia() =~= old(self).trivia() + seq![entry] + run_trivia(
                    toks,
                    pos0,
                    next_significant(toks, pos0),
                    false,
                ));
            }
        }
    }

    /// Consumes raw tokens until the next significant token, logging every
    /// trivia token crossed; classification starts out trailing unless the
    /// run opens leading (start of input, or after a skipped token), and
    /// flips to leading at the first newline-bearing piece. Decrements the
    /// lookahead offset by the number of raw tokens consumed.
    fn advance_to_significant(&mut self, first_token: bool)
        requires
            old(self).lexer_spec().wf(),
            old(self).pos() >= 1 ==> !is_trivia(old(self).cur_kind()) && !(old(
                self,
            ).cur_kind() is Eof),
            old(self).pattern().len() == old(self).pos(),
            old(self).trivia().len() == count_true(old(self).pattern()),
            old(self).significant().len() == old(self).pattern().len() - old(self).trivia().len(),
            interleave(
                old(self).pattern(),
                trivia_ranges(old(self).trivia()),
                old(self).significant(),
            ) == ranges_upto(old(self).toks(), old(self).pos()),
            cache_inv(old(self).toks(), old(self).pos(), old(self).cache(), old(self).offset()),
        ensures
            final(self).wf(),
            final(self).toks() == old(self).toks(),
            final(self).pos() == next_significant(old(self).toks(), old(self).pos()) + 1,
            final(self).cur_kind() == final(self).toks()[final(self).pos() - 1].kind,
            final(self).trivia() == old(self).trivia() + run_trivia(
                old(self).toks(),
                old(self).pos(),
                next_significant(old(self).toks(), old(self).pos()),
                !first_token,
            ),
            final(self).significant() == old(self).significant(),
            final(self).cache() == if old(self).cache().len() == 0 {
                old(self).cache()
            } else {
                old(self).cache().skip(1)
            },
    {
        let ghost toks = self.toks();
        let ghost pos0 = self.pos();
        let ghost j = next_significant(toks, pos0);
        let ghost clen0 = self.cache().len() as int;
        let ghost off0 = self.offset();
        proof {
            if pos0 >= 1 {
                assert(crate::stream::wf_token_at(toks, pos0 - 1));
            }
            assert(pos0 < toks.len());
            lemma_next_significant(toks, pos0);
        }
        // Drop the last cached lookahead: the cursor is moving past it.
        let _popped = self.non_trivia_lookahead.pop_front();
        let ghost cache1 = self.cache();
        proof {
            if old(self).cache().len() > 0 {
                assert(cache1 =~= old(self).cache().skip(1));
            }
        }

        let mut processed: usize = 0;
        let mut trailing: bool = !first_token;
        loop
            invariant_except_break
                self.lexer_spec().wf(),
                self.toks() == toks,
                wf_tokens(toks),
                next_significant(toks, pos0) == j,
                0 <= pos0 <= self.pos() <= j < toks.len(),
                forall|m: int| pos0 <= m < j ==> is_trivia(toks[m].kind),
                !is_trivia(toks[j].kind),
                self.pattern().len() == self.pos(),
                self.trivia().len() == count_true(self.pattern()),
                self.significant() == old(self).significant(),
                self.significant().len() == self.pattern().len() - self.trivia().len(),
                interleave(self.pattern(), trivia_ranges(self.trivia()), self.significant())
                    == ranges_upto(toks, self.pos()),
                self.trivia() == old(self).trivia() + run_trivia(
                    toks,
                    pos0,
                    self.pos(),
                    !first_token,
                ),
                trailing == (!first_token && !newline_in(toks, pos0, self.pos())),
                processed == self.pos() - pos0,
                self.cache() == cache1,
                self.offset() == off0,
            ensures
                self.lexer_spec().wf(),
                self.toks() == toks,
                self.pos() == j + 1,
                self.cur_kind() == toks[j].kind,
                self.pattern().len() == j,
                self.trivia().len() == count_true(self.pattern()),
                self.significant() == old(self).significant(),
                self.significant().len() == self.pattern().len() - self.trivia().len(),
                interleave(self.pattern(), trivia_ranges(self.trivia()), self.significant())
                    == ranges_upto(toks, j),
                self.trivia() == old(self).trivia() + run_trivia(toks, pos0, j, !first_token),
                processed == j + 1 - pos0,
                self.cache() == cache1,
                self.offset() == off0,
            decreases toks.len() - self.pos(),
        {
            let ghost p = self.pos();
            let kind = self.lexer.next_token();
            processed = processed + 1;
            match kind.classify_trivia() {
                None => {
                    proof {
                        assert(self.pos() == p + 1);
                        assert(kind == toks[p].kind);
                        assert(p == j) by {
                            if p < j {
                                assert(is_trivia(toks[p].kind));
                            }
                        }
                    }
                    break ;
                },
                Some(piece) => {
                    proof {
                        assert(self.pos() == p + 1);
                        assert(kind == toks[p].kind);
                        assert(is_trivia(toks[p].kind));
                        assert(p < j) by {
                            if p == j {
                                assert(!is_trivia(toks[j].kind));
                            }
                        }
                    }
                    if piece.is_newline() {
                        trailing = false;
                    }
                    let range = self.lexer.current_range();
                    let entry = Trivia { kind: piece, range, trailing };
                    proof {
                        lemma_newline_in_extend(toks, pos0, p);
                        lemma_count_true_bounds(self.pattern());
                        lemma_interleave_snoc_true(
                            self.pattern(),
                            trivia_ranges(self.trivia()),
                            self.significant(),
                            range,
                        );
                        assert(ranges_upto(toks, p).push(range) =~= ranges_upto(toks, p + 1));
                        assert(trivia_ranges(self.trivia().push(entry)) =~= trivia_ranges(
                            self.trivia(),
                        ).push(range));
                        assert(self.pattern().push(true).drop_last() =~= self.pattern());
                        assert(count_true(self.pattern().push(true)) == count_true(self.pattern())
                            + 1);
                        assert(entry == Trivia {
                            kind: match trivia_kind_of(toks[p].kind) {
                                Some(k) => k,
                                None => TriviaPieceKind::Skipped,
                            },
                            range: toks[p].range,
                            trailing: (!first_token && !newline_in(toks, pos0, p + 1)),
                        });
                        assert((old(self).trivia() + run_trivia(
                            toks,
                            pos0,
                            p,
                            !first_token,
                        )).push(entry) =~= old(self).trivia() + run_trivia(
                            toks,
                            pos0,
                            p + 1,
                            !first_token,
                        ));
                    }
                    self.trivia_list.push(entry);
                    self.consumed = Ghost(self.consumed@.push(true));
                },
            }
        }
        // The cursor has passed `processed` raw tokens; the lookahead offset
        // must shrink by the same amount, and can never underflow: the cache
        // resolves significant tokens in order, so a nonzero offset stands
        // at or past the token the cursor just reached.
        if self.lookahead_offset != 0 {
            proof {
                assert(clen0 >= 1) by {
                    if clen0 == 0 {
                        assert(off0 == 0);
                    }
                }
                assert(cache_entry_ok(toks, pos0, old(self).cache(), 0));
                lemma_nth_significant_mono(toks, pos0, 0, clen0 - 1);
                assert(nth_significant(toks, pos0, 0) == j);
                assert(off0 >= processed);
            }
            self.lookahead_offset = self.lookahead_offset - processed;
            proof {
                if clen0 == 1 {
                    assert(self.cache().len() == 0);
                    assert(self.offset() == 0);
                } else {
                    lemma_nth_significant_unfold(toks, pos0, clen0 - 1);
                    assert(self.offset() == nth_significant(toks, j + 1, clen0 - 2) + 1 - (j + 1));
                    assert forall|i: int| 0 <= i < self.cache().len() implies #[trigger] cache_entry_ok(
                        toks,
                        j + 1,
                        self.cache(),
                        i,
                    ) by {
                        assert(cache_entry_ok(toks, pos0, old(self).cache(), i + 1));
                        lemma_nth_significant_unfold(toks, pos0, i + 1);
                        assert(self.cache()[i] == old(self).cache()[i + 1]);
                    }
                }
            }
        } else {
            proof {
                assert(clen0 == 0 || off0 != 0) by {
                    if clen0 >= 1 {
                        assert(cache_entry_ok(toks, pos0, old(self).cache(), clen0 - 1));
                        lemma_nth_significant_bounds(toks, pos0, clen0 - 1);
                    }
                }
                assert(self.cache().len() == 0);
            }
        }
    }

    /// Resolves the `n`-th upcoming significant token, `n >= 1`. Resumes
    /// scanning at the stored offset rather than from the current token;
    /// trivia crossed here is skipped silently, never logged — lookahead is
    /// speculative and must not affect the trivia record.
    fn lookahead(&mut self, n: usize) -> (r: Option<Lookahead>)
        requires
            old(self).wf(),
            n >= 1,
        ensures
            final(self).wf(),
            final(self).toks() == old(self).toks(),
            final(self).pos() == old(self).pos(),
            final(self).cur_kind() == old(self).cur_kind(),
            final(self).trivia() == old(self).trivia(),
            final(self).significant() == old(self).significant(),
            final(self).pattern() == old(self).pattern(),
            r == spec_lookahead(old(self).toks(), old(self).pos(), n as int),
    {
        let ghost toks = self.toks();
        let ghost pos = self.pos();
        let clen = self.non_trivia_lookahead.len();
        if n - 1 < clen {
            let la = self.non_trivia_lookahead[n - 1];
            proof {
                assert(cache_entry_ok(toks, pos, self.cache(), n - 1));
            }
            return Some(la);
        }
        let mut remaining: usize = n - clen;
        let mut newline_seen: bool = false;
        proof {
            if self.cache().len() > 0 {
                assert(cache_entry_ok(toks, pos, self.cache(), self.cache().len() - 1));
                lemma_nth_significant_bounds(toks, pos, self.cache().len() - 1);
            }
        }
        loop
            invariant
                self.lexer_spec().wf(),
                self.toks() == toks,
                toks == old(self).toks(),
                pos == old(self).pos(),
                wf_tokens(toks),
                self.pos() == pos,
                1 <= pos <= toks.len(),
                self.cur_kind() == old(self).cur_kind(),
                !is_trivia(self.cur_kind()),
                self.trivia() == old(self).trivia(),
                self.significant() == old(self).significant(),
                self.pattern() == old(self).pattern(),
                log_inv(toks, pos, self.pattern(), self.trivia(), self.significant()),
                n >= 1,
                remaining == n - self.cache().len(),
                remaining >= 1,
                forall|i: int|
                    0 <= i < self.cache().len() ==> #[trigger] cache_entry_ok(
                        toks,
                        pos,
                        self.cache(),
                        i,
                    ),
                ({
                    let s = pos + self.offset();
                    let lnt = last_cached_significant(toks, pos, self.cache().len() as int);
                    &&& 0 <= lnt
                    &&& lnt + 1 <= s <= toks.len()
                    &&& lnt < toks.len()
                    &&& !is_trivia(toks[lnt].kind)
                    &&& forall|m: int| lnt < m < s ==> is_trivia(toks[m].kind)
                    &&& newline_seen == newline_in(toks, lnt + 1, s)
                }),
            decreases toks.len() - (pos + self.offset()),
        {
            let ghost s = pos + self.offset();
            let ghost lnt = last_cached_significant(toks, pos, self.cache().len() as int);
            let d = self.lookahead_offset;
            match self.lexer.peek_raw(d) {
                None => {
                    proof {
                        assert(s == toks.len());
                        assert(lnt == toks.len() - 1) by {
                            if lnt < toks.len() - 1 {
                                assert(is_trivia(toks[toks.len() - 1].kind));
                                assert(crate::stream::wf_token_at(toks, toks.len() - 1));
                            }
                        }
                        if self.cache().len() == 0 {
                            assert(pos - 1 == toks.len() - 1);
                            assert(next_significant(toks, pos) == toks.len());
                            lemma_nth_significant_beyond(toks, pos, n - 1);
                        } else {
                            lemma_nth_significant_succ(toks, pos, self.cache().len() as int);
                            assert(next_significant(toks, lnt + 1) == toks.len());
                            assert(nth_significant(toks, pos, self.cache().len() as int)
                                == toks.len());
                            lemma_nth_significant_beyond_from(
                                toks,
                                pos,
                                self.cache().len() as int,
                                n - 1,
                            );
                        }
                        assert(nth_significant(toks, pos, n - 1) >= toks.len());
                    }
                    return None;
                },
                Some(item) => {
                    proof {
                        assert(item == toks[s]);
                    }
                    self.lookahead_offset = d + 1;
                    match item.kind.classify_trivia() {
                        Some(piece) => {
                            if piece.is_newline() {
                                newline_seen = true;
                            }
                            proof {
                                lemma_newline_in_extend(toks, lnt + 1, s);
                            }
                        },
                        None => {
                            let entry = Lookahead { kind: item.kind, after_newline: newline_seen };
                            proof {
                                lemma_next_significant_of_run(toks, lnt + 1, s);
                                lemma_preceded_of_run(toks, lnt + 1, s);
                                if self.cache().len() == 0 {
                                    assert(nth_significant(toks, pos, 0) == s);
                                } else {
                                    lemma_nth_significant_succ(
                                        toks,
                                        pos,
                                        self.cache().len() as int,
                                    );
                                    assert(nth_significant(toks, pos, self.cache().len() as int)
                                        == s);
                                }
                            }
                            let ghost cache_before = self.cache();
                            self.non_trivia_lookahead.push_back(entry);
                            proof {
                                assert(cache_entry_ok(toks, pos, self.cache(), (self.cache().len()
                                    - 1) as int));
                                assert forall|i: int|
                                    0 <= i < self.cache().len() implies #[trigger] cache_entry_ok(
                                    toks,
                                    pos,
                                    self.cache(),
                                    i,
                                ) by {
                                    if i < self.cache().len() - 1 {
                                        assert(cache_entry_ok(toks, pos, cache_before, i));
                                        assert(self.cache()[i] == cache_before[i]);
                                    }
                                }
                            }
                            remaining = remaining - 1;
                            newline_seen = false;
                            if remaining == 0 {
                                proof {
                                    assert(nth_significant(toks, pos, n - 1) == s);
                                }
                                return Some(entry);
                            }
                        },
                    }
                }
            }
        }
    }

    /// The kind of the `n`-th significant token: the current one for
    /// `n == 0`, the `n`-th upcoming one otherwise, or the end-of-input
    /// sentinel if fewer than `n` remain.
    pub fn nth(&mut self, n: usize) -> (k: TokenKind)
        requires
            old(self).wf(),
        ensures
            final(self).wf(),
            final(self).toks() == old(self).toks(),
            final(self).pos() == old(self).pos(),
            final(self).cur_kind() == old(self).cur_kind(),
            final(self).trivia() == old(self).trivia(),
            final(self).significant() == old(self).significant(),
            final(self).pattern() == old(self).pattern(),
            k == if n == 0 {
                old(self).cur_kind()
            } else {
                spec_nth(old(self).toks(), old(self).pos(), n as int)
            },
    {
        if n == 0 {
            self.lexer.current()
        } else {
            match self.lookahead(n) {
                Some(la) => la.kind,
                None => TokenKind::Eof,
            }
        }
    }

    /// Whether the `n`-th significant token is preceded by a line break;
    /// `false` past the end of input.
    pub fn has_nth_preceding_line_break(&mut self, n: usize) -> (r: bool)
        requires
            old(self).wf(),
        ensures
            final(self).wf(),
            final(self).toks() == old(self).toks(),
            final(self).pos() == old(self).pos(),
            final(self).cur_kind() == old(self).cur_kind(),
            final(self).trivia() == old(self).trivia(),
            final(self).significant() == old(self).significant(),
            final(self).pattern() == old(self).pattern(),
            r == if n == 0 {
                preceded_by_line_break(old(self).toks(), old(self).pos() - 1)
            } else {
                match spec_lookahead(old(self).toks(), old(self).pos(), n as int) {
                    Some(la) => la.after_newline,
                    None => false,
                }
            },
    {
        if n == 0 {
            self.lexer.has_preceding_line_break()
        } else {
            match self.lookahead(n) {
                Some(la) => la.after_newline,
                None => false,
            }
        }
    }

    /// Records the raw lexer's reinterpretation of the current token under
    /// a re-lex mode and returns the new kind. If the kind changed, the
    /// lookahead cache and its offset are discarded: cached predictions
    /// were made under the old tokenization. Which kind the current text
    /// takes under a mode is the raw lexer's concern; a reinterpretation is
    /// always significant and can neither make nor unmake the end of input.
    pub fn re_lex(&mut self, relexed: TokenKind) -> (k: TokenKind)
        requires
            old(self).wf(),
            !is_trivia(relexed),
            (relexed is Eof) <==> (old(self).cur_kind() is Eof),
        ensures
            final(self).wf(),
            final(self).toks() == old(self).toks(),
            final(self).pos() == old(self).pos(),
            final(self).trivia() == old(self).trivia(),
            final(self).significant() == old(self).significant(),
            final(self).pattern() == old(self).pattern(),
            final(self).cur_kind() == relexed,
            k == relexed,
            relexed == old(self).cur_kind() ==> final(self).cache() == old(self).cache()
                && final(self).offset() == old(self).offset(),
            relexed != old(self).cur_kind() ==> final(self).cache().len() == 0 && final(self).offset() == 0,

    {
        let current_kind = self.lexer.current();
        let new_kind = self.lexer.re_lex(relexed);
        if current_kind != new_kind {
            self.non_trivia_lookahead.clear();
            self.lookahead_offset = 0;
        }
        new_kind
    }

    /// Captures the state needed to later return here with `rewind`: the
    /// trivia-log length and the raw lexer's cursor. O(1) — the log
    /// contents are not copied.
    pub fn checkpoint(&self) -> (cp: TokenSourceCheckpoint)
        requires
            self.wf(),
        ensures
            cp.valid_for(*self),
            cp.pos() == self.pos(),
            cp.cur() == self.cur_kind(),
            cp.trivia_len_spec() == self.trivia().len(),
            cp.lexer_cp().start() == self.toks()[self.pos() - 1].range.start,
            cp.snap_trivia() == self.trivia(),
            cp.snap_pattern() == self.pattern(),
            cp.snap_sig() == self.significant(),
    {
        proof {
            lemma_count_true_bounds(self.pattern());
            assert(self.trivia_list@.len() <= u32::MAX);
        }
        let cp = TokenSourceCheckpoint {
            lexer: self.lexer.checkpoint(),
            trivia_len: self.trivia_list.len() as u32,
            snapshot_trivia: Ghost(self.trivia_list@),
            snapshot_pattern: Ghost(self.consumed@),
            snapshot_sig: Ghost(self.sig_ranges@),
        };
        proof {
            assert(self.trivia().take(cp.trivia_len_spec()) =~= self.trivia());
        }
        cp
    }

    /// Restores the state captured by `checkpoint`: truncates the trivia
    /// log to the captured length, restores the raw lexer's cursor, and
    /// discards the lookahead cache and its offset — cached lookahead is
    /// relative to a cursor position that no longer exists. Afterwards the
    /// source is indistinguishable from one that never advanced past the
    /// capture.
    pub fn rewind(&mut self, cp: TokenSourceCheckpoint)
        requires
            old(self).wf(),
            cp.valid_for(*old(self)),
        ensures
            final(self).wf(),
            final(self).toks() == old(self).toks(),
            final(self).pos() == cp.pos(),
            final(self).cur_kind() == cp.cur(),
            final(self).trivia() == cp.snap_trivia(),
            final(self).trivia() == old(self).trivia().take(cp.trivia_len_spec()),
            final(self).significant() == cp.snap_sig(),
            final(self).pattern() == cp.snap_pattern(),
            final(self).cache().len() == 0,
            final(self).offset() == 0,
    {
        self.trivia_list.truncate(cp.trivia_len as usize);
        self.lexer.rewind(cp.lexer);
        self.non_trivia_lookahead.clear();
        self.lookahead_offset = 0;
        self.consumed = Ghost(cp.snap_pattern());
        self.sig_ranges = Ghost(cp.snap_sig());
        proof {
            assert(self.trivia() =~= cp.snap_trivia());
        }
    }

    /// Consumes the source and hands back the trivia log for tree assembly.
    pub fn finish(self) -> (r: Vec<Trivia>)
        ensures
            r@ == self.trivia(),
    {
        self.trivia_list
    }
}

} // verus!
