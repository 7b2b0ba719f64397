//! The guarantees the token source gives as a whole, stated over the
//! specifications that its operations' contracts use.

use vstd::prelude::*;

use crate::stream::bump_pos;
use crate::stream::count_true;
use crate::stream::interleave;
use crate::stream::lemma_next_significant;
use crate::stream::lemma_nth_significant_beyond;
use crate::stream::lemma_nth_significant_bounds;
use crate::stream::lemma_nth_significant_unfold;
use crate::stream::newline_in;
use crate::stream::next_significant;
use crate::stream::ranges_upto;
use crate::stream::run_trivia;
use crate::stream::trivia_ranges;
use crate::stream::wf_token_at;
use crate::stream::wf_tokens;
use crate::syntax::RawToken;
use crate::token_source::cache_entry_ok;
use crate::token_source::spec_lookahead;
use crate::token_source::spec_nth;
use crate::token_source::JsTokenSource;

verus! {

/// Where the cursor stands after `k` advances from `pos`: each advance
/// moves one past the next significant token and the end of input is
/// absorbing.
pub open spec fn pos_after_bumps(toks: Seq<RawToken>, pos: int, k: int) -> int
    decreases k,
{
    if k <= 0 {
        pos
    } else {
        pos_after_bumps(toks, bump_pos(toks, pos), k - 1)
    }
}

/// Trivia completeness: the logged trivia ranges and the ranges of the
/// significant tokens handed to the parser, merged back into consumption
/// order, are exactly the ranges of the consumed raw tokens — and those
/// tile the source text from offset zero up to the start of the current
/// token, with no gaps and no overlaps.
pub proof fn lemma_trivia_completeness(s: JsTokenSource)
    requires
        s.wf(),
    ensures
        ({
            let covered = ranges_upto(s.toks(), s.pos() - 1);
            &&& interleave(s.pattern(), trivia_ranges(s.trivia()), s.significant()) == covered
            &&& s.pattern().len() == s.pos() - 1
            &&& s.trivia().len() == count_true(s.pattern())
            &&& s.significant().len() == s.pattern().len() - s.trivia().len()
            &&& (covered.len() > 0 ==> covered[0].start == 0)
            &&& (forall|i: int|
                0 <= i < covered.len() - 1 ==> covered[i].end == covered[i + 1].start)
            &&& (covered.len() > 0 ==> covered[covered.len() - 1].end == s.toks()[s.pos()
                - 1].range.start)
        }),
{
    let toks = s.toks();
    let covered = ranges_upto(toks, s.pos() - 1);
    assert forall|i: int| 0 <= i < covered.len() - 1 implies covered[i].end == covered[i
        + 1].start by {
        assert(wf_token_at(toks, i + 1));
    }
    if covered.len() > 0 {
        assert(wf_token_at(toks, 0));
        assert(wf_token_at(toks, s.pos() - 1));
    }
}

/// Leading/trailing correctness: in a trivia run that opens trailing,
/// every piece before the first newline-bearing one attaches to the
/// preceding token and every piece at or after it attaches to the
/// following token; a run that opens leading (start of input, or after a
/// skipped token) attaches to the following token throughout.
pub proof fn lemma_leading_trailing(toks: Seq<RawToken>, from: int, to: int, i: int)
    requires
        from <= i < to,
    ensures
        run_trivia(toks, from, to, true)[i - from].trailing == !newline_in(toks, from, i + 1),
        !run_trivia(toks, from, to, false)[i - from].trailing,
{
}

/// The cursor stays put once it stands at the end of input.
pub proof fn lemma_pos_after_bumps_at_end(toks: Seq<RawToken>, pos: int, k: int)
    requires
        pos >= toks.len(),
        k >= 0,
    ensures
        pos_after_bumps(toks, pos, k) == pos,
    decreases k,
{
    if k > 0 {
        lemma_pos_after_bumps_at_end(toks, pos, k - 1);
    }
}

/// Lookahead/advance consistency: the kind that `nth(k)` reports is the
/// kind of the current token after `k` advances, for every depth `k` —
/// the end-of-input sentinel included, since advancing cannot pass it.
pub proof fn lemma_lookahead_advance_consistency(toks: Seq<RawToken>, pos: int, k: int)
    requires
        wf_tokens(toks),
        1 <= pos <= toks.len(),
        k >= 1,
    ensures
        spec_nth(toks, pos, k) == toks[pos_after_bumps(toks, pos, k) - 1].kind,
    decreases k,
{
    reveal_with_fuel(pos_after_bumps, 3);
    if pos == toks.len() {
        lemma_nth_significant_beyond(toks, pos, k - 1);
        lemma_pos_after_bumps_at_end(toks, pos, k);
        assert(wf_token_at(toks, toks.len() - 1));
    } else {
        let j = next_significant(toks, pos);
        lemma_next_significant(toks, pos);
        if k == 1 {
            assert(pos_after_bumps(toks, pos, 1) == j + 1);
        } else {
            lemma_nth_significant_unfold(toks, pos, k - 1);
            lemma_lookahead_advance_consistency(toks, j + 1, k - 1);
        }
    }
}

/// Rewind is exact: the observable behaviour of a token source is a
/// function of the raw stream and the cursor position alone, so two states
/// that agree on them — as a rewound source and the source at capture time
/// do — report the same current range, the same lookahead at every depth,
/// and the same cursor positions under any further sequence of advances.
pub proof fn lemma_rewind_determinism(a: JsTokenSource, b: JsTokenSource)
    requires
        a.wf(),
        b.wf(),
        a.toks() == b.toks(),
        a.pos() == b.pos(),
    ensures
        a.toks()[a.pos() - 1].range == b.toks()[b.pos() - 1].range,
        forall|n: int|
            n >= 1 ==> spec_lookahead(a.toks(), a.pos(), n) == spec_lookahead(
                b.toks(),
                b.pos(),
                n,
            ),
        forall|k: int|
            k >= 0 ==> pos_after_bumps(a.toks(), a.pos(), k) == pos_after_bumps(
                b.toks(),
                b.pos(),
                k,
            ),
{
}

/// Offset non-negativity: the lookahead offset is a count that never
/// underflows — it always covers at least the cached entries and never
/// reaches past the end of input, so advancing past the front of the cache
/// can always subtract the raw tokens it consumed.
pub proof fn lemma_offset_bounds(s: JsTokenSource)
    requires
        s.wf(),
    ensures
        s.offset() >= s.cache().len(),
        s.offset() <= s.toks().len() - s.pos(),
{
    let clen = s.cache().len() as int;
    if clen > 0 {
        assert(cache_entry_ok(s.toks(), s.pos(), s.cache(), clen - 1));
        lemma_nth_significant_bounds(s.toks(), s.pos(), clen - 1);
    }
}

} // verus!
