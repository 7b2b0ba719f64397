//! Specifications over the raw token stream: well-formedness of a pre-lexed
//! token sequence, the position of upcoming significant tokens, preceding
//! line breaks, and the trivia entries an advance appends to the log.

use vstd::prelude::*;

use crate::syntax::is_trivia;
use crate::syntax::trivia_kind_of;
use crate::syntax::RawToken;
use crate::syntax::TextRange;
use crate::syntax::Trivia;
use crate::syntax::TriviaPieceKind;

verus! {

/// Well-formedness of the token at index `i` of a raw stream: ranges tile the
/// source text starting at offset zero, and the end-of-input sentinel stands
/// exactly at the last index.
pub open spec fn wf_token_at(toks: Seq<RawToken>, i: int) -> bool {
    &&& toks[i].range.start <= toks[i].range.end
    &&& (i == 0 ==> toks[i].range.start == 0)
    &&& (0 < i ==> toks[i].range.start == toks[i - 1].range.end)
    &&& ((toks[i].kind is Eof) <==> i == toks.len() - 1)
}

/// Well-formedness of a raw token stream, as the character-level lexer
/// produces it: non-empty, ending in `Eof`, token count bounded by a 32-bit
/// count (worst case one token per character), and ranges tiling the source.
pub open spec fn wf_tokens(toks: Seq<RawToken>) -> bool {
    &&& 1 <= toks.len() <= u32::MAX
    &&& forall|i: int| 0 <= i < toks.len() ==> wf_token_at(toks, i)
}

/// Index of the first significant (non-trivia) token at or after `from`;
/// `toks.len()` if there is none.
pub open spec fn next_significant(toks: Seq<RawToken>, from: int) -> int
    decreases toks.len() - from,
{
    if from < 0 || from >= toks.len() {
        toks.len() as int
    } else if !is_trivia(toks[from].kind) {
        from
    } else {
        next_significant(toks, from + 1)
    }
}

/// Index of the `k`-th (zero-based) significant token at or after `from`;
/// `toks.len()` if fewer than `k + 1` remain.
pub open spec fn nth_significant(toks: Seq<RawToken>, from: int, k: int) -> int
    decreases k,
{
    let j = next_significant(toks, from);
    if k <= 0 {
        j
    } else {
        nth_significant(toks, j + 1, k - 1)
    }
}

/// Whether the raw token at index `i` is preceded by a line break: a
/// newline-bearing trivia token stands between it and the nearest earlier
/// significant token.
pub open spec fn preceded_by_line_break(toks: Seq<RawToken>, i: int) -> bool
    decreases i,
{
    if i <= 0 {
        false
    } else if !is_trivia(toks[i - 1].kind) {
        false
    } else {
        toks[i - 1].kind is Newline || preceded_by_line_break(toks, i - 1)
    }
}

/// Whether a newline-bearing token stands at an index in `[from, to)`.
pub open spec fn newline_in(toks: Seq<RawToken>, from: int, to: int) -> bool {
    exists|m: int| from <= m < to && toks[m].kind is Newline
}

/// Where the cursor stands after one advance from `pos`: unchanged at the
/// end of input, else one past the next significant token.
pub open spec fn bump_pos(toks: Seq<RawToken>, pos: int) -> int {
    if pos >= toks.len() {
        pos
    } else {
        next_significant(toks, pos) + 1
    }
}

/// Extending the right end of a window by one token adds exactly that
/// token's newline-ness.
pub proof fn lemma_newline_in_extend(toks: Seq<RawToken>, from: int, to: int)
    requires
        from <= to,
    ensures
        newline_in(toks, from, to + 1) == (newline_in(toks, from, to) || toks[to].kind is Newline),
{
    if newline_in(toks, from, to + 1) {
        let m = choose|m: int| from <= m < to + 1 && toks[m].kind is Newline;
        if m < to {
            assert(newline_in(toks, from, to));
        }
    }
    if newline_in(toks, from, to) {
        let m = choose|m: int| from <= m < to && toks[m].kind is Newline;
        assert(from <= m < to + 1 && toks[m].kind is Newline);
    }
    if toks[to].kind is Newline {
        assert(from <= to < to + 1 && toks[to].kind is Newline);
    }
}

/// The trivia entries that one advance appends to the log for the raw tokens
/// at indices `[from, to)`: each is classified, carries its own range, and is
/// trailing until the first newline-bearing piece of the run. `t0` is whether
/// the run starts out trailing (it does not after a skipped token, nor at the
/// start of input).
pub open spec fn run_trivia(toks: Seq<RawToken>, from: int, to: int, t0: bool) -> Seq<Trivia> {
    Seq::new(
        (to - from) as nat,
        |n: int|
            {
                let i = from + n;
                Trivia {
                    kind: match trivia_kind_of(toks[i].kind) {
                        Some(k) => k,
                        None => TriviaPieceKind::Skipped,
                    },
                    range: toks[i].range,
                    trailing: t0 && !newline_in(toks, from, i + 1),
                }
            },
    )
}

/// The ranges of the first `n` raw tokens, in order.
pub open spec fn ranges_upto(toks: Seq<RawToken>, n: int) -> Seq<TextRange> {
    Seq::new(n as nat, |i: int| toks[i].range)
}

/// The ranges of a trivia log, in order.
pub open spec fn trivia_ranges(log: Seq<Trivia>) -> Seq<TextRange> {
    log.map_values(|t: Trivia| t.range)
}

/// How many entries of a pattern are `true`.
pub open spec fn count_true(s: Seq<bool>) -> int
    decreases s.len(),
{
    if s.len() == 0 {
        0
    } else {
        count_true(s.drop_last()) + if s.last() {
            1int
        } else {
            0int
        }
    }
}

/// Merges two range sequences under a pattern: each `true` takes the next
/// element of `a`, each `false` the next element of `b`.
pub open spec fn interleave(pattern: Seq<bool>, a: Seq<TextRange>, b: Seq<TextRange>) -> Seq<
    TextRange,
>
    decreases pattern.len(),
{
    if pattern.len() == 0 {
        Seq::empty()
    } else if pattern[0] {
        seq![a[0]] + interleave(pattern.skip(1), a.skip(1), b)
    } else {
        seq![b[0]] + interleave(pattern.skip(1), a, b.skip(1))
    }
}

pub proof fn lemma_count_true_bounds(s: Seq<bool>)
    ensures
        0 <= count_true(s) <= s.len(),
    decreases s.len(),
{
    if s.len() > 0 {
        lemma_count_true_bounds(s.drop_last());
    }
}

/// `next_significant` stays within `[from, len]`, lands strictly inside the
/// stream whenever `from` does (the stream ends in a significant `Eof`
/// token), points at a significant token when inside, and skips only trivia.
pub proof fn lemma_next_significant(toks: Seq<RawToken>, from: int)
    requires
        wf_tokens(toks),
        0 <= from <= toks.len(),
    ensures
        from <= next_significant(toks, from) <= toks.len(),
        from < toks.len() ==> next_significant(toks, from) < toks.len(),
        next_significant(toks, from) < toks.len() ==> !is_trivia(
            toks[next_significant(toks, from)].kind,
        ),
        forall|m: int| from <= m < next_significant(toks, from) ==> is_trivia(toks[m].kind),
    decreases toks.len() - from,
{
    if from < toks.len() && is_trivia(toks[from].kind) {
        assert(wf_token_at(toks, from));
        lemma_next_significant(toks, from + 1);
    }
}

/// If everything in `[from, j)` is trivia and `j` is significant, the first
/// significant token at or after `from` is exactly `j`.
pub proof fn lemma_next_significant_of_run(toks: Seq<RawToken>, from: int, j: int)
    requires
        0 <= from <= j < toks.len(),
        forall|m: int| from <= m < j ==> is_trivia(toks[m].kind),
        !is_trivia(toks[j].kind),
    ensures
        next_significant(toks, from) == j,
    decreases j - from,
{
    if from < j {
        lemma_next_significant_of_run(toks, from + 1, j);
    }
}

/// Unfolding identity: the `k`-th significant token after `from` is the
/// `k - 1`-th after the first one.
pub proof fn lemma_nth_significant_unfold(toks: Seq<RawToken>, from: int, k: int)
    requires
        k >= 1,
    ensures
        nth_significant(toks, from, k) == nth_significant(
            toks,
            next_significant(toks, from) + 1,
            k - 1,
        ),
{
}

/// Successor identity: the `k`-th significant token is the first significant
/// token after the `k - 1`-th.
pub proof fn lemma_nth_significant_succ(toks: Seq<RawToken>, from: int, k: int)
    requires
        k >= 1,
    ensures
        nth_significant(toks, from, k) == next_significant(
            toks,
            nth_significant(toks, from, k - 1) + 1,
        ),
    decreases k,
{
    reveal_with_fuel(nth_significant, 3);
    if k > 1 {
        lemma_nth_significant_succ(toks, next_significant(toks, from) + 1, k - 1);
    }
}

/// Positions of successive significant tokens strictly increase while they
/// stay inside the stream, and each lies at least `k` past the start.
pub proof fn lemma_nth_significant_bounds(toks: Seq<RawToken>, from: int, k: int)
    requires
        wf_tokens(toks),
        0 <= from <= toks.len(),
        0 <= k,
    ensures
        from <= nth_significant(toks, from, k) <= toks.len(),
        nth_significant(toks, from, k) >= from + k || nth_significant(toks, from, k)
            == toks.len(),
        nth_significant(toks, from, k) < toks.len() ==> !is_trivia(
            toks[nth_significant(toks, from, k)].kind,
        ),
    decreases k,
{
    lemma_next_significant(toks, from);
    let j = next_significant(toks, from);
    if k > 0 {
        if j + 1 <= toks.len() {
            lemma_nth_significant_bounds(toks, j + 1, k - 1);
        } else {
            assert(j == toks.len());
            lemma_nth_significant_beyond(toks, from, k);
        }
    }
}

/// Once the stream is exhausted, every later significant-token index
/// saturates at `toks.len()`.
pub proof fn lemma_nth_significant_beyond(toks: Seq<RawToken>, from: int, k: int)
    requires
        from > toks.len() || next_significant(toks, from) == toks.len(),
        0 <= k,
    ensures
        nth_significant(toks, from, k) == toks.len(),
    decreases k,
{
    if k > 0 {
        lemma_nth_significant_beyond(toks, toks.len() as int + 1, k - 1);
    }
}

/// Once the `k0`-th upcoming significant position saturates at the stream's
/// end, every later one does too.
pub proof fn lemma_nth_significant_beyond_from(toks: Seq<RawToken>, from: int, k0: int, k: int)
    requires
        0 <= k0 <= k,
        nth_significant(toks, from, k0) == toks.len(),
    ensures
        nth_significant(toks, from, k) == toks.len(),
    decreases k - k0,
{
    if k > k0 {
        lemma_nth_significant_beyond_from(toks, from, k0, k - 1);
        lemma_nth_significant_succ(toks, from, k);
    }
}

/// Significant-token positions are monotone in `k`.
pub proof fn lemma_nth_significant_mono(toks: Seq<RawToken>, from: int, k1: int, k2: int)
    requires
        wf_tokens(toks),
        0 <= from <= toks.len(),
        0 <= k1 <= k2,
    ensures
        nth_significant(toks, from, k1) <= nth_significant(toks, from, k2),
    decreases k2 - k1,
{
    if k1 < k2 {
        lemma_nth_significant_mono(toks, from, k1, k2 - 1);
        lemma_nth_significant_succ(toks, from, k2);
        lemma_nth_significant_bounds(toks, from, k1);
        lemma_nth_significant_bounds(toks, from, k2 - 1);
        let p = nth_significant(toks, from, k2 - 1);
        if p < toks.len() {
            lemma_next_significant(toks, p + 1);
        }
    }
}

/// Over a pure trivia run whose left neighbour is significant, the preceding
/// line-break flag is exactly "a newline stands somewhere in the run".
pub proof fn lemma_preceded_of_run(toks: Seq<RawToken>, a: int, s: int)
    requires
        1 <= a <= s < toks.len(),
        !is_trivia(toks[a - 1].kind),
        forall|m: int| a <= m < s ==> is_trivia(toks[m].kind),
    ensures
        preceded_by_line_break(toks, s) == newline_in(toks, a, s),
    decreases s - a,
{
    if s == a {
        assert(!newline_in(toks, a, s));
    } else {
        lemma_preceded_of_run(toks, a, s - 1);
        assert(is_trivia(toks[s - 1].kind));
        if toks[s - 1].kind is Newline {
            assert(newline_in(toks, a, s));
        } else {
            assert(newline_in(toks, a, s) == newline_in(toks, a, s - 1)) by {
                if newline_in(toks, a, s) {
                    let m = choose|m: int| a <= m < s && toks[m].kind is Newline;
                    assert(m < s - 1 || m == s - 1);
                    assert(a <= m < s - 1 && toks[m].kind is Newline);
                }
            }
        }
    }
}

/// Appending a `true` step with its log range keeps the interleaving
/// equation.
pub proof fn lemma_interleave_snoc_true(
    pattern: Seq<bool>,
    a: Seq<TextRange>,
    b: Seq<TextRange>,
    x: TextRange,
)
    requires
        a.len() == count_true(pattern),
        b.len() == pattern.len() - count_true(pattern),
    ensures
        interleave(pattern.push(true), a.push(x), b) == interleave(pattern, a, b).push(x),
    decreases pattern.len(),
{
    reveal_with_fuel(interleave, 3);
    lemma_count_true_bounds(pattern);
    if pattern.len() == 0 {
        assert(pattern.push(true)[0]);
        assert(interleave(pattern.push(true), a.push(x), b) =~= interleave(pattern, a, b).push(x));
    } else {
        lemma_count_true_skip(pattern);
        lemma_count_true_bounds(pattern.skip(1));
        assert(pattern.push(true).skip(1) =~= pattern.skip(1).push(true));
        if pattern[0] {
            assert(a.len() >= 1);
            assert(a.push(x).skip(1) =~= a.skip(1).push(x));
            lemma_interleave_snoc_true(pattern.skip(1), a.skip(1), b, x);
            assert(interleave(pattern.push(true), a.push(x), b) =~= interleave(
                pattern,
                a,
                b,
            ).push(x));
        } else {
            assert(b.len() >= 1);
            lemma_interleave_snoc_true(pattern.skip(1), a, b.skip(1), x);
            assert(interleave(pattern.push(true), a.push(x), b) =~= interleave(
                pattern,
                a,
                b,
            ).push(x));
        }
    }
}

/// Appending a `false` step with its significant range keeps the
/// interleaving equation.
pub proof fn lemma_interleave_snoc_false(
    pattern: Seq<bool>,
    a: Seq<TextRange>,
    b: Seq<TextRange>,
    x: TextRange,
)
    requires
        a.len() == count_true(pattern),
        b.len() == pattern.len() - count_true(pattern),
    ensures
        interleave(pattern.push(false), a, b.push(x)) == interleave(pattern, a, b).push(x),
    decreases pattern.len(),
{
    reveal_with_fuel(interleave, 3);
    lemma_count_true_bounds(pattern);
    if pattern.len() == 0 {
        assert(!pattern.push(false)[0]);
        assert(interleave(pattern.push(false), a, b.push(x)) =~= interleave(pattern, a, b).push(x));
    } else {
        lemma_count_true_skip(pattern);
        lemma_count_true_bounds(pattern.skip(1));
        assert(pattern.push(false).skip(1) =~= pattern.skip(1).push(false));
        if pattern[0] {
            assert(a.len() >= 1);
            assert(a.skip(1).len() == a.len() - 1);
            lemma_interleave_snoc_false(pattern.skip(1), a.skip(1), b, x);
            assert(interleave(pattern.push(false), a, b.push(x)) =~= interleave(
                pattern,
                a,
                b,
            ).push(x));
        } else {
            assert(b.len() >= 1);
            assert(b.push(x).skip(1) =~= b.skip(1).push(x));
            lemma_interleave_snoc_false(pattern.skip(1), a, b.skip(1), x);
            assert(interleave(pattern.push(false), a, b.push(x)) =~= interleave(
                pattern,
                a,
                b,
            ).push(x));
        }
    }
}

/// Counting `true` entries commutes with dropping the first entry.
pub proof fn lemma_count_true_skip(s: Seq<bool>)
    requires
        s.len() > 0,
    ensures
        count_true(s.skip(1)) == count_true(s) - if s[0] {
            1int
        } else {
            0int
        },
    decreases s.len(),
{
    reveal_with_fuel(count_true, 3);
    if s.len() == 1 {
        assert(s.skip(1) =~= Seq::<bool>::empty());
        assert(s.drop_last() =~= Seq::<bool>::empty());
        assert(s.last() == s[0]);
    } else {
        assert(s.skip(1).drop_last() =~= s.drop_last().skip(1));
        assert(s.skip(1).last() == s.last());
        lemma_count_true_skip(s.drop_last());
    }
}

} // verus!
