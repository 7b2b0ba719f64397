use token_source::syntax::LexContext;
use token_source::syntax::RawToken;
use token_source::syntax::TextRange;
use token_source::syntax::TokenKind;
use token_source::syntax::Trivia;
use token_source::syntax::TriviaPieceKind;
use token_source::token_source::JsTokenSource;

fn tok(kind: TokenKind, start: u32, end: u32) -> RawToken {
    RawToken { kind, range: TextRange { start, end }, unicode_escape: false }
}

fn sig(code: u16) -> TokenKind {
    TokenKind::Significant(code)
}

/// Raw tokens of `"let a = 10;"`.
fn let_a_eq_10() -> Vec<RawToken> {
    vec![
        tok(sig(1), 0, 3),
        tok(TokenKind::Whitespace, 3, 4),
        tok(sig(2), 4, 5),
        tok(TokenKind::Whitespace, 5, 6),
        tok(sig(3), 6, 7),
        tok(TokenKind::Whitespace, 7, 8),
        tok(sig(4), 8, 10),
        tok(sig(5), 10, 11),
        tok(TokenKind::Eof, 11, 11),
    ]
}

#[test]
fn construction_stops_at_first_significant_token() {
    let source = JsTokenSource::from_tokens(let_a_eq_10()).unwrap();
    assert_eq!(source.current(), sig(1));
    assert_eq!(source.current_range(), TextRange { start: 0, end: 3 });
    assert_eq!(source.position(), 0);
    let log = source.finish();
    assert!(log.is_empty());
}

#[test]
fn lookahead_does_not_log_trivia() {
    let mut source = JsTokenSource::from_tokens(let_a_eq_10()).unwrap();
    assert_eq!(source.current(), sig(1));
    assert_eq!(source.nth(1), sig(2));
    assert_eq!(source.nth(2), sig(3));
    assert_eq!(source.nth(0), sig(1));
    let log = source.finish();
    assert!(log.is_empty());
}

#[test]
fn bump_then_lookahead() {
    let mut source = JsTokenSource::from_tokens(let_a_eq_10()).unwrap();
    assert_eq!(source.nth(1), sig(2));
    source.bump();
    assert_eq!(source.current(), sig(2));
    assert_eq!(source.nth(1), sig(3));
    source.bump();
    assert_eq!(source.current(), sig(3));
    let log = source.finish();
    assert_eq!(
        log,
        vec![
            Trivia {
                kind: TriviaPieceKind::Whitespace,
                range: TextRange { start: 3, end: 4 },
                trailing: true,
            },
            Trivia {
                kind: TriviaPieceKind::Whitespace,
                range: TextRange { start: 5, end: 6 },
                trailing: true,
            },
        ]
    );
}

#[test]
fn checkpoint_rewind_restores_observables() {
    let mut source = JsTokenSource::from_tokens(let_a_eq_10()).unwrap();
    source.bump();
    assert_eq!(source.current(), sig(2));
    let cp = source.checkpoint();
    assert_eq!(cp.current_start(), 4);
    assert_eq!(cp.trivia_position(), 1);
    source.bump();
    assert_eq!(source.current(), sig(3));
    source.bump();
    assert_eq!(source.current(), sig(4));
    source.rewind(cp);
    assert_eq!(source.current(), sig(2));
    assert_eq!(source.current_range(), TextRange { start: 4, end: 5 });
    source.bump();
    assert_eq!(source.current(), sig(3));
    let log = source.finish();
    assert_eq!(log.len(), 2);
    assert_eq!(log[0].range, TextRange { start: 3, end: 4 });
    assert_eq!(log[1].range, TextRange { start: 5, end: 6 });
}

#[test]
fn rewind_after_lookahead_is_exact() {
    let mut source = JsTokenSource::from_tokens(let_a_eq_10()).unwrap();
    source.bump();
    let cp = source.checkpoint();
    assert_eq!(source.nth(3), sig(5));
    source.bump();
    source.bump();
    source.rewind(cp);
    assert_eq!(source.current(), sig(2));
    assert_eq!(source.nth(1), sig(3));
    assert_eq!(source.nth(2), sig(4));
}

#[test]
fn trivia_after_newline_is_leading() {
    // `a /*c*/` then a line break, a line comment, another break, `b`.
    let tokens = vec![
        tok(sig(2), 0, 1),
        tok(TokenKind::Whitespace, 1, 2),
        tok(TokenKind::MultiLineComment, 2, 7),
        tok(TokenKind::Newline, 7, 8),
        tok(TokenKind::LineComment, 8, 11),
        tok(TokenKind::Newline, 11, 12),
        tok(sig(2), 12, 13),
        tok(TokenKind::Eof, 13, 13),
    ];
    let mut source = JsTokenSource::from_tokens(tokens).unwrap();
    assert!(!source.has_preceding_line_break());
    source.bump();
    assert_eq!(source.current(), sig(2));
    assert!(source.has_preceding_line_break());
    let log = source.finish();
    let kinds: Vec<TriviaPieceKind> = log.iter().map(|t| t.kind).collect();
    assert_eq!(
        kinds,
        vec![
            TriviaPieceKind::Whitespace,
            TriviaPieceKind::MultiLineComment,
            TriviaPieceKind::Newline,
            TriviaPieceKind::SingleLineComment,
            TriviaPieceKind::Newline,
        ]
    );
    let trailing: Vec<bool> = log.iter().map(|t| t.trailing).collect();
    assert_eq!(trailing, vec![true, true, false, false, false]);
}

#[test]
fn skip_as_trivia_logs_the_current_token() {
    let tokens = vec![
        tok(sig(6), 0, 1),
        tok(TokenKind::Whitespace, 1, 2),
        tok(sig(2), 2, 3),
        tok(TokenKind::Eof, 3, 3),
    ];
    let mut source = JsTokenSource::from_tokens(tokens).unwrap();
    source.skip_as_trivia();
    assert_eq!(source.current(), sig(2));
    let log = source.finish();
    assert_eq!(
        log,
        vec![
            Trivia {
                kind: TriviaPieceKind::Skipped,
                range: TextRange { start: 0, end: 1 },
                trailing: false,
            },
            Trivia {
                kind: TriviaPieceKind::Whitespace,
                range: TextRange { start: 1, end: 2 },
                trailing: false,
            },
        ]
    );
}

#[test]
fn bump_at_end_of_input_is_a_no_op() {
    let tokens = vec![tok(sig(2), 0, 1), tok(TokenKind::Eof, 1, 1)];
    let mut source = JsTokenSource::from_tokens(tokens).unwrap();
    source.bump();
    assert_eq!(source.current(), TokenKind::Eof);
    source.bump();
    assert_eq!(source.current(), TokenKind::Eof);
    source.skip_as_trivia();
    assert_eq!(source.current(), TokenKind::Eof);
    let log = source.finish();
    assert!(log.is_empty());
}

#[test]
fn nth_past_the_end_returns_eof() {
    let mut source = JsTokenSource::from_tokens(let_a_eq_10()).unwrap();
    assert_eq!(source.nth(5), TokenKind::Eof);
    assert_eq!(source.nth(6), TokenKind::Eof);
    assert_eq!(source.nth(100), TokenKind::Eof);
    assert_eq!(source.nth(4), sig(5));
}

#[test]
fn re_lex_reports_the_new_kind() {
    let tokens = vec![
        tok(sig(6), 0, 1),
        tok(TokenKind::Whitespace, 1, 2),
        tok(sig(2), 2, 3),
        tok(TokenKind::Eof, 3, 3),
    ];
    let mut source = JsTokenSource::from_tokens(tokens).unwrap();
    assert_eq!(source.nth(1), sig(2));
    assert_eq!(source.re_lex(sig(7)), sig(7));
    assert_eq!(source.current(), sig(7));
    assert_eq!(source.nth(1), sig(2));
    assert_eq!(source.re_lex(sig(7)), sig(7));
    source.bump();
    assert_eq!(source.current(), sig(2));
}

#[test]
fn has_next_preceding_trivia_sees_the_gap() {
    let spaced = vec![
        tok(sig(2), 0, 1),
        tok(TokenKind::Whitespace, 1, 2),
        tok(sig(2), 2, 3),
        tok(TokenKind::Eof, 3, 3),
    ];
    let source = JsTokenSource::from_tokens(spaced).unwrap();
    assert!(source.has_next_preceding_trivia());

    let tight = vec![tok(sig(2), 0, 1), tok(sig(2), 1, 2), tok(TokenKind::Eof, 2, 2)];
    let source = JsTokenSource::from_tokens(tight).unwrap();
    assert!(!source.has_next_preceding_trivia());
}

#[test]
fn nth_preceding_line_break() {
    let tokens = vec![
        tok(sig(2), 0, 1),
        tok(TokenKind::Newline, 1, 2),
        tok(sig(2), 2, 3),
        tok(TokenKind::Whitespace, 3, 4),
        tok(sig(2), 4, 5),
        tok(TokenKind::Eof, 5, 5),
    ];
    let mut source = JsTokenSource::from_tokens(tokens).unwrap();
    assert!(!source.has_nth_preceding_line_break(0));
    assert!(source.has_nth_preceding_line_break(1));
    assert!(!source.has_nth_preceding_line_break(2));
    assert!(!source.has_nth_preceding_line_break(10));
}

#[test]
fn unicode_escape_flag_comes_from_the_token() {
    let tokens = vec![
        RawToken {
            kind: sig(2),
            range: TextRange { start: 0, end: 6 },
            unicode_escape: true,
        },
        tok(TokenKind::Eof, 6, 6),
    ];
    let source = JsTokenSource::from_tokens(tokens).unwrap();
    assert!(source.has_unicode_escape());
}

#[test]
fn malformed_streams_are_rejected() {
    // Empty stream.
    assert!(JsTokenSource::from_tokens(Vec::new()).is_none());
    // No end-of-input sentinel.
    assert!(JsTokenSource::from_tokens(vec![tok(sig(2), 0, 1)]).is_none());
    // Sentinel not at the end.
    assert!(
        JsTokenSource::from_tokens(vec![
            tok(TokenKind::Eof, 0, 0),
            tok(sig(2), 0, 1),
            tok(TokenKind::Eof, 1, 1),
        ])
        .is_none()
    );
    // Gap between ranges.
    assert!(
        JsTokenSource::from_tokens(vec![
            tok(sig(2), 0, 1),
            tok(sig(2), 2, 3),
            tok(TokenKind::Eof, 3, 3),
        ])
        .is_none()
    );
    // First token not at offset zero.
    assert!(
        JsTokenSource::from_tokens(vec![tok(sig(2), 1, 2), tok(TokenKind::Eof, 2, 2)]).is_none()
    );
    // Backwards range.
    assert!(
        JsTokenSource::from_tokens(vec![
            RawToken {
                kind: sig(2),
                range: TextRange { start: 1, end: 0 },
                unicode_escape: false,
            },
            tok(TokenKind::Eof, 1, 1),
        ])
        .is_none()
    );
}

#[test]
fn lookahead_matches_later_currents() {
    let mut source = JsTokenSource::from_tokens(let_a_eq_10()).unwrap();
    let predicted = [source.nth(1), source.nth(2), source.nth(3), source.nth(4)];
    for kind in predicted {
        source.bump();
        assert_eq!(source.current(), kind);
    }
}

#[test]
fn bump_with_non_regular_context_still_advances() {
    let mut source = JsTokenSource::from_tokens(let_a_eq_10()).unwrap();
    assert_eq!(source.nth(3), sig(4));
    source.bump_with_context(LexContext::TemplateElement);
    assert_eq!(source.current(), sig(2));
    assert_eq!(source.nth(1), sig(3));
    source.bump_with_context(LexContext::JsxChild);
    assert_eq!(source.current(), sig(3));
    source.skip_as_trivia_with_context(LexContext::JsxAttributeValue);
    assert_eq!(source.current(), sig(4));
}

#[test]
fn consumed_ranges_reconstruct_the_source() {
    // Interleave significant tokens and trivia, then check that the trivia
    // log plus the significant ranges tile the text with no gap or overlap.
    let tokens = vec![
        tok(TokenKind::Whitespace, 0, 2),
        tok(sig(1), 2, 5),
        tok(TokenKind::Whitespace, 5, 6),
        tok(sig(2), 6, 7),
        tok(TokenKind::Newline, 7, 8),
        tok(TokenKind::LineComment, 8, 12),
        tok(sig(3), 12, 13),
        tok(sig(4), 13, 15),
        tok(TokenKind::Whitespace, 15, 16),
        tok(TokenKind::Eof, 16, 16),
    ];
    let mut source = JsTokenSource::from_tokens(tokens).unwrap();
    let mut significant: Vec<TextRange> = Vec::new();
    while source.current() != TokenKind::Eof {
        significant.push(source.current_range());
        source.bump();
    }
    let log = source.finish();
    let mut all: Vec<TextRange> = log.iter().map(|t| t.range).collect();
    all.extend(significant);
    all.sort_by_key(|r| r.start);
    assert_eq!(all.first().unwrap().start, 0);
    assert_eq!(all.last().unwrap().end, 16);
    for pair in all.windows(2) {
        assert_eq!(pair[0].end, pair[1].start);
    }
}

#[test]
fn rewind_then_identical_advances_repeat_results() {
    let mut source = JsTokenSource::from_tokens(let_a_eq_10()).unwrap();
    let cp = source.checkpoint();
    let mut first: Vec<TokenKind> = Vec::new();
    while source.current() != TokenKind::Eof {
        first.push(source.current());
        source.bump();
    }
    source.rewind(cp);
    let mut second: Vec<TokenKind> = Vec::new();
    while source.current() != TokenKind::Eof {
        second.push(source.current());
        source.bump();
    }
    assert_eq!(first, second);
    assert_eq!(first, vec![sig(1), sig(2), sig(3), sig(4), sig(5)]);
}

#[test]
fn interleaved_lookahead_and_advance_stay_consistent() {
    // Heavy trivia between tokens, so the lookahead scan and the offset
    // decrement both cross several raw tokens per step.
    let tokens = vec![
        tok(sig(1), 0, 1),
        tok(TokenKind::Whitespace, 1, 2),
        tok(TokenKind::LineComment, 2, 4),
        tok(TokenKind::Newline, 4, 5),
        tok(sig(2), 5, 6),
        tok(TokenKind::Whitespace, 6, 7),
        tok(sig(3), 7, 8),
        tok(TokenKind::MultiLineComment, 8, 12),
        tok(TokenKind::Whitespace, 12, 13),
        tok(sig(4), 13, 14),
        tok(TokenKind::Eof, 14, 14),
    ];
    let mut source = JsTokenSource::from_tokens(tokens).unwrap();
    assert_eq!(source.nth(2), sig(3));
    source.bump();
    assert_eq!(source.current(), sig(2));
    assert_eq!(source.nth(1), sig(3));
    assert_eq!(source.nth(2), sig(4));
    assert!(source.has_nth_preceding_line_break(0));
    source.bump();
    assert_eq!(source.current(), sig(3));
    assert_eq!(source.nth(1), sig(4));
    assert_eq!(source.nth(2), TokenKind::Eof);
    source.bump();
    assert_eq!(source.current(), sig(4));
    let log = source.finish();
    assert_eq!(log.len(), 6);
}
