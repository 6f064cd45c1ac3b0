//! Properties of every scan, proved over the model of `lexical`.
use vstd::prelude::*;

use crate::lexical::{
    RunKind, continues, diagnostics_of, is_alpha, is_digit, keyword_of, lemma_run_end_at,
    lemma_run_end_bounds, lemma_step_bounds, occurrences, run_end, scan_from, step, tokens_of,
};
use crate::types::{Keyword, TokenClass, TokenModel};

verus! {

/// The source text of a token of the given class, quotes included.
pub open spec fn lexeme_of(class: TokenClass) -> Seq<char> {
    match class {
        TokenClass::Operator(op) => op.spelling(),
        TokenClass::Grouping(g) => g.spelling(),
        TokenClass::Misc(m) => m.spelling(),
        TokenClass::Keyword(k) => k.spelling(),
        TokenClass::Identifier(s) => s,
        TokenClass::Str(s) => seq!['"'] + s + seq!['"'],
        TokenClass::Number(s) => s,
        TokenClass::Eof => Seq::empty(),
    }
}

/// What holds of the class of every token a scan emits before the end of input.
pub open spec fn emitted_class(class: TokenClass) -> bool {
    match class {
        TokenClass::Identifier(s) => {
            &&& s.len() > 0
            &&& is_alpha(s[0])
            &&& forall|k: int| 0 <= k < s.len() ==> continues(RunKind::WordBody, #[trigger] s[k])
            &&& keyword_of(s) is None
        },
        TokenClass::Number(s) => {
            &&& s.len() > 0
            &&& is_digit(s[0])
            &&& forall|k: int| 0 <= k < s.len() ==> continues(RunKind::NumberBody, #[trigger] s[k])
            &&& occurrences(s, '.') <= 1
        },
        TokenClass::Str(s) => forall|k: int| 0 <= k < s.len() ==> continues(RunKind::StringBody, #[trigger] s[k]),
        TokenClass::Eof => false,
        _ => true,
    }
}

proof fn lemma_step_emits_well_formed(src: Seq<char>, cur: int, line: nat)
    requires
        0 <= cur < src.len(),
    ensures
        step(src, cur, line).token is Some ==> emitted_class(step(src, cur, line).token->0),
{
    let c = src[cur];
    if c == '"' {
        lemma_run_end_bounds(src, cur + 1, RunKind::StringBody);
        let close = run_end(src, cur + 1, RunKind::StringBody);
        let body = src.subrange(cur + 1, close);
        assert forall|k: int| 0 <= k < body.len() implies continues(RunKind::StringBody, #[trigger] body[k]) by {
            assert(body[k] == src[cur + 1 + k]);
        }
    } else if is_digit(c) {
        lemma_run_end_bounds(src, cur + 1, RunKind::NumberBody);
        let end = run_end(src, cur + 1, RunKind::NumberBody);
        let text = src.subrange(cur, end);
        assert forall|k: int| 0 <= k < text.len() implies continues(RunKind::NumberBody, #[trigger] text[k]) by {
            assert(text[k] == src[cur + k]);
        }
    } else if is_alpha(c) {
        lemma_run_end_bounds(src, cur + 1, RunKind::WordBody);
        let end = run_end(src, cur + 1, RunKind::WordBody);
        let text = src.subrange(cur, end);
        assert forall|k: int| 0 <= k < text.len() implies continues(RunKind::WordBody, #[trigger] text[k]) by {
            assert(text[k] == src[cur + k]);
        }
    }
}

/// The shape of every scan from any position: it ends in the end-of-input
/// token and nowhere else, lines never decrease and start at `line`, and every
/// other token is well formed.
proof fn lemma_scan_shape(src: Seq<char>, cur: int, line: nat)
    ensures
        scan_from(src, cur, line).0.len() >= 1,
        scan_from(src, cur, line).0.last().class is Eof,
        forall|i: int|
            0 <= i < scan_from(src, cur, line).0.len() - 1 ==> emitted_class(
                #[trigger] scan_from(src, cur, line).0[i].class,
            ),
        forall|i: int|
            0 <= i < scan_from(src, cur, line).0.len() ==> line <= #[trigger] scan_from(
                src,
                cur,
                line,
            ).0[i].line,
        forall|i: int, j: int|
            0 <= i <= j < scan_from(src, cur, line).0.len() ==> #[trigger] scan_from(
                src,
                cur,
                line,
            ).0[i].line <= #[trigger] scan_from(src, cur, line).0[j].line,
    decreases src.len() - cur,
{
    if 0 <= cur < src.len() {
        let s = step(src, cur, line);
        lemma_step_bounds(src, cur, line);
        lemma_step_emits_well_formed(src, cur, line);
        lemma_scan_shape(src, s.next, s.line);
        let rest = scan_from(src, s.next, s.line).0;
        let ts = scan_from(src, cur, line).0;
        if s.token is Some {
            assert(ts == seq![TokenModel { line, class: s.token->0 }] + rest);
            assert forall|i: int| 1 <= i < ts.len() implies #[trigger] ts[i] == rest[i - 1] by {}
            assert forall|i: int, j: int| 0 <= i <= j < ts.len() implies #[trigger] ts[i].line
                <= #[trigger] ts[j].line by {
                if i > 0 {
                    assert(ts[i] == rest[i - 1] && ts[j] == rest[j - 1]);
                } else if j > 0 {
                    assert(ts[j] == rest[j - 1]);
                }
            }
        }
    }
}

/// Every scan is a finite sequence of tokens that ends in the end-of-input
/// token, and holds it nowhere else; an empty input yields that token alone.
pub proof fn scan_ends_with_end_of_input(src: Seq<char>)
    ensures
        tokens_of(src).len() >= 1,
        tokens_of(src).last().class is Eof,
        forall|i: int| 0 <= i < tokens_of(src).len() - 1 ==> !(#[trigger] tokens_of(src)[i].class is Eof),
        src.len() == 0 ==> tokens_of(src) == seq![TokenModel { line: 1, class: TokenClass::Eof }],
{
    lemma_scan_shape(src, 0, 1);
}

/// The lines of the tokens of a scan never decrease.
pub proof fn token_lines_never_decrease(src: Seq<char>)
    ensures
        forall|i: int, j: int|
            0 <= i <= j < tokens_of(src).len() ==> #[trigger] tokens_of(src)[i].line
                <= #[trigger] tokens_of(src)[j].line,
{
    lemma_scan_shape(src, 0, 1);
}

/// A string literal that spans `k` newlines stands on the line of its opening
/// quote and advances the running line count by exactly `k`.
pub proof fn string_literal_advances_line(src: Seq<char>, cur: int, line: nat)
    requires
        0 <= cur < src.len(),
        src[cur] == '"',
        run_end(src, cur + 1, RunKind::StringBody) < src.len(),
    ensures
        ({
            let close = run_end(src, cur + 1, RunKind::StringBody);
            let body = src.subrange(cur + 1, close);
            scan_from(src, cur, line).0 == seq![TokenModel { line, class: TokenClass::Str(body) }]
                + scan_from(src, close + 1, line + occurrences(body, '\n')).0
        }),
{
    lemma_step_bounds(src, cur, line);
}

/// Scanning the text of a well-formed token alone gives that token and the
/// end of input, with no diagnostic.
proof fn lemma_rescan(class: TokenClass)
    requires
        emitted_class(class),
    ensures
        tokens_of(lexeme_of(class)).len() == 2,
        tokens_of(lexeme_of(class))[0] == (TokenModel { line: 1, class }),
        diagnostics_of(lexeme_of(class)).len() == 0,
{
    let text = lexeme_of(class);
    match class {
        TokenClass::Keyword(k) => {
            reserved_word_scans_as_keyword(k);
        },
        TokenClass::Identifier(s) => {
            lemma_word_scan(s);
        },
        TokenClass::Number(s) => {
            lemma_run_end_at(s, 1, s.len() as int, RunKind::NumberBody);
            assert(s.subrange(0, s.len() as int) =~= s);
            assert(scan_from(s, s.len() as int, 1).0.len() == 1);
        },
        TokenClass::Str(s) => {
            assert forall|k: int| 1 <= k < s.len() + 1 implies continues(RunKind::StringBody, #[trigger] text[k]) by {
                assert(text[k] == s[k - 1]);
            }
            lemma_run_end_at(text, 1, s.len() + 1 as int, RunKind::StringBody);
            assert(text.subrange(1, s.len() + 1 as int) =~= s);
            let line = 1 + occurrences(s, '\n');
            assert(scan_from(text, text.len() as int, line).0.len() == 1);
        },
        TokenClass::Operator(op) => {
            assert(scan_from(text, text.len() as int, 1).0.len() == 1);
        },
        TokenClass::Grouping(g) => {
            assert(scan_from(text, text.len() as int, 1).0.len() == 1);
        },
        TokenClass::Misc(m) => {
            assert(scan_from(text, text.len() as int, 1).0.len() == 1);
        },
        TokenClass::Eof => {},
    }
}

/// Re-scanning the text of any token that a scan emits, alone, yields a token
/// of the same class, followed only by the end of input.
pub proof fn rescanning_a_token_keeps_its_class(src: Seq<char>, i: int)
    requires
        0 <= i < tokens_of(src).len() - 1,
    ensures
        tokens_of(lexeme_of(tokens_of(src)[i].class)).len() == 2,
        tokens_of(lexeme_of(tokens_of(src)[i].class))[0].class == tokens_of(src)[i].class,
{
    lemma_scan_shape(src, 0, 1);
    lemma_rescan(tokens_of(src)[i].class);
}

/// A run of letters and digits that starts with a letter scans as one word.
proof fn lemma_word_scan(s: Seq<char>)
    requires
        s.len() > 0,
        is_alpha(s[0]),
        forall|k: int| 0 <= k < s.len() ==> continues(RunKind::WordBody, #[trigger] s[k]),
    ensures
        tokens_of(s) == seq![
            TokenModel {
                line: 1,
                class: match keyword_of(s) {
                    Some(k) => TokenClass::Keyword(k),
                    None => TokenClass::Identifier(s),
                },
            },
            TokenModel { line: 1, class: TokenClass::Eof },
        ],
        diagnostics_of(s).len() == 0,
{
    lemma_run_end_at(s, 1, s.len() as int, RunKind::WordBody);
    assert(s.subrange(0, s.len() as int) =~= s);
    assert(scan_from(s, s.len() as int, 1).0 == seq![TokenModel { line: 1, class: TokenClass::Eof }]);
}

/// The exact text of a reserved word scans as that keyword.
pub proof fn reserved_word_scans_as_keyword(k: Keyword)
    ensures
        tokens_of(k.spelling()) == seq![
            TokenModel { line: 1, class: TokenClass::Keyword(k) },
            TokenModel { line: 1, class: TokenClass::Eof },
        ],
        diagnostics_of(k.spelling()).len() == 0,
{
    let s = k.spelling();
    assert(keyword_of(s) == Some(k));
    lemma_word_scan(s);
}

/// Any other run of letters and digits that starts with a letter scans as
/// an identifier with that text.
pub proof fn other_word_scans_as_identifier(s: Seq<char>)
    requires
        s.len() > 0,
        is_alpha(s[0]),
        forall|k: int| 0 <= k < s.len() ==> continues(RunKind::WordBody, #[trigger] s[k]),
        forall|k: Keyword| s != k.spelling(),
    ensures
        tokens_of(s) == seq![
            TokenModel { line: 1, class: TokenClass::Identifier(s) },
            TokenModel { line: 1, class: TokenClass::Eof },
        ],
        diagnostics_of(s).len() == 0,
{
    assert(keyword_of(s) is None) by {
        assert(s != Keyword::And.spelling());
        assert(s != Keyword::Class.spelling());
        assert(s != Keyword::Else.spelling());
        assert(s != Keyword::False.spelling());
        assert(s != Keyword::Fun.spelling());
        assert(s != Keyword::For.spelling());
        assert(s != Keyword::If.spelling());
        assert(s != Keyword::Nil.spelling());
        assert(s != Keyword::Or.spelling());
        assert(s != Keyword::Print.spelling());
        assert(s != Keyword::Return.spelling());
        assert(s != Keyword::Super.spelling());
        assert(s != Keyword::This.spelling());
        assert(s != Keyword::True.spelling());
        assert(s != Keyword::Var.spelling());
        assert(s != Keyword::While.spelling());
    }
    lemma_word_scan(s);
}

} // verus!
