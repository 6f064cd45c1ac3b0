//! The lexical grammar as mathematics: what one classification step does at
//! a position of the source, and the token and diagnostic sequences that a
//! whole scan produces.
use vstd::prelude::*;

use crate::types::{Grouping, Keyword, LexError, Misc, Operator, TokenClass, TokenModel};

verus! {

pub open spec fn is_digit(c: char) -> bool {
    '0' <= c && c <= '9'
}

pub open spec fn is_alpha(c: char) -> bool {
    ('a' <= c && c <= 'z') || ('A' <= c && c <= 'Z')
}

pub open spec fn is_alnum(c: char) -> bool {
    is_digit(c) || is_alpha(c)
}

/// The characters that may continue a run.
pub enum RunKind {
    /// Digits and `.`: the body of a number.
    NumberBody,
    /// ASCII letters and digits: the body of a word.
    WordBody,
    /// Anything but a newline: the body of a line comment.
    CommentBody,
    /// Anything but `"`: the body of a string literal.
    StringBody,
}

pub open spec fn continues(kind: RunKind, c: char) -> bool {
    match kind {
        RunKind::NumberBody => is_digit(c) || c == '.',
        RunKind::WordBody => is_alnum(c),
        RunKind::CommentBody => c != '\n',
        RunKind::StringBody => c != '"',
    }
}

/// The end of the maximal run of `kind` characters of `src` that starts at `i`.
pub open spec fn run_end(src: Seq<char>, i: int, kind: RunKind) -> int
    decreases src.len() - i,
{
    if 0 <= i < src.len() && continues(kind, src[i]) {
        run_end(src, i + 1, kind)
    } else {
        i
    }
}

/// How often `c` occurs in `s`.
pub open spec fn occurrences(s: Seq<char>, c: char) -> nat
    decreases s.len(),
{
    if s.len() == 0 {
        0
    } else {
        occurrences(s.drop_last(), c) + if s.last() == c {
            1nat
        } else {
            0nat
        }
    }
}

/// The keyword table: the reserved word spelled `s`, if there is one.
pub open spec fn keyword_of(s: Seq<char>) -> Option<Keyword> {
    if s == Keyword::And.spelling() {
        Some(Keyword::And)
    } else if s == Keyword::Class.spelling() {
        Some(Keyword::Class)
    } else if s == Keyword::Else.spelling() {
        Some(Keyword::Else)
    } else if s == Keyword::False.spelling() {
        Some(Keyword::False)
    } else if s == Keyword::Fun.spelling() {
        Some(Keyword::Fun)
    } else if s == Keyword::For.spelling() {
        Some(Keyword::For)
    } else if s == Keyword::If.spelling() {
        Some(Keyword::If)
    } else if s == Keyword::Nil.spelling() {
        Some(Keyword::Nil)
    } else if s == Keyword::Or.spelling() {
        Some(Keyword::Or)
    } else if s == Keyword::Print.spelling() {
        Some(Keyword::Print)
    } else if s == Keyword::Return.spelling() {
        Some(Keyword::Return)
    } else if s == Keyword::Super.spelling() {
        Some(Keyword::Super)
    } else if s == Keyword::This.spelling() {
        Some(Keyword::This)
    } else if s == Keyword::True.spelling() {
        Some(Keyword::True)
    } else if s == Keyword::Var.spelling() {
        Some(Keyword::Var)
    } else if s == Keyword::While.spelling() {
        Some(Keyword::While)
    } else {
        None
    }
}

/// The effect of one classification step: where the cursor goes, the
/// running line count after it, and the token or diagnostic it yields.
pub struct Step {
    pub next: int,
    pub line: nat,
    pub token: Option<TokenClass>,
    pub error: Option<LexError>,
}

pub open spec fn skip(next: int, line: nat) -> Step {
    Step { next, line, token: None, error: None }
}

pub open spec fn emit(next: int, line: nat, class: TokenClass) -> Step {
    Step { next, line, token: Some(class), error: None }
}

pub open spec fn fail(next: int, line: nat, error: LexError) -> Step {
    Step { next, line, token: None, error: Some(error) }
}

/// An operator that is doubled by a following `=`: the one-character and the
/// two-character form.
pub open spec fn operator_pair(c: char) -> Option<(Operator, Operator)> {
    if c == '!' {
        Some((Operator::Bang, Operator::BangEqual))
    } else if c == '=' {
        Some((Operator::Equal, Operator::EqualEqual))
    } else if c == '<' {
        Some((Operator::Less, Operator::LessEqual))
    } else if c == '>' {
        Some((Operator::Greater, Operator::GreaterEqual))
    } else {
        None
    }
}

/// The token class of a character that always stands alone.
pub open spec fn single_char_class(c: char) -> Option<TokenClass> {
    if c == '(' {
        Some(TokenClass::Grouping(Grouping::LeftParen))
    } else if c == ')' {
        Some(TokenClass::Grouping(Grouping::RightParen))
    } else if c == '{' {
        Some(TokenClass::Grouping(Grouping::LeftBrace))
    } else if c == '}' {
        Some(TokenClass::Grouping(Grouping::RightBrace))
    } else if c == ',' {
        Some(TokenClass::Misc(Misc::Comma))
    } else if c == '.' {
        Some(TokenClass::Misc(Misc::Dot))
    } else if c == ';' {
        Some(TokenClass::Misc(Misc::Semicolon))
    } else if c == '-' {
        Some(TokenClass::Operator(Operator::Minus))
    } else if c == '+' {
        Some(TokenClass::Operator(Operator::Plus))
    } else if c == '*' {
        Some(TokenClass::Operator(Operator::Star))
    } else {
        None
    }
}

/// One classification step at position `cur` of `src`, with `line` the
/// running line count.
pub open spec fn step(src: Seq<char>, cur: int, line: nat) -> Step
    recommends
        0 <= cur < src.len(),
{
    let c = src[cur];
    let followed_by = |d: char| cur + 1 < src.len() && src[cur + 1] == d;
    if c == ' ' || c == '\r' || c == '\t' {
        skip(cur + 1, line)
    } else if c == '\n' {
        skip(cur + 1, line + 1)
    } else if single_char_class(c) is Some {
        emit(cur + 1, line, single_char_class(c)->0)
    } else if c == '/' {
        if followed_by('/') {
            skip(run_end(src, cur + 2, RunKind::CommentBody), line)
        } else {
            emit(cur + 1, line, TokenClass::Operator(Operator::Slash))
        }
    } else if operator_pair(c) is Some {
        let (single, double) = operator_pair(c)->0;
        if followed_by('=') {
            emit(cur + 2, line, TokenClass::Operator(double))
        } else {
            emit(cur + 1, line, TokenClass::Operator(single))
        }
    } else if c == '"' {
        let close = run_end(src, cur + 1, RunKind::StringBody);
        let body = src.subrange(cur + 1, close);
        if close < src.len() {
            emit(close + 1, line + occurrences(body, '\n'), TokenClass::Str(body))
        } else {
            fail(cur + 1, line, LexError::UnterminatedString)
        }
    } else if is_digit(c) {
        let end = run_end(src, cur + 1, RunKind::NumberBody);
        let text = src.subrange(cur, end);
        if occurrences(text, '.') <= 1 {
            emit(end, line, TokenClass::Number(text))
        } else {
            fail(end, line, LexError::MalformedNumber)
        }
    } else if is_alpha(c) {
        let end = run_end(src, cur + 1, RunKind::WordBody);
        let text = src.subrange(cur, end);
        match keyword_of(text) {
            Some(k) => emit(end, line, TokenClass::Keyword(k)),
            None => emit(end, line, TokenClass::Identifier(text)),
        }
    } else {
        fail(cur + 1, line, LexError::UnexpectedCharacter)
    }
}

/// The tokens and the `(line, error)` diagnostics of scanning `src` from
/// position `cur` with running line count `line`.
pub open spec fn scan_from(src: Seq<char>, cur: int, line: nat) -> (Seq<TokenModel>, Seq<
    (nat, LexError),
>)
    decreases src.len() - cur,
{
    if cur < 0 || cur >= src.len() {
        (seq![TokenModel { line, class: TokenClass::Eof }], seq![])
    } else {
        let s = step(src, cur, line);
        proof {
            lemma_step_bounds(src, cur, line);
        }
        let rest = scan_from(src, s.next, s.line);
        let tokens = match s.token {
            Some(class) => seq![TokenModel { line, class }] + rest.0,
            None => rest.0,
        };
        let diagnostics = match s.error {
            Some(e) => seq![(line, e)] + rest.1,
            None => rest.1,
        };
        (tokens, diagnostics)
    }
}

/// The tokens of a whole source text, ending in the end-of-input token.
pub open spec fn tokens_of(src: Seq<char>) -> Seq<TokenModel> {
    scan_from(src, 0, 1).0
}

/// The diagnostics of a whole source text, in source order.
pub open spec fn diagnostics_of(src: Seq<char>) -> Seq<(nat, LexError)> {
    scan_from(src, 0, 1).1
}

pub proof fn lemma_occurrences_bound(s: Seq<char>, c: char)
    ensures
        occurrences(s, c) <= s.len(),
    decreases s.len(),
{
    if s.len() > 0 {
        lemma_occurrences_bound(s.drop_last(), c);
    }
}

pub proof fn lemma_run_end_bounds(src: Seq<char>, i: int, kind: RunKind)
    requires
        0 <= i <= src.len(),
    ensures
        i <= run_end(src, i, kind) <= src.len(),
        forall|k: int| i <= k < run_end(src, i, kind) ==> continues(kind, #[trigger] src[k]),
        run_end(src, i, kind) == src.len() || !continues(kind, src[run_end(src, i, kind)]),
    decreases src.len() - i,
{
    if i < src.len() && continues(kind, src[i]) {
        lemma_run_end_bounds(src, i + 1, kind);
    }
}

/// A run ends at the first position that does not continue it.
pub proof fn lemma_run_end_at(src: Seq<char>, i: int, j: int, kind: RunKind)
    requires
        0 <= i <= j <= src.len(),
        forall|k: int| i <= k < j ==> continues(kind, #[trigger] src[k]),
        j == src.len() || !continues(kind, src[j]),
    ensures
        run_end(src, i, kind) == j,
    decreases j - i,
{
    if i < j {
        lemma_run_end_at(src, i + 1, j, kind);
    }
}

pub proof fn lemma_step_bounds(src: Seq<char>, cur: int, line: nat)
    requires
        0 <= cur < src.len(),
    ensures
        cur < step(src, cur, line).next <= src.len(),
        line <= step(src, cur, line).line <= line + (step(src, cur, line).next - cur),
{
    let c = src[cur];
    if c == '/' && cur + 1 < src.len() && src[cur + 1] == '/' {
        lemma_run_end_bounds(src, cur + 2, RunKind::CommentBody);
    } else if c == '"' {
        lemma_run_end_bounds(src, cur + 1, RunKind::StringBody);
        let close = run_end(src, cur + 1, RunKind::StringBody);
        lemma_occurrences_bound(src.subrange(cur + 1, close), '\n');
    } else if is_digit(c) {
        lemma_run_end_bounds(src, cur + 1, RunKind::NumberBody);
    } else if is_alpha(c) {
        lemma_run_end_bounds(src, cur + 1, RunKind::WordBody);
    }
}

} // verus!
