use vstd::prelude::*;
use vstd::string::StrSliceExecFns;

use crate::lexical::{
    RunKind, Step, continues, diagnostics_of, emit, fail, is_alpha, is_digit, keyword_of,
    lemma_run_end_at, lemma_step_bounds, occurrences, run_end, scan_from, skip, step, tokens_of,
};
use crate::lox::{Lox, reports_of};
use crate::types::{
    Grouping, Keyword, LexError, Literal, Misc, Operator, Token, TokenClass, TokenModel,
    token_models,
};

verus! {

/// Turns a source text into tokens.
pub struct Scanner<'a> {
    source: &'a str,
    chars: Vec<char>,
}

/// The cursor of a scan: where the current lexeme starts, the next
/// unconsumed character, the running line count and the length of the
/// source, all counted in characters.
#[derive(Debug)]
pub struct ScanIndex {
    pub start: usize,
    pub current: usize,
    pub line: usize,
    pub source_length: usize,
}

impl ScanIndex {
    /// Whether the character `offset` places after the cursor lies past the end.
    fn at_end(&self, offset: usize) -> (r: bool)
        ensures
            r == (self.current + offset >= self.source_length),
    {
        offset >= self.source_length || self.current >= self.source_length - offset
    }
}

/// What one classification step found; the widths count characters.
enum ScanResult<'a> {
    SingleCharLexeme(Token<'a>),
    MultiCharLexeme(usize, Token<'a>),
    CommentLexeme(usize),
    /// The width of the body between the quotes, the newlines in it, the token.
    StringLexeme(usize, usize, Token<'a>),
    NumberLexeme(usize, Token<'a>),
    Whitespace,
    Newline,
    /// The width skipped and the problem reported.
    Error(usize, LexError),
}

impl<'a> ScanResult<'a> {
    /// The step this result stands for, when taken at `cur` with running line count `line`.
    spec fn as_step(&self, cur: int, line: nat) -> Step {
        match self {
            ScanResult::SingleCharLexeme(t) => emit(cur + 1, line, t@.class),
            ScanResult::MultiCharLexeme(n, t) => emit(cur + *n, line, t@.class),
            ScanResult::CommentLexeme(n) => skip(cur + *n, line),
            ScanResult::StringLexeme(n, extra, t) => emit(cur + *n + 2, line + *extra as nat, t@.class),
            ScanResult::NumberLexeme(n, t) => emit(cur + *n, line, t@.class),
            ScanResult::Whitespace => skip(cur + 1, line),
            ScanResult::Newline => skip(cur + 1, line + 1),
            ScanResult::Error(n, e) => fail(cur + *n, line, *e),
        }
    }

    /// The token it carries, if any, is well formed and on `line`.
    spec fn token_on(&self, line: nat) -> bool {
        match self {
            ScanResult::SingleCharLexeme(t) => t@.line == line && t.wf(),
            ScanResult::MultiCharLexeme(_, t) => t@.line == line && t.wf(),
            ScanResult::StringLexeme(_, _, t) => t@.line == line && t.wf(),
            ScanResult::NumberLexeme(_, t) => t@.line == line && t.wf(),
            _ => true,
        }
    }
}

fn is_ascii_digit(c: char) -> (r: bool)
    ensures
        r == is_digit(c),
{
    '0' <= c && c <= '9'
}

fn is_ascii_alpha(c: char) -> (r: bool)
    ensures
        r == is_alpha(c),
{
    ('a' <= c && c <= 'z') || ('A' <= c && c <= 'Z')
}

/// Collects the characters of a text, in order.
fn chars_of(text: &str) -> (r: Vec<char>)
    ensures
        r@ == text@,
{
    broadcast use vstd::string::group_string_axioms;

    let mut out: Vec<char> = Vec::new();
    for c in it: text.chars()
        invariant
            out@ == it.seq().take(it.index() as int),
    {
        out.push(c);
    }
    assert(out@ =~= text@);
    out
}

impl<'a> Scanner<'a> {
    /// The scanner holds the characters of its source.
    pub closed spec fn wf(&self) -> bool {
        self.chars@ == self.source@
    }

    /// A cursor at the start of a lexeme of this scanner's source.
    spec fn at_lexeme(&self, scan_index: &ScanIndex) -> bool {
        &&& self.wf()
        &&& scan_index.source_length == self.source@.len()
        &&& scan_index.start == scan_index.current < scan_index.source_length
    }

    /// The characters of the source text.
    pub closed spec fn text(&self) -> Seq<char> {
        self.source@
    }

    pub fn new(source: &'a str) -> (r: Scanner<'a>)
        ensures
            r.text() == source@,
            r.wf(),
    {
        Scanner { source, chars: chars_of(source) }
    }

    pub fn source(&self) -> (r: &'a str)
        ensures
            r@ == self.text(),
    {
        self.source
    }

    /// Scans the whole source. The result ends in the end-of-input token;
    /// each problem found is reported to `lox` and scanning goes on.
    pub fn scan_tokens(&self, lox: &mut Lox) -> (tokens: Vec<Token<'a>>)
        requires
            self.wf(),
            self.text().len() < usize::MAX,
        ensures
            token_models(tokens@) == tokens_of(self.text()),
            forall|i: int| 0 <= i < tokens@.len() ==> (#[trigger] tokens@[i]).wf(),
            final(lox).reports() == old(lox).reports() + reports_of(diagnostics_of(self.text())),
            final(lox).flagged() == (old(lox).flagged() || diagnostics_of(self.text()).len() > 0),
    {
        let ghost src = self.source@;
        let ghost diags: Seq<(nat, LexError)> = Seq::empty();
        let mut tokens: Vec<Token<'a>> = Vec::new();
        let mut scan_index = ScanIndex {
            start: 0,
            current: 0,
            line: 1,
            source_length: self.chars.len(),
        };
        assert(token_models(tokens@) =~= Seq::<TokenModel>::empty());
        assert(reports_of(diags) =~= Seq::<(nat, Seq<char>)>::empty());
        assert(lox.reports() =~= old(lox).reports() + reports_of(diags));
        while !scan_index.at_end(0)
            invariant
                self.wf(),
                src == self.source@,
                src.len() < usize::MAX,
                scan_index.source_length == src.len(),
                scan_index.current <= src.len(),
                1 <= scan_index.line <= scan_index.current + 1,
                token_models(tokens@) + scan_from(src, scan_index.current as int, scan_index.line as nat).0
                    == tokens_of(src),
                forall|i: int| 0 <= i < tokens@.len() ==> (#[trigger] tokens@[i]).wf(),
                diags + scan_from(src, scan_index.current as int, scan_index.line as nat).1
                    == diagnostics_of(src),
                lox.reports() == old(lox).reports() + reports_of(diags),
                lox.flagged() == (old(lox).flagged() || diags.len() > 0),
            decreases src.len() - scan_index.current,
        {
            scan_index.start = scan_index.current;
            let ghost cur = scan_index.current as int;
            let ghost line = scan_index.line as nat;
            let ghost before = token_models(tokens@);
            let result = self.scan_token(&scan_index);
            proof {
                lemma_step_bounds(src, cur, line);
            }
            let ghost s = step(src, cur, line);
            let ghost rest = scan_from(src, s.next, s.line);
            match result {
                ScanResult::SingleCharLexeme(token) => {
                    scan_index.current += 1;
                    tokens.push(token);
                },
                ScanResult::MultiCharLexeme(length, token) => {
                    scan_index.current += length;
                    tokens.push(token);
                },
                ScanResult::Whitespace => {
                    scan_index.current += 1;
                },
                ScanResult::Newline => {
                    scan_index.current += 1;
                    scan_index.line += 1;
                },
                ScanResult::CommentLexeme(length) => {
                    scan_index.current += length;
                },
                ScanResult::StringLexeme(length, extra_lines, token) => {
                    scan_index.current += length + 2;
                    scan_index.line += extra_lines;
                    tokens.push(token);
                },
                ScanResult::NumberLexeme(length, token) => {
                    scan_index.current += length;
                    tokens.push(token);
                },
                ScanResult::Error(width, error) => {
                    scan_index.current += width;
                    lox.error(scan_index.line, error.message());
                    proof {
                        assert(reports_of(diags.push((line, error))) =~= reports_of(diags).push(
                            (line, error.spec_message()),
                        ));
                        assert(diags.push((line, error)) + rest.1 =~= diags + (seq![(line, error)]
                            + rest.1));
                        diags = diags.push((line, error));
                    }
                },
            }
            proof {
                assert(scan_index.current == s.next && scan_index.line == s.line);
                if s.token is Some {
                    assert(token_models(tokens@) =~= before.push(
                        TokenModel { line, class: s.token->0 },
                    ));
                    assert(token_models(tokens@) + rest.0 =~= before + (seq![
                        TokenModel { line, class: s.token->0 },
                    ] + rest.0));
                } else {
                    assert(token_models(tokens@) =~= before);
                }
            }
        }
        let ghost before = token_models(tokens@);
        tokens.push(Token::Eof { line: scan_index.line });
        assert(token_models(tokens@) =~= before.push(
            TokenModel { line: scan_index.line as nat, class: TokenClass::Eof },
        ));
        assert(diags + Seq::<(nat, LexError)>::empty() =~= diags);
        tokens
    }

    /// Classifies the lexeme that starts at the cursor.
    fn scan_token(&self, scan_index: &ScanIndex) -> (r: ScanResult<'a>)
        requires
            self.at_lexeme(scan_index),
        ensures
            r.as_step(scan_index.current as int, scan_index.line as nat) == step(
                self.source@,
                scan_index.current as int,
                scan_index.line as nat,
            ),
            r.token_on(scan_index.line as nat),
    {
        let line = scan_index.line;
        let c = match self.peek_offset(scan_index, 0) {
            Some(c) => c,
            None => return ScanResult::Error(1, LexError::UnexpectedCharacter),
        };
        match c {
            // whitespace
            ' ' | '\r' | '\t' => ScanResult::Whitespace,
            // newline
            '\n' => ScanResult::Newline,
            // single-character lexemes
            '(' => ScanResult::SingleCharLexeme(Token::Grouping { line, token: Grouping::LeftParen }),
            ')' => ScanResult::SingleCharLexeme(
                Token::Grouping { line, token: Grouping::RightParen },
            ),
            '{' => ScanResult::SingleCharLexeme(Token::Grouping { line, token: Grouping::LeftBrace }),
            '}' => ScanResult::SingleCharLexeme(
                Token::Grouping { line, token: Grouping::RightBrace },
            ),
            ',' => ScanResult::SingleCharLexeme(Token::Misc { line, token: Misc::Comma }),
            '.' => ScanResult::SingleCharLexeme(Token::Misc { line, token: Misc::Dot }),
            ';' => ScanResult::SingleCharLexeme(Token::Misc { line, token: Misc::Semicolon }),
            '-' => ScanResult::SingleCharLexeme(Token::Operator { line, token: Operator::Minus }),
            '+' => ScanResult::SingleCharLexeme(Token::Operator { line, token: Operator::Plus }),
            '*' => ScanResult::SingleCharLexeme(Token::Operator { line, token: Operator::Star }),
            // a slash, or a comment up to the end of the line
            '/' => match self.peek_offset(scan_index, 1) {
                Some('/') => self.comment(scan_index),
                _ => ScanResult::SingleCharLexeme(Token::Operator { line, token: Operator::Slash }),
            },
            // single or two character lexemes
            '!' => self.maybe_equal(scan_index, Operator::Bang, Operator::BangEqual),
            '=' => self.maybe_equal(scan_index, Operator::Equal, Operator::EqualEqual),
            '<' => self.maybe_equal(scan_index, Operator::Less, Operator::LessEqual),
            '>' => self.maybe_equal(scan_index, Operator::Greater, Operator::GreaterEqual),
            // literals
            '"' => self.string(scan_index),
            _ => {
                if is_ascii_digit(c) {
                    self.number(scan_index)
                } else if is_ascii_alpha(c) {
                    self.identifier_or_reserved(scan_index)
                } else {
                    ScanResult::Error(1, LexError::UnexpectedCharacter)
                }
            },
        }
    }

    /// `single`, or `double` where the next character is `=`.
    fn maybe_equal(&self, scan_index: &ScanIndex, single: Operator, double: Operator) -> (r:
        ScanResult<'a>)
        requires
            self.at_lexeme(scan_index),
        ensures
            r.as_step(scan_index.current as int, scan_index.line as nat) == ({
                let cur = scan_index.current as int;
                if cur + 1 < self.source@.len() && self.source@[cur + 1] == '=' {
                    emit(cur + 2, scan_index.line as nat, TokenClass::Operator(double))
                } else {
                    emit(cur + 1, scan_index.line as nat, TokenClass::Operator(single))
                }
            }),
            r.token_on(scan_index.line as nat),
    {
        let line = scan_index.line;
        match self.peek_offset(scan_index, 1) {
            Some('=') => ScanResult::MultiCharLexeme(2, Token::Operator { line, token: double }),
            _ => ScanResult::SingleCharLexeme(Token::Operator { line, token: single }),
        }
    }

    /// A line comment; it ends before the newline or at the end of input.
    fn comment(&self, scan_index: &ScanIndex) -> (r: ScanResult<'a>)
        requires
            self.at_lexeme(scan_index),
            scan_index.current + 1 < self.source@.len(),
        ensures
            r.as_step(scan_index.current as int, scan_index.line as nat) == skip(
                run_end(self.source@, scan_index.current + 2, RunKind::CommentBody),
                scan_index.line as nat,
            ),
    {
        let ghost src = self.source@;
        let ghost cur = scan_index.current as int;
        let mut length: usize = 2;
        loop
            invariant
                self.at_lexeme(scan_index),
                src == self.source@,
                cur == scan_index.current,
                2 <= length,
                cur + length <= src.len(),
                forall|k: int| cur + 2 <= k < cur + length ==> continues(RunKind::CommentBody, #[trigger] src[k]),
            decreases src.len() - cur - length,
        {
            match self.peek_offset(scan_index, length) {
                Some('\n') | None => {
                    proof {
                        lemma_run_end_at(src, cur + 2, cur + length, RunKind::CommentBody);
                    }
                    return ScanResult::CommentLexeme(length);
                },
                Some(_) => {
                    length += 1;
                },
            }
        }
    }

    /// A number: a maximal run of digits and points, of which at most one
    /// may be a point. A run with more points is reported and skipped whole.
    fn number(&self, scan_index: &ScanIndex) -> (r: ScanResult<'a>)
        requires
            self.at_lexeme(scan_index),
            is_digit(self.source@[scan_index.current as int]),
        ensures
            r.as_step(scan_index.current as int, scan_index.line as nat) == ({
                let src = self.source@;
                let cur = scan_index.current as int;
                let end = run_end(src, cur + 1, RunKind::NumberBody);
                let text = src.subrange(cur, end);
                if occurrences(text, '.') <= 1 {
                    emit(end, scan_index.line as nat, TokenClass::Number(text))
                } else {
                    fail(end, scan_index.line as nat, LexError::MalformedNumber)
                }
            }),
            r.token_on(scan_index.line as nat),
    {
        let ghost src = self.source@;
        let ghost cur = scan_index.current as int;
        let mut length: usize = 1;
        let mut points: usize = 0;
        assert(src.subrange(cur, cur + 1).drop_last() =~= Seq::<char>::empty());
        assert(occurrences(Seq::<char>::empty(), '.') == 0);
        loop
            invariant
                self.at_lexeme(scan_index),
                src == self.source@,
                cur == scan_index.current,
                1 <= length,
                cur + length <= src.len(),
                forall|k: int| cur + 1 <= k < cur + length ==> continues(RunKind::NumberBody, #[trigger] src[k]),
                points == occurrences(src.subrange(cur, cur + length), '.'),
                points <= length,
            ensures
                run_end(src, cur + 1, RunKind::NumberBody) == cur + length,
            decreases src.len() - cur - length,
        {
            match self.peek_offset(scan_index, length) {
                Some(c) if is_ascii_digit(c) || c == '.' => {
                    assert(src.subrange(cur, cur + length + 1).drop_last() =~= src.subrange(cur, cur + length));
                    if c == '.' {
                        points += 1;
                    }
                    length += 1;
                },
                _ => {
                    proof {
                        lemma_run_end_at(src, cur + 1, cur + length, RunKind::NumberBody);
                    }
                    break;
                },
            }
        }
        if points <= 1 {
            ScanResult::NumberLexeme(
                length,
                Token::Literal {
                    line: scan_index.line,
                    token: Literal::Number { literal: self.literal(scan_index, length) },
                },
            )
        } else {
            ScanResult::Error(length, LexError::MalformedNumber)
        }
    }

    /// A string literal, from the opening quote to the next quote; the
    /// newlines inside are counted. Without a closing quote only the opening
    /// quote is skipped, and what follows it is scanned as ordinary text.
    fn string(&self, scan_index: &ScanIndex) -> (r: ScanResult<'a>)
        requires
            self.at_lexeme(scan_index),
        ensures
            r.as_step(scan_index.current as int, scan_index.line as nat) == ({
                let src = self.source@;
                let cur = scan_index.current as int;
                let close = run_end(src, cur + 1, RunKind::StringBody);
                let body = src.subrange(cur + 1, close);
                if close < src.len() {
                    emit(
                        close + 1,
                        scan_index.line as nat + occurrences(body, '\n'),
                        TokenClass::Str(body),
                    )
                } else {
                    fail(cur + 1, scan_index.line as nat, LexError::UnterminatedString)
                }
            }),
            r.token_on(scan_index.line as nat),
    {
        let ghost src = self.source@;
        let ghost cur = scan_index.current as int;
        let mut length: usize = 0;
        let mut extra_lines: usize = 0;
        assert(src.subrange(cur + 1, cur + 1) =~= Seq::<char>::empty());
        assert(occurrences(Seq::<char>::empty(), '\n') == 0);
        loop
            invariant
                self.at_lexeme(scan_index),
                src == self.source@,
                cur == scan_index.current,
                cur + 1 + length <= src.len(),
                forall|k: int| cur + 1 <= k < cur + 1 + length ==> continues(RunKind::StringBody, #[trigger] src[k]),
                extra_lines == occurrences(src.subrange(cur + 1, cur + 1 + length), '\n'),
                extra_lines <= length,
            decreases src.len() - cur - length,
        {
            let ghost body = src.subrange(cur + 1, cur + 1 + length + 1);
            match self.peek_offset(scan_index, length + 1) {
                Some('"') => {
                    proof {
                        lemma_run_end_at(src, cur + 1, cur + 1 + length, RunKind::StringBody);
                    }
                    return ScanResult::StringLexeme(
                        length,
                        extra_lines,
                        Token::Literal {
                            line: scan_index.line,
                            token: Literal::String {
                                size: length,
                                literal: self.quoted_literal(scan_index, length),
                            },
                        },
                    );
                },
                Some('\n') => {
                    assert(body.drop_last() =~= src.subrange(cur + 1, cur + 1 + length));
                    extra_lines += 1;
                },
                Some(_) => {
                    assert(body.drop_last() =~= src.subrange(cur + 1, cur + 1 + length));
                },
                None => {
                    proof {
                        lemma_run_end_at(src, cur + 1, cur + 1 + length, RunKind::StringBody);
                    }
                    return ScanResult::Error(1, LexError::UnterminatedString);
                },
            }
            length += 1;
        }
    }

    /// The `length` characters after the opening quote.
    fn quoted_literal(&self, scan_index: &ScanIndex, length: usize) -> (r: &'a str)
        requires
            self.wf(),
            scan_index.source_length == self.source@.len(),
            scan_index.start + length + 1 <= self.source@.len(),
        ensures
            r@ == self.source@.subrange(scan_index.start + 1, scan_index.start + length + 1),
    {
        self.source.substring_char(scan_index.start + 1, scan_index.start + length + 1)
    }

    /// The `length` characters from the start of the lexeme.
    fn literal(&self, scan_index: &ScanIndex, length: usize) -> (r: &'a str)
        requires
            self.wf(),
            scan_index.source_length == self.source@.len(),
            scan_index.start + length <= self.source@.len(),
        ensures
            r@ == self.source@.subrange(scan_index.start as int, scan_index.start + length),
    {
        self.source.substring_char(scan_index.start, scan_index.start + length)
    }

    /// A word: a maximal run of ASCII letters and digits, reserved or not.
    fn identifier_or_reserved(&self, scan_index: &ScanIndex) -> (r: ScanResult<'a>)
        requires
            self.at_lexeme(scan_index),
            is_alpha(self.source@[scan_index.current as int]),
        ensures
            r.as_step(scan_index.current as int, scan_index.line as nat) == ({
                let src = self.source@;
                let cur = scan_index.current as int;
                let end = run_end(src, cur + 1, RunKind::WordBody);
                let text = src.subrange(cur, end);
                match keyword_of(text) {
                    Some(k) => emit(end, scan_index.line as nat, TokenClass::Keyword(k)),
                    None => emit(end, scan_index.line as nat, TokenClass::Identifier(text)),
                }
            }),
            r.token_on(scan_index.line as nat),
    {
        let ghost src = self.source@;
        let ghost cur = scan_index.current as int;
        let mut length: usize = 1;
        loop
            invariant
                self.at_lexeme(scan_index),
                src == self.source@,
                cur == scan_index.current,
                1 <= length,
                cur + length <= src.len(),
                forall|k: int| cur + 1 <= k < cur + length ==> continues(RunKind::WordBody, #[trigger] src[k]),
            ensures
                run_end(src, cur + 1, RunKind::WordBody) == cur + length,
            decreases src.len() - cur - length,
        {
            match self.peek_offset(scan_index, length) {
                Some(c) if is_ascii_digit(c) || is_ascii_alpha(c) => {
                    length += 1;
                },
                _ => {
                    proof {
                        lemma_run_end_at(src, cur + 1, cur + length, RunKind::WordBody);
                    }
                    break;
                },
            }
        }
        let identifier = self.literal(scan_index, length);
        match Keyword::lookup(identifier) {
            Some(kind) => ScanResult::MultiCharLexeme(
                length,
                Token::Keyword { line: scan_index.line, token: kind },
            ),
            None => ScanResult::MultiCharLexeme(
                length,
                Token::Literal {
                    line: scan_index.line,
                    token: Literal::Identifier { size: length, literal: identifier },
                },
            ),
        }
    }

    /// The character `offset` places after the cursor, if the source has one.
    fn peek_offset(&self, scan_index: &ScanIndex, offset: usize) -> (r: Option<char>)
        requires
            self.wf(),
            scan_index.source_length == self.source@.len(),
        ensures
            r == if scan_index.current + offset < self.source@.len() {
                Some(self.source@[scan_index.current + offset])
            } else {
                None::<char>
            },
    {
        if scan_index.at_end(offset) {
            None
        } else {
            Some(self.chars[scan_index.current + offset])
        }
    }
}

} // verus!
