use vstd::prelude::*;
use vstd::string::StrSliceExecFns;

use crate::lexical::keyword_of;

verus! {

/// Arithmetic, comparison and assignment operators.
#[derive(Clone, Copy, Debug, PartialEq, Eq)]
pub enum Operator {
    Minus,
    Plus,
    Star,
    Equal,
    EqualEqual,
    Greater,
    Less,
    Slash,
    BangEqual,
    GreaterEqual,
    LessEqual,
    Bang,
}

/// Parentheses and braces.
#[derive(Clone, Copy, Debug, PartialEq, Eq)]
pub enum Grouping {
    LeftParen,
    RightParen,
    LeftBrace,
    RightBrace,
}

/// Punctuation.
#[derive(Clone, Copy, Debug, PartialEq, Eq)]
pub enum Misc {
    Comma,
    Dot,
    Semicolon,
}

/// The reserved words of the language.
#[derive(Clone, Copy, Debug, PartialEq, Eq)]
pub enum Keyword {
    And,
    Class,
    Else,
    False,
    Fun,
    For,
    If,
    Nil,
    Or,
    Print,
    Return,
    Super,
    This,
    True,
    Var,
    While,
}

/// A literal payload: a view into the scanned source.
///
/// `size` counts the characters of `literal`. A number keeps the digits
/// and the point as they were written; they always form a valid decimal
/// float literal.
#[derive(Clone, Copy, Debug, PartialEq)]
pub enum Literal<'a> {
    Identifier { size: usize, literal: &'a str },
    String { size: usize, literal: &'a str },
    Number { literal: &'a str },
}

/// A classified lexeme and the line on which it starts.
#[allow(inconsistent_fields)]
#[derive(Clone, Copy, Debug, PartialEq)]
pub enum Token<'a> {
    Operator { line: usize, token: Operator },
    Grouping { line: usize, token: Grouping },
    Misc { line: usize, token: Misc },
    Literal { line: usize, token: Literal<'a> },
    Keyword { line: usize, token: Keyword },
    Eof { line: usize },
}

/// A lexical problem; scanning reports it and goes on.
#[derive(Clone, Copy, Debug, PartialEq, Eq)]
pub enum LexError {
    /// A character that starts no lexeme.
    UnexpectedCharacter,
    /// A string literal that the input ends inside of.
    UnterminatedString,
    /// A run of digits and points that is no decimal literal.
    MalformedNumber,
}

/// What a token is, with its payload as a character sequence.
pub enum TokenClass {
    Operator(Operator),
    Grouping(Grouping),
    Misc(Misc),
    Keyword(Keyword),
    Identifier(Seq<char>),
    Str(Seq<char>),
    Number(Seq<char>),
    Eof,
}

/// The mathematical value of a token.
pub struct TokenModel {
    pub line: nat,
    pub class: TokenClass,
}

impl<'a> View for Literal<'a> {
    type V = TokenClass;

    open spec fn view(&self) -> TokenClass {
        match self {
            Literal::Identifier { literal, .. } => TokenClass::Identifier(literal@),
            Literal::String { literal, .. } => TokenClass::Str(literal@),
            Literal::Number { literal } => TokenClass::Number(literal@),
        }
    }
}

impl<'a> Literal<'a> {
    /// The payload as text.
    pub open spec fn spec_text(&self) -> Seq<char> {
        match self {
            Literal::Identifier { literal, .. } => literal@,
            Literal::String { literal, .. } => literal@,
            Literal::Number { literal } => literal@,
        }
    }

    pub fn text(&self) -> (r: &'a str)
        ensures
            r@ == self.spec_text(),
    {
        match self {
            Literal::Identifier { literal, .. } => literal,
            Literal::String { literal, .. } => literal,
            Literal::Number { literal } => literal,
        }
    }

    /// `size` counts the characters of the payload.
    pub open spec fn wf(&self) -> bool {
        match self {
            Literal::Identifier { size, literal } => *size == literal@.len(),
            Literal::String { size, literal } => *size == literal@.len(),
            Literal::Number { .. } => true,
        }
    }
}

impl<'a> View for Token<'a> {
    type V = TokenModel;

    open spec fn view(&self) -> TokenModel {
        match self {
            Token::Operator { line, token } => TokenModel {
                line: *line as nat,
                class: TokenClass::Operator(*token),
            },
            Token::Grouping { line, token } => TokenModel {
                line: *line as nat,
                class: TokenClass::Grouping(*token),
            },
            Token::Misc { line, token } => TokenModel {
                line: *line as nat,
                class: TokenClass::Misc(*token),
            },
            Token::Literal { line, token } => TokenModel { line: *line as nat, class: token@ },
            Token::Keyword { line, token } => TokenModel {
                line: *line as nat,
                class: TokenClass::Keyword(*token),
            },
            Token::Eof { line } => TokenModel { line: *line as nat, class: TokenClass::Eof },
        }
    }
}

impl<'a> Token<'a> {
    pub open spec fn wf(&self) -> bool {
        match self {
            Token::Literal { token, .. } => token.wf(),
            _ => true,
        }
    }

    /// The text a token shows: the spelling of a symbol or reserved word,
    /// the payload of a literal (a string without its quotes, a number as
    /// written), and nothing for the end of input.
    pub open spec fn spec_text(&self) -> Seq<char> {
        match self {
            Token::Operator { token, .. } => token.spelling(),
            Token::Grouping { token, .. } => token.spelling(),
            Token::Misc { token, .. } => token.spelling(),
            Token::Literal { token, .. } => token.spec_text(),
            Token::Keyword { token, .. } => token.spelling(),
            Token::Eof { .. } => Seq::empty(),
        }
    }

    pub fn text(&self) -> (r: &'a str)
        ensures
            r@ == self.spec_text(),
    {
        match self {
            Token::Operator { token, .. } => token.text(),
            Token::Grouping { token, .. } => token.text(),
            Token::Misc { token, .. } => token.text(),
            Token::Literal { token, .. } => token.text(),
            Token::Keyword { token, .. } => token.text(),
            Token::Eof { .. } => {
                let r = "";
                proof {
                    reveal_strlit("");
                }
                assert(r@ =~= Seq::<char>::empty());
                r
            },
        }
    }

    /// The line on which the token starts.
    pub fn line(&self) -> (r: usize)
        ensures
            r == self@.line,
    {
        match self {
            Token::Operator { line, .. } => *line,
            Token::Grouping { line, .. } => *line,
            Token::Misc { line, .. } => *line,
            Token::Literal { line, .. } => *line,
            Token::Keyword { line, .. } => *line,
            Token::Eof { line } => *line,
        }
    }
}

/// The models of a sequence of tokens.
pub open spec fn token_models<'a>(ts: Seq<Token<'a>>) -> Seq<TokenModel> {
    ts.map_values(|t: Token<'a>| t@)
}

impl LexError {
    /// The human-readable text of the diagnostic.
    pub open spec fn spec_message(self) -> Seq<char> {
        match self {
            LexError::UnexpectedCharacter => "Unexpected character"@,
            LexError::UnterminatedString => "Unterminated string"@,
            LexError::MalformedNumber => "Malformed number"@,
        }
    }

    pub fn message(&self) -> (r: &'static str)
        ensures
            r@ == self.spec_message(),
    {
        match self {
            LexError::UnexpectedCharacter => "Unexpected character",
            LexError::UnterminatedString => "Unterminated string",
            LexError::MalformedNumber => "Malformed number",
        }
    }
}

impl Operator {
    /// How the operator is written in source text.
    pub open spec fn spelling(self) -> Seq<char> {
        match self {
            Operator::Minus => seq!['-'],
            Operator::Plus => seq!['+'],
            Operator::Star => seq!['*'],
            Operator::Equal => seq!['='],
            Operator::EqualEqual => seq!['=', '='],
            Operator::Greater => seq!['>'],
            Operator::Less => seq!['<'],
            Operator::Slash => seq!['/'],
            Operator::BangEqual => seq!['!', '='],
            Operator::GreaterEqual => seq!['>', '='],
            Operator::LessEqual => seq!['<', '='],
            Operator::Bang => seq!['!'],
        }
    }

    pub fn text(&self) -> (r: &'static str)
        ensures
            r@ == self.spelling(),
    {
        let r = match self {
            Operator::Minus => "-",
            Operator::Plus => "+",
            Operator::Star => "*",
            Operator::Equal => "=",
            Operator::EqualEqual => "==",
            Operator::Greater => ">",
            Operator::Less => "<",
            Operator::Slash => "/",
            Operator::BangEqual => "!=",
            Operator::GreaterEqual => ">=",
            Operator::LessEqual => "<=",
            Operator::Bang => "!",
        };
        proof {
            reveal_strlit("-");
            reveal_strlit("+");
            reveal_strlit("*");
            reveal_strlit("=");
            reveal_strlit("==");
            reveal_strlit(">");
            reveal_strlit("<");
            reveal_strlit("/");
            reveal_strlit("!=");
            reveal_strlit(">=");
            reveal_strlit("<=");
            reveal_strlit("!");
        }
        assert(r@ =~= self.spelling());
        r
    }
}

impl Grouping {
    /// How the grouping symbol is written in source text.
    pub open spec fn spelling(self) -> Seq<char> {
        match self {
            Grouping::LeftParen => seq!['('],
            Grouping::RightParen => seq![')'],
            Grouping::LeftBrace => seq!['{'],
            Grouping::RightBrace => seq!['}'],
        }
    }

    pub fn text(&self) -> (r: &'static str)
        ensures
            r@ == self.spelling(),
    {
        let r = match self {
            Grouping::LeftParen => "(",
            Grouping::RightParen => ")",
            Grouping::LeftBrace => "{",
            Grouping::RightBrace => "}",
        };
        proof {
            reveal_strlit("(");
            reveal_strlit(")");
            reveal_strlit("{");
            reveal_strlit("}");
        }
        assert(r@ =~= self.spelling());
        r
    }
}

impl Misc {
    /// How the punctuation mark is written in source text.
    pub open spec fn spelling(self) -> Seq<char> {
        match self {
            Misc::Comma => seq![','],
            Misc::Dot => seq!['.'],
            Misc::Semicolon => seq![';'],
        }
    }

    pub fn text(&self) -> (r: &'static str)
        ensures
            r@ == self.spelling(),
    {
        let r = match self {
            Misc::Comma => ",",
            Misc::Dot => ".",
            Misc::Semicolon => ";",
        };
        proof {
            reveal_strlit(",");
            reveal_strlit(".");
            reveal_strlit(";");
        }
        assert(r@ =~= self.spelling());
        r
    }
}

impl Keyword {
    /// Looks a word up in the table of reserved words.
    pub fn lookup(text: &str) -> (r: Option<Keyword>)
        ensures
            r == keyword_of(text@),
    {
        let n = text.unicode_len();
        if Keyword::And.spells(text, n) {
            Some(Keyword::And)
        } else if Keyword::Class.spells(text, n) {
            Some(Keyword::Class)
        } else if Keyword::Else.spells(text, n) {
            Some(Keyword::Else)
        } else if Keyword::False.spells(text, n) {
            Some(Keyword::False)
        } else if Keyword::Fun.spells(text, n) {
            Some(Keyword::Fun)
        } else if Keyword::For.spells(text, n) {
            Some(Keyword::For)
        } else if Keyword::If.spells(text, n) {
            Some(Keyword::If)
        } else if Keyword::Nil.spells(text, n) {
            Some(Keyword::Nil)
        } else if Keyword::Or.spells(text, n) {
            Some(Keyword::Or)
        } else if Keyword::Print.spells(text, n) {
            Some(Keyword::Print)
        } else if Keyword::Return.spells(text, n) {
            Some(Keyword::Return)
        } else if Keyword::Super.spells(text, n) {
            Some(Keyword::Super)
        } else if Keyword::This.spells(text, n) {
            Some(Keyword::This)
        } else if Keyword::True.spells(text, n) {
            Some(Keyword::True)
        } else if Keyword::Var.spells(text, n) {
            Some(Keyword::Var)
        } else if Keyword::While.spells(text, n) {
            Some(Keyword::While)
        } else {
            None
        }
    }

    /// Whether `text`, of `n` characters, is this reserved word.
    fn spells(&self, text: &str, n: usize) -> (r: bool)
        requires
            n == text@.len(),
        ensures
            r == (text@ == self.spelling()),
    {
        let word = self.text();
        if word.unicode_len() != n {
            return false;
        }
        let mut i: usize = 0;
        while i < n
            invariant
                n == text@.len() == word@.len(),
                word@ == self.spelling(),
                i <= n,
                forall|k: int| 0 <= k < i ==> text@[k] == word@[k],
            decreases n - i,
        {
            if text.get_char(i) != word.get_char(i) {
                return false;
            }
            i = i + 1;
        }
        assert(text@ =~= word@);
        true
    }

    /// How the reserved word is written in source text.
    pub open spec fn spelling(self) -> Seq<char> {
        match self {
            Keyword::And => seq!['a', 'n', 'd'],
            Keyword::Class => seq!['c', 'l', 'a', 's', 's'],
            Keyword::Else => seq!['e', 'l', 's', 'e'],
            Keyword::False => seq!['f', 'a', 'l', 's', 'e'],
            Keyword::Fun => seq!['f', 'u', 'n'],
            Keyword::For => seq!['f', 'o', 'r'],
            Keyword::If => seq!['i', 'f'],
            Keyword::Nil => seq!['n', 'i', 'l'],
            Keyword::Or => seq!['o', 'r'],
            Keyword::Print => seq!['p', 'r', 'i', 'n', 't'],
            Keyword::Return => seq!['r', 'e', 't', 'u', 'r', 'n'],
            Keyword::Super => seq!['s', 'u', 'p', 'e', 'r'],
            Keyword::This => seq!['t', 'h', 'i', 's'],
            Keyword::True => seq!['t', 'r', 'u', 'e'],
            Keyword::Var => seq!['v', 'a', 'r'],
            Keyword::While => seq!['w', 'h', 'i', 'l', 'e'],
        }
    }

    pub fn text(&self) -> (r: &'static str)
        ensures
            r@ == self.spelling(),
    {
        let r = match self {
            Keyword::And => "and",
            Keyword::Class => "class",
            Keyword::Else => "else",
            Keyword::False => "false",
            Keyword::Fun => "fun",
            Keyword::For => "for",
            Keyword::If => "if",
            Keyword::Nil => "nil",
            Keyword::Or => "or",
            Keyword::Print => "print",
            Keyword::Return => "return",
            Keyword::Super => "super",
            Keyword::This => "this",
            Keyword::True => "true",
            Keyword::Var => "var",
            Keyword::While => "while",
        };
        proof {
            reveal_strlit("and");
            reveal_strlit("class");
            reveal_strlit("else");
            reveal_strlit("false");
            reveal_strlit("fun");
            reveal_strlit("for");
            reveal_strlit("if");
            reveal_strlit("nil");
            reveal_strlit("or");
            reveal_strlit("print");
            reveal_strlit("return");
            reveal_strlit("super");
            reveal_strlit("this");
            reveal_strlit("true");
            reveal_strlit("var");
            reveal_strlit("while");
        }
        assert(r@ =~= self.spelling());
        r
    }
}

} // verus!
