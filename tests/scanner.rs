use lox::{Grouping, Keyword, Literal, Lox, Misc, Operator, Scanner, Token};

fn scan(source: &str) -> (Vec<Token<'_>>, Vec<(usize, String)>) {
    let scanner = Scanner::new(source);
    let mut lox = Lox::new();
    let tokens = scanner.scan_tokens(&mut lox);
    let diagnostics = lox
        .diagnostics()
        .iter()
        .map(|d| (d.line, d.message.clone()))
        .collect();
    (tokens, diagnostics)
}

fn number_value(token: &Token) -> f64 {
    match token {
        Token::Literal { token: Literal::Number { literal }, .. } => literal.parse().unwrap(),
        other => panic!("not a number: {:?}", other),
    }
}

#[test]
fn var_declaration() {
    let (tokens, diagnostics) = scan("var x = 10;");
    assert!(diagnostics.is_empty());
    assert_eq!(tokens.len(), 6);
    assert_eq!(tokens[0], Token::Keyword { line: 1, token: Keyword::Var });
    assert_eq!(
        tokens[1],
        Token::Literal { line: 1, token: Literal::Identifier { size: 1, literal: "x" } }
    );
    assert_eq!(tokens[2], Token::Operator { line: 1, token: Operator::Equal });
    assert_eq!(number_value(&tokens[3]), 10.0);
    assert_eq!(tokens[3].line(), 1);
    assert_eq!(tokens[4], Token::Misc { line: 1, token: Misc::Semicolon });
    assert_eq!(tokens[5], Token::Eof { line: 1 });
}

#[test]
fn unterminated_string() {
    let (tokens, diagnostics) = scan("\"abc");
    assert!(!tokens
        .iter()
        .any(|t| matches!(t, Token::Literal { token: Literal::String { .. }, .. })));
    assert_eq!(diagnostics, vec![(1, String::from("Unterminated string"))]);
    // the opening quote is skipped and the rest is scanned again
    assert_eq!(
        tokens,
        vec![
            Token::Literal { line: 1, token: Literal::Identifier { size: 3, literal: "abc" } },
            Token::Eof { line: 1 },
        ]
    );
}

#[test]
fn comment_then_number() {
    let (tokens, diagnostics) = scan("// comment\n1");
    assert!(diagnostics.is_empty());
    assert_eq!(tokens.len(), 2);
    assert_eq!(number_value(&tokens[0]), 1.0);
    assert_eq!(tokens[0].line(), 2);
    assert_eq!(tokens[1], Token::Eof { line: 2 });
}

#[test]
fn multiline_string() {
    let (tokens, diagnostics) = scan("\"line1\nline2\"");
    assert!(diagnostics.is_empty());
    assert_eq!(
        tokens,
        vec![
            Token::Literal {
                line: 1,
                token: Literal::String { size: 11, literal: "line1\nline2" },
            },
            Token::Eof { line: 2 },
        ]
    );
}

#[test]
fn multiline_string_moves_later_tokens() {
    let (tokens, _) = scan("\"a\nb\nc\" x");
    assert_eq!(tokens[0].line(), 1);
    assert_eq!(
        tokens[1],
        Token::Literal { line: 3, token: Literal::Identifier { size: 1, literal: "x" } }
    );
    assert_eq!(tokens[2], Token::Eof { line: 3 });
}

#[test]
fn two_character_operators() {
    let (tokens, diagnostics) = scan("!=<=>=");
    assert!(diagnostics.is_empty());
    assert_eq!(
        tokens,
        vec![
            Token::Operator { line: 1, token: Operator::BangEqual },
            Token::Operator { line: 1, token: Operator::LessEqual },
            Token::Operator { line: 1, token: Operator::GreaterEqual },
            Token::Eof { line: 1 },
        ]
    );
}

#[test]
fn unexpected_character() {
    let (tokens, diagnostics) = scan("@");
    assert_eq!(tokens, vec![Token::Eof { line: 1 }]);
    assert_eq!(diagnostics, vec![(1, String::from("Unexpected character"))]);
}

#[test]
fn empty_input() {
    let (tokens, diagnostics) = scan("");
    assert_eq!(tokens, vec![Token::Eof { line: 1 }]);
    assert!(diagnostics.is_empty());
}

#[test]
fn only_whitespace_and_newlines() {
    let (tokens, diagnostics) = scan(" \t\r\n\n ");
    assert_eq!(tokens, vec![Token::Eof { line: 3 }]);
    assert!(diagnostics.is_empty());
}

#[test]
fn single_character_tokens() {
    let (tokens, _) = scan("(){},.;-+*/!=<>");
    assert_eq!(
        tokens,
        vec![
            Token::Grouping { line: 1, token: Grouping::LeftParen },
            Token::Grouping { line: 1, token: Grouping::RightParen },
            Token::Grouping { line: 1, token: Grouping::LeftBrace },
            Token::Grouping { line: 1, token: Grouping::RightBrace },
            Token::Misc { line: 1, token: Misc::Comma },
            Token::Misc { line: 1, token: Misc::Dot },
            Token::Misc { line: 1, token: Misc::Semicolon },
            Token::Operator { line: 1, token: Operator::Minus },
            Token::Operator { line: 1, token: Operator::Plus },
            Token::Operator { line: 1, token: Operator::Star },
            Token::Operator { line: 1, token: Operator::Slash },
            Token::Operator { line: 1, token: Operator::BangEqual },
            Token::Operator { line: 1, token: Operator::Less },
            Token::Operator { line: 1, token: Operator::Greater },
            Token::Eof { line: 1 },
        ]
    );
}

#[test]
fn equal_equal_and_lone_bang() {
    let (tokens, _) = scan("a == b ! c = d");
    let ops: Vec<Operator> = tokens
        .iter()
        .filter_map(|t| match t {
            Token::Operator { token, .. } => Some(*token),
            _ => None,
        })
        .collect();
    assert_eq!(ops, vec![Operator::EqualEqual, Operator::Bang, Operator::Equal]);
}

#[test]
fn comment_at_end_of_input() {
    let (tokens, diagnostics) = scan("x // no newline after this");
    assert!(diagnostics.is_empty());
    assert_eq!(
        tokens,
        vec![
            Token::Literal { line: 1, token: Literal::Identifier { size: 1, literal: "x" } },
            Token::Eof { line: 1 },
        ]
    );
}

#[test]
fn slash_is_division() {
    let (tokens, _) = scan("6 / 3");
    assert_eq!(tokens[1], Token::Operator { line: 1, token: Operator::Slash });
    assert_eq!(number_value(&tokens[2]), 3.0);
}

#[test]
fn fractional_numbers() {
    let (tokens, diagnostics) = scan("3.25 1.");
    assert!(diagnostics.is_empty());
    assert_eq!(number_value(&tokens[0]), 3.25);
    assert_eq!(number_value(&tokens[1]), 1.0);
    assert_eq!(
        tokens[0],
        Token::Literal { line: 1, token: Literal::Number { literal: "3.25" } }
    );
}

#[test]
fn malformed_number() {
    let (tokens, diagnostics) = scan("1.2.3 + 4");
    assert_eq!(diagnostics, vec![(1, String::from("Malformed number"))]);
    assert_eq!(tokens.len(), 3);
    assert_eq!(tokens[0], Token::Operator { line: 1, token: Operator::Plus });
    assert_eq!(number_value(&tokens[1]), 4.0);
}

#[test]
fn minus_is_not_part_of_a_number() {
    let (tokens, _) = scan("-5");
    assert_eq!(tokens[0], Token::Operator { line: 1, token: Operator::Minus });
    assert_eq!(number_value(&tokens[1]), 5.0);
}

#[test]
fn every_reserved_word_is_a_keyword() {
    let words = [
        ("and", Keyword::And),
        ("class", Keyword::Class),
        ("else", Keyword::Else),
        ("false", Keyword::False),
        ("fun", Keyword::Fun),
        ("for", Keyword::For),
        ("if", Keyword::If),
        ("nil", Keyword::Nil),
        ("or", Keyword::Or),
        ("print", Keyword::Print),
        ("return", Keyword::Return),
        ("super", Keyword::Super),
        ("this", Keyword::This),
        ("true", Keyword::True),
        ("var", Keyword::Var),
        ("while", Keyword::While),
    ];
    for (text, keyword) in words {
        let (tokens, diagnostics) = scan(text);
        assert!(diagnostics.is_empty());
        assert_eq!(
            tokens,
            vec![Token::Keyword { line: 1, token: keyword }, Token::Eof { line: 1 }]
        );
        assert_eq!(keyword.text(), text);
        assert_eq!(Keyword::lookup(text), Some(keyword));
    }
}

#[test]
fn other_words_are_identifiers() {
    for text in ["variable", "x1", "If", "classy", "an", "orchid", "w"] {
        let (tokens, diagnostics) = scan(text);
        assert!(diagnostics.is_empty());
        assert_eq!(
            tokens,
            vec![
                Token::Literal {
                    line: 1,
                    token: Literal::Identifier { size: text.len(), literal: text },
                },
                Token::Eof { line: 1 },
            ]
        );
        assert_eq!(Keyword::lookup(text), None);
    }
}

#[test]
fn underscore_ends_an_identifier() {
    let (tokens, diagnostics) = scan("a_b");
    assert_eq!(diagnostics, vec![(1, String::from("Unexpected character"))]);
    assert_eq!(
        tokens,
        vec![
            Token::Literal { line: 1, token: Literal::Identifier { size: 1, literal: "a" } },
            Token::Literal { line: 1, token: Literal::Identifier { size: 1, literal: "b" } },
            Token::Eof { line: 1 },
        ]
    );
}

#[test]
fn string_followed_directly_by_identifier() {
    let (tokens, _) = scan("\"hi\"there");
    assert_eq!(
        tokens,
        vec![
            Token::Literal { line: 1, token: Literal::String { size: 2, literal: "hi" } },
            Token::Literal { line: 1, token: Literal::Identifier { size: 5, literal: "there" } },
            Token::Eof { line: 1 },
        ]
    );
}

#[test]
fn non_ascii_inside_and_outside_strings() {
    let (tokens, diagnostics) = scan("\"héllo wörld\" é x");
    assert_eq!(
        tokens[0],
        Token::Literal { line: 1, token: Literal::String { size: 11, literal: "héllo wörld" } }
    );
    // one diagnostic for one character, whatever its width in bytes
    assert_eq!(diagnostics, vec![(1, String::from("Unexpected character"))]);
    assert_eq!(
        tokens[1],
        Token::Literal { line: 1, token: Literal::Identifier { size: 1, literal: "x" } }
    );
}

#[test]
fn backslash_is_no_escape() {
    let (tokens, _) = scan("\"a\\\"b");
    assert_eq!(
        tokens[0],
        Token::Literal { line: 1, token: Literal::String { size: 2, literal: "a\\" } }
    );
}

#[test]
fn errors_are_reported_in_order_and_scanning_goes_on() {
    let (tokens, diagnostics) = scan("@\n1.2.3\n#x\n\"open");
    assert_eq!(
        diagnostics,
        vec![
            (1, String::from("Unexpected character")),
            (2, String::from("Malformed number")),
            (3, String::from("Unexpected character")),
            (4, String::from("Unterminated string")),
        ]
    );
    assert_eq!(
        tokens,
        vec![
            Token::Literal { line: 3, token: Literal::Identifier { size: 1, literal: "x" } },
            Token::Literal { line: 4, token: Literal::Identifier { size: 4, literal: "open" } },
            Token::Eof { line: 4 },
        ]
    );
}

#[test]
fn lines_never_decrease() {
    let (tokens, _) = scan("var a = 1;\n// note\nprint \"x\ny\" + a;\n\nwhile (a) {}\n");
    for pair in tokens.windows(2) {
        assert!(pair[0].line() <= pair[1].line());
    }
    assert_eq!(tokens.last(), Some(&Token::Eof { line: 7 }));
}

#[test]
fn rescanning_each_token_keeps_its_kind() {
    let source = "fun f(a, b) { return a.b >= 1.5 != !\"s\ntr\" / x1; } // c\n";
    let (tokens, _) = scan(source);
    for token in &tokens[..tokens.len() - 1] {
        let text = match token {
            Token::Literal { token: Literal::String { literal, .. }, .. } => {
                format!("\"{}\"", literal)
            }
            other => String::from(other.text()),
        };
        let (again, diagnostics) = scan(&text);
        assert!(diagnostics.is_empty());
        assert_eq!(again.len(), 2);
        assert_eq!(std::mem::discriminant(&again[0]), std::mem::discriminant(token));
        assert_eq!(again[0].text(), token.text());
    }
}

#[test]
fn token_text() {
    let (tokens, _) = scan("print \"s\" 12.5 >= x");
    let texts: Vec<&str> = tokens.iter().map(|t| t.text()).collect();
    assert_eq!(texts, vec!["print", "s", "12.5", ">=", "x", ""]);
    assert_eq!(Operator::Bang.text(), "!");
    assert_eq!(Grouping::RightBrace.text(), "}");
    assert_eq!(Misc::Comma.text(), ",");
}

#[test]
fn scanner_keeps_its_source() {
    let scanner = Scanner::new("a b");
    assert_eq!(scanner.source(), "a b");
}

#[test]
fn lox_collects_errors() {
    let mut lox = Lox::new();
    assert!(!lox.had_error());
    assert!(lox.diagnostics().is_empty());
    lox.error(7, "something odd");
    assert!(lox.had_error());
    assert_eq!(lox.diagnostics().len(), 1);
    assert_eq!(lox.diagnostics()[0].line, 7);
    assert_eq!(lox.diagnostics()[0].message, "something odd");
    lox.clear_error();
    assert!(!lox.had_error());
    assert_eq!(lox.diagnostics().len(), 1);
}

#[test]
fn scan_appends_to_earlier_diagnostics() {
    let mut lox = Lox::new();
    lox.error(1, "earlier");
    let scanner = Scanner::new("ok");
    let tokens = scanner.scan_tokens(&mut lox);
    assert_eq!(tokens.len(), 2);
    assert!(lox.had_error());
    assert_eq!(lox.diagnostics().len(), 1);
    let scanner = Scanner::new("?");
    scanner.scan_tokens(&mut lox);
    assert_eq!(lox.diagnostics().len(), 2);
    assert_eq!(lox.diagnostics()[1].message, "Unexpected character");
}
