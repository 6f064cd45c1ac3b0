use lox::{Expr, Grouping, Literal, Operator, Parsed, Token};

fn identifier(text: &str) -> Expr<'_> {
    Expr::Literal(Token::Literal {
        line: 0,
        token: Literal::Identifier { size: text.len(), literal: text },
    })
}

fn number(text: &str) -> Expr<'_> {
    Expr::Literal(Token::Literal { line: 0, token: Literal::Number { literal: text } })
}

fn operator(token: Operator) -> Token<'static> {
    Token::Operator { line: 0, token }
}

#[test]
fn render_leaf_expressions() {
    assert_eq!(identifier("gri").render(), "gri");
    assert_eq!(number("133.7").render(), "133.7");
    assert_eq!(Expr::Operator(operator(Operator::Slash)).render(), "/");
    assert_eq!(
        Expr::Literal(Token::Grouping { line: 0, token: Grouping::LeftParen }).render(),
        "("
    );
}

#[test]
fn render_nested_expressions() {
    let unary = Expr::Unary(operator(Operator::Minus), Box::new(number("133.7")));
    assert_eq!(unary.render(), "- 133.7");
    let binary = Expr::Binary(
        Box::new(number("1.7")),
        operator(Operator::Star),
        Box::new(Expr::Grouping(Box::new(Expr::Binary(
            Box::new(number("1.7")),
            operator(Operator::Star),
            Box::new(Expr::Grouping(Box::new(identifier("gri")))),
        )))),
    );
    assert_eq!(binary.render(), "1.7 * group(1.7 * group(gri))");
}

#[test]
fn render_parsed_list() {
    let parsed = Parsed {
        expressions: vec![identifier("gri"), Expr::Operator(operator(Operator::Slash))],
    };
    assert_eq!(parsed.render(), " (gri)  (/) ");
    let empty = Parsed { expressions: vec![] };
    assert_eq!(empty.render(), "");
}
