// simple grammar to start with:
// expr -> literal | binary | grouping | unary
// literal -> string | number | identifier
// binary -> expr operator expr
// grouping -> "(" expr ")"
// unary -> "-" | "!" expr
// operator -> "==" | "!=" | "<" | "<=" | ">" | ">=" | "+" | "-" | "*" | "/"
use vstd::prelude::*;
use vstd::string::StringExecFns;

use crate::types::Token;

verus! {

pub enum Expr<'a> {
    Literal(Token<'a>),
    Binary(Box<Expr<'a>>, Token<'a>, Box<Expr<'a>>),
    Grouping(Box<Expr<'a>>),
    Unary(Token<'a>, Box<Expr<'a>>),
    Operator(Token<'a>),
}

pub struct Parsed<'a> {
    pub expressions: Vec<Expr<'a>>,
}

impl<'a> Expr<'a> {
    /// The expression as text: operands and operators apart by one space, a
    /// grouping as `group(...)`.
    pub open spec fn spec_render(&self) -> Seq<char>
        decreases self,
    {
        match self {
            Expr::Literal(token) => token.spec_text(),
            Expr::Binary(left, token, right) => left.spec_render() + " "@ + token.spec_text() + " "@
                + right.spec_render(),
            Expr::Grouping(expr) => "group("@ + expr.spec_render() + ")"@,
            Expr::Unary(operator, expr) => operator.spec_text() + " "@ + expr.spec_render(),
            Expr::Operator(operator) => operator.spec_text(),
        }
    }

    pub fn render(&self) -> (r: String)
        ensures
            r@ == self.spec_render(),
        decreases self,
    {
        match self {
            Expr::Literal(token) => String::from_str(token.text()),
            Expr::Binary(left, token, right) => {
                let mut r = left.render();
                r.append(" ");
                r.append(token.text());
                r.append(" ");
                r.append(right.render().as_str());
                r
            },
            Expr::Grouping(expr) => {
                let mut r = String::from_str("group(");
                r.append(expr.render().as_str());
                r.append(")");
                r
            },
            Expr::Unary(operator, expr) => {
                let mut r = String::from_str(operator.text());
                r.append(" ");
                r.append(expr.render().as_str());
                r
            },
            Expr::Operator(operator) => String::from_str(operator.text()),
        }
    }
}

/// The expressions as text, each as ` (...) `.
pub open spec fn render_all<'a>(es: Seq<Expr<'a>>) -> Seq<char>
    decreases es.len(),
{
    if es.len() == 0 {
        Seq::empty()
    } else {
        render_all(es.drop_last()) + " ("@ + es.last().spec_render() + ") "@
    }
}

impl<'a> Parsed<'a> {
    pub fn render(&self) -> (r: String)
        ensures
            r@ == render_all(self.expressions@),
    {
        let mut r = String::new();
        let mut i: usize = 0;
        while i < self.expressions.len()
            invariant
                i <= self.expressions@.len(),
                r@ == render_all(self.expressions@.take(i as int)),
            decreases self.expressions@.len() - i,
        {
            let ghost before = self.expressions@.take(i as int);
            r.append(" (");
            r.append(self.expressions[i].render().as_str());
            r.append(") ");
            proof {
                let after = self.expressions@.take(i + 1);
                assert(after.drop_last() =~= before);
                assert(r@ =~= render_all(after));
            }
            i = i + 1;
        }
        assert(self.expressions@.take(i as int) =~= self.expressions@);
        r
    }
}

} // verus!
