//! Expression trees and their visitors.
use vstd::prelude::*;
use crate::token::Token;

verus! {

/// Hands a value to the method of `visitor` made for its variant.
pub trait Accept<V, C, R> {
    fn accept(&self, visitor: V, context: C) -> R;
}

/// An expression.
#[derive(Debug, PartialEq)]
pub enum Expr {
    Binary(Binary),
    Grouping(Grouping),
    Literal(Literal),
    Unary(Unary),
}

#[derive(Debug, PartialEq)]
pub struct Binary {
    pub left: Box<Expr>,
    pub operator: Token,
    pub right: Box<Expr>,
}

#[derive(Debug, PartialEq)]
pub struct Grouping {
    pub expr: Box<Expr>,
}

/// A literal value; a number keeps its decimal text.
#[derive(Debug, PartialEq)]
pub enum Literal {
    Number(String),
    String(String),
    True,
    False,
    Nil,
}

#[derive(Debug, PartialEq)]
pub struct Unary {
    pub operator: Token,
    pub right: Box<Expr>,
}

/// One method per kind of expression.
pub trait ExprVisitor<C, R> {
    fn visit_binary(self, expr: &Binary, context: C) -> R;

    fn visit_grouping(self, expr: &Grouping, context: C) -> R;

    fn visit_literal(self, expr: &Literal, context: C) -> R;

    fn visit_unary(self, expr: &Unary, context: C) -> R;
}

impl<C, R, V: ExprVisitor<C, R>> Accept<V, C, R> for Expr {
    fn accept(&self, visitor: V, context: C) -> R {
        match self {
            Expr::Binary(x) => visitor.visit_binary(x, context),
            Expr::Grouping(x) => visitor.visit_grouping(x, context),
            Expr::Literal(x) => visitor.visit_literal(x, context),
            Expr::Unary(x) => visitor.visit_unary(x, context),
        }
    }
}

/// How a literal is shown.
pub open spec fn literal_text(l: Literal) -> Seq<char> {
    match l {
        Literal::Number(n) => n@,
        Literal::String(t) => t@,
        Literal::True => "true"@,
        Literal::False => "false"@,
        Literal::Nil => "nil"@,
    }
}

/// How an expression is shown: in prefix form, fully parenthesised.
pub open spec fn expr_text(e: Expr) -> Seq<char>
    decreases e,
{
    match e {
        Expr::Binary(b) => "("@ + b.operator.kind.spec_text() + " "@ + expr_text(*b.left) + " "@
            + expr_text(*b.right) + ")"@,
        Expr::Grouping(g) => "(group "@ + expr_text(*g.expr) + ")"@,
        Expr::Literal(l) => literal_text(l),
        Expr::Unary(u) => "("@ + u.operator.kind.spec_text() + " "@ + expr_text(*u.right) + ")"@,
    }
}

impl Expr {
    /// How the expression is shown.
    pub fn text(&self) -> (r: String)
        ensures
            r@ == expr_text(*self),
        decreases *self,
    {
        let mut s = String::new();
        match self {
            Expr::Binary(b) => {
                s.append("(");
                s.append(b.operator.text());
                s.append(" ");
                let l = b.left.text();
                s.append(l.as_str());
                s.append(" ");
                let r = b.right.text();
                s.append(r.as_str());
                s.append(")");
            },
            Expr::Grouping(g) => {
                s.append("(group ");
                let e = g.expr.text();
                s.append(e.as_str());
                s.append(")");
            },
            Expr::Literal(l) => {
                match l {
                    Literal::Number(n) => s.append(n.as_str()),
                    Literal::String(t) => s.append(t.as_str()),
                    Literal::True => s.append("true"),
                    Literal::False => s.append("false"),
                    Literal::Nil => s.append("nil"),
                }
            },
            Expr::Unary(u) => {
                s.append("(");
                s.append(u.operator.text());
                s.append(" ");
                let r = u.right.text();
                s.append(r.as_str());
                s.append(")");
            },
        }
        s
    }
}

} // verus!
