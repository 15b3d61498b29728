//! Expression nodes.
use vstd::prelude::*;
use crate::token::Token;

verus! {

/// An expression tree, owned top-down.
#[derive(Debug)]
pub enum Expr {
    /// A variable reference; the token's lexeme is the name.
    Identifier(Token),
    /// A literal; the token's literal payload is the value.
    Literal(Token),
    Grouping(Box<Expr>),
    Unary(Token, Box<Expr>),
    Binary(Box<Expr>, Token, Box<Expr>),
    /// `and` / `or`, evaluated with short-circuit.
    Logical(Box<Expr>, Token, Box<Expr>),
    /// Assignment to the variable named by the token's lexeme.
    Assignment(Token, Box<Expr>),
    /// Callee, the closing parenthesis, and the arguments.
    Call(Box<Expr>, Token, Vec<Expr>),
}

/// Moving a node onto the heap.
pub trait Boxed<T> {
    fn boxed(self) -> Box<T>;
}

impl Boxed<Expr> for Expr {
    fn boxed(self) -> Box<Expr> {
        Box::new(self)
    }
}

} // verus!
