//! Statement nodes.
use vstd::prelude::*;
use crate::expr::{Boxed, Expr};
use crate::token::Token;
use std::rc::Rc;

verus! {

/// A statement tree.
#[derive(Debug)]
pub enum Stmt {
    Empty,
    /// `break`, with its line.
    Break(u32),
    Expression(Expr),
    Print(Expr),
    /// `var`: the name token and the optional initializer.
    Declaration(Token, Option<Expr>),
    Block(Vec<Stmt>),
    If(Expr, Box<Stmt>, Option<Box<Stmt>>),
    While(Expr, Box<Stmt>),
    /// `fun`: the name token, the parameter names and the shared body.
    Function(Token, Vec<String>, Rc<Stmt>),
    /// `return`, with its line and value.
    Return(u32, Expr),
}

impl Boxed<Stmt> for Stmt {
    fn boxed(self) -> Box<Stmt> {
        Box::new(self)
    }
}

} // verus!
