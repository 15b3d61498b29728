//! User-defined functions (closures).
use vstd::prelude::*;
use crate::stmt::Stmt;
use std::rc::Rc;

verus! {

/// A closure: the index of the scope it was declared in, its parameter
/// names and its shared body.
pub struct LoxFunction {
    pub env: usize,
    pub params: Vec<String>,
    pub body: Rc<Stmt>,
}

/// The mathematical content of a [`LoxFunction`].
pub struct FunV {
    pub env: int,
    pub params: Seq<Seq<char>>,
    pub body: Stmt,
}

impl View for LoxFunction {
    type V = FunV;

    open spec fn view(&self) -> FunV {
        FunV { env: self.env as int, params: self.params@.map_values(|p: String| p@), body: *self.body }
    }
}

/// Relies on `Rc::clone`: the new handle points to the same allocation, so
/// it holds the same statement.
#[verifier::external_body]
pub(crate) fn share(body: &Rc<Stmt>) -> (r: Rc<Stmt>)
    ensures
        *r == **body,
{
    Rc::clone(body)
}

/// A copy of a list of names.
pub fn copy_names(names: &Vec<String>) -> (r: Vec<String>)
    ensures
        r@.map_values(|p: String| p@) == names@.map_values(|p: String| p@),
        r@.len() == names@.len(),
{
    let mut r: Vec<String> = Vec::new();
    let mut i: usize = 0;
    while i < names.len()
        invariant
            i <= names@.len(),
            r@.len() == i,
            forall|j: int| 0 <= j < i ==> r@[j]@ == names@[j]@,
        decreases names@.len() - i,
    {
        r.push(names[i].clone());
        i = i + 1;
    }
    assert(r@.map_values(|p: String| p@) =~= names@.map_values(|p: String| p@));
    r
}

impl LoxFunction {
    /// A closure over scope `env` with the given parameters and body.
    pub fn new(env: usize, params: &Vec<String>, body: Rc<Stmt>) -> (r: LoxFunction)
        ensures
            r@ == (FunV { env: env as int, params: params@.map_values(|p: String| p@), body: *body }),
    {
        LoxFunction { env, params: copy_names(params), body }
    }

    /// The number of parameters.
    pub fn arity(&self) -> (r: usize)
        ensures
            r == self@.params.len(),
    {
        self.params.len()
    }
}

} // verus!
