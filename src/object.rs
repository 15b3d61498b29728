//! Runtime values.
use vstd::prelude::*;
use crate::text::{compare_text, decimal, decimal_string, text_cmp};
use crate::token::{Literal, Val};

verus! {

/// A runtime value: a literal value, or a function named by its slot in
/// the interpreter's function table (so that all holders share it).
#[derive(Debug)]
pub enum Object {
    Literal(Literal),
    Func(usize),
}

impl View for Object {
    type V = Val;

    open spec fn view(&self) -> Val {
        match self {
            Object::Literal(l) => l@,
            Object::Func(i) => Val::Fun(*i as nat),
        }
    }
}

/// Truthiness: `nil`, `false`, `0` and the empty string are false.
pub open spec fn truthy(v: Val) -> bool {
    match v {
        Val::Nil => false,
        Val::Bool(b) => b,
        Val::Num(n) => n != 0,
        Val::Str(s) => s.len() > 0,
        Val::Fun(_) => true,
    }
}

/// Order between two numbers or two strings; other pairs are unordered.
pub open spec fn val_cmp(a: Val, b: Val) -> Option<core::cmp::Ordering> {
    match (a, b) {
        (Val::Num(x), Val::Num(y)) => Some(
            if x < y {
                core::cmp::Ordering::Less
            } else if x == y {
                core::cmp::Ordering::Equal
            } else {
                core::cmp::Ordering::Greater
            },
        ),
        (Val::Str(x), Val::Str(y)) => Some(text_cmp(x, y)),
        _ => None,
    }
}

/// The display form: numbers in decimal, strings unquoted, `nil`, `true`
/// and `false` literally.
pub open spec fn display(v: Val) -> Seq<char> {
    match v {
        Val::Nil => "nil"@,
        Val::Bool(b) => if b {
            "true"@
        } else {
            "false"@
        },
        Val::Num(n) => decimal(n),
        Val::Str(s) => s,
        Val::Fun(_) => "<function>"@,
    }
}

impl Literal {
    /// Order between two numbers or two strings (lexicographic); other
    /// pairs are unordered.
    pub fn partial_cmp(&self, other: &Literal) -> (r: Option<core::cmp::Ordering>)
        ensures
            r == val_cmp(self@, other@),
    {
        match (self, other) {
            (Literal::Number(a), Literal::Number(b)) => {
                if *a < *b {
                    Some(core::cmp::Ordering::Less)
                } else if *a == *b {
                    Some(core::cmp::Ordering::Equal)
                } else {
                    Some(core::cmp::Ordering::Greater)
                }
            },
            (Literal::StringLit(a), Literal::StringLit(b)) => Some(compare_text(a, b)),
            _ => None,
        }
    }
}

impl Object {
    /// Truthiness of the value.
    pub fn is_truthy(&self) -> (r: bool)
        ensures
            r == truthy(self@),
    {
        match self {
            Object::Literal(l) => match l {
                Literal::True => true,
                Literal::False => false,
                Literal::Nil => false,
                Literal::Number(n) => *n != 0,
                Literal::StringLit(s) => s.as_str().unicode_len() != 0,
            },
            Object::Func(_) => true,
        }
    }

    /// A copy of the value; a function copy names the same function.
    pub fn duplicate(&self) -> (r: Object)
        ensures
            r == *self,
    {
        match self {
            Object::Literal(l) => Object::Literal(l.duplicate()),
            Object::Func(i) => Object::Func(*i),
        }
    }

    /// Structural equality; values of different kinds are unequal and a
    /// function equals only itself.
    pub fn eq(&self, other: &Object) -> (r: bool)
        ensures
            r == (self@ == other@),
    {
        match (self, other) {
            (Object::Literal(a), Object::Literal(b)) => a.eq(b),
            (Object::Func(a), Object::Func(b)) => *a == *b,
            _ => false,
        }
    }

    /// Order between two numbers or two strings (lexicographic).
    pub fn partial_cmp(&self, other: &Object) -> (r: Option<core::cmp::Ordering>)
        ensures
            r == val_cmp(self@, other@),
    {
        match (self, other) {
            (Object::Literal(a), Object::Literal(b)) => a.partial_cmp(b),
            _ => None,
        }
    }

    /// The display form of the value.
    pub fn fmt(&self) -> (r: String)
        ensures
            r@ == display(self@),
    {
        match self {
            Object::Literal(Literal::Nil) => String::from_str("nil"),
            Object::Literal(Literal::True) => String::from_str("true"),
            Object::Literal(Literal::False) => String::from_str("false"),
            Object::Literal(Literal::Number(n)) => decimal_string(*n),
            Object::Literal(Literal::StringLit(s)) => s.clone(),
            Object::Func(_) => String::from_str("<function>"),
        }
    }
}

} // verus!
