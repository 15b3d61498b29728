//! Failures and the signals that unwind out of loops and calls.
use vstd::prelude::*;
use crate::object::Object;
use crate::text::{decimal, decimal_string};
use crate::token::Val;

verus! {

/// A failure located at a source line. `Break` and `Return` are the
/// control-flow signals reported when they escape every loop or call.
#[derive(Debug)]
pub enum Error {
    /// Lexical error: line, message, offending text.
    Lexical(u32, String, String),
    /// Parse error: line, message, offending token.
    Parser(u32, String, String),
    /// Runtime error: line, message, context.
    Runtime(u32, String, String),
    /// A `break` outside any loop.
    Break(u32),
    /// A `return` outside any function.
    Return(u32, Object),
}

/// The mathematical content of an [`Error`].
pub enum ErrV {
    Lexical(u32, Seq<char>, Seq<char>),
    Parser(u32, Seq<char>, Seq<char>),
    Runtime(u32, Seq<char>, Seq<char>),
    Break(u32),
    Return(u32, Val),
}

impl View for Error {
    type V = ErrV;

    open spec fn view(&self) -> ErrV {
        match self {
            Error::Lexical(l, m, n) => ErrV::Lexical(*l, m@, n@),
            Error::Parser(l, m, n) => ErrV::Parser(*l, m@, n@),
            Error::Runtime(l, m, n) => ErrV::Runtime(*l, m@, n@),
            Error::Break(l) => ErrV::Break(*l),
            Error::Return(l, v) => ErrV::Return(*l, v@),
        }
    }
}

/// The text of a located diagnostic: `<head> at [line: N] <msg> : near <near> `.
pub open spec fn located_text(head: Seq<char>, line: u32, msg: Seq<char>, near: Seq<char>) -> Seq<
    char,
> {
    head + " at [line: "@ + decimal(line as int) + "] "@ + msg + " : near "@ + near + " "@
}

/// The human-readable text of an error.
pub open spec fn error_text(e: ErrV) -> Seq<char> {
    match e {
        ErrV::Lexical(l, m, n) => located_text("Lexical Error"@, l, m, n),
        ErrV::Parser(l, m, n) => located_text("Parse Error"@, l, m, n),
        ErrV::Runtime(l, m, n) => located_text("Runtime Error"@, l, m, n),
        ErrV::Break(l) => "Runtime Error [line "@ + decimal(l as int)
            + "] unexpected break statement"@,
        ErrV::Return(l, _) => "Runtime Error [line "@ + decimal(l as int)
            + "] unexpected return statement"@,
    }
}

fn located(head: &str, line: u32, msg: &String, near: &String) -> (r: String)
    ensures
        r@ == located_text(head@, line, msg@, near@),
{
    let mut s = String::from_str(head);
    s.append(" at [line: ");
    let n = decimal_string(line as i64);
    s.append(n.as_str());
    s.append("] ");
    s.append(msg.as_str());
    s.append(" : near ");
    s.append(near.as_str());
    s.append(" ");
    assert(s@ =~= located_text(head@, line, msg@, near@));
    s
}

impl Error {
    /// The error on the heap.
    pub fn boxed(self) -> (r: Box<Error>)
        ensures
            *r == self,
    {
        Box::new(self)
    }

    /// The diagnostic text of the error.
    pub fn fmt(&self) -> (r: String)
        ensures
            r@ == error_text(self@),
    {
        match self {
            Error::Lexical(l, m, n) => located("Lexical Error", *l, m, n),
            Error::Parser(l, m, n) => located("Parse Error", *l, m, n),
            Error::Runtime(l, m, n) => located("Runtime Error", *l, m, n),
            Error::Break(l) => {
                let mut s = String::from_str("Runtime Error [line ");
                let n = decimal_string(*l as i64);
                s.append(n.as_str());
                s.append("] unexpected break statement");
                assert(s@ =~= error_text(self@));
                s
            },
            Error::Return(l, _) => {
                let mut s = String::from_str("Runtime Error [line ");
                let n = decimal_string(*l as i64);
                s.append(n.as_str());
                s.append("] unexpected return statement");
                assert(s@ =~= error_text(self@));
                s
            },
        }
    }

    /// A short description of the error's kind.
    pub fn description(&self) -> (r: &'static str)
        ensures
            r@ == match self@ {
                ErrV::Lexical(..) => "lexical error"@,
                ErrV::Parser(..) => "parse error"@,
                ErrV::Runtime(..) => "runtime error"@,
                ErrV::Break(..) => "break error"@,
                ErrV::Return(..) => "return error"@,
            },
    {
        match self {
            Error::Lexical(..) => "lexical error",
            Error::Parser(..) => "parse error",
            Error::Runtime(..) => "runtime error",
            Error::Break(..) => "break error",
            Error::Return(..) => "return error",
        }
    }
}

} // verus!
