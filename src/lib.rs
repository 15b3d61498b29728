//! A tree-walking interpreter for a small dynamically typed scripting
//! language: lexer, parser, lexical environments and evaluator.
//!
//! A host hands [`run`] one unit of source text at a time (a whole file, or
//! one line of an interactive session) together with an [`Interpreter`]
//! that it keeps across units, and prints the lines the interpreter
//! collected.
//!
//! Numbers are signed 64-bit integers: a literal is a run of decimal digits,
//! arithmetic that leaves the range is a runtime error, and division rounds
//! toward zero.
use vstd::prelude::*;

pub mod env;
pub mod error;
pub mod expr;
pub mod function;
pub mod grammar;
pub mod interpreter;
pub mod laws;
pub mod object;
pub mod parser;
pub mod scanner;
pub mod stmt;
pub mod text;
pub mod token;

use crate::error::{ErrV, Error};
use crate::grammar::{gstmts, p_program, program_errors};
use crate::interpreter::{run_seq, Interpreter};
use crate::parser::{errs_view, located, Parser};
use crate::scanner::{lex, scan, toks_view};
use crate::stmt::Stmt;
use crate::token::Token;

verus! {

/// The result of a unit, as values: its first error, if any.
pub open spec fn run_res(r: Result<(), Vec<Error>>) -> Result<(), ErrV> {
    match r {
        Ok(()) => Ok(()),
        Err(es) => Err(es@[0]@),
    }
}

/// Runs one unit of source text. A lexical error, or the parse errors of
/// every statement that does not parse, fail the unit before anything runs;
/// otherwise the statements run in order and the first runtime error stops
/// the unit.
pub fn run(code: &str, interpreter: &mut Interpreter) -> (r: Result<(), Vec<Error>>)
    requires
        old(interpreter).inv(),
    ensures
        final(interpreter).inv(),
        final(interpreter).keeps(old(interpreter)),
        r matches Err(es) ==> es@.len() > 0,
        lex(code@) matches Err(e) ==> (r matches Err(es) && es@.len() == 1 && es@[0]@ == e
            && final(interpreter)@ == old(interpreter)@),
        lex(code@) is Ok ==> exists|ts: Seq<Token>|
            #[trigger] toks_view(ts) == lex(code@)->Ok_0 && match p_program(ts, 0, Seq::empty()) {
                None => r matches Err(es) && final(interpreter)@ == old(interpreter)@
                    && errs_view(es@) == program_errors(ts, 0) && forall|k: int|
                    0 <= k < es@.len() ==> located(ts, #[trigger] es@[k]@),
                Some(gs) => exists|ss: Seq<Stmt>|
                    #[trigger] gstmts(ss, ss.len() as int) == gs && (
                        final(interpreter)@,
                        run_res(r),
                    ) == run_seq(old(interpreter)@, old(interpreter).scope as int, ss, ss.len() as int)
                        && (r matches Err(es) ==> es@.len() == 1),
            },
{
    let tokens = match scan(code) {
        Ok(t) => t,
        Err(e) => {
            let mut es: Vec<Error> = Vec::new();
            es.push(e);
            return Err(es);
        },
    };
    let ghost ts = tokens@;
    let mut parser = Parser::new(tokens);
    let stmts = match parser.parse_program() {
        Ok(s) => s,
        Err(es) => {
            assert(toks_view(ts) == lex(code@)->Ok_0);
            return Err(es);
        },
    };
    assert(gstmts(stmts@, stmts@.len() as int) == p_program(ts, 0, Seq::empty())->Some_0);
    let r = interpreter.run_all(&stmts);
    let out = match r {
        Ok(()) => Ok(()),
        Err(e) => {
            let mut es: Vec<Error> = Vec::new();
            es.push(e);
            Err(es)
        },
    };
    assert(toks_view(ts) == lex(code@)->Ok_0);
    out
}

} // verus!
