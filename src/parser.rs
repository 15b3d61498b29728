//! The parser: recursive descent over tokens, one statement at a time.
//!
//! Precedence, lowest first: assignment, `or`, `and`, equality, comparison,
//! additive, multiplicative, unary, call, primary. Binary levels fold to
//! the left; assignment is right-associative.
use vstd::prelude::*;
use crate::error::{ErrV, Error};
use crate::expr::Expr;
use crate::grammar::{
    ahead, check_at, expect, for_tree, gexpr, gexprs, gstmt, gstmts, keyword_literal, level_op, resync, boundary_from, names_of,
    lemma_gexprs_push, lemma_gstmts_push, lemma_operand, p_args, p_assignment, p_block, p_call, p_condition,
    p_declaration, p_expr_statement, p_expression, p_for, p_for_cond, p_for_inc, p_for_init,
    p_function, p_if, p_program, program_errors, stmt_at, p_level, p_level_rest, p_params, p_primary, p_print, p_return,
    p_statement, p_unary, p_while, p_break, perr, GExpr, GStmt, PErr, PExpr, PStmt,
};
use crate::stmt::Stmt;
use crate::token::{Literal, Token, TokenType};
use std::rc::Rc;

verus! {

/// A parse error located at the line of one of `tokens`.
pub open spec fn located(tokens: Seq<Token>, e: ErrV) -> bool {
    match e {
        ErrV::Parser(l, _, _) => exists|k: int| 0 <= k < tokens.len() && #[trigger] tokens[k].line == l,
        _ => false,
    }
}

/// An expression result and the position after it, as values.
pub open spec fn expr_res(r: Result<Expr, Error>, c: usize) -> PExpr {
    match r {
        Ok(e) => Ok((gexpr(e), c as int)),
        Err(x) => Err((x@, c as int)),
    }
}

/// A statement result and the position after it, as values.
pub open spec fn stmt_res(r: Result<Stmt, Error>, c: usize) -> PStmt {
    match r {
        Ok(s) => Ok((gstmt(s), c as int)),
        Err(x) => Err((x@, c as int)),
    }
}

/// The values of a list of errors.
pub open spec fn errs_view(v: Seq<Error>) -> Seq<ErrV> {
    v.map_values(|e: Error| e@)
}

/// The parser over a token sequence ending with `EOF`.
pub struct Parser {
    pub tokens: Vec<Token>,
    pub current: usize,
}

/// The `while` loop, inside a block with the initializer, that a `for`
/// stands for.
fn for_loop(init: Option<Stmt>, cond: Expr, inc: Option<Expr>, body: Stmt) -> (r: Stmt)
    ensures
        gstmt(r) == for_tree(
            match init {
                Some(s) => Some(gstmt(s)),
                None => None,
            },
            gexpr(cond),
            match inc {
                Some(e) => Some(gexpr(e)),
                None => None,
            },
            gstmt(body),
        ),
{
    let ghost g_body = gstmt(body);
    let ghost g_inc = match &inc {
        Some(e) => Some(gexpr(*e)),
        None => None::<GExpr>,
    };
    let ghost g_init = match &init {
        Some(s) => Some(gstmt(*s)),
        None => None::<GStmt>,
    };
    let ghost g_cond = gexpr(cond);
    let body1 = match inc {
        Some(i) => {
            let ghost gi = gexpr(i);
            let mut v: Vec<Stmt> = Vec::new();
            v.push(body);
            v.push(Stmt::Expression(i));
            assert(gstmt(v@[1]) == GStmt::Expression(gi));
            assert(gstmts(v@, 0) == Seq::<GStmt>::empty());
            assert(gstmts(v@, 1) == Seq::<GStmt>::empty().push(gstmt(v@[0])));
            assert(gstmts(v@, 2) == gstmts(v@, 1).push(gstmt(v@[1])));
            assert(gstmts(v@, 2) =~= seq![g_body, GStmt::Expression(gi)]);
            let b = Stmt::Block(v);
            assert(gstmt(b) == GStmt::Block(seq![g_body, GStmt::Expression(gi)]));
            b
        },
        None => body,
    };
    let ghost g_body1 = match g_inc {
        Some(i) => GStmt::Block(seq![g_body, GStmt::Expression(i)]),
        None => g_body,
    };
    assert(gstmt(body1) == g_body1);
    let w = Stmt::While(cond, Box::new(body1));
    let ghost gw = GStmt::While(g_cond, Box::new(g_body1));
    assert(gstmt(w) == gw);
    let r = match init {
        Some(s) => {
            let ghost gs = gstmt(s);
            let mut v: Vec<Stmt> = Vec::new();
            v.push(s);
            v.push(w);
            assert(gstmts(v@, 0) == Seq::<GStmt>::empty());
            assert(gstmts(v@, 1) == Seq::<GStmt>::empty().push(gstmt(v@[0])));
            assert(gstmts(v@, 2) == gstmts(v@, 1).push(gstmt(v@[1])));
            assert(gstmts(v@, 2) =~= seq![gs, gw]);
            Stmt::Block(v)
        },
        None => w,
    };
    assert(gstmt(r) == for_tree(g_init, g_cond, g_inc, g_body));
    r
}

impl Parser {
    /// The tokens end with `EOF` and the position is on a token.
    pub open spec fn wf(&self) -> bool {
        &&& self.tokens@.len() > 0
        &&& self.tokens@.last().token_type == TokenType::EOF
        &&& self.current < self.tokens@.len()
    }

    /// `self` follows `old`: same tokens, not behind it.
    pub open spec fn follows(&self, old: &Parser) -> bool {
        &&& self.wf()
        &&& self.tokens@ == old.tokens@
        &&& self.current >= old.current
    }

    /// What every parsing function promises: a result consumes at least one
    /// token, an error is located.
    pub open spec fn outcome<T>(&self, old: &Parser, r: Result<T, Error>) -> bool {
        &&& self.follows(old)
        &&& match r {
            Ok(_) => self.current > old.current,
            Err(e) => located(old.tokens@, e@),
        }
    }

    /// A parser at the first of `tokens`.
    pub fn new(tokens: Vec<Token>) -> (r: Parser)
        requires
            tokens@.len() > 0,
            tokens@.last().token_type == TokenType::EOF,
        ensures
            r.wf(),
            r.tokens@ == tokens@,
            r.current == 0,
    {
        Parser { tokens, current: 0 }
    }

    fn peek(&self) -> (r: &Token)
        requires
            self.wf(),
        ensures
            *r == self.tokens@[self.current as int],
    {
        &self.tokens[self.current]
    }

    fn is_at_end(&self) -> (r: bool)
        requires
            self.wf(),
        ensures
            r == (self.tokens@[self.current as int].token_type == TokenType::EOF),
    {
        self.peek().token_type == TokenType::EOF
    }

    fn previous(&self) -> (r: Token)
        requires
            self.wf(),
            self.current > 0,
        ensures
            r == self.tokens@[self.current - 1],
    {
        self.tokens[self.current - 1].duplicate()
    }

    fn advance(&mut self) -> (r: Token)
        requires
            old(self).wf(),
        ensures
            final(self).follows(old(self)),
            old(self).tokens@[old(self).current as int].token_type != TokenType::EOF ==> final(self).current == old(self).current + 1,
            old(self).tokens@[old(self).current as int].token_type == TokenType::EOF ==> final(self).current == old(self).current,
            r == old(self).tokens@[old(self).current as int],
    {
        let r = self.peek().duplicate();
        let n = self.tokens.len();
        if !self.is_at_end() {
            assert(self.current != n - 1);
            self.current = self.current + 1;
        }
        r
    }

    fn check(&self, kind: TokenType) -> (r: bool)
        requires
            self.wf(),
        ensures
            r == (self.tokens@[self.current as int].token_type != TokenType::EOF
                && self.tokens@[self.current as int].token_type == kind),
    {
        if self.is_at_end() {
            return false;
        }
        self.peek().token_type == kind
    }

    /// Consumes the next token if its kind is one of `kinds`.
    fn match_tok(&mut self, kinds: Vec<TokenType>) -> (r: bool)
        requires
            old(self).wf(),
        ensures
            final(self).follows(old(self)),
            r == (old(self).tokens@[old(self).current as int].token_type != TokenType::EOF
                && kinds@.contains(old(self).tokens@[old(self).current as int].token_type)),
            r ==> final(self).current == old(self).current + 1,
            !r ==> final(self).current == old(self).current,
    {
        if self.is_at_end() {
            return false;
        }
        if self.peek().in_types(kinds) {
            self.advance();
            true
        } else {
            false
        }
    }

    /// Consumes the next token if it is of kind `kind`.
    fn match_one(&mut self, kind: TokenType) -> (r: bool)
        requires
            old(self).wf(),
        ensures
            final(self).follows(old(self)),
            r == check_at(old(self).tokens@, old(self).current as int, kind),
            r ==> final(self).current == old(self).current + 1,
            !r ==> final(self).current == old(self).current,
    {
        if self.check(kind) {
            self.advance();
            true
        } else {
            false
        }
    }

    /// Consumes the next token if it is an operator of binary level `lvl`.
    fn match_level(&mut self, lvl: u8) -> (r: bool)
        requires
            old(self).wf(),
        ensures
            final(self).follows(old(self)),
            r == (old(self).tokens@[old(self).current as int].token_type != TokenType::EOF
                && level_op(lvl as nat, old(self).tokens@[old(self).current as int].token_type)),
            r ==> final(self).current == old(self).current + 1,
            !r ==> final(self).current == old(self).current,
    {
        if self.is_at_end() {
            return false;
        }
        let k = self.peek().token_type;
        let hit = if lvl == 9 {
            k == TokenType::OR
        } else if lvl == 8 {
            k == TokenType::AND
        } else if lvl == 7 {
            k == TokenType::BANG_EQUAL || k == TokenType::EQUAL_EQUAL
        } else if lvl == 6 {
            k == TokenType::GREATER || k == TokenType::GREATER_EQUAL || k == TokenType::LESS || k
                == TokenType::LESS_EQUAL
        } else if lvl == 5 {
            k == TokenType::MINUS || k == TokenType::PLUS
        } else {
            k == TokenType::SLASH || k == TokenType::STAR
        };
        if hit {
            self.advance();
        }
        hit
    }

    /// The parse error `message` at `token` (naming it, or `end` at `EOF`).
    fn error(&self, token: &Token, message: &str) -> (r: Error)
        ensures
            r@ == perr(*token, message@),
    {
        let near = if token.token_type == TokenType::EOF {
            String::from_str("end")
        } else {
            token.lexeme.clone()
        };
        Error::Parser(token.line, String::from_str(message), near)
    }

    /// The parse error `message` at the next token.
    fn error_here(&self, message: &str) -> (r: Error)
        requires
            self.wf(),
        ensures
            located(self.tokens@, r@),
            r@ == perr(self.tokens@[self.current as int], message@),
    {
        self.error(self.peek(), message)
    }

    /// Consumes a token of kind `kind`, or fails with `message`.
    fn consume(&mut self, kind: TokenType, message: &str) -> (r: Result<Token, Error>)
        requires
            old(self).wf(),
        ensures
            final(self).outcome(old(self), r),
            match expect(old(self).tokens@, old(self).current as int, kind, message@) {
                Ok(q) => r matches Ok(t) && t == old(self).tokens@[old(self).current as int]
                    && final(self).current == q,
                Err((e, _)) => r matches Err(x) && x@ == e && final(self).current == old(self).current,
            },
    {
        if self.check(kind) {
            return Ok(self.advance());
        }
        Err(self.error_here(message))
    }

    /// Skips tokens up to the next statement boundary: just after a `;`,
    /// or before a token that begins a statement.
    fn synchronize(&mut self)
        requires
            old(self).wf(),
        ensures
            final(self).follows(old(self)),
            final(self).current == resync(old(self).tokens@, old(self).current as int),
            old(self).tokens@[old(self).current as int].token_type != TokenType::EOF ==> final(self).current > old(self).current,
    {
        if self.is_at_end() {
            return;
        }
        self.advance();
        while !self.is_at_end()
            invariant
                self.follows(old(self)),
                self.current > old(self).current,
                old(self).tokens@[old(self).current as int].token_type != TokenType::EOF,
                resync(old(self).tokens@, old(self).current as int) == boundary_from(
                    self.tokens@,
                    self.current as int,
                ),
            decreases self.tokens@.len() - self.current,
        {
            if self.previous().token_type == TokenType::SEMICOLON {
                return;
            }
            match self.peek().token_type {
                TokenType::CLASS | TokenType::FUN | TokenType::VAR | TokenType::FOR
                | TokenType::IF | TokenType::WHILE | TokenType::PRINT | TokenType::RETURN => {
                    return;
                },
                _ => {},
            }
            self.advance();
        }
    }

    /// Parses one statement.
    pub fn parse(&mut self) -> (r: Result<Stmt, Error>)
        requires
            old(self).wf(),
        ensures
            final(self).outcome(old(self), r),
            stmt_res(r, final(self).current) == p_statement(
                old(self).tokens@,
                old(self).current as int,
            ),
    {
        self.statement()
    }

    /// The next top-level statement, or its parse error (after skipping to
    /// the next statement boundary); none once only `EOF` is left. Each
    /// call that returns something moves past at least one token.
    pub fn next(&mut self) -> (r: Option<Result<Stmt, Error>>)
        requires
            old(self).wf(),
        ensures
            final(self).follows(old(self)),
            r is None <==> old(self).tokens@[old(self).current as int].token_type == TokenType::EOF,
            r is Some ==> final(self).current > old(self).current,
            r is None ==> final(self).current == old(self).current,
            r matches Some(Err(e)) ==> located(old(self).tokens@, e@),
            r matches Some(res) ==> stmt_res(res, final(self).current) == p_statement(
                old(self).tokens@,
                old(self).current as int,
            ) || res is Err,
            r matches Some(Err(e)) ==> (p_statement(old(self).tokens@, old(self).current as int) matches Err(
                (x, c),
            ) && x == e@ && final(self).current == resync(old(self).tokens@, c)),
            r matches Some(Ok(s)) ==> stmt_at(old(self).tokens@, old(self).current as int) == Ok::<
                (GStmt, int),
                PErr,
            >((gstmt(s), final(self).current as int)),
            r matches Some(Err(e)) ==> (stmt_at(old(self).tokens@, old(self).current as int) matches Err(
                (x, c),
            ) && x == e@ && final(self).current == resync(old(self).tokens@, c)),
    {
        proof {
            reveal(stmt_at);
        }
        if self.is_at_end() {
            return None;
        }
        let res = self.statement();
        if res.is_err() {
            self.synchronize();
        }
        Some(res)
    }

    /// Parses every statement up to `EOF`: all of them when each parses,
    /// otherwise the parse error of every statement that does not (after
    /// each, parsing resumes at the next statement boundary).
    pub fn parse_program(&mut self) -> (r: Result<Vec<Stmt>, Vec<Error>>)
        requires
            old(self).wf(),
        ensures
            final(self).follows(old(self)),
            match p_program(old(self).tokens@, old(self).current as int, Seq::empty()) {
                Some(gs) => r matches Ok(v) && gstmts(v@, v@.len() as int) == gs,
                None => r matches Err(es) && es@.len() > 0 && forall|k: int|
                    0 <= k < es@.len() ==> located(old(self).tokens@, #[trigger] es@[k]@),
            },
            r matches Err(es) ==> errs_view(es@) == program_errors(
                old(self).tokens@,
                old(self).current as int,
            ),
    {
        let mut stmts: Vec<Stmt> = Vec::new();
        let mut errors: Vec<Error> = Vec::new();
        assert(gstmts(stmts@, 0) =~= Seq::<GStmt>::empty());
        loop
            invariant
                self.follows(old(self)),
                forall|k: int|
                    0 <= k < errors@.len() ==> located(old(self).tokens@, #[trigger] errors@[k]@),
                errors@.len() == 0 ==> p_program(
                    old(self).tokens@,
                    old(self).current as int,
                    Seq::empty(),
                ) == p_program(
                    self.tokens@,
                    self.current as int,
                    gstmts(stmts@, stmts@.len() as int),
                ),
                errors@.len() > 0 ==> p_program(
                    old(self).tokens@,
                    old(self).current as int,
                    Seq::empty(),
                ) is None,
                program_errors(old(self).tokens@, old(self).current as int) == errs_view(errors@)
                    + program_errors(self.tokens@, self.current as int),
            ensures
                self.follows(old(self)),
                forall|k: int|
                    0 <= k < errors@.len() ==> located(old(self).tokens@, #[trigger] errors@[k]@),
                errors@.len() == 0 ==> p_program(
                    old(self).tokens@,
                    old(self).current as int,
                    Seq::empty(),
                ) == Some(gstmts(stmts@, stmts@.len() as int)),
                errors@.len() > 0 ==> p_program(
                    old(self).tokens@,
                    old(self).current as int,
                    Seq::empty(),
                ) is None,
                program_errors(old(self).tokens@, old(self).current as int) == errs_view(errors@),
            decreases self.tokens@.len() - self.current,
        {
            let ghost before = stmts@;
            let ghost eb = errors@;
            match self.next() {
                None => {
                    assert(errs_view(errors@) + Seq::<ErrV>::empty() =~= errs_view(errors@));
                    break ;
                },
                Some(Ok(s)) => {
                    proof {
                        lemma_gstmts_push(before, s);
                    }
                    stmts.push(s);
                },
                Some(Err(e)) => {
                    let ghost ev = e@;
                    errors.push(e);
                    assert(errs_view(errors@) =~= errs_view(eb).push(ev));
                    assert(errs_view(eb) + (seq![ev] + program_errors(self.tokens@, self.current as int))
                        =~= errs_view(errors@) + program_errors(self.tokens@, self.current as int));
                },
            }
        }
        if errors.len() > 0 {
            return Err(errors);
        }
        Ok(stmts)
    }

    fn expression(&mut self) -> (r: Result<Expr, Error>)
        requires
            old(self).wf(),
        ensures
            final(self).outcome(old(self), r),
            expr_res(r, final(self).current) == p_expression(
                old(self).tokens@,
                old(self).current as int,
            ),
        decreases old(self).tokens@.len() - old(self).current, 31nat,
    {
        self.assignment()
    }

    fn assignment(&mut self) -> (r: Result<Expr, Error>)
        requires
            old(self).wf(),
        ensures
            final(self).outcome(old(self), r),
            expr_res(r, final(self).current) == p_assignment(
                old(self).tokens@,
                old(self).current as int,
            ),
        decreases old(self).tokens@.len() - old(self).current, 30nat,
    {
        let expr = match self.or() {
            Ok(e) => e,
            Err(e) => {
                return Err(e);
            },
        };
        if self.match_one(TokenType::EQUAL) {
            let equals = self.previous();
            return match expr {
                Expr::Identifier(name) => match self.assignment() {
                    Ok(value) => Ok(Expr::Assignment(name, Box::new(value))),
                    Err(e) => Err(e),
                },
                _ => {
                    let e = self.error(&equals, "Unexpected Token");
                    assert(old(self).tokens@[self.current - 1].line == equals.line);
                    Err(e)
                },
            };
        }
        Ok(expr)
    }

    fn or(&mut self) -> (r: Result<Expr, Error>)
        requires
            old(self).wf(),
        ensures
            final(self).outcome(old(self), r),
            expr_res(r, final(self).current) == p_level(
                old(self).tokens@,
                old(self).current as int,
                9,
            ),
        decreases old(self).tokens@.len() - old(self).current, 23nat,
    {
        proof {
            lemma_operand(self.tokens@, self.current as int, 9);
        }
        let mut expr = match self.and() {
            Ok(e) => e,
            Err(e) => {
                return Err(e);
            },
        };
        while self.match_level(9)
            invariant
                self.follows(old(self)),
                self.current > old(self).current,
                p_level(old(self).tokens@, old(self).current as int, 9) == p_level_rest(
                    self.tokens@,
                    self.current as int,
                    9,
                    gexpr(expr),
                ),
            decreases self.tokens@.len() - self.current,
        {
            proof {
                lemma_operand(self.tokens@, self.current as int, 9);
            }
            let op = self.previous();
            let right = match self.and() {
                Ok(e) => e,
                Err(e) => {
                    return Err(e);
                },
            };
            expr = Expr::Logical(Box::new(expr), op, Box::new(right));
        }
        Ok(expr)
    }

    fn and(&mut self) -> (r: Result<Expr, Error>)
        requires
            old(self).wf(),
        ensures
            final(self).outcome(old(self), r),
            expr_res(r, final(self).current) == p_level(
                old(self).tokens@,
                old(self).current as int,
                8,
            ),
        decreases old(self).tokens@.len() - old(self).current, 21nat,
    {
        proof {
            lemma_operand(self.tokens@, self.current as int, 8);
        }
        let mut expr = match self.equality() {
            Ok(e) => e,
            Err(e) => {
                return Err(e);
            },
        };
        while self.match_level(8)
            invariant
                self.follows(old(self)),
                self.current > old(self).current,
                p_level(old(self).tokens@, old(self).current as int, 8) == p_level_rest(
                    self.tokens@,
                    self.current as int,
                    8,
                    gexpr(expr),
                ),
            decreases self.tokens@.len() - self.current,
        {
            proof {
                lemma_operand(self.tokens@, self.current as int, 8);
            }
            let op = self.previous();
            let right = match self.equality() {
                Ok(e) => e,
                Err(e) => {
                    return Err(e);
                },
            };
            expr = Expr::Logical(Box::new(expr), op, Box::new(right));
        }
        Ok(expr)
    }

    fn equality(&mut self) -> (r: Result<Expr, Error>)
        requires
            old(self).wf(),
        ensures
            final(self).outcome(old(self), r),
            expr_res(r, final(self).current) == p_level(
                old(self).tokens@,
                old(self).current as int,
                7,
            ),
        decreases old(self).tokens@.len() - old(self).current, 19nat,
    {
        proof {
            lemma_operand(self.tokens@, self.current as int, 7);
        }
        let mut expr = match self.comparision() {
            Ok(e) => e,
            Err(e) => {
                return Err(e);
            },
        };
        while self.match_level(7)
            invariant
                self.follows(old(self)),
                self.current > old(self).current,
                p_level(old(self).tokens@, old(self).current as int, 7) == p_level_rest(
                    self.tokens@,
                    self.current as int,
                    7,
                    gexpr(expr),
                ),
            decreases self.tokens@.len() - self.current,
        {
            proof {
                lemma_operand(self.tokens@, self.current as int, 7);
            }
            let op = self.previous();
            let right = match self.comparision() {
                Ok(e) => e,
                Err(e) => {
                    return Err(e);
                },
            };
            expr = Expr::Binary(Box::new(expr), op, Box::new(right));
        }
        Ok(expr)
    }

    fn comparision(&mut self) -> (r: Result<Expr, Error>)
        requires
            old(self).wf(),
        ensures
            final(self).outcome(old(self), r),
            expr_res(r, final(self).current) == p_level(
                old(self).tokens@,
                old(self).current as int,
                6,
            ),
        decreases old(self).tokens@.len() - old(self).current, 17nat,
    {
        proof {
            lemma_operand(self.tokens@, self.current as int, 6);
        }
        let mut expr = match self.term() {
            Ok(e) => e,
            Err(e) => {
                return Err(e);
            },
        };
        while self.match_level(6)
            invariant
                self.follows(old(self)),
                self.current > old(self).current,
                p_level(old(self).tokens@, old(self).current as int, 6) == p_level_rest(
                    self.tokens@,
                    self.current as int,
                    6,
                    gexpr(expr),
                ),
            decreases self.tokens@.len() - self.current,
        {
            proof {
                lemma_operand(self.tokens@, self.current as int, 6);
            }
            let op = self.previous();
            let right = match self.term() {
                Ok(e) => e,
                Err(e) => {
                    return Err(e);
                },
            };
            expr = Expr::Binary(Box::new(expr), op, Box::new(right));
        }
        Ok(expr)
    }

    fn term(&mut self) -> (r: Result<Expr, Error>)
        requires
            old(self).wf(),
        ensures
            final(self).outcome(old(self), r),
            expr_res(r, final(self).current) == p_level(
                old(self).tokens@,
                old(self).current as int,
                5,
            ),
        decreases old(self).tokens@.len() - old(self).current, 15nat,
    {
        proof {
            lemma_operand(self.tokens@, self.current as int, 5);
        }
        let mut expr = match self.factor() {
            Ok(e) => e,
            Err(e) => {
                return Err(e);
            },
        };
        while self.match_level(5)
            invariant
                self.follows(old(self)),
                self.current > old(self).current,
                p_level(old(self).tokens@, old(self).current as int, 5) == p_level_rest(
                    self.tokens@,
                    self.current as int,
                    5,
                    gexpr(expr),
                ),
            decreases self.tokens@.len() - self.current,
        {
            proof {
                lemma_operand(self.tokens@, self.current as int, 5);
            }
            let op = self.previous();
            let right = match self.factor() {
                Ok(e) => e,
                Err(e) => {
                    return Err(e);
                },
            };
            expr = Expr::Binary(Box::new(expr), op, Box::new(right));
        }
        Ok(expr)
    }

    fn factor(&mut self) -> (r: Result<Expr, Error>)
        requires
            old(self).wf(),
        ensures
            final(self).outcome(old(self), r),
            expr_res(r, final(self).current) == p_level(
                old(self).tokens@,
                old(self).current as int,
                4,
            ),
        decreases old(self).tokens@.len() - old(self).current, 13nat,
    {
        proof {
            lemma_operand(self.tokens@, self.current as int, 4);
        }
        let mut expr = match self.unary() {
            Ok(e) => e,
            Err(e) => {
                return Err(e);
            },
        };
        while self.match_level(4)
            invariant
                self.follows(old(self)),
                self.current > old(self).current,
                p_level(old(self).tokens@, old(self).current as int, 4) == p_level_rest(
                    self.tokens@,
                    self.current as int,
                    4,
                    gexpr(expr),
                ),
            decreases self.tokens@.len() - self.current,
        {
            proof {
                lemma_operand(self.tokens@, self.current as int, 4);
            }
            let op = self.previous();
            let right = match self.unary() {
                Ok(e) => e,
                Err(e) => {
                    return Err(e);
                },
            };
            expr = Expr::Binary(Box::new(expr), op, Box::new(right));
        }
        Ok(expr)
    }

    fn unary(&mut self) -> (r: Result<Expr, Error>)
        requires
            old(self).wf(),
        ensures
            final(self).outcome(old(self), r),
            expr_res(r, final(self).current) == p_unary(
                old(self).tokens@,
                old(self).current as int,
            ),
        decreases old(self).tokens@.len() - old(self).current, 3nat,
    {
        if self.match_one(TokenType::BANG) || self.match_one(TokenType::MINUS) {
            let op = self.previous();
            return match self.unary() {
                Ok(right) => Ok(Expr::Unary(op, Box::new(right))),
                Err(e) => Err(e),
            };
        }
        self.call()
    }

    fn call(&mut self) -> (r: Result<Expr, Error>)
        requires
            old(self).wf(),
        ensures
            final(self).outcome(old(self), r),
            expr_res(r, final(self).current) == p_call(
                old(self).tokens@,
                old(self).current as int,
            ),
        decreases old(self).tokens@.len() - old(self).current, 2nat,
    {
        let callee = match self.primary() {
            Ok(e) => e,
            Err(e) => {
                return Err(e);
            },
        };
        if !self.match_one(TokenType::LEFT_PAREN) {
            return Ok(callee);
        }
        let ghost a = self.current as int;
        let mut args: Vec<Expr> = Vec::new();
        if !self.check(TokenType::RIGHT_PAREN) {
            assert(gexprs(args@, 0) =~= Seq::<GExpr>::empty());
            assert(p_args(self.tokens@, a, Seq::empty()) is Err ==> p_call(
                old(self).tokens@,
                old(self).current as int,
            ) == Err::<(GExpr, int), PErr>(p_args(self.tokens@, a, Seq::empty())->Err_0));
            loop
                invariant_except_break
                    p_args(self.tokens@, a, Seq::empty()) == p_args(
                        self.tokens@,
                        self.current as int,
                        gexprs(args@, args@.len() as int),
                    ),
                invariant
                    self.follows(old(self)),
                    self.current > old(self).current,
                    self.current >= a,
                    p_args(self.tokens@, a, Seq::empty()) is Err ==> p_call(
                        old(self).tokens@,
                        old(self).current as int,
                    ) == Err::<(GExpr, int), PErr>(p_args(self.tokens@, a, Seq::empty())->Err_0),
                ensures
                    self.follows(old(self)),
                    self.current > old(self).current,
                    p_args(self.tokens@, a, Seq::empty()) == Ok::<(Seq<GExpr>, int), PErr>(
                        (gexprs(args@, args@.len() as int), self.current as int),
                    ),
                decreases self.tokens@.len() - self.current,
            {
                let ghost before = args@;
                match self.expression() {
                    Ok(e) => {
                        proof {
                            lemma_gexprs_push(before, e);
                        }
                        args.push(e);
                    },
                    Err(e) => {
                        return Err(e);
                    },
                }
                if !self.match_one(TokenType::COMMA) {
                    break ;
                }
            }
        } else {
            assert(gexprs(args@, 0) =~= Seq::<GExpr>::empty());
        }
        let paren = match self.consume(TokenType::RIGHT_PAREN, "Expect ')' after arguments.") {
            Ok(t) => t,
            Err(e) => {
                return Err(e);
            },
        };
        Ok(Expr::Call(Box::new(callee), paren, args))
    }

    fn primary(&mut self) -> (r: Result<Expr, Error>)
        requires
            old(self).wf(),
        ensures
            final(self).outcome(old(self), r),
            expr_res(r, final(self).current) == p_primary(
                old(self).tokens@,
                old(self).current as int,
            ),
        decreases old(self).tokens@.len() - old(self).current, 1nat,
    {
        if self.match_one(TokenType::IDENTIFIER) {
            return Ok(Expr::Identifier(self.previous()));
        }
        if self.match_one(TokenType::FALSE) || self.match_one(TokenType::TRUE) || self.match_one(
            TokenType::NIL,
        ) {
            let t = self.previous();
            let literal = match t.token_type {
                TokenType::FALSE => Literal::False,
                TokenType::TRUE => Literal::True,
                _ => Literal::Nil,
            };
            let lit = Token { token_type: t.token_type, lexeme: t.lexeme, literal, line: t.line };
            assert(lit@ == keyword_literal(old(self).tokens@[old(self).current as int]));
            return Ok(Expr::Literal(lit));
        }
        if self.match_one(TokenType::NUMBER) || self.match_one(TokenType::STRING) {
            return Ok(Expr::Literal(self.previous()));
        }
        if self.match_one(TokenType::LEFT_PAREN) {
            let expr = match self.expression() {
                Ok(e) => e,
                Err(e) => {
                    return Err(e);
                },
            };
            return match self.consume(TokenType::RIGHT_PAREN, "Expect ')' after expression.") {
                Ok(_) => Ok(Expr::Grouping(Box::new(expr))),
                Err(e) => Err(e),
            };
        }
        Err(self.error_here("Unexpected Token"))
    }

    fn statement(&mut self) -> (r: Result<Stmt, Error>)
        requires
            old(self).wf(),
        ensures
            final(self).outcome(old(self), r),
            stmt_res(r, final(self).current) == p_statement(
                old(self).tokens@,
                old(self).current as int,
            ),
        decreases old(self).tokens@.len() - old(self).current, 44nat,
    {
        if self.match_one(TokenType::SEMICOLON) {
            return Ok(Stmt::Empty);
        }
        if self.match_one(TokenType::PRINT) {
            return self.print_statement();
        }
        if self.match_one(TokenType::VAR) {
            return self.declaration_statement();
        }
        if self.match_one(TokenType::LEFT_BRACE) {
            return match self.block_statement() {
                Ok(stmts) => Ok(Stmt::Block(stmts)),
                Err(e) => Err(e),
            };
        }
        if self.match_one(TokenType::IF) {
            return self.if_statement();
        }
        if self.match_one(TokenType::WHILE) {
            return self.while_statement();
        }
        if self.match_one(TokenType::FOR) {
            return self.for_statement();
        }
        if self.match_one(TokenType::BREAK) {
            return self.break_statement();
        }
        if self.match_one(TokenType::FUN) {
            return self.function_statement();
        }
        if self.match_one(TokenType::RETURN) {
            return self.return_statement();
        }
        self.expr_statement()
    }

    fn print_statement(&mut self) -> (r: Result<Stmt, Error>)
        requires
            old(self).wf(),
        ensures
            final(self).outcome(old(self), r),
            stmt_res(r, final(self).current) == p_print(
                old(self).tokens@,
                old(self).current as int,
            ),
        decreases old(self).tokens@.len() - old(self).current, 40nat,
    {
        let expr = match self.expression() {
            Ok(e) => e,
            Err(e) => {
                return Err(e);
            },
        };
        match self.consume(TokenType::SEMICOLON, "Expect ';' after value.") {
            Ok(_) => Ok(Stmt::Print(expr)),
            Err(e) => Err(e),
        }
    }

    /// An expression statement; a `;` after it is optional.
    fn expr_statement(&mut self) -> (r: Result<Stmt, Error>)
        requires
            old(self).wf(),
        ensures
            final(self).outcome(old(self), r),
            stmt_res(r, final(self).current) == p_expr_statement(
                old(self).tokens@,
                old(self).current as int,
            ),
        decreases old(self).tokens@.len() - old(self).current, 40nat,
    {
        let expr = match self.expression() {
            Ok(e) => e,
            Err(e) => {
                return Err(e);
            },
        };
        self.match_one(TokenType::SEMICOLON);
        Ok(Stmt::Expression(expr))
    }

    fn declaration_statement(&mut self) -> (r: Result<Stmt, Error>)
        requires
            old(self).wf(),
        ensures
            final(self).outcome(old(self), r),
            stmt_res(r, final(self).current) == p_declaration(
                old(self).tokens@,
                old(self).current as int,
            ),
        decreases old(self).tokens@.len() - old(self).current, 40nat,
    {
        let id = match self.consume(TokenType::IDENTIFIER, "Expect variable name.") {
            Ok(t) => t,
            Err(e) => {
                return Err(e);
            },
        };
        let mut init: Option<Expr> = None;
        if self.match_one(TokenType::EQUAL) {
            match self.expression() {
                Ok(e) => {
                    init = Some(e);
                },
                Err(e) => {
                    return Err(e);
                },
            }
        }
        match self.consume(TokenType::SEMICOLON, "Expect ';' after variable declaration.") {
            Ok(_) => Ok(Stmt::Declaration(id, init)),
            Err(e) => Err(e),
        }
    }

    /// The statements of a block whose `{` was just consumed, through `}`.
    fn block_statement(&mut self) -> (r: Result<Vec<Stmt>, Error>)
        requires
            old(self).wf(),
        ensures
            final(self).outcome(old(self), r),
            match r {
                Ok(v) => p_block(old(self).tokens@, old(self).current as int, Seq::empty()) == Ok::<
                    (Seq<GStmt>, int),
                    PErr,
                >((gstmts(v@, v@.len() as int), final(self).current as int)),
                Err(e) => p_block(old(self).tokens@, old(self).current as int, Seq::empty())
                    == Err::<(Seq<GStmt>, int), PErr>((e@, final(self).current as int)),
            },
        decreases old(self).tokens@.len() - old(self).current, 45nat,
    {
        let mut stmts: Vec<Stmt> = Vec::new();
        assert(gstmts(stmts@, 0) =~= Seq::<GStmt>::empty());
        while !self.check(TokenType::RIGHT_BRACE) && !self.is_at_end()
            invariant
                self.follows(old(self)),
                p_block(old(self).tokens@, old(self).current as int, Seq::empty()) == p_block(
                    self.tokens@,
                    self.current as int,
                    gstmts(stmts@, stmts@.len() as int),
                ),
            decreases self.tokens@.len() - self.current,
        {
            let ghost before = stmts@;
            match self.statement() {
                Ok(s) => {
                    proof {
                        lemma_gstmts_push(before, s);
                    }
                    stmts.push(s);
                },
                Err(e) => {
                    return Err(e);
                },
            }
        }
        match self.consume(TokenType::RIGHT_BRACE, "Expect '}' after block.") {
            Ok(_) => Ok(stmts),
            Err(e) => Err(e),
        }
    }

    /// `(` condition `)`.
    fn condition(&mut self, open_msg: &str, close_msg: &str) -> (r: Result<Expr, Error>)
        requires
            old(self).wf(),
        ensures
            final(self).outcome(old(self), r),
            expr_res(r, final(self).current) == p_condition(
                old(self).tokens@,
                old(self).current as int,
                open_msg@,
                close_msg@,
            ),
        decreases old(self).tokens@.len() - old(self).current, 40nat,
    {
        match self.consume(TokenType::LEFT_PAREN, open_msg) {
            Ok(_) => {},
            Err(e) => {
                return Err(e);
            },
        }
        let cond = match self.expression() {
            Ok(e) => e,
            Err(e) => {
                return Err(e);
            },
        };
        match self.consume(TokenType::RIGHT_PAREN, close_msg) {
            Ok(_) => Ok(cond),
            Err(e) => Err(e),
        }
    }

    fn if_statement(&mut self) -> (r: Result<Stmt, Error>)
        requires
            old(self).wf(),
        ensures
            final(self).outcome(old(self), r),
            stmt_res(r, final(self).current) == p_if(old(self).tokens@, old(self).current as int),
        decreases old(self).tokens@.len() - old(self).current, 41nat,
    {
        let cond = match self.condition("Expect '(' after 'if'.", "Expect ')' after if condition.") {
            Ok(e) => e,
            Err(e) => {
                return Err(e);
            },
        };
        let then_stmt = match self.statement() {
            Ok(s) => s,
            Err(e) => {
                return Err(e);
            },
        };
        if self.match_one(TokenType::ELSE) {
            return match self.statement() {
                Ok(s) => Ok(Stmt::If(cond, Box::new(then_stmt), Some(Box::new(s)))),
                Err(e) => Err(e),
            };
        }
        Ok(Stmt::If(cond, Box::new(then_stmt), None))
    }

    fn while_statement(&mut self) -> (r: Result<Stmt, Error>)
        requires
            old(self).wf(),
        ensures
            final(self).outcome(old(self), r),
            stmt_res(r, final(self).current) == p_while(
                old(self).tokens@,
                old(self).current as int,
            ),
        decreases old(self).tokens@.len() - old(self).current, 41nat,
    {
        let cond = match self.condition("Expect '(' after 'while'.", "Expect ')' after condition.") {
            Ok(e) => e,
            Err(e) => {
                return Err(e);
            },
        };
        match self.statement() {
            Ok(body) => Ok(Stmt::While(cond, Box::new(body))),
            Err(e) => Err(e),
        }
    }

    fn for_init(&mut self) -> (r: Result<Option<Stmt>, Error>)
        requires
            old(self).wf(),
        ensures
            final(self).outcome(old(self), r),
            p_for_init(old(self).tokens@, old(self).current as int) == match r {
                Ok(Some(s)) => Ok((Some(gstmt(s)), final(self).current as int)),
                Ok(None) => Ok((None, final(self).current as int)),
                Err(e) => Err::<(Option<GStmt>, int), PErr>((e@, final(self).current as int)),
            },
        decreases old(self).tokens@.len() - old(self).current, 41nat,
    {
        if self.match_one(TokenType::SEMICOLON) {
            return Ok(None);
        }
        if self.match_one(TokenType::VAR) {
            return match self.declaration_statement() {
                Ok(s) => Ok(Some(s)),
                Err(e) => Err(e),
            };
        }
        let e = match self.expression() {
            Ok(e) => e,
            Err(e) => {
                return Err(e);
            },
        };
        match self.consume(TokenType::SEMICOLON, "Expect ';' after loop initialization.") {
            Ok(_) => Ok(Some(Stmt::Expression(e))),
            Err(x) => Err(x),
        }
    }

    fn for_cond(&mut self) -> (r: Result<Expr, Error>)
        requires
            old(self).wf(),
        ensures
            final(self).outcome(old(self), r),
            expr_res(r, final(self).current) == p_for_cond(
                old(self).tokens@,
                old(self).current as int,
            ),
        decreases old(self).tokens@.len() - old(self).current, 41nat,
    {
        let cond = if self.check(TokenType::SEMICOLON) {
            let line = self.peek().line;
            let t = Token {
                token_type: TokenType::TRUE,
                lexeme: String::from_str("true"),
                literal: Literal::True,
                line,
            };
            Expr::Literal(t)
        } else {
            match self.expression() {
                Ok(e) => e,
                Err(e) => {
                    return Err(e);
                },
            }
        };
        match self.consume(TokenType::SEMICOLON, "Expect ';' after loop condition.") {
            Ok(_) => Ok(cond),
            Err(e) => Err(e),
        }
    }

    fn for_inc(&mut self) -> (r: Result<Option<Expr>, Error>)
        requires
            old(self).wf(),
        ensures
            final(self).outcome(old(self), r),
            p_for_inc(old(self).tokens@, old(self).current as int) == match r {
                Ok(Some(e)) => Ok((Some(gexpr(e)), final(self).current as int)),
                Ok(None) => Ok((None, final(self).current as int)),
                Err(e) => Err::<(Option<GExpr>, int), PErr>((e@, final(self).current as int)),
            },
        decreases old(self).tokens@.len() - old(self).current, 41nat,
    {
        let inc: Option<Expr> = if self.check(TokenType::RIGHT_PAREN) {
            None
        } else {
            match self.expression() {
                Ok(e) => Some(e),
                Err(e) => {
                    return Err(e);
                },
            }
        };
        match self.consume(TokenType::RIGHT_PAREN, "Expect ')' after for clauses.") {
            Ok(_) => Ok(inc),
            Err(e) => Err(e),
        }
    }

    /// `for (init; cond; inc) body`, as a block holding the initializer and
    /// a `while` whose body runs `body` then the increment.
    fn for_statement(&mut self) -> (r: Result<Stmt, Error>)
        requires
            old(self).wf(),
        ensures
            final(self).outcome(old(self), r),
            stmt_res(r, final(self).current) == p_for(old(self).tokens@, old(self).current as int),
        decreases old(self).tokens@.len() - old(self).current, 42nat,
    {
        match self.consume(TokenType::LEFT_PAREN, "Expect '(' after 'for'.") {
            Ok(_) => {},
            Err(e) => {
                return Err(e);
            },
        }
        let init = match self.for_init() {
            Ok(i) => i,
            Err(e) => {
                return Err(e);
            },
        };
        let cond = match self.for_cond() {
            Ok(c) => c,
            Err(e) => {
                return Err(e);
            },
        };
        let inc = match self.for_inc() {
            Ok(i) => i,
            Err(e) => {
                return Err(e);
            },
        };
        let body = match self.statement() {
            Ok(s) => s,
            Err(e) => {
                return Err(e);
            },
        };
        Ok(for_loop(init, cond, inc, body))
    }

    fn break_statement(&mut self) -> (r: Result<Stmt, Error>)
        requires
            old(self).wf(),
            old(self).current > 0,
        ensures
            final(self).outcome(old(self), r),
            stmt_res(r, final(self).current) == p_break(
                old(self).tokens@,
                old(self).current as int,
                old(self).tokens@[old(self).current - 1].line,
            ),
        decreases old(self).tokens@.len() - old(self).current, 40nat,
    {
        let line = self.previous().line;
        match self.consume(TokenType::SEMICOLON, "Expect ';' after 'break'.") {
            Ok(_) => Ok(Stmt::Break(line)),
            Err(e) => Err(e),
        }
    }

    fn return_statement(&mut self) -> (r: Result<Stmt, Error>)
        requires
            old(self).wf(),
            old(self).current > 0,
        ensures
            final(self).outcome(old(self), r),
            stmt_res(r, final(self).current) == p_return(
                old(self).tokens@,
                old(self).current as int,
                old(self).tokens@[old(self).current - 1].line,
            ),
        decreases old(self).tokens@.len() - old(self).current, 40nat,
    {
        let line = self.previous().line;
        let value = if self.check(TokenType::SEMICOLON) {
            Expr::Literal(
                Token {
                    token_type: TokenType::NIL,
                    lexeme: String::from_str("nil"),
                    literal: Literal::Nil,
                    line,
                },
            )
        } else {
            match self.expression() {
                Ok(e) => e,
                Err(e) => {
                    return Err(e);
                },
            }
        };
        match self.consume(TokenType::SEMICOLON, "Expect ';' after return value.") {
            Ok(_) => Ok(Stmt::Return(line, value)),
            Err(e) => Err(e),
        }
    }

    fn params(&mut self) -> (r: Result<Vec<String>, Error>)
        requires
            old(self).wf(),
        ensures
            final(self).outcome(old(self), r),
            p_params(old(self).tokens@, old(self).current as int, Seq::empty()) == match r {
                Ok(v) => Ok((names_of(v@), final(self).current as int)),
                Err(e) => Err::<(Seq<Seq<char>>, int), PErr>((e@, final(self).current as int)),
            },
    {
        let mut params: Vec<String> = Vec::new();
        assert(names_of(params@) =~= Seq::<Seq<char>>::empty());
        loop
            invariant_except_break
                p_params(old(self).tokens@, old(self).current as int, Seq::empty()) == p_params(
                    self.tokens@,
                    self.current as int,
                    names_of(params@),
                ),
            invariant
                self.follows(old(self)),
                self.current >= old(self).current,
                params@.len() > 0 ==> self.current > old(self).current,
            ensures
                self.follows(old(self)),
                self.current > old(self).current,
                p_params(old(self).tokens@, old(self).current as int, Seq::empty()) == Ok::<
                    (Seq<Seq<char>>, int),
                    PErr,
                >((names_of(params@), self.current as int)),
            decreases self.tokens@.len() - self.current,
        {
            let ghost before = params@;
            match self.consume(TokenType::IDENTIFIER, "Expect parameter name.") {
                Ok(t) => {
                    let ghost name = t.lexeme@;
                    params.push(t.lexeme);
                    assert(names_of(params@) =~= names_of(before).push(name));
                },
                Err(e) => {
                    return Err(e);
                },
            }
            if !self.match_one(TokenType::COMMA) {
                break ;
            }
        }
        Ok(params)
    }

    /// `fun name(params) { body }`.
    fn function_statement(&mut self) -> (r: Result<Stmt, Error>)
        requires
            old(self).wf(),
        ensures
            final(self).outcome(old(self), r),
            stmt_res(r, final(self).current) == p_function(
                old(self).tokens@,
                old(self).current as int,
            ),
        decreases old(self).tokens@.len() - old(self).current, 41nat,
    {
        let name = match self.consume(TokenType::IDENTIFIER, "Expect function name.") {
            Ok(t) => t,
            Err(e) => {
                return Err(e);
            },
        };
        match self.consume(TokenType::LEFT_PAREN, "Expect '(' after function name.") {
            Ok(_) => {},
            Err(e) => {
                return Err(e);
            },
        }
        let params: Vec<String> = if self.check(TokenType::RIGHT_PAREN) {
            let v: Vec<String> = Vec::new();
            assert(names_of(v@) =~= Seq::<Seq<char>>::empty());
            v
        } else {
            match self.params() {
                Ok(v) => v,
                Err(e) => {
                    return Err(e);
                },
            }
        };
        match self.consume(TokenType::RIGHT_PAREN, "Expect ')' after parameters.") {
            Ok(_) => {},
            Err(e) => {
                return Err(e);
            },
        }
        match self.consume(TokenType::LEFT_BRACE, "Expect '{' before function body.") {
            Ok(_) => {},
            Err(e) => {
                return Err(e);
            },
        }
        let ghost q5 = self.current as int;
        match self.block_statement() {
            Ok(body) => {
                let ghost gb = gstmts(body@, body@.len() as int);
                let blk = Stmt::Block(body);
                assert(gstmt(blk) == GStmt::Block(gb));
                let f = Stmt::Function(name, params, Rc::new(blk));
                Ok(f)
            },
            Err(e) => Err(e),
        }
    }
}

} // verus!
