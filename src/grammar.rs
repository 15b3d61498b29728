//! The grammar, as the trees that parsing yields from a token sequence.
//!
//! Syntax trees are viewed as [`GExpr`] and [`GStmt`] (tokens by their
//! content). Each `p_*` function gives, for the tokens and a position,
//! the tree that the parser's function of the same name yields and the
//! position after it, or the parse error it reports.
use vstd::prelude::*;
use crate::error::ErrV;
use crate::parser::located;
use crate::expr::Expr;
use crate::stmt::Stmt;
use crate::token::{TokV, Token, TokenType, Val};

verus! {

/// The content of an expression tree.
pub enum GExpr {
    Identifier(TokV),
    Literal(TokV),
    Grouping(Box<GExpr>),
    Unary(TokV, Box<GExpr>),
    Binary(Box<GExpr>, TokV, Box<GExpr>),
    Logical(Box<GExpr>, TokV, Box<GExpr>),
    Assignment(TokV, Box<GExpr>),
    Call(Box<GExpr>, TokV, Seq<GExpr>),
}

/// The content of a statement tree.
pub enum GStmt {
    Empty,
    Break(u32),
    Expression(GExpr),
    Print(GExpr),
    Declaration(TokV, Option<GExpr>),
    Block(Seq<GStmt>),
    If(GExpr, Box<GStmt>, Option<Box<GStmt>>),
    While(GExpr, Box<GStmt>),
    Function(TokV, Seq<Seq<char>>, Box<GStmt>),
    Return(u32, GExpr),
}

/// The texts of a list of names.
pub open spec fn names_of(v: Seq<String>) -> Seq<Seq<char>> {
    v.map_values(|p: String| p@)
}

/// The content of an expression.
pub open spec fn gexpr(e: Expr) -> GExpr
    decreases e, 0nat,
{
    match e {
        Expr::Identifier(t) => GExpr::Identifier(t@),
        Expr::Literal(t) => GExpr::Literal(t@),
        Expr::Grouping(x) => GExpr::Grouping(Box::new(gexpr(*x))),
        Expr::Unary(op, x) => GExpr::Unary(op@, Box::new(gexpr(*x))),
        Expr::Binary(l, op, r) => GExpr::Binary(Box::new(gexpr(*l)), op@, Box::new(gexpr(*r))),
        Expr::Logical(l, op, r) => GExpr::Logical(Box::new(gexpr(*l)), op@, Box::new(gexpr(*r))),
        Expr::Assignment(t, x) => GExpr::Assignment(t@, Box::new(gexpr(*x))),
        Expr::Call(c, p, args) => GExpr::Call(
            Box::new(gexpr(*c)),
            p@,
            gexprs(args@, args@.len() as int),
        ),
    }
}

/// The contents of the first `n` expressions of `args`.
pub open spec fn gexprs(args: Seq<Expr>, n: int) -> Seq<GExpr>
    decreases args, n,
{
    if n <= 0 || n > args.len() {
        Seq::empty()
    } else {
        gexprs(args, n - 1).push(gexpr(args[n - 1]))
    }
}

/// The content of a statement.
pub open spec fn gstmt(s: Stmt) -> GStmt
    decreases s, 0nat,
{
    match s {
        Stmt::Empty => GStmt::Empty,
        Stmt::Break(l) => GStmt::Break(l),
        Stmt::Expression(e) => GStmt::Expression(gexpr(e)),
        Stmt::Print(e) => GStmt::Print(gexpr(e)),
        Stmt::Declaration(t, init) => GStmt::Declaration(
            t@,
            match init {
                Some(e) => Some(gexpr(e)),
                None => None,
            },
        ),
        Stmt::Block(ss) => GStmt::Block(gstmts(ss@, ss@.len() as int)),
        Stmt::If(c, t, e) => GStmt::If(
            gexpr(c),
            Box::new(gstmt(*t)),
            match e {
                Some(x) => Some(Box::new(gstmt(*x))),
                None => None,
            },
        ),
        Stmt::While(c, b) => GStmt::While(gexpr(c), Box::new(gstmt(*b))),
        Stmt::Function(t, params, body) => GStmt::Function(
            t@,
            names_of(params@),
            Box::new(gstmt(*body)),
        ),
        Stmt::Return(l, e) => GStmt::Return(l, gexpr(e)),
    }
}

/// The contents of the first `n` statements of `ss`.
pub open spec fn gstmts(ss: Seq<Stmt>, n: int) -> Seq<GStmt>
    decreases ss, n,
{
    if n <= 0 || n > ss.len() {
        Seq::empty()
    } else {
        gstmts(ss, n - 1).push(gstmt(ss[n - 1]))
    }
}

/// Appending an expression appends its content.
pub proof fn lemma_gexprs_push(args: Seq<Expr>, a: Expr)
    ensures
        gexprs(args.push(a), args.len() + 1 as int) == gexprs(args, args.len() as int).push(gexpr(a)),
{
    lemma_gexprs_prefix(args, a, args.len() as int);
}

proof fn lemma_gexprs_prefix(args: Seq<Expr>, a: Expr, n: int)
    requires
        0 <= n <= args.len(),
    ensures
        gexprs(args.push(a), n) == gexprs(args, n),
    decreases n,
{
    if n > 0 {
        lemma_gexprs_prefix(args, a, n - 1);
    }
}

/// Appending a statement appends its content.
pub proof fn lemma_gstmts_push(ss: Seq<Stmt>, a: Stmt)
    ensures
        gstmts(ss.push(a), ss.len() + 1 as int) == gstmts(ss, ss.len() as int).push(gstmt(a)),
{
    lemma_gstmts_prefix(ss, a, ss.len() as int);
}

proof fn lemma_gstmts_prefix(ss: Seq<Stmt>, a: Stmt, n: int)
    requires
        0 <= n <= ss.len(),
    ensures
        gstmts(ss.push(a), n) == gstmts(ss, n),
    decreases n,
{
    if n > 0 {
        lemma_gstmts_prefix(ss, a, n - 1);
    }
}

/// A parse error and the position where parsing stopped.
pub type PErr = (ErrV, int);

/// A parse result: a tree and the position after it, or an error.
pub type PExpr = Result<(GExpr, int), PErr>;

/// A parse result for a statement.
pub type PStmt = Result<(GStmt, int), PErr>;

/// The error for a position that is not on a token (never reached from a
/// well-formed parser).
pub open spec fn bad() -> ErrV {
    ErrV::Parser(0, Seq::empty(), Seq::empty())
}

/// Whether the token at `p` is of kind `k` (never true at `EOF`).
pub open spec fn check_at(ts: Seq<Token>, p: int, k: TokenType) -> bool {
    ts[p].token_type != TokenType::EOF && ts[p].token_type == k
}

/// The parse error `msg` at token `t`, naming it (or `end` at `EOF`).
pub open spec fn perr(t: Token, msg: Seq<char>) -> ErrV {
    ErrV::Parser(
        t.line,
        msg,
        if t.token_type == TokenType::EOF {
            "end"@
        } else {
            t.lexeme@
        },
    )
}

/// Requiring a token of kind `k` at `p`: the position after it, or `msg`.
pub open spec fn expect(ts: Seq<Token>, p: int, k: TokenType, msg: Seq<char>) -> Result<int, PErr> {
    if check_at(ts, p, k) {
        Ok(p + 1)
    } else {
        Err((perr(ts[p], msg), p))
    }
}

/// Whether position `q` is after `p` and on a token.
pub open spec fn ahead(ts: Seq<Token>, p: int, q: int) -> bool {
    p < q < ts.len()
}

/// Whether `k` is an operator of binary level `lvl`: 9 `or`, 8 `and`,
/// 7 equality, 6 comparison, 5 additive, 4 multiplicative.
pub open spec fn level_op(lvl: nat, k: TokenType) -> bool {
    if lvl == 9 {
        k == TokenType::OR
    } else if lvl == 8 {
        k == TokenType::AND
    } else if lvl == 7 {
        k == TokenType::BANG_EQUAL || k == TokenType::EQUAL_EQUAL
    } else if lvl == 6 {
        k == TokenType::GREATER || k == TokenType::GREATER_EQUAL || k == TokenType::LESS || k
            == TokenType::LESS_EQUAL
    } else if lvl == 5 {
        k == TokenType::MINUS || k == TokenType::PLUS
    } else {
        k == TokenType::SLASH || k == TokenType::STAR
    }
}

/// The node that joins two operands at a binary level.
pub open spec fn join(lvl: nat, l: GExpr, op: TokV, r: GExpr) -> GExpr {
    if lvl >= 8 {
        GExpr::Logical(Box::new(l), op, Box::new(r))
    } else {
        GExpr::Binary(Box::new(l), op, Box::new(r))
    }
}

/// An expression.
pub open spec fn p_expression(ts: Seq<Token>, p: int) -> PExpr
    decreases ts.len() - p, 31nat,
{
    p_assignment(ts, p)
}

/// Assignment (right-associative) or a lower level.
pub open spec fn p_assignment(ts: Seq<Token>, p: int) -> PExpr
    decreases ts.len() - p, 30nat,
{
    if !(0 <= p < ts.len()) {
        Err((bad(), p))
    } else {
        match p_level(ts, p, 9) {
            Err(e) => Err(e),
            Ok((g, q)) => if !ahead(ts, p, q) {
                Err((bad(), p))
            } else if check_at(ts, q, TokenType::EQUAL) {
                match g {
                    GExpr::Identifier(name) => match p_assignment(ts, q + 1) {
                        Ok((v, r)) => Ok((GExpr::Assignment(name, Box::new(v)), r)),
                        Err(e) => Err(e),
                    },
                    _ => Err((perr(ts[q], "Unexpected Token"@), q + 1)),
                }
            } else {
                Ok((g, q))
            },
        }
    }
}

/// The operand of binary level `lvl`.
pub open spec fn p_operand(ts: Seq<Token>, p: int, lvl: nat) -> PExpr
    decreases ts.len() - p, 2 * lvl + 4,
{
    if lvl <= 4 {
        p_unary(ts, p)
    } else {
        p_level(ts, p, (lvl - 1) as nat)
    }
}

/// Binary level `lvl` (4 to 9): operands joined left to right.
pub open spec fn p_level(ts: Seq<Token>, p: int, lvl: nat) -> PExpr
    decreases ts.len() - p, 2 * lvl + 5,
{
    if !(0 <= p < ts.len()) {
        Err((bad(), p))
    } else {
        match p_operand(ts, p, lvl) {
            Err(e) => Err(e),
            Ok((g, q)) => if ahead(ts, p, q) {
                p_level_rest(ts, q, lvl, g)
            } else {
                Err((bad(), p))
            },
        }
    }
}

/// The rest of binary level `lvl` after the operands folded into `left`.
pub open spec fn p_level_rest(ts: Seq<Token>, p: int, lvl: nat, left: GExpr) -> PExpr
    decreases ts.len() - p, 2 * lvl + 5,
{
    if !(0 <= p < ts.len()) {
        Err((bad(), p))
    } else if ts[p].token_type != TokenType::EOF && level_op(lvl, ts[p].token_type) {
        match p_operand(ts, p + 1, lvl) {
            Err(e) => Err(e),
            Ok((r, q)) => if ahead(ts, p, q) {
                p_level_rest(ts, q, lvl, join(lvl, left, ts[p]@, r))
            } else {
                Err((bad(), p))
            },
        }
    } else {
        Ok((left, p))
    }
}

/// Prefix `!` and `-`, or a call.
pub open spec fn p_unary(ts: Seq<Token>, p: int) -> PExpr
    decreases ts.len() - p, 3nat,
{
    if !(0 <= p < ts.len()) {
        Err((bad(), p))
    } else if ts[p].token_type != TokenType::EOF && (ts[p].token_type == TokenType::BANG
        || ts[p].token_type == TokenType::MINUS) {
        match p_unary(ts, p + 1) {
            Ok((r, q)) => Ok((GExpr::Unary(ts[p]@, Box::new(r)), q)),
            Err(e) => Err(e),
        }
    } else {
        p_call(ts, p)
    }
}

/// A primary expression, with an argument list if `(` follows.
pub open spec fn p_call(ts: Seq<Token>, p: int) -> PExpr
    decreases ts.len() - p, 2nat,
{
    if !(0 <= p < ts.len()) {
        Err((bad(), p))
    } else {
        match p_primary(ts, p) {
            Err(e) => Err(e),
            Ok((c, q)) => if !ahead(ts, p, q) {
                Err((bad(), p))
            } else if check_at(ts, q, TokenType::LEFT_PAREN) {
                let a = q + 1;
                let args: Result<(Seq<GExpr>, int), PErr> = if check_at(
                    ts,
                    a,
                    TokenType::RIGHT_PAREN,
                ) {
                    Ok((Seq::empty(), a))
                } else {
                    p_args(ts, a, Seq::empty())
                };
                match args {
                    Err(e) => Err(e),
                    Ok((vs, r)) => match expect(
                        ts,
                        r,
                        TokenType::RIGHT_PAREN,
                        "Expect ')' after arguments."@,
                    ) {
                        Ok(r2) => Ok((GExpr::Call(Box::new(c), ts[r]@, vs), r2)),
                        Err(e) => Err(e),
                    },
                }
            } else {
                Ok((c, q))
            },
        }
    }
}

/// Comma-separated arguments, after those in `acc`.
pub open spec fn p_args(ts: Seq<Token>, p: int, acc: Seq<GExpr>) -> Result<
    (Seq<GExpr>, int),
    PErr,
>
    decreases ts.len() - p, 32nat,
{
    if !(0 <= p < ts.len()) {
        Err((bad(), p))
    } else {
        match p_expression(ts, p) {
            Err(e) => Err(e),
            Ok((a, q)) => if !ahead(ts, p, q) {
                Err((bad(), p))
            } else if check_at(ts, q, TokenType::COMMA) {
                p_args(ts, q + 1, acc.push(a))
            } else {
                Ok((acc.push(a), q))
            },
        }
    }
}

/// One unfolding of [`p_operand`].
pub proof fn lemma_operand(ts: Seq<Token>, p: int, lvl: nat)
    ensures
        p_operand(ts, p, lvl) == if lvl <= 4 {
            p_unary(ts, p)
        } else {
            p_level(ts, p, (lvl - 1) as nat)
        },
{
}

/// Whether a token of kind `k` begins a statement, for error recovery.
pub open spec fn starts_statement(k: TokenType) -> bool {
    k == TokenType::CLASS || k == TokenType::FUN || k == TokenType::VAR || k == TokenType::FOR
        || k == TokenType::IF || k == TokenType::WHILE || k == TokenType::PRINT || k
        == TokenType::RETURN
}

/// The first position at or after `q` (with `0 < q`) that is a statement
/// boundary: `EOF`, just after a `;`, or a token that begins a statement.
pub open spec fn boundary_from(ts: Seq<Token>, q: int) -> int
    decreases ts.len() - q,
{
    if q <= 0 || q >= ts.len() || ts[q].token_type == TokenType::EOF
        || ts[q - 1].token_type == TokenType::SEMICOLON || starts_statement(ts[q].token_type) {
        q
    } else {
        boundary_from(ts, q + 1)
    }
}

/// Where parsing resumes after an error at `p`: `p` itself at `EOF`, else
/// the first statement boundary after `p`.
pub open spec fn resync(ts: Seq<Token>, p: int) -> int {
    if ts[p].token_type == TokenType::EOF {
        p
    } else {
        boundary_from(ts, p + 1)
    }
}

/// A literal token for `true`, `false` or `nil`, with its value.
pub open spec fn keyword_literal(t: Token) -> TokV {
    TokV {
        lit: if t.token_type == TokenType::FALSE {
            Val::Bool(false)
        } else if t.token_type == TokenType::TRUE {
            Val::Bool(true)
        } else {
            Val::Nil
        },
        ..t@
    }
}

/// A name, a literal, or a parenthesized expression.
pub open spec fn p_primary(ts: Seq<Token>, p: int) -> PExpr
    decreases ts.len() - p, 1nat,
{
    if !(0 <= p < ts.len()) {
        Err((bad(), p))
    } else {
        let k = ts[p].token_type;
        if k == TokenType::EOF {
            Err((perr(ts[p], "Unexpected Token"@), p))
        } else if k == TokenType::IDENTIFIER {
            Ok((GExpr::Identifier(ts[p]@), p + 1))
        } else if k == TokenType::FALSE || k == TokenType::TRUE || k == TokenType::NIL {
            Ok((GExpr::Literal(keyword_literal(ts[p])), p + 1))
        } else if k == TokenType::NUMBER || k == TokenType::STRING {
            Ok((GExpr::Literal(ts[p]@), p + 1))
        } else if k == TokenType::LEFT_PAREN {
            match p_expression(ts, p + 1) {
                Err(e) => Err(e),
                Ok((g, q)) => match expect(
                    ts,
                    q,
                    TokenType::RIGHT_PAREN,
                    "Expect ')' after expression."@,
                ) {
                    Ok(r) => Ok((GExpr::Grouping(Box::new(g)), r)),
                    Err(e) => Err(e),
                },
            }
        } else {
            Err((perr(ts[p], "Unexpected Token"@), p))
        }
    }
}

/// A statement, dispatched on its first token.
pub open spec fn p_statement(ts: Seq<Token>, p: int) -> PStmt
    decreases ts.len() - p, 44nat,
{
    if !(0 <= p < ts.len()) {
        Err((bad(), p))
    } else {
        let k = ts[p].token_type;
        if k == TokenType::EOF {
            p_expr_statement(ts, p)
        } else if k == TokenType::SEMICOLON {
            Ok((GStmt::Empty, p + 1))
        } else if k == TokenType::PRINT {
            p_print(ts, p + 1)
        } else if k == TokenType::VAR {
            p_declaration(ts, p + 1)
        } else if k == TokenType::LEFT_BRACE {
            match p_block(ts, p + 1, Seq::empty()) {
                Ok((ss, q)) => Ok((GStmt::Block(ss), q)),
                Err(e) => Err(e),
            }
        } else if k == TokenType::IF {
            p_if(ts, p + 1)
        } else if k == TokenType::WHILE {
            p_while(ts, p + 1)
        } else if k == TokenType::FOR {
            p_for(ts, p + 1)
        } else if k == TokenType::BREAK {
            p_break(ts, p + 1, ts[p].line)
        } else if k == TokenType::FUN {
            p_function(ts, p + 1)
        } else if k == TokenType::RETURN {
            p_return(ts, p + 1, ts[p].line)
        } else {
            p_expr_statement(ts, p)
        }
    }
}

/// An expression statement, with an optional `;`.
pub open spec fn p_expr_statement(ts: Seq<Token>, p: int) -> PStmt
    decreases ts.len() - p, 40nat,
{
    if !(0 <= p < ts.len()) {
        Err((bad(), p))
    } else {
        match p_expression(ts, p) {
            Err(e) => Err(e),
            Ok((g, q)) => if check_at(ts, q, TokenType::SEMICOLON) {
                Ok((GStmt::Expression(g), q + 1))
            } else {
                Ok((GStmt::Expression(g), q))
            },
        }
    }
}

/// `print` (already consumed) expression `;`.
pub open spec fn p_print(ts: Seq<Token>, p: int) -> PStmt
    decreases ts.len() - p, 40nat,
{
    if !(0 <= p < ts.len()) {
        Err((bad(), p))
    } else {
        match p_expression(ts, p) {
            Err(e) => Err(e),
            Ok((g, q)) => match expect(ts, q, TokenType::SEMICOLON, "Expect ';' after value."@) {
                Ok(r) => Ok((GStmt::Print(g), r)),
                Err(e) => Err(e),
            },
        }
    }
}

/// `var` (already consumed) name, optional `=` initializer, `;`.
pub open spec fn p_declaration(ts: Seq<Token>, p: int) -> PStmt
    decreases ts.len() - p, 40nat,
{
    if !(0 <= p < ts.len()) {
        Err((bad(), p))
    } else {
        match expect(ts, p, TokenType::IDENTIFIER, "Expect variable name."@) {
            Err(e) => Err(e),
            Ok(q) => {
                let init: Result<(Option<GExpr>, int), PErr> = if q < ts.len() && check_at(
                    ts,
                    q,
                    TokenType::EQUAL,
                ) {
                    match p_expression(ts, q + 1) {
                        Ok((g, r)) => Ok((Some(g), r)),
                        Err(e) => Err(e),
                    }
                } else {
                    Ok((None, q))
                };
                match init {
                    Err(e) => Err(e),
                    Ok((g, r)) => match expect(
                        ts,
                        r,
                        TokenType::SEMICOLON,
                        "Expect ';' after variable declaration."@,
                    ) {
                        Ok(r2) => Ok((GStmt::Declaration(ts[p]@, g), r2)),
                        Err(e) => Err(e),
                    },
                }
            },
        }
    }
}

/// The statements of a block (its `{` already consumed), after those in
/// `acc`, through the closing `}`.
pub open spec fn p_block(ts: Seq<Token>, p: int, acc: Seq<GStmt>) -> Result<
    (Seq<GStmt>, int),
    PErr,
>
    decreases ts.len() - p, 45nat,
{
    if !(0 <= p < ts.len()) {
        Err((bad(), p))
    } else if check_at(ts, p, TokenType::RIGHT_BRACE) || ts[p].token_type == TokenType::EOF {
        match expect(ts, p, TokenType::RIGHT_BRACE, "Expect '}' after block."@) {
            Ok(q) => Ok((acc, q)),
            Err(e) => Err(e),
        }
    } else {
        match p_statement(ts, p) {
            Err(e) => Err(e),
            Ok((s, q)) => if ahead(ts, p, q) {
                p_block(ts, q, acc.push(s))
            } else {
                Err((bad(), p))
            },
        }
    }
}

/// `(` condition `)`, as the condition and the position after `)`.
pub open spec fn p_condition(ts: Seq<Token>, p: int, open_msg: Seq<char>, close_msg: Seq<char>) -> PExpr
    decreases ts.len() - p, 40nat,
{
    if !(0 <= p < ts.len()) {
        Err((bad(), p))
    } else {
        match expect(ts, p, TokenType::LEFT_PAREN, open_msg) {
            Err(e) => Err(e),
            Ok(q) => match p_expression(ts, q) {
                Err(e) => Err(e),
                Ok((c, r)) => match expect(ts, r, TokenType::RIGHT_PAREN, close_msg) {
                    Ok(r2) => Ok((c, r2)),
                    Err(e) => Err(e),
                },
            },
        }
    }
}

/// `if` (already consumed) `(` condition `)` statement, optional `else`.
pub open spec fn p_if(ts: Seq<Token>, p: int) -> PStmt
    decreases ts.len() - p, 41nat,
{
    if !(0 <= p < ts.len()) {
        Err((bad(), p))
    } else {
        match p_condition(ts, p, "Expect '(' after 'if'."@, "Expect ')' after if condition."@) {
            Err(e) => Err(e),
            Ok((c, q)) => if !ahead(ts, p, q) {
                Err((bad(), p))
            } else {
                match p_statement(ts, q) {
                    Err(e) => Err(e),
                    Ok((t, r)) => if !ahead(ts, q, r) {
                        Err((bad(), p))
                    } else if check_at(ts, r, TokenType::ELSE) {
                        match p_statement(ts, r + 1) {
                            Ok((e, r2)) => Ok(
                                (GStmt::If(c, Box::new(t), Some(Box::new(e))), r2),
                            ),
                            Err(x) => Err(x),
                        }
                    } else {
                        Ok((GStmt::If(c, Box::new(t), None), r))
                    },
                }
            },
        }
    }
}

/// `while` (already consumed) `(` condition `)` statement.
pub open spec fn p_while(ts: Seq<Token>, p: int) -> PStmt
    decreases ts.len() - p, 41nat,
{
    if !(0 <= p < ts.len()) {
        Err((bad(), p))
    } else {
        match p_condition(ts, p, "Expect '(' after 'while'."@, "Expect ')' after condition."@) {
            Err(e) => Err(e),
            Ok((c, q)) => if !ahead(ts, p, q) {
                Err((bad(), p))
            } else {
                match p_statement(ts, q) {
                    Ok((b, r)) => Ok((GStmt::While(c, Box::new(b)), r)),
                    Err(e) => Err(e),
                }
            },
        }
    }
}

/// The initializer clause of a `for`, through its `;`.
pub open spec fn p_for_init(ts: Seq<Token>, p: int) -> Result<(Option<GStmt>, int), PErr>
    decreases ts.len() - p, 41nat,
{
    if !(0 <= p < ts.len()) {
        Err((bad(), p))
    } else if check_at(ts, p, TokenType::SEMICOLON) {
        Ok((None, p + 1))
    } else if check_at(ts, p, TokenType::VAR) {
        match p_declaration(ts, p + 1) {
            Ok((d, q)) => Ok((Some(d), q)),
            Err(e) => Err(e),
        }
    } else {
        match p_expression(ts, p) {
            Err(e) => Err(e),
            Ok((g, q)) => match expect(
                ts,
                q,
                TokenType::SEMICOLON,
                "Expect ';' after loop initialization."@,
            ) {
                Ok(r) => Ok((Some(GStmt::Expression(g)), r)),
                Err(e) => Err(e),
            },
        }
    }
}

/// The condition clause of a `for` (`true` when empty), through its `;`.
pub open spec fn p_for_cond(ts: Seq<Token>, p: int) -> PExpr
    decreases ts.len() - p, 41nat,
{
    if !(0 <= p < ts.len()) {
        Err((bad(), p))
    } else {
        let c: PExpr = if check_at(ts, p, TokenType::SEMICOLON) {
            Ok(
                (
                    GExpr::Literal(
                        TokV {
                            kind: TokenType::TRUE,
                            text: "true"@,
                            lit: Val::Bool(true),
                            line: ts[p].line,
                        },
                    ),
                    p,
                ),
            )
        } else {
            p_expression(ts, p)
        };
        match c {
            Err(e) => Err(e),
            Ok((g, q)) => match expect(
                ts,
                q,
                TokenType::SEMICOLON,
                "Expect ';' after loop condition."@,
            ) {
                Ok(r) => Ok((g, r)),
                Err(e) => Err(e),
            },
        }
    }
}

/// The increment clause of a `for`, through the `)`.
pub open spec fn p_for_inc(ts: Seq<Token>, p: int) -> Result<(Option<GExpr>, int), PErr>
    decreases ts.len() - p, 41nat,
{
    if !(0 <= p < ts.len()) {
        Err((bad(), p))
    } else {
        let i: Result<(Option<GExpr>, int), PErr> = if check_at(ts, p, TokenType::RIGHT_PAREN) {
            Ok((None, p))
        } else {
            match p_expression(ts, p) {
                Ok((g, q)) => Ok((Some(g), q)),
                Err(e) => Err(e),
            }
        };
        match i {
            Err(e) => Err(e),
            Ok((g, q)) => match expect(
                ts,
                q,
                TokenType::RIGHT_PAREN,
                "Expect ')' after for clauses."@,
            ) {
                Ok(r) => Ok((g, r)),
                Err(e) => Err(e),
            },
        }
    }
}

/// The `while` loop, inside a block with the initializer, that a `for`
/// stands for.
pub open spec fn for_tree(init: Option<GStmt>, cond: GExpr, inc: Option<GExpr>, body: GStmt) -> GStmt {
    let body1 = match inc {
        Some(i) => GStmt::Block(seq![body, GStmt::Expression(i)]),
        None => body,
    };
    let w = GStmt::While(cond, Box::new(body1));
    match init {
        Some(s) => GStmt::Block(seq![s, w]),
        None => w,
    }
}

/// `for` (already consumed) `(` init `;` cond `;` inc `)` statement.
pub open spec fn p_for(ts: Seq<Token>, p: int) -> PStmt
    decreases ts.len() - p, 42nat,
{
    if !(0 <= p < ts.len()) {
        Err((bad(), p))
    } else {
        match expect(ts, p, TokenType::LEFT_PAREN, "Expect '(' after 'for'."@) {
            Err(e) => Err(e),
            Ok(q) => match p_for_init(ts, q) {
                Err(e) => Err(e),
                Ok((init, q1)) => if !ahead(ts, p, q1) {
                    Err((bad(), p))
                } else {
                    match p_for_cond(ts, q1) {
                        Err(e) => Err(e),
                        Ok((cond, q2)) => if !ahead(ts, p, q2) {
                            Err((bad(), p))
                        } else {
                            match p_for_inc(ts, q2) {
                                Err(e) => Err(e),
                                Ok((inc, q3)) => if !ahead(ts, p, q3) {
                                    Err((bad(), p))
                                } else {
                                    match p_statement(ts, q3) {
                                        Ok((b, r)) => Ok((for_tree(init, cond, inc, b), r)),
                                        Err(e) => Err(e),
                                    }
                                },
                            }
                        },
                    }
                },
            },
        }
    }
}

/// `break` (already consumed, on line `line`) `;`.
pub open spec fn p_break(ts: Seq<Token>, p: int, line: u32) -> PStmt {
    if !(0 <= p < ts.len()) {
        Err((bad(), p))
    } else {
        match expect(ts, p, TokenType::SEMICOLON, "Expect ';' after 'break'."@) {
            Ok(q) => Ok((GStmt::Break(line), q)),
            Err(e) => Err(e),
        }
    }
}

/// `return` (already consumed, on line `line`) optional value `;`.
pub open spec fn p_return(ts: Seq<Token>, p: int, line: u32) -> PStmt
    decreases ts.len() - p, 40nat,
{
    if !(0 <= p < ts.len()) {
        Err((bad(), p))
    } else {
        let v: PExpr = if check_at(ts, p, TokenType::SEMICOLON) {
            Ok(
                (
                    GExpr::Literal(
                        TokV { kind: TokenType::NIL, text: "nil"@, lit: Val::Nil, line },
                    ),
                    p,
                ),
            )
        } else {
            p_expression(ts, p)
        };
        match v {
            Err(e) => Err(e),
            Ok((g, q)) => match expect(
                ts,
                q,
                TokenType::SEMICOLON,
                "Expect ';' after return value."@,
            ) {
                Ok(r) => Ok((GStmt::Return(line, g), r)),
                Err(e) => Err(e),
            },
        }
    }
}

/// Comma-separated parameter names, after those in `acc`.
pub open spec fn p_params(ts: Seq<Token>, p: int, acc: Seq<Seq<char>>) -> Result<
    (Seq<Seq<char>>, int),
    PErr,
>
    decreases ts.len() - p,
{
    if !(0 <= p < ts.len()) {
        Err((bad(), p))
    } else {
        match expect(ts, p, TokenType::IDENTIFIER, "Expect parameter name."@) {
            Err(e) => Err(e),
            Ok(q) => if q < ts.len() && check_at(ts, q, TokenType::COMMA) {
                p_params(ts, q + 1, acc.push(ts[p].lexeme@))
            } else {
                Ok((acc.push(ts[p].lexeme@), q))
            },
        }
    }
}

/// `fun` (already consumed) name `(` parameters `)` `{` body `}`.
pub open spec fn p_function(ts: Seq<Token>, p: int) -> PStmt
    decreases ts.len() - p, 41nat,
{
    if !(0 <= p < ts.len()) {
        Err((bad(), p))
    } else {
        match expect(ts, p, TokenType::IDENTIFIER, "Expect function name."@) {
            Err(e) => Err(e),
            Ok(q) => match expect(ts, q, TokenType::LEFT_PAREN, "Expect '(' after function name."@) {
                Err(e) => Err(e),
                Ok(q2) => {
                    let ps: Result<(Seq<Seq<char>>, int), PErr> = if check_at(
                        ts,
                        q2,
                        TokenType::RIGHT_PAREN,
                    ) {
                        Ok((Seq::empty(), q2))
                    } else {
                        p_params(ts, q2, Seq::empty())
                    };
                    match ps {
                        Err(e) => Err(e),
                        Ok((params, q3)) => match expect(
                            ts,
                            q3,
                            TokenType::RIGHT_PAREN,
                            "Expect ')' after parameters."@,
                        ) {
                            Err(e) => Err(e),
                            Ok(q4) => match expect(
                                ts,
                                q4,
                                TokenType::LEFT_BRACE,
                                "Expect '{' before function body."@,
                            ) {
                                Err(e) => Err(e),
                                Ok(q5) => if !ahead(ts, p, q5) {
                                    Err((bad(), p))
                                } else {
                                    match p_block(ts, q5, Seq::empty()) {
                                        Ok((body, r)) => Ok(
                                            (
                                                GStmt::Function(
                                                    ts[p]@,
                                                    params,
                                                    Box::new(GStmt::Block(body)),
                                                ),
                                                r,
                                            ),
                                        ),
                                        Err(e) => Err(e),
                                    }
                                },
                            },
                        },
                    }
                },
            },
        }
    }
}

/// The statement that starts at `p`, as the program level sees it.
#[verifier::opaque]
pub open spec fn stmt_at(ts: Seq<Token>, p: int) -> PStmt {
    p_statement(ts, p)
}

/// The statements of a whole program from position `p` on, after those in
/// `acc`, when every one of them parses; none if one does not.
pub open spec fn p_program(ts: Seq<Token>, p: int, acc: Seq<GStmt>) -> Option<Seq<GStmt>>
    decreases ts.len() - p,
{
    if !(0 <= p < ts.len()) {
        None
    } else if ts[p].token_type == TokenType::EOF {
        Some(acc)
    } else {
        match stmt_at(ts, p) {
            Ok((s, q)) => if ahead(ts, p, q) {
                p_program(ts, q, acc.push(s))
            } else {
                None
            },
            Err(_) => None,
        }
    }
}

/// The parse errors of a whole program from position `p` on, in order: one
/// for each statement that does not parse, parsing resuming after each at
/// the next statement boundary.
pub open spec fn program_errors(ts: Seq<Token>, p: int) -> Seq<ErrV>
    decreases ts.len() - p,
{
    if !(0 <= p < ts.len()) || ts[p].token_type == TokenType::EOF {
        Seq::empty()
    } else {
        match stmt_at(ts, p) {
            Ok((_, q)) => if ahead(ts, p, q) {
                program_errors(ts, q)
            } else {
                Seq::empty()
            },
            Err((e, c)) => if p < resync(ts, c) <= ts.len() {
                seq![e] + program_errors(ts, resync(ts, c))
            } else {
                seq![e]
            },
        }
    }
}

/// A token sequence as the lexer makes it: not empty, ending with `EOF`.
pub open spec fn toks_end_eof(ts: Seq<Token>) -> bool {
    ts.len() > 0 && ts.last().token_type == TokenType::EOF
}

/// A result that either moved strictly past `p` (staying on a token) or is
/// a located parse error.
pub open spec fn moves<T>(ts: Seq<Token>, p: int, r: Result<(T, int), PErr>) -> bool {
    match r {
        Ok((_, q)) => p < q < ts.len(),
        Err((e, _)) => located(ts, e),
    }
}

/// Like [`moves`], but the result may also stay at `p`.
pub open spec fn stays_or_moves<T>(ts: Seq<Token>, p: int, r: Result<(T, int), PErr>) -> bool {
    match r {
        Ok((_, q)) => p <= q < ts.len(),
        Err((e, _)) => located(ts, e),
    }
}

proof fn lemma_not_eof(ts: Seq<Token>, p: int)
    requires
        toks_end_eof(ts),
        0 <= p < ts.len(),
        ts[p].token_type != TokenType::EOF,
    ensures
        p + 1 < ts.len(),
{
}

proof fn lemma_perr(ts: Seq<Token>, p: int, msg: Seq<char>)
    requires
        0 <= p < ts.len(),
    ensures
        located(ts, perr(ts[p], msg)),
{
    assert(ts[p].line == perr(ts[p], msg)->Parser_0);
}

proof fn lemma_expect(ts: Seq<Token>, p: int, k: TokenType, msg: Seq<char>)
    requires
        toks_end_eof(ts),
        0 <= p < ts.len(),
    ensures
        match expect(ts, p, k, msg) {
            Ok(q) => q == p + 1 && q < ts.len(),
            Err((e, c)) => located(ts, e) && c == p,
        },
{
    if check_at(ts, p, k) {
        lemma_not_eof(ts, p);
    } else {
        lemma_perr(ts, p, msg);
    }
}

proof fn lemma_m_expression(ts: Seq<Token>, p: int)
    requires
        toks_end_eof(ts),
        0 <= p < ts.len(),
    ensures
        moves(ts, p, p_expression(ts, p)),
    decreases ts.len() - p, 31nat,
{
    lemma_m_assignment(ts, p);
}

proof fn lemma_m_assignment(ts: Seq<Token>, p: int)
    requires
        toks_end_eof(ts),
        0 <= p < ts.len(),
    ensures
        moves(ts, p, p_assignment(ts, p)),
    decreases ts.len() - p, 30nat,
{
    lemma_m_level(ts, p, 9);
    if let Ok((g, q)) = p_level(ts, p, 9) {
        if check_at(ts, q, TokenType::EQUAL) {
            lemma_not_eof(ts, q);
            if g is Identifier {
                lemma_m_assignment(ts, q + 1);
            } else {
                lemma_perr(ts, q, "Unexpected Token"@);
            }
        }
    }
}

proof fn lemma_m_operand(ts: Seq<Token>, p: int, lvl: nat)
    requires
        toks_end_eof(ts),
        0 <= p < ts.len(),
    ensures
        moves(ts, p, p_operand(ts, p, lvl)),
    decreases ts.len() - p, 2 * lvl + 4,
{
    if lvl <= 4 {
        lemma_m_unary(ts, p);
    } else {
        lemma_m_level(ts, p, (lvl - 1) as nat);
    }
}

proof fn lemma_m_level(ts: Seq<Token>, p: int, lvl: nat)
    requires
        toks_end_eof(ts),
        0 <= p < ts.len(),
    ensures
        moves(ts, p, p_level(ts, p, lvl)),
    decreases ts.len() - p, 2 * lvl + 5,
{
    lemma_m_operand(ts, p, lvl);
    if let Ok((g, q)) = p_operand(ts, p, lvl) {
        lemma_m_level_rest(ts, q, lvl, g);
    }
}

proof fn lemma_m_level_rest(ts: Seq<Token>, p: int, lvl: nat, left: GExpr)
    requires
        toks_end_eof(ts),
        0 <= p < ts.len(),
    ensures
        stays_or_moves(ts, p, p_level_rest(ts, p, lvl, left)),
    decreases ts.len() - p, 2 * lvl + 5,
{
    if ts[p].token_type != TokenType::EOF && level_op(lvl, ts[p].token_type) {
        lemma_not_eof(ts, p);
        lemma_m_operand(ts, p + 1, lvl);
        if let Ok((r, q)) = p_operand(ts, p + 1, lvl) {
            lemma_m_level_rest(ts, q, lvl, join(lvl, left, ts[p]@, r));
        }
    }
}

proof fn lemma_m_unary(ts: Seq<Token>, p: int)
    requires
        toks_end_eof(ts),
        0 <= p < ts.len(),
    ensures
        moves(ts, p, p_unary(ts, p)),
    decreases ts.len() - p, 3nat,
{
    if ts[p].token_type != TokenType::EOF && (ts[p].token_type == TokenType::BANG
        || ts[p].token_type == TokenType::MINUS) {
        lemma_not_eof(ts, p);
        lemma_m_unary(ts, p + 1);
    } else {
        lemma_m_call(ts, p);
    }
}

proof fn lemma_m_call(ts: Seq<Token>, p: int)
    requires
        toks_end_eof(ts),
        0 <= p < ts.len(),
    ensures
        moves(ts, p, p_call(ts, p)),
    decreases ts.len() - p, 2nat,
{
    lemma_m_primary(ts, p);
    if let Ok((c, q)) = p_primary(ts, p) {
        if check_at(ts, q, TokenType::LEFT_PAREN) {
            lemma_not_eof(ts, q);
            let a = q + 1;
            if check_at(ts, a, TokenType::RIGHT_PAREN) {
                lemma_expect(ts, a, TokenType::RIGHT_PAREN, "Expect ')' after arguments."@);
            } else {
                lemma_m_args(ts, a, Seq::empty());
                if let Ok((vs, r)) = p_args(ts, a, Seq::empty()) {
                    lemma_expect(ts, r, TokenType::RIGHT_PAREN, "Expect ')' after arguments."@);
                }
            }
        }
    }
}

proof fn lemma_m_args(ts: Seq<Token>, p: int, acc: Seq<GExpr>)
    requires
        toks_end_eof(ts),
        0 <= p < ts.len(),
    ensures
        moves(ts, p, p_args(ts, p, acc)),
    decreases ts.len() - p, 32nat,
{
    lemma_m_expression(ts, p);
    if let Ok((a, q)) = p_expression(ts, p) {
        if check_at(ts, q, TokenType::COMMA) {
            lemma_not_eof(ts, q);
            lemma_m_args(ts, q + 1, acc.push(a));
        }
    }
}

proof fn lemma_m_primary(ts: Seq<Token>, p: int)
    requires
        toks_end_eof(ts),
        0 <= p < ts.len(),
    ensures
        moves(ts, p, p_primary(ts, p)),
    decreases ts.len() - p, 1nat,
{
    let k = ts[p].token_type;
    if k == TokenType::EOF {
        lemma_perr(ts, p, "Unexpected Token"@);
    } else {
        lemma_not_eof(ts, p);
        if k == TokenType::LEFT_PAREN {
            lemma_m_expression(ts, p + 1);
            if let Ok((g, q)) = p_expression(ts, p + 1) {
                lemma_expect(ts, q, TokenType::RIGHT_PAREN, "Expect ')' after expression."@);
            }
        } else {
            lemma_perr(ts, p, "Unexpected Token"@);
        }
    }
}

proof fn lemma_m_statement(ts: Seq<Token>, p: int)
    requires
        toks_end_eof(ts),
        0 <= p < ts.len(),
    ensures
        moves(ts, p, p_statement(ts, p)),
    decreases ts.len() - p, 44nat,
{
    let k = ts[p].token_type;
    if k == TokenType::EOF {
        lemma_m_expr_statement(ts, p);
    } else {
        lemma_not_eof(ts, p);
        if k == TokenType::PRINT {
            lemma_m_print(ts, p + 1);
        } else if k == TokenType::VAR {
            lemma_m_declaration(ts, p + 1);
        } else if k == TokenType::LEFT_BRACE {
            lemma_m_block(ts, p + 1, Seq::empty());
        } else if k == TokenType::IF {
            lemma_m_if(ts, p + 1);
        } else if k == TokenType::WHILE {
            lemma_m_while(ts, p + 1);
        } else if k == TokenType::FOR {
            lemma_m_for(ts, p + 1);
        } else if k == TokenType::BREAK {
            lemma_expect(ts, p + 1, TokenType::SEMICOLON, "Expect ';' after 'break'."@);
        } else if k == TokenType::FUN {
            lemma_m_function(ts, p + 1);
        } else if k == TokenType::RETURN {
            lemma_m_return(ts, p + 1, ts[p].line);
        } else if k != TokenType::SEMICOLON {
            lemma_m_expr_statement(ts, p);
        }
    }
}

proof fn lemma_m_expr_statement(ts: Seq<Token>, p: int)
    requires
        toks_end_eof(ts),
        0 <= p < ts.len(),
    ensures
        moves(ts, p, p_expr_statement(ts, p)),
    decreases ts.len() - p, 40nat,
{
    lemma_m_expression(ts, p);
    if let Ok((g, q)) = p_expression(ts, p) {
        if check_at(ts, q, TokenType::SEMICOLON) {
            lemma_not_eof(ts, q);
        }
    }
}

proof fn lemma_m_print(ts: Seq<Token>, p: int)
    requires
        toks_end_eof(ts),
        0 <= p < ts.len(),
    ensures
        moves(ts, p, p_print(ts, p)),
    decreases ts.len() - p, 40nat,
{
    lemma_m_expression(ts, p);
    if let Ok((g, q)) = p_expression(ts, p) {
        lemma_expect(ts, q, TokenType::SEMICOLON, "Expect ';' after value."@);
    }
}

proof fn lemma_m_declaration(ts: Seq<Token>, p: int)
    requires
        toks_end_eof(ts),
        0 <= p < ts.len(),
    ensures
        moves(ts, p, p_declaration(ts, p)),
    decreases ts.len() - p, 40nat,
{
    lemma_expect(ts, p, TokenType::IDENTIFIER, "Expect variable name."@);
    if let Ok(q) = expect(ts, p, TokenType::IDENTIFIER, "Expect variable name."@) {
        if q < ts.len() && check_at(ts, q, TokenType::EQUAL) {
            lemma_not_eof(ts, q);
            lemma_m_expression(ts, q + 1);
            if let Ok((g, r)) = p_expression(ts, q + 1) {
                lemma_expect(
                    ts,
                    r,
                    TokenType::SEMICOLON,
                    "Expect ';' after variable declaration."@,
                );
            }
        } else {
            lemma_expect(ts, q, TokenType::SEMICOLON, "Expect ';' after variable declaration."@);
        }
    }
}

proof fn lemma_m_block(ts: Seq<Token>, p: int, acc: Seq<GStmt>)
    requires
        toks_end_eof(ts),
        0 <= p < ts.len(),
    ensures
        moves(ts, p, p_block(ts, p, acc)),
    decreases ts.len() - p, 45nat,
{
    if check_at(ts, p, TokenType::RIGHT_BRACE) || ts[p].token_type == TokenType::EOF {
        lemma_expect(ts, p, TokenType::RIGHT_BRACE, "Expect '}' after block."@);
    } else {
        lemma_m_statement(ts, p);
        if let Ok((s, q)) = p_statement(ts, p) {
            lemma_m_block(ts, q, acc.push(s));
        }
    }
}

proof fn lemma_m_condition(ts: Seq<Token>, p: int, open_msg: Seq<char>, close_msg: Seq<char>)
    requires
        toks_end_eof(ts),
        0 <= p < ts.len(),
    ensures
        moves(ts, p, p_condition(ts, p, open_msg, close_msg)),
    decreases ts.len() - p, 40nat,
{
    lemma_expect(ts, p, TokenType::LEFT_PAREN, open_msg);
    if let Ok(q) = expect(ts, p, TokenType::LEFT_PAREN, open_msg) {
        lemma_m_expression(ts, q);
        if let Ok((c, r)) = p_expression(ts, q) {
            lemma_expect(ts, r, TokenType::RIGHT_PAREN, close_msg);
        }
    }
}

proof fn lemma_m_if(ts: Seq<Token>, p: int)
    requires
        toks_end_eof(ts),
        0 <= p < ts.len(),
    ensures
        moves(ts, p, p_if(ts, p)),
    decreases ts.len() - p, 41nat,
{
    lemma_m_condition(ts, p, "Expect '(' after 'if'."@, "Expect ')' after if condition."@);
    if let Ok((c, q)) = p_condition(
        ts,
        p,
        "Expect '(' after 'if'."@,
        "Expect ')' after if condition."@,
    ) {
        lemma_m_statement(ts, q);
        if let Ok((t, r)) = p_statement(ts, q) {
            if check_at(ts, r, TokenType::ELSE) {
                lemma_not_eof(ts, r);
                lemma_m_statement(ts, r + 1);
            }
        }
    }
}

proof fn lemma_m_while(ts: Seq<Token>, p: int)
    requires
        toks_end_eof(ts),
        0 <= p < ts.len(),
    ensures
        moves(ts, p, p_while(ts, p)),
    decreases ts.len() - p, 41nat,
{
    lemma_m_condition(ts, p, "Expect '(' after 'while'."@, "Expect ')' after condition."@);
    if let Ok((c, q)) = p_condition(
        ts,
        p,
        "Expect '(' after 'while'."@,
        "Expect ')' after condition."@,
    ) {
        lemma_m_statement(ts, q);
    }
}

proof fn lemma_m_for_init(ts: Seq<Token>, p: int)
    requires
        toks_end_eof(ts),
        0 <= p < ts.len(),
    ensures
        moves(ts, p, p_for_init(ts, p)),
    decreases ts.len() - p, 41nat,
{
    if check_at(ts, p, TokenType::SEMICOLON) {
        lemma_not_eof(ts, p);
    } else if check_at(ts, p, TokenType::VAR) {
        lemma_not_eof(ts, p);
        lemma_m_declaration(ts, p + 1);
    } else {
        lemma_m_expression(ts, p);
        if let Ok((g, q)) = p_expression(ts, p) {
            lemma_expect(ts, q, TokenType::SEMICOLON, "Expect ';' after loop initialization."@);
        }
    }
}

proof fn lemma_m_for_cond(ts: Seq<Token>, p: int)
    requires
        toks_end_eof(ts),
        0 <= p < ts.len(),
    ensures
        moves(ts, p, p_for_cond(ts, p)),
    decreases ts.len() - p, 41nat,
{
    if check_at(ts, p, TokenType::SEMICOLON) {
        lemma_expect(ts, p, TokenType::SEMICOLON, "Expect ';' after loop condition."@);
    } else {
        lemma_m_expression(ts, p);
        if let Ok((g, q)) = p_expression(ts, p) {
            lemma_expect(ts, q, TokenType::SEMICOLON, "Expect ';' after loop condition."@);
        }
    }
}

proof fn lemma_m_for_inc(ts: Seq<Token>, p: int)
    requires
        toks_end_eof(ts),
        0 <= p < ts.len(),
    ensures
        moves(ts, p, p_for_inc(ts, p)),
    decreases ts.len() - p, 41nat,
{
    if check_at(ts, p, TokenType::RIGHT_PAREN) {
        lemma_expect(ts, p, TokenType::RIGHT_PAREN, "Expect ')' after for clauses."@);
    } else {
        lemma_m_expression(ts, p);
        if let Ok((g, q)) = p_expression(ts, p) {
            lemma_expect(ts, q, TokenType::RIGHT_PAREN, "Expect ')' after for clauses."@);
        }
    }
}

proof fn lemma_m_for(ts: Seq<Token>, p: int)
    requires
        toks_end_eof(ts),
        0 <= p < ts.len(),
    ensures
        moves(ts, p, p_for(ts, p)),
    decreases ts.len() - p, 42nat,
{
    lemma_expect(ts, p, TokenType::LEFT_PAREN, "Expect '(' after 'for'."@);
    if let Ok(q) = expect(ts, p, TokenType::LEFT_PAREN, "Expect '(' after 'for'."@) {
        lemma_m_for_init(ts, q);
        if let Ok((init, q1)) = p_for_init(ts, q) {
            lemma_m_for_cond(ts, q1);
            if let Ok((cond, q2)) = p_for_cond(ts, q1) {
                lemma_m_for_inc(ts, q2);
                if let Ok((inc, q3)) = p_for_inc(ts, q2) {
                    lemma_m_statement(ts, q3);
                }
            }
        }
    }
}

proof fn lemma_m_return(ts: Seq<Token>, p: int, line: u32)
    requires
        toks_end_eof(ts),
        0 <= p < ts.len(),
    ensures
        moves(ts, p, p_return(ts, p, line)),
    decreases ts.len() - p, 40nat,
{
    if check_at(ts, p, TokenType::SEMICOLON) {
        lemma_expect(ts, p, TokenType::SEMICOLON, "Expect ';' after return value."@);
    } else {
        lemma_m_expression(ts, p);
        if let Ok((g, q)) = p_expression(ts, p) {
            lemma_expect(ts, q, TokenType::SEMICOLON, "Expect ';' after return value."@);
        }
    }
}

proof fn lemma_m_params(ts: Seq<Token>, p: int, acc: Seq<Seq<char>>)
    requires
        toks_end_eof(ts),
        0 <= p < ts.len(),
    ensures
        moves(ts, p, p_params(ts, p, acc)),
    decreases ts.len() - p,
{
    lemma_expect(ts, p, TokenType::IDENTIFIER, "Expect parameter name."@);
    if let Ok(q) = expect(ts, p, TokenType::IDENTIFIER, "Expect parameter name."@) {
        if q < ts.len() && check_at(ts, q, TokenType::COMMA) {
            lemma_not_eof(ts, q);
            lemma_m_params(ts, q + 1, acc.push(ts[p].lexeme@));
        }
    }
}

proof fn lemma_m_function(ts: Seq<Token>, p: int)
    requires
        toks_end_eof(ts),
        0 <= p < ts.len(),
    ensures
        moves(ts, p, p_function(ts, p)),
    decreases ts.len() - p, 41nat,
{
    lemma_expect(ts, p, TokenType::IDENTIFIER, "Expect function name."@);
    if let Ok(q) = expect(ts, p, TokenType::IDENTIFIER, "Expect function name."@) {
        lemma_expect(ts, q, TokenType::LEFT_PAREN, "Expect '(' after function name."@);
        if let Ok(q2) = expect(ts, q, TokenType::LEFT_PAREN, "Expect '(' after function name."@) {
            if !check_at(ts, q2, TokenType::RIGHT_PAREN) {
                lemma_m_params(ts, q2, Seq::empty());
            }
            let ps: Result<(Seq<Seq<char>>, int), PErr> = if check_at(
                ts,
                q2,
                TokenType::RIGHT_PAREN,
            ) {
                Ok((Seq::empty(), q2))
            } else {
                p_params(ts, q2, Seq::empty())
            };
            if let Ok((params, q3)) = ps {
                lemma_expect(ts, q3, TokenType::RIGHT_PAREN, "Expect ')' after parameters."@);
                if let Ok(q4) = expect(
                    ts,
                    q3,
                    TokenType::RIGHT_PAREN,
                    "Expect ')' after parameters."@,
                ) {
                    lemma_expect(
                        ts,
                        q4,
                        TokenType::LEFT_BRACE,
                        "Expect '{' before function body."@,
                    );
                    if let Ok(q5) = expect(
                        ts,
                        q4,
                        TokenType::LEFT_BRACE,
                        "Expect '{' before function body."@,
                    ) {
                        lemma_m_block(ts, q5, Seq::empty());
                    }
                }
            }
        }
    }
}

/// Parsing never drops input silently: on a token sequence that ends with
/// `EOF`, parsing a statement at any position either yields a tree and a
/// later position that is still on a token (so `EOF` is never passed), or
/// reports a parse error located at the line of one of the tokens.
pub proof fn law_parse_moves_or_reports(ts: Seq<Token>, p: int)
    requires
        toks_end_eof(ts),
        0 <= p < ts.len(),
    ensures
        moves(ts, p, p_statement(ts, p)),
{
    lemma_m_statement(ts, p);
}

} // verus!
