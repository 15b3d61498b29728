//! The evaluator: the meaning of expressions and statements, and the
//! interpreter that carries it out.
//!
//! The meaning is given by the spec functions [`eval`] and [`exec`] over
//! an abstract state [`St`]. Evaluation is bounded by a budget (`fuel`):
//! each iteration of a loop and each call takes one unit from the budget of
//! what it runs, and running out is a runtime error. The interpreter runs
//! statements with a budget of `u64::MAX`.
use vstd::prelude::*;
use crate::env::{
    assigned, defined, empty_scope, lookup, resolve, slot, undefined_msg, duplicate_msg, Env,
    Scope, ScopeV,
};
use crate::error::{ErrV, Error};
use crate::expr::Expr;
use crate::function::{copy_names, share, FunV, LoxFunction};
use crate::object::{display, truthy, val_cmp, Object};
use crate::stmt::Stmt;
use crate::token::{Literal, Token, TokenType, Val};

verus! {

/// The budget the interpreter runs statements with.
pub const FUEL: u64 = 0xffff_ffff_ffff_ffff;

/// The abstract interpreter state: scopes, functions, printed lines, and
/// whether bare expression statements echo their value.
pub struct St {
    pub scopes: Seq<ScopeV>,
    pub funs: Seq<FunV>,
    pub out: Seq<Seq<char>>,
    pub repl: bool,
}

/// How a statement ended: normally, or with a `break` or `return` signal.
pub enum Flow {
    Normal,
    Brk(u32),
    Ret(u32, Val),
}

/// The runtime error at `op` with message `m`.
pub open spec fn op_err(op: Token, m: Seq<char>) -> Result<Val, ErrV> {
    Err(ErrV::Runtime(op.line, m, op.lexeme@))
}

/// Whether `n` fits a signed 64-bit integer.
pub open spec fn fits(n: int) -> bool {
    i64::MIN <= n <= i64::MAX
}

/// A numeric result, or an overflow error.
pub open spec fn num_result(n: int, op: Token) -> Result<Val, ErrV> {
    if fits(n) {
        Ok(Val::Num(n))
    } else {
        op_err(op, "numeric overflow"@)
    }
}

/// Integer division rounding toward zero.
pub open spec fn trunc_div(x: int, y: int) -> int {
    let ax: nat = if x < 0 {
        (-x) as nat
    } else {
        x as nat
    };
    let ay: nat = if y < 0 {
        (-y) as nat
    } else {
        y as nat
    };
    if (x < 0) == (y < 0) {
        (ax / ay) as int
    } else {
        -((ax / ay) as int)
    }
}

/// Whether an ordering satisfies a relational operator.
pub open spec fn cmp_holds(t: TokenType, o: core::cmp::Ordering) -> bool {
    match t {
        TokenType::LESS => o == core::cmp::Ordering::Less,
        TokenType::LESS_EQUAL => o != core::cmp::Ordering::Greater,
        TokenType::GREATER => o == core::cmp::Ordering::Greater,
        _ => o != core::cmp::Ordering::Less,
    }
}

/// The result of a unary operator on a value.
pub open spec fn unary_result(op: Token, v: Val) -> Result<Val, ErrV> {
    match op.token_type {
        TokenType::MINUS => match v {
            Val::Num(n) => num_result(-n, op),
            _ => op_err(op, "cannot negate non-numeric"@),
        },
        TokenType::BANG => Ok(Val::Bool(!truthy(v))),
        _ => op_err(op, "erroneous unary operator"@),
    }
}

/// The result of a (non-logical) binary operator on two values.
pub open spec fn binary_result(op: Token, a: Val, b: Val) -> Result<Val, ErrV> {
    match (a, b) {
        (Val::Num(x), Val::Num(y)) => match op.token_type {
            TokenType::PLUS => num_result(x + y, op),
            TokenType::MINUS => num_result(x - y, op),
            TokenType::STAR => num_result(x * y, op),
            TokenType::SLASH => if y == 0 {
                op_err(op, "divide by zero"@)
            } else {
                num_result(trunc_div(x, y), op)
            },
            _ => other_binary(op, a, b),
        },
        _ => other_binary(op, a, b),
    }
}

/// The binary operators that are not arithmetic on two numbers.
pub open spec fn other_binary(op: Token, a: Val, b: Val) -> Result<Val, ErrV> {
    match op.token_type {
        TokenType::PLUS => if a is Str || b is Str {
            Ok(Val::Str(display(a) + display(b)))
        } else {
            op_err(op, "cannot add mixed types"@)
        },
        TokenType::MINUS => op_err(op, "cannot subtract non-numerics"@),
        TokenType::STAR => op_err(op, "cannot multiply non-numerics"@),
        TokenType::SLASH => op_err(op, "cannot divide non-numerics"@),
        TokenType::LESS | TokenType::LESS_EQUAL | TokenType::GREATER
        | TokenType::GREATER_EQUAL => match val_cmp(a, b) {
            Some(o) => Ok(Val::Bool(cmp_holds(op.token_type, o))),
            None => op_err(op, "cannot compare types"@),
        },
        TokenType::EQUAL_EQUAL => Ok(Val::Bool(a == b)),
        TokenType::BANG_EQUAL => Ok(Val::Bool(a != b)),
        _ => op_err(op, "erroneous binary operator"@),
    }
}

/// Truthiness of an evaluation result, as a boolean value.
pub open spec fn bool_of(r: Result<Val, ErrV>) -> Result<Val, ErrV> {
    match r {
        Ok(v) => Ok(Val::Bool(truthy(v))),
        Err(x) => Err(x),
    }
}

/// The runtime error for a call with a number of arguments other than the
/// function's number of parameters.
pub open spec fn arity_err() -> ErrV {
    ErrV::Runtime(0, "wrong number of arguments"@, Seq::empty())
}

/// The runtime error for exhausting the budget.
pub open spec fn limit_err() -> ErrV {
    ErrV::Runtime(0, "execution limit reached"@, Seq::empty())
}

/// The scopes kept after a block or call that started in `before` and
/// ended in `after`: if no function was declared meanwhile, no closure can
/// hold a scope made meanwhile, and those scopes are dropped.
pub open spec fn reclaim(before: St, after: St) -> St {
    if after.funs.len() == before.funs.len() && before.scopes.len() <= after.scopes.len() {
        St { scopes: after.scopes.subrange(0, before.scopes.len() as int), ..after }
    } else {
        after
    }
}

/// The state with a call frame for `f` binding its parameters to `vals`.
pub open spec fn enter_frame(st: St, f: FunV, vals: Seq<Val>) -> St {
    St {
        scopes: st.scopes.push(ScopeV { parent: Some(f.env as usize), names: f.params, vals }),
        ..st
    }
}

/// What a call returns, given how its body ended.
pub open spec fn call_result(r: Result<Flow, ErrV>) -> Result<Val, ErrV> {
    match r {
        Ok(Flow::Normal) => Ok(Val::Nil),
        Ok(Flow::Ret(_, v)) => Ok(v),
        Ok(Flow::Brk(l)) => Err(ErrV::Break(l)),
        Err(x) => Err(x),
    }
}

/// Binding `t`'s name to `v` in scope `cur`, failing on a second definition.
pub open spec fn declare(st: St, cur: int, t: Token, v: Val) -> (St, Result<Flow, ErrV>) {
    if slot(st.scopes[cur].names, t.lexeme@) >= 0 {
        (st, Err(ErrV::Runtime(t.line, duplicate_msg(t.lexeme@), t.lexeme@)))
    } else {
        (St { scopes: defined(st.scopes, cur, t.lexeme@, v), ..st }, Ok(Flow::Normal))
    }
}

/// The number of nodes of an expression.
pub open spec fn expr_size(e: Expr) -> nat
    decreases e, 0nat,
{
    match e {
        Expr::Identifier(_) => 1,
        Expr::Literal(_) => 1,
        Expr::Grouping(x) => 1 + expr_size(*x),
        Expr::Unary(_, x) => 1 + expr_size(*x),
        Expr::Binary(l, _, r) => 1 + expr_size(*l) + expr_size(*r),
        Expr::Logical(l, _, r) => 1 + expr_size(*l) + expr_size(*r),
        Expr::Assignment(_, x) => 1 + expr_size(*x),
        Expr::Call(c, _, args) => 1 + expr_size(*c) + args_size(args@, args@.len() as int),
    }
}

/// The number of nodes of the first `n` expressions of `args`.
pub open spec fn args_size(args: Seq<Expr>, n: int) -> nat
    decreases args, n,
{
    if n <= 0 || n > args.len() {
        0
    } else {
        args_size(args, n - 1) + expr_size(args[n - 1]) + 1
    }
}

/// The number of nodes of a statement (a function's body not counted).
pub open spec fn stmt_size(s: Stmt) -> nat
    decreases s, 0nat,
{
    match s {
        Stmt::Expression(e) => 1 + expr_size(e),
        Stmt::Print(e) => 1 + expr_size(e),
        Stmt::Declaration(_, init) => match init {
            Some(e) => 1 + expr_size(e),
            None => 1,
        },
        Stmt::Block(ss) => 1 + stmts_size(ss@, ss@.len() as int),
        Stmt::If(c, t, e) => 1 + expr_size(c) + stmt_size(*t) + match e {
            Some(x) => stmt_size(*x),
            None => 0,
        },
        Stmt::While(c, b) => 1 + expr_size(c) + stmt_size(*b),
        Stmt::Return(_, e) => 1 + expr_size(e),
        _ => 1,
    }
}

/// The number of nodes of the first `n` statements of `ss`.
pub open spec fn stmts_size(ss: Seq<Stmt>, n: int) -> nat
    decreases ss, n,
{
    if n <= 0 || n > ss.len() {
        0
    } else {
        stmts_size(ss, n - 1) + stmt_size(ss[n - 1]) + 1
    }
}

/// Evaluating `e` in scope `cur` of state `st`, with budget `fuel`.
pub open spec fn eval(fuel: nat, st: St, cur: int, e: Expr) -> (St, Result<Val, ErrV>)
    decreases fuel, expr_size(e),
{
    match e {
        Expr::Literal(t) => (st, Ok(t.literal@)),
        Expr::Grouping(inner) => eval(fuel, st, cur, *inner),
        Expr::Identifier(t) => match lookup(st.scopes, cur, t.lexeme@) {
            Some(v) => (st, Ok(v)),
            None => (st, Err(ErrV::Runtime(t.line, undefined_msg(t.lexeme@), t.lexeme@))),
        },
        Expr::Assignment(t, rhs) => {
            let (s1, r) = eval(fuel, st, cur, *rhs);
            match r {
                Err(x) => (s1, Err(x)),
                Ok(v) => if resolve(s1.scopes, cur, t.lexeme@) is Some {
                    (St { scopes: assigned(s1.scopes, cur, t.lexeme@, v), ..s1 }, Ok(v))
                } else {
                    (s1, Err(ErrV::Runtime(t.line, undefined_msg(t.lexeme@), t.lexeme@)))
                },
            }
        },
        Expr::Unary(op, rhs) => {
            let (s1, r) = eval(fuel, st, cur, *rhs);
            match r {
                Err(x) => (s1, Err(x)),
                Ok(v) => (s1, unary_result(op, v)),
            }
        },
        Expr::Binary(lhs, op, rhs) => {
            let (s1, a) = eval(fuel, st, cur, *lhs);
            match a {
                Err(x) => (s1, Err(x)),
                Ok(va) => {
                    let (s2, b) = eval(fuel, s1, cur, *rhs);
                    match b {
                        Err(x) => (s2, Err(x)),
                        Ok(vb) => (s2, binary_result(op, va, vb)),
                    }
                },
            }
        },
        Expr::Logical(lhs, op, rhs) => {
            let (s1, a) = eval(fuel, st, cur, *lhs);
            match a {
                Err(x) => (s1, Err(x)),
                Ok(va) => if op.token_type == TokenType::OR {
                    if truthy(va) {
                        (s1, Ok(Val::Bool(true)))
                    } else {
                        let (s2, b) = eval(fuel, s1, cur, *rhs);
                        (s2, bool_of(b))
                    }
                } else {
                    if truthy(va) {
                        let (s2, b) = eval(fuel, s1, cur, *rhs);
                        (s2, bool_of(b))
                    } else {
                        (s1, Ok(Val::Bool(false)))
                    }
                },
            }
        },
        Expr::Call(callee, paren, args) => {
            let (s1, c) = eval(fuel, st, cur, *callee);
            match c {
                Err(x) => (s1, Err(x)),
                Ok(f) => {
                    let (s2, av) = eval_args(fuel, s1, cur, args@, args@.len() as int);
                    match av {
                        Err(x) => (s2, Err(x)),
                        Ok(vals) => match f {
                            Val::Fun(fid) => if fid >= s2.funs.len() || s2.funs[fid as int].env
                                >= s2.scopes.len() || s2.funs[fid as int].env < 0 {
                                (s2, op_err(paren, "not callable"@))
                            } else if s2.funs[fid as int].params.len() != vals.len() {
                                (s2, op_err(paren, "wrong number of arguments"@))
                            } else if fuel == 0 {
                                (s2, Err(limit_err()))
                            } else {
                                let s3 = enter_frame(s2, s2.funs[fid as int], vals);
                                let (s4, r) = exec(
                                    (fuel - 1) as nat,
                                    s3,
                                    s2.scopes.len() as int,
                                    s2.funs[fid as int].body,
                                );
                                (reclaim(s2, s4), call_result(r))
                            },
                            _ => (s2, op_err(paren, "not callable"@)),
                        },
                    }
                },
            }
        },
    }
}

/// Evaluating the first `n` of `args` from left to right.
pub open spec fn eval_args(fuel: nat, st: St, cur: int, args: Seq<Expr>, n: int) -> (St, Result<
    Seq<Val>,
    ErrV,
>)
    decreases fuel, args_size(args, n),
{
    if n <= 0 || n > args.len() {
        (st, Ok(Seq::empty()))
    } else {
        let (s1, r) = eval_args(fuel, st, cur, args, n - 1);
        match r {
            Err(x) => (s1, Err(x)),
            Ok(vs) => {
                let (s2, v) = eval(fuel, s1, cur, args[n - 1]);
                match v {
                    Err(x) => (s2, Err(x)),
                    Ok(v) => (s2, Ok(vs.push(v))),
                }
            },
        }
    }
}

/// Executing `s` in scope `cur` of state `st`, with budget `fuel`.
pub open spec fn exec(fuel: nat, st: St, cur: int, s: Stmt) -> (St, Result<Flow, ErrV>)
    decreases fuel, stmt_size(s),
{
    match s {
        Stmt::Empty => (st, Ok(Flow::Normal)),
        Stmt::Break(l) => (st, Ok(Flow::Brk(l))),
        Stmt::Expression(e) => {
            let (s1, r) = eval(fuel, st, cur, e);
            match r {
                Err(x) => (s1, Err(x)),
                Ok(v) => if st.repl {
                    (St { out: s1.out.push(display(v)), ..s1 }, Ok(Flow::Normal))
                } else {
                    (s1, Ok(Flow::Normal))
                },
            }
        },
        Stmt::Print(e) => {
            let (s1, r) = eval(fuel, st, cur, e);
            match r {
                Err(x) => (s1, Err(x)),
                Ok(v) => (St { out: s1.out.push(display(v)), ..s1 }, Ok(Flow::Normal)),
            }
        },
        Stmt::Declaration(t, init) => match init {
            Some(e) => {
                let (s1, r) = eval(fuel, st, cur, e);
                match r {
                    Err(x) => (s1, Err(x)),
                    Ok(v) => declare(s1, cur, t, v),
                }
            },
            None => declare(st, cur, t, Val::Nil),
        },
        Stmt::Block(ss) => {
            let s1 = St { scopes: st.scopes.push(empty_scope(Some(cur as usize))), ..st };
            let (s2, r) = exec_seq(fuel, s1, st.scopes.len() as int, ss@, ss@.len() as int);
            (reclaim(st, s2), r)
        },
        Stmt::If(c, t, e) => {
            let (s1, r) = eval(fuel, st, cur, c);
            match r {
                Err(x) => (s1, Err(x)),
                Ok(v) => if truthy(v) {
                    exec(fuel, s1, cur, *t)
                } else {
                    match e {
                        Some(x) => exec(fuel, s1, cur, *x),
                        None => (s1, Ok(Flow::Normal)),
                    }
                },
            }
        },
        Stmt::While(c, b) => if fuel == 0 {
            (st, Err(limit_err()))
        } else {
            run_while((fuel - 1) as nat, st, cur, s)
        },
        Stmt::Function(t, params, body) => {
            let f = FunV { env: cur, params: params@.map_values(|p: String| p@), body: *body };
            let s1 = St { funs: st.funs.push(f), ..st };
            declare(s1, cur, t, Val::Fun(st.funs.len()))
        },
        Stmt::Return(l, e) => {
            let (s1, r) = eval(fuel, st, cur, e);
            match r {
                Err(x) => (s1, Err(x)),
                Ok(v) => (s1, Ok(Flow::Ret(l, v))),
            }
        },
    }
}

/// Executing the first `n` of `ss` in order, stopping at the first error
/// or signal.
pub open spec fn exec_seq(fuel: nat, st: St, cur: int, ss: Seq<Stmt>, n: int) -> (St, Result<
    Flow,
    ErrV,
>)
    decreases fuel, stmts_size(ss, n),
{
    if n <= 0 || n > ss.len() {
        (st, Ok(Flow::Normal))
    } else {
        let (s1, r) = exec_seq(fuel, st, cur, ss, n - 1);
        match r {
            Ok(Flow::Normal) => exec(fuel, s1, cur, ss[n - 1]),
            _ => (s1, r),
        }
    }
}

/// Running the loop `w` (a `while` statement) with budget `fuel` for the
/// iterations after this one.
pub open spec fn run_while(fuel: nat, st: St, cur: int, w: Stmt) -> (St, Result<Flow, ErrV>)
    decreases fuel, stmt_size(w),
{
    match w {
        Stmt::While(c, b) => {
            let (s1, r) = eval(fuel, st, cur, c);
            match r {
                Err(x) => (s1, Err(x)),
                Ok(v) => if !truthy(v) {
                    (s1, Ok(Flow::Normal))
                } else {
                    let (s2, q) = exec(fuel, s1, cur, *b);
                    match q {
                        Err(x) => (s2, Err(x)),
                        Ok(Flow::Brk(_)) => (s2, Ok(Flow::Normal)),
                        Ok(Flow::Ret(l, v)) => (s2, Ok(Flow::Ret(l, v))),
                        Ok(Flow::Normal) => if fuel == 0 {
                            (s2, Err(limit_err()))
                        } else {
                            run_while((fuel - 1) as nat, s2, cur, w)
                        },
                    }
                },
            }
        },
        _ => (st, Ok(Flow::Normal)),
    }
}


/// An evaluation result, as values.
pub open spec fn obj_res(r: Result<Object, Error>) -> Result<Val, ErrV> {
    match r {
        Ok(o) => Ok(o@),
        Err(e) => Err(e@),
    }
}

/// How a statement ended, as run by the interpreter.
pub enum Signal {
    Normal,
    Break(u32),
    Return(u32, Object),
}

impl View for Signal {
    type V = Flow;

    open spec fn view(&self) -> Flow {
        match self {
            Signal::Normal => Flow::Normal,
            Signal::Break(l) => Flow::Brk(*l),
            Signal::Return(l, v) => Flow::Ret(*l, v@),
        }
    }
}

/// A statement result, as values.
pub open spec fn sig_res(r: Result<Signal, Error>) -> Result<Flow, ErrV> {
    match r {
        Ok(s) => Ok(s@),
        Err(e) => Err(e@),
    }
}

/// Argument values, as values.
pub open spec fn vals_of(v: Seq<Object>) -> Seq<Val> {
    v.map_values(|o: Object| o@)
}

/// An argument-list result, as values.
pub open spec fn vals_res(r: Result<Vec<Object>, Error>) -> Result<Seq<Val>, ErrV> {
    match r {
        Ok(v) => Ok(vals_of(v@)),
        Err(e) => Err(e@),
    }
}

/// Running a top-level statement: a `break` or `return` that escapes it
/// is an error.
pub open spec fn run_top(st: St, cur: int, s: Stmt) -> (St, Result<(), ErrV>) {
    let (s1, q) = exec(FUEL as nat, st, cur, s);
    (
        s1,
        match q {
            Ok(Flow::Normal) => Ok(()),
            Ok(Flow::Brk(l)) => Err(ErrV::Break(l)),
            Ok(Flow::Ret(l, v)) => Err(ErrV::Return(l, v)),
            Err(x) => Err(x),
        },
    )
}

/// Running the first `n` of `ss` as top-level statements in order,
/// stopping at the first error.
pub open spec fn run_seq(st: St, cur: int, ss: Seq<Stmt>, n: int) -> (St, Result<(), ErrV>)
    decreases n,
{
    if n <= 0 || n > ss.len() {
        (st, Ok(()))
    } else {
        let (s1, r) = run_seq(st, cur, ss, n - 1);
        match r {
            Ok(()) => run_top(s1, cur, ss[n - 1]),
            Err(e) => (s1, Err(e)),
        }
    }
}

proof fn lemma_run_err_stays(st: St, cur: int, ss: Seq<Stmt>, m: int, n: int)
    requires
        0 < m <= n <= ss.len(),
        run_seq(st, cur, ss, m).1 is Err,
    ensures
        run_seq(st, cur, ss, n) == run_seq(st, cur, ss, m),
    decreases n - m,
{
    if m < n {
        lemma_run_err_stays(st, cur, ss, m, n - 1);
    }
}

/// A unit result, as values.
pub open spec fn unit_res(r: Result<(), Error>) -> Result<(), ErrV> {
    match r {
        Ok(()) => Ok(()),
        Err(e) => Err(e@),
    }
}

/// What a call of `f` with argument values `vals` does, with budget `fuel`
/// (at least one).
pub open spec fn call_spec(fuel: nat, st: St, f: FunV, vals: Seq<Val>) -> (St, Result<Val, ErrV>) {
    let (s4, r) = exec((fuel - 1) as nat, enter_frame(st, f, vals), st.scopes.len() as int, f.body);
    (reclaim(st, s4), call_result(r))
}

proof fn lemma_args_size_mono(args: Seq<Expr>, m: int, n: int)
    requires
        0 <= m <= n <= args.len(),
    ensures
        args_size(args, m) <= args_size(args, n),
        m < n ==> expr_size(args[m]) < args_size(args, n),
    decreases n - m,
{
    if m < n {
        lemma_args_size_mono(args, m, n - 1);
        if m < n - 1 {
            lemma_args_size_mono(args, m + 1, n);
        }
    }
}

proof fn lemma_stmts_size_mono(ss: Seq<Stmt>, m: int, n: int)
    requires
        0 <= m <= n <= ss.len(),
    ensures
        stmts_size(ss, m) <= stmts_size(ss, n),
        m < n ==> stmt_size(ss[m]) < stmts_size(ss, n),
    decreases n - m,
{
    if m < n {
        lemma_stmts_size_mono(ss, m, n - 1);
        if m < n - 1 {
            lemma_stmts_size_mono(ss, m + 1, n);
        }
    }
}

proof fn lemma_args_err_stays(fuel: nat, st: St, cur: int, args: Seq<Expr>, m: int, n: int)
    requires
        0 < m <= n <= args.len(),
        eval_args(fuel, st, cur, args, m).1 is Err,
    ensures
        eval_args(fuel, st, cur, args, n) == eval_args(fuel, st, cur, args, m),
    decreases n - m,
{
    if m < n {
        lemma_args_err_stays(fuel, st, cur, args, m, n - 1);
    }
}

proof fn lemma_seq_stop_stays(fuel: nat, st: St, cur: int, ss: Seq<Stmt>, m: int, n: int)
    requires
        0 < m <= n <= ss.len(),
        !(exec_seq(fuel, st, cur, ss, m).1 matches Ok(Flow::Normal)),
    ensures
        exec_seq(fuel, st, cur, ss, n) == exec_seq(fuel, st, cur, ss, m),
    decreases n - m,
{
    if m < n {
        lemma_seq_stop_stays(fuel, st, cur, ss, m, n - 1);
    }
}

fn rt_error(line: u32, msg: &str, near: &String) -> (r: Error)
    ensures
        r@ == ErrV::Runtime(line, msg@, near@),
{
    Error::Runtime(line, String::from_str(msg), near.clone())
}

fn limit_error() -> (r: Error)
    ensures
        r@ == limit_err(),
{
    Error::Runtime(0, String::from_str("execution limit reached"), String::new())
}

fn bool_object(b: bool) -> (r: Object)
    ensures
        r@ == Val::Bool(b),
{
    if b {
        Object::Literal(Literal::True)
    } else {
        Object::Literal(Literal::False)
    }
}

fn number(op: &Token, n: i128) -> (r: Result<Object, Error>)
    ensures
        obj_res(r) == num_result(n as int, *op),
{
    if n < i64::MIN as i128 || n > i64::MAX as i128 {
        Err(rt_error(op.line, "numeric overflow", &op.lexeme))
    } else {
        Ok(Object::Literal(Literal::Number(n as i64)))
    }
}

fn quotient(x: i64, y: i64) -> (q: i128)
    requires
        y != 0,
    ensures
        q as int == trunc_div(x as int, y as int),
{
    let ax: u128 = if x < 0 {
        (0 - (x as i128)) as u128
    } else {
        x as u128
    };
    let ay: u128 = if y < 0 {
        (0 - (y as i128)) as u128
    } else {
        y as u128
    };
    let q: u128 = ax / ay;
    assert(q <= ax) by (nonlinear_arith)
        requires
            q == ax / ay,
            ay >= 1,
    ;
    if (x < 0) == (y < 0) {
        q as i128
    } else {
        0 - (q as i128)
    }
}

/// Applies a unary operator.
pub fn unary_op(op: &Token, v: &Object) -> (r: Result<Object, Error>)
    ensures
        obj_res(r) == unary_result(*op, v@),
{
    match op.token_type {
        TokenType::MINUS => match v {
            Object::Literal(Literal::Number(n)) => number(op, 0 - (*n as i128)),
            _ => Err(rt_error(op.line, "cannot negate non-numeric", &op.lexeme)),
        },
        TokenType::BANG => Ok(bool_object(!v.is_truthy())),
        _ => Err(rt_error(op.line, "erroneous unary operator", &op.lexeme)),
    }
}

/// Applies a (non-logical) binary operator.
pub fn binary_op(op: &Token, a: &Object, b: &Object) -> (r: Result<Object, Error>)
    ensures
        obj_res(r) == binary_result(*op, a@, b@),
{
    match (a, b) {
        (Object::Literal(Literal::Number(x)), Object::Literal(Literal::Number(y))) => {
            let x: i64 = *x;
            let y: i64 = *y;
            match op.token_type {
                TokenType::PLUS => number(op, x as i128 + y as i128),
                TokenType::MINUS => number(op, x as i128 - y as i128),
                TokenType::STAR => {
                    assert(-0x4000_0000_0000_0000_0000_0000_0000_0000 <= (x as int) * (y as int)
                        <= 0x4000_0000_0000_0000_0000_0000_0000_0000) by (nonlinear_arith)
                        requires
                            -0x8000_0000_0000_0000 <= x <= 0x7fff_ffff_ffff_ffff,
                            -0x8000_0000_0000_0000 <= y <= 0x7fff_ffff_ffff_ffff,
                    ;
                    number(op, (x as i128) * (y as i128))
                },
                TokenType::SLASH => {
                    if y == 0 {
                        Err(rt_error(op.line, "divide by zero", &op.lexeme))
                    } else {
                        number(op, quotient(x, y))
                    }
                },
                _ => other_op(op, a, b),
            }
        },
        _ => other_op(op, a, b),
    }
}

fn is_text(v: &Object) -> (r: bool)
    ensures
        r == (v@ is Str),
{
    match v {
        Object::Literal(Literal::StringLit(_)) => true,
        _ => false,
    }
}

fn other_op(op: &Token, a: &Object, b: &Object) -> (r: Result<Object, Error>)
    ensures
        obj_res(r) == other_binary(*op, a@, b@),
{
    match op.token_type {
        TokenType::PLUS => {
            if is_text(a) || is_text(b) {
                let mut s = a.fmt();
                let t = b.fmt();
                s.append(t.as_str());
                Ok(Object::Literal(Literal::StringLit(s)))
            } else {
                Err(rt_error(op.line, "cannot add mixed types", &op.lexeme))
            }
        },
        TokenType::MINUS => Err(rt_error(op.line, "cannot subtract non-numerics", &op.lexeme)),
        TokenType::STAR => Err(rt_error(op.line, "cannot multiply non-numerics", &op.lexeme)),
        TokenType::SLASH => Err(rt_error(op.line, "cannot divide non-numerics", &op.lexeme)),
        TokenType::LESS | TokenType::LESS_EQUAL | TokenType::GREATER
        | TokenType::GREATER_EQUAL => match a.partial_cmp(b) {
            Some(o) => {
                let holds = match op.token_type {
                    TokenType::LESS => matches!(o, core::cmp::Ordering::Less),
                    TokenType::LESS_EQUAL => !matches!(o, core::cmp::Ordering::Greater),
                    TokenType::GREATER => matches!(o, core::cmp::Ordering::Greater),
                    _ => !matches!(o, core::cmp::Ordering::Less),
                };
                Ok(bool_object(holds))
            },
            None => Err(rt_error(op.line, "cannot compare types", &op.lexeme)),
        },
        TokenType::EQUAL_EQUAL => Ok(bool_object(a.eq(b))),
        TokenType::BANG_EQUAL => Ok(bool_object(!a.eq(b))),
        _ => Err(rt_error(op.line, "erroneous binary operator", &op.lexeme)),
    }
}


/// The interpreter: the scope arena, the function table, the current
/// (global) scope, the echo flag and the printed lines not yet taken.
pub struct Interpreter {
    pub env: Env,
    pub scope: usize,
    pub functions: Vec<LoxFunction>,
    pub repl: bool,
    pub output: Vec<String>,
}

impl View for Interpreter {
    type V = St;

    open spec fn view(&self) -> St {
        St {
            scopes: self.env@,
            funs: self.functions@.map_values(|f: LoxFunction| f@),
            out: self.output@.map_values(|o: String| o@),
            repl: self.repl,
        }
    }
}

impl Interpreter {
    /// The interpreter's invariant.
    pub open spec fn inv(&self) -> bool {
        &&& self.env.wf()
        &&& self.scope < self.env@.len()
    }

    /// What every evaluation step keeps: a well-formed arena that never
    /// shrinks below its size at the start, the current scope and the flag.
    pub open spec fn keeps(&self, old: &Interpreter) -> bool {
        &&& self.env.wf()
        &&& self.env@.len() >= old.env@.len()
        &&& self.scope == old.scope
        &&& self.repl == old.repl
    }

    /// A fresh interpreter with one empty global scope; `repl` makes bare
    /// expression statements print their value.
    pub fn new(repl: bool) -> (r: Interpreter)
        ensures
            r.inv(),
            r.scope == 0,
            r@ == (St {
                scopes: seq![empty_scope(None)],
                funs: Seq::empty(),
                out: Seq::empty(),
                repl,
            }),
    {
        let r = Interpreter {
            env: Env::new(),
            scope: 0,
            functions: Vec::new(),
            repl,
            output: Vec::new(),
        };
        assert(r@.funs =~= Seq::empty());
        assert(r@.out =~= Seq::empty());
        r
    }

    /// Runs one top-level statement in the global scope.
    pub fn interpret(&mut self, s: &Stmt) -> (r: Result<(), Error>)
        requires
            old(self).inv(),
        ensures
            final(self).inv(),
            final(self).keeps(old(self)),
            (final(self)@, match r {
                Ok(()) => Ok(()),
                Err(e) => Err(e@),
            }) == run_top(old(self)@, old(self).scope as int, *s),
    {
        let cur = self.scope;
        match self.exec_stmt(cur, s, FUEL) {
            Ok(Signal::Normal) => Ok(()),
            Ok(Signal::Break(l)) => Err(Error::Break(l)),
            Ok(Signal::Return(l, v)) => Err(Error::Return(l, v)),
            Err(e) => Err(e),
        }
    }

    /// Runs top-level statements in order, stopping at the first error.
    pub fn run_all(&mut self, stmts: &Vec<Stmt>) -> (r: Result<(), Error>)
        requires
            old(self).inv(),
        ensures
            final(self).inv(),
            final(self).keeps(old(self)),
            (final(self)@, unit_res(r)) == run_seq(
                old(self)@,
                old(self).scope as int,
                stmts@,
                stmts@.len() as int,
            ),
    {
        let mut i: usize = 0;
        while i < stmts.len()
            invariant
                i <= stmts@.len(),
                self.inv(),
                self.keeps(old(self)),
                run_seq(old(self)@, old(self).scope as int, stmts@, i as int) == (
                    self@,
                    Ok::<(), ErrV>(()),
                ),
            decreases stmts@.len() - i,
        {
            let r = self.interpret(&stmts[i]);
            match r {
                Ok(()) => {
                    i = i + 1;
                },
                Err(e) => {
                    proof {
                        lemma_run_err_stays(
                            old(self)@,
                            old(self).scope as int,
                            stmts@,
                            i + 1,
                            stmts@.len() as int,
                        );
                    }
                    return Err(e);
                },
            }
        }
        Ok(())
    }

    /// Evaluates an expression in the global scope.
    pub fn evaluate(&mut self, expr: &Expr) -> (r: Result<Object, Error>)
        requires
            old(self).inv(),
        ensures
            final(self).inv(),
            final(self).keeps(old(self)),
            (final(self)@, obj_res(r)) == eval(FUEL as nat, old(self)@, old(self).scope as int, *expr),
    {
        let cur = self.scope;
        self.eval_expr(cur, expr, FUEL)
    }

    /// Hands over the printed lines, oldest first, and forgets them.
    pub fn take_output(&mut self) -> (r: Vec<String>)
        ensures
            r@.map_values(|o: String| o@) == old(self)@.out,
            final(self)@ == (St { out: Seq::empty(), ..old(self)@ }),
            final(self).inv() == old(self).inv(),
            final(self).scope == old(self).scope,
    {
        let r = self.output.split_off(0);
        assert(self@.out =~= Seq::empty());
        r
    }

    fn reclaim(&mut self, scopes_before: usize, funs_before: usize)
        requires
            old(self).env.wf(),
            scopes_before <= old(self).env@.len(),
        ensures
            final(self).env.wf(),
            final(self).env@.len() >= scopes_before,
            final(self).scope == old(self).scope,
            final(self).repl == old(self).repl,
            final(self)@ == (if old(self)@.funs.len() == funs_before {
                St { scopes: old(self)@.scopes.subrange(0, scopes_before as int), ..old(self)@ }
            } else {
                old(self)@
            }),
    {
        if self.functions.len() == funs_before {
            self.env.truncate(scopes_before);
        }
    }

    fn declare(&mut self, cur: usize, t: &Token, v: Object) -> (r: Result<Signal, Error>)
        requires
            old(self).env.wf(),
            cur < old(self).env@.len(),
        ensures
            final(self).keeps(old(self)),
            (final(self)@, sig_res(r)) == declare(old(self)@, cur as int, *t, v@),
    {
        match self.env.define(cur, &t.lexeme, v) {
            Ok(()) => Ok(Signal::Normal),
            Err(Error::Runtime(_, m, n)) => Err(Error::Runtime(t.line, m, n)),
            Err(e) => Err(e),
        }
    }

    fn eval_args(&mut self, cur: usize, args: &Vec<Expr>, fuel: u64) -> (r: Result<
        Vec<Object>,
        Error,
    >)
        requires
            old(self).env.wf(),
            cur < old(self).env@.len(),
        ensures
            final(self).keeps(old(self)),
            (final(self)@, vals_res(r)) == eval_args(
                fuel as nat,
                old(self)@,
                cur as int,
                args@,
                args@.len() as int,
            ),
        decreases fuel, args_size(args@, args@.len() as int),
    {
        let mut vals: Vec<Object> = Vec::new();
        let mut i: usize = 0;
        assert(vals_of(vals@) =~= Seq::empty());
        while i < args.len()
            invariant
                i <= args@.len(),
                self.keeps(old(self)),
                cur < old(self).env@.len(),
                eval_args(fuel as nat, old(self)@, cur as int, args@, i as int) == (
                    self@,
                    Ok::<Seq<Val>, ErrV>(vals_of(vals@)),
                ),
            decreases args@.len() - i,
        {
            proof {
                lemma_args_size_mono(args@, i as int, args@.len() as int);
            }
            match self.eval_expr(cur, &args[i], fuel) {
                Err(x) => {
                    proof {
                        lemma_args_err_stays(
                            fuel as nat,
                            old(self)@,
                            cur as int,
                            args@,
                            i + 1,
                            args@.len() as int,
                        );
                    }
                    return Err(x);
                },
                Ok(v) => {
                    let ghost before = vals@;
                    vals.push(v);
                    assert(vals_of(vals@) =~= vals_of(before).push(v@));
                    i = i + 1;
                },
            }
        }
        Ok(vals)
    }

    fn eval_expr(&mut self, cur: usize, e: &Expr, fuel: u64) -> (r: Result<Object, Error>)
        requires
            old(self).env.wf(),
            cur < old(self).env@.len(),
        ensures
            final(self).keeps(old(self)),
            (final(self)@, obj_res(r)) == eval(fuel as nat, old(self)@, cur as int, *e),
        decreases fuel, expr_size(*e),
    {
        match e {
            Expr::Literal(t) => Ok(Object::Literal(t.literal.duplicate())),
            Expr::Grouping(inner) => self.eval_expr(cur, inner, fuel),
            Expr::Identifier(t) => match self.env.get(cur, &t.lexeme) {
                Ok(v) => Ok(v),
                Err(Error::Runtime(_, m, n)) => Err(Error::Runtime(t.line, m, n)),
                Err(x) => Err(x),
            },
            Expr::Assignment(t, rhs) => {
                let v = match self.eval_expr(cur, rhs, fuel) {
                    Err(x) => {
                        return Err(x);
                    },
                    Ok(v) => v,
                };
                match self.env.assign(cur, &t.lexeme, v) {
                    Ok(v) => Ok(v),
                    Err(Error::Runtime(_, m, n)) => Err(Error::Runtime(t.line, m, n)),
                    Err(x) => Err(x),
                }
            },
            Expr::Unary(op, rhs) => match self.eval_expr(cur, rhs, fuel) {
                Err(x) => Err(x),
                Ok(v) => unary_op(op, &v),
            },
            Expr::Binary(lhs, op, rhs) => {
                let a = match self.eval_expr(cur, lhs, fuel) {
                    Err(x) => {
                        return Err(x);
                    },
                    Ok(v) => v,
                };
                match self.eval_expr(cur, rhs, fuel) {
                    Err(x) => Err(x),
                    Ok(b) => binary_op(op, &a, &b),
                }
            },
            Expr::Logical(lhs, op, rhs) => {
                let a = match self.eval_expr(cur, lhs, fuel) {
                    Err(x) => {
                        return Err(x);
                    },
                    Ok(v) => v,
                };
                let left = a.is_truthy();
                if op.token_type == TokenType::OR {
                    if left {
                        return Ok(bool_object(true));
                    }
                } else {
                    if !left {
                        return Ok(bool_object(false));
                    }
                }
                match self.eval_expr(cur, rhs, fuel) {
                    Err(x) => Err(x),
                    Ok(b) => Ok(bool_object(b.is_truthy())),
                }
            },
            Expr::Call(callee, paren, args) => {
                let f = match self.eval_expr(cur, callee, fuel) {
                    Err(x) => {
                        return Err(x);
                    },
                    Ok(f) => f,
                };
                let vals = match self.eval_args(cur, args, fuel) {
                    Err(x) => {
                        return Err(x);
                    },
                    Ok(v) => v,
                };
                match f {
                    Object::Func(fid) => {
                        if fid >= self.functions.len() || self.functions[fid].env
                            >= self.env.scopes.len() {
                            return Err(rt_error(paren.line, "not callable", &paren.lexeme));
                        }
                        if self.functions[fid].params.len() != vals.len() {
                            return Err(
                                rt_error(paren.line, "wrong number of arguments", &paren.lexeme),
                            );
                        }
                        if fuel == 0 {
                            return Err(limit_error());
                        }
                        let func = LoxFunction {
                            env: self.functions[fid].env,
                            params: copy_names(&self.functions[fid].params),
                            body: share(&self.functions[fid].body),
                        };
                        assert(func@ == self@.funs[fid as int]);
                        func.call(self, vals, fuel)
                    },
                    _ => Err(rt_error(paren.line, "not callable", &paren.lexeme)),
                }
            },
        }
    }

    fn exec_stmt(&mut self, cur: usize, s: &Stmt, fuel: u64) -> (r: Result<Signal, Error>)
        requires
            old(self).env.wf(),
            cur < old(self).env@.len(),
        ensures
            final(self).keeps(old(self)),
            (final(self)@, sig_res(r)) == exec(fuel as nat, old(self)@, cur as int, *s),
        decreases fuel, stmt_size(*s),
    {
        match s {
            Stmt::Empty => Ok(Signal::Normal),
            Stmt::Break(l) => Ok(Signal::Break(*l)),
            Stmt::Expression(e) => {
                let v = match self.eval_expr(cur, e, fuel) {
                    Err(x) => {
                        return Err(x);
                    },
                    Ok(v) => v,
                };
                if self.repl {
                    let ghost before = self@;
                    self.output.push(v.fmt());
                    assert(self@.out =~= before.out.push(display(v@)));
                }
                Ok(Signal::Normal)
            },
            Stmt::Print(e) => {
                let v = match self.eval_expr(cur, e, fuel) {
                    Err(x) => {
                        return Err(x);
                    },
                    Ok(v) => v,
                };
                let ghost before = self@;
                self.output.push(v.fmt());
                assert(self@.out =~= before.out.push(display(v@)));
                Ok(Signal::Normal)
            },
            Stmt::Declaration(t, init) => {
                let v = match init {
                    Some(e) => match self.eval_expr(cur, e, fuel) {
                        Err(x) => {
                            return Err(x);
                        },
                        Ok(v) => v,
                    },
                    None => Object::Literal(Literal::Nil),
                };
                self.declare(cur, t, v)
            },
            Stmt::Block(ss) => {
                let scopes_before = self.env.scopes.len();
                let funs_before = self.functions.len();
                let child = self.env.with_parent(cur);
                let ghost s1 = self@;
                assert(s1 == (St { scopes: old(self)@.scopes.push(empty_scope(Some(cur))), ..old(self)@ }));
                let mut i: usize = 0;
                while i < ss.len()
                    invariant
                        i <= ss@.len(),
                        self.keeps(old(self)),
                        child == scopes_before,
                        scopes_before == old(self)@.scopes.len(),
                        funs_before == old(self)@.funs.len(),
                        child < self.env@.len(),
                        stmt_size(*s) == 1 + stmts_size(ss@, ss@.len() as int),
                        *s == Stmt::Block(*ss),
                        cur < old(self).env@.len(),
                        s1 == (St {
                            scopes: old(self)@.scopes.push(empty_scope(Some(cur))),
                            ..old(self)@
                        }),
                        exec_seq(fuel as nat, s1, child as int, ss@, i as int) == (
                            self@,
                            Ok::<Flow, ErrV>(Flow::Normal),
                        ),
                    decreases ss@.len() - i,
                {
                    proof {
                        lemma_stmts_size_mono(ss@, i as int, ss@.len() as int);
                    }
                    let ghost pre = self@;
                    let r = self.exec_stmt(child, &ss[i], fuel);
                    assert(exec_seq(fuel as nat, s1, child as int, ss@, i + 1) == (
                        self@,
                        sig_res(r),
                    ));
                    match r {
                        Ok(Signal::Normal) => {
                            i = i + 1;
                        },
                        _ => {
                            let ghost mid = self@;
                            proof {
                                lemma_seq_stop_stays(
                                    fuel as nat,
                                    s1,
                                    child as int,
                                    ss@,
                                    i + 1,
                                    ss@.len() as int,
                                );
                            }
                            self.reclaim(scopes_before, funs_before);
                            assert(exec(fuel as nat, old(self)@, cur as int, *s) == (
                                reclaim(old(self)@, mid),
                                sig_res(r),
                            ));
                            return r;
                        },
                    }
                }
                self.reclaim(scopes_before, funs_before);
                Ok(Signal::Normal)
            },
            Stmt::If(c, t, e) => {
                let v = match self.eval_expr(cur, c, fuel) {
                    Err(x) => {
                        return Err(x);
                    },
                    Ok(v) => v,
                };
                if v.is_truthy() {
                    self.exec_stmt(cur, t, fuel)
                } else {
                    match e {
                        Some(x) => self.exec_stmt(cur, x, fuel),
                        None => Ok(Signal::Normal),
                    }
                }
            },
            Stmt::While(_, _) => {
                if fuel == 0 {
                    return Err(limit_error());
                }
                self.run_while(cur, s, fuel - 1)
            },
            Stmt::Function(t, params, body) => {
                let fid = self.functions.len();
                let f = LoxFunction::new(cur, params, share(body));
                let ghost before = self@;
                self.functions.push(f);
                assert(self@.funs =~= before.funs.push(f@));
                self.declare(cur, t, Object::Func(fid))
            },
            Stmt::Return(l, e) => match self.eval_expr(cur, e, fuel) {
                Err(x) => Err(x),
                Ok(v) => Ok(Signal::Return(*l, v)),
            },
        }
    }

    fn run_while(&mut self, cur: usize, w: &Stmt, fuel: u64) -> (r: Result<Signal, Error>)
        requires
            old(self).env.wf(),
            cur < old(self).env@.len(),
        ensures
            final(self).keeps(old(self)),
            (final(self)@, sig_res(r)) == run_while(fuel as nat, old(self)@, cur as int, *w),
        decreases fuel, stmt_size(*w),
    {
        match w {
            Stmt::While(c, b) => {
                let mut f: u64 = fuel;
                loop
                    invariant
                        f <= fuel,
                        *w == Stmt::While(*c, *b),
                        stmt_size(*w) == 1 + expr_size(*c) + stmt_size(**b),
                        self.keeps(old(self)),
                        cur < old(self).env@.len(),
                        run_while(fuel as nat, old(self)@, cur as int, *w) == run_while(
                            f as nat,
                            self@,
                            cur as int,
                            *w,
                        ),
                    decreases f,
                {
                    let v = match self.eval_expr(cur, c, f) {
                        Err(x) => {
                            return Err(x);
                        },
                        Ok(v) => v,
                    };
                    if !v.is_truthy() {
                        return Ok(Signal::Normal);
                    }
                    match self.exec_stmt(cur, b, f) {
                        Err(x) => {
                            return Err(x);
                        },
                        Ok(Signal::Break(_)) => {
                            return Ok(Signal::Normal);
                        },
                        Ok(Signal::Return(l, v)) => {
                            return Ok(Signal::Return(l, v));
                        },
                        Ok(Signal::Normal) => {
                            if f == 0 {
                                return Err(limit_error());
                            }
                            f = f - 1;
                        },
                    }
                }
            },
            _ => Ok(Signal::Normal),
        }
    }
}

impl LoxFunction {
    /// Calls the function with argument values `args`: a new scope chained
    /// to the function's own binds the parameters, the body runs there, and
    /// a `return` gives the result (`nil` if the body ends without one).
    pub fn call(&self, interp: &mut Interpreter, args: Vec<Object>, fuel: u64) -> (r: Result<
        Object,
        Error,
    >)
        requires
            old(interp).env.wf(),
            self.env < old(interp).env@.len(),
            fuel > 0,
        ensures
            final(interp).keeps(old(interp)),
            self.params@.len() != args@.len() ==> (final(interp)@ == old(interp)@ && obj_res(r)
                == Err::<Val, ErrV>(arity_err())),
            self.params@.len() == args@.len() ==> (final(interp)@, obj_res(r)) == call_spec(
                fuel as nat,
                old(interp)@,
                self@,
                vals_of(args@),
            ),
        decreases fuel, 0nat,
    {
        if self.params.len() != args.len() {
            return Err(
                Error::Runtime(0, String::from_str("wrong number of arguments"), String::new()),
            );
        }
        let scopes_before = interp.env.scopes.len();
        let funs_before = interp.functions.len();
        let ghost vals = vals_of(args@);
        let frame = Scope { parent: Some(self.env), names: copy_names(&self.params), values: args };
        let ghost before = interp@;
        interp.env.scopes.push(frame);
        assert(interp@ == enter_frame(before, self@, vals)) by {
            assert(interp.env@ =~= before.scopes.push(
                ScopeV { parent: Some(self.env), names: self@.params, vals },
            ));
        }
        let r = interp.exec_stmt(scopes_before, &*self.body, fuel - 1);
        interp.reclaim(scopes_before, funs_before);
        match r {
            Ok(Signal::Normal) => Ok(Object::Literal(Literal::Nil)),
            Ok(Signal::Return(_, v)) => Ok(v),
            Ok(Signal::Break(l)) => Err(Error::Break(l)),
            Err(x) => Err(x),
        }
    }
}

} // verus!
