//! Laws of the language, proved over its semantics.
use vstd::prelude::*;
use crate::env::{defined, lookup, resolve, scopes_wf, slot, slot_from, ScopeV};
use crate::expr::Expr;
use crate::function::FunV;
use crate::interpreter::{
    args_size, enter_frame, eval, eval_args, exec, exec_seq, expr_size, reclaim, run_while,
    stmt_size, stmts_size, Flow, St,
};
use crate::object::truthy;
use crate::stmt::Stmt;
use crate::token::{Token, TokenType, Val};

verus! {

proof fn lemma_slot_push(names: Seq<Seq<char>>, k: Seq<char>, i: int)
    requires
        0 <= i <= names.len(),
        slot_from(names, k, i) < 0,
    ensures
        slot_from(names.push(k), k, i) == names.len(),
    decreases names.len() - i,
{
    if i < names.len() {
        lemma_slot_push(names, k, i + 1);
    }
}

/// Defining a name in a scope that does not bind it yet, then looking the
/// name up from that scope, gives the defined value; and after that first
/// definition the scope binds the name, so a second definition in the same
/// scope fails (see `Env::define`).
pub proof fn law_define_then_get(sc: Seq<ScopeV>, s: int, k: Seq<char>, v: Val)
    requires
        scopes_wf(sc),
        0 <= s < sc.len(),
        slot(sc[s].names, k) < 0,
    ensures
        lookup(defined(sc, s, k, v), s, k) == Some(v),
        slot(defined(sc, s, k, v)[s].names, k) >= 0,
{
    lemma_slot_push(sc[s].names, k, 0);
    let d = defined(sc, s, k, v);
    assert(d[s].names == sc[s].names.push(k));
    assert(slot(d[s].names, k) == sc[s].names.len());
    assert(resolve(d, s, k) == Some(s));
}

/// `and` whose left side is falsy is `false`, and its right side is never
/// evaluated: the result and the state do not depend on it.
pub proof fn law_and_short_circuit(
    fuel: nat,
    st: St,
    cur: int,
    lhs: Expr,
    op: Token,
    rhs: Expr,
)
    requires
        op.token_type == TokenType::AND,
        eval(fuel, st, cur, lhs).1 matches Ok(v) && !truthy(v),
    ensures
        eval(fuel, st, cur, Expr::Logical(Box::new(lhs), op, Box::new(rhs))) == (
            eval(fuel, st, cur, lhs).0,
            Ok::<Val, crate::error::ErrV>(Val::Bool(false)),
        ),
{
}

/// `or` whose left side is truthy is `true`, and its right side is never
/// evaluated: the result and the state do not depend on it.
pub proof fn law_or_short_circuit(
    fuel: nat,
    st: St,
    cur: int,
    lhs: Expr,
    op: Token,
    rhs: Expr,
)
    requires
        op.token_type == TokenType::OR,
        eval(fuel, st, cur, lhs).1 matches Ok(v) && truthy(v),
    ensures
        eval(fuel, st, cur, Expr::Logical(Box::new(lhs), op, Box::new(rhs))) == (
            eval(fuel, st, cur, lhs).0,
            Ok::<Val, crate::error::ErrV>(Val::Bool(true)),
        ),
{
}

/// A `break` that ends one run of a loop's body ends that loop normally:
/// the loop's own result is normal completion, so the signal goes no
/// further than the innermost loop.
pub proof fn law_break_ends_loop(fuel: nat, st: St, cur: int, c: Expr, b: Stmt)
    requires
        fuel > 0,
        eval((fuel - 1) as nat, st, cur, c).1 matches Ok(v) && truthy(v),
        exec((fuel - 1) as nat, eval((fuel - 1) as nat, st, cur, c).0, cur, b).1 matches Ok(
            Flow::Brk(_),
        ),
    ensures
        exec(fuel, st, cur, Stmt::While(c, Box::new(b))) == (
            exec((fuel - 1) as nat, eval((fuel - 1) as nat, st, cur, c).0, cur, b).0,
            Ok::<Flow, crate::error::ErrV>(Flow::Normal),
        ),
{
    let w = Stmt::While(c, Box::new(b));
    assert(exec(fuel, st, cur, w) == run_while((fuel - 1) as nat, st, cur, w));
}

/// A `break` ends its loop in any iteration: whenever the condition holds
/// and that run of the body breaks, the rest of the loop ends normally
/// with the state the body left, without evaluating the condition again.
pub proof fn law_break_ends_any_iteration(fuel: nat, st: St, cur: int, w: Stmt)
    requires
        w matches Stmt::While(c, b) && (eval(fuel, st, cur, c).1 matches Ok(v) && truthy(v)) && (
        exec(fuel, eval(fuel, st, cur, c).0, cur, *b).1 matches Ok(Flow::Brk(_))),
    ensures
        w matches Stmt::While(c, b) && run_while(fuel, st, cur, w) == (
            exec(fuel, eval(fuel, st, cur, c).0, cur, *b).0,
            Ok::<Flow, crate::error::ErrV>(Flow::Normal),
        ),
{
}

/// A `break` inside a block passes out of the block unchanged: once a
/// statement of the block breaks, the block ends with that same signal.
pub proof fn law_break_leaves_block(fuel: nat, st: St, cur: int, ss: Vec<Stmt>)
    requires
        exec_seq(
            fuel,
            St { scopes: st.scopes.push(crate::env::empty_scope(Some(cur as usize))), ..st },
            st.scopes.len() as int,
            ss@,
            ss@.len() as int,
        ).1 matches Ok(Flow::Brk(_)),
    ensures
        exec(fuel, st, cur, Stmt::Block(ss)).1 == exec_seq(
            fuel,
            St { scopes: st.scopes.push(crate::env::empty_scope(Some(cur as usize))), ..st },
            st.scopes.len() as int,
            ss@,
            ss@.len() as int,
        ).1,
{
}

/// `b` extends the shape of `a`: every scope of `a` is in `b` with the
/// same names and parent (values may differ).
pub open spec fn same_shape(a: Seq<ScopeV>, b: Seq<ScopeV>) -> bool {
    &&& b.len() >= a.len()
    &&& forall|i: int|
        0 <= i < a.len() ==> (#[trigger] b[i]).names == a[i].names && b[i].parent == a[i].parent
}

proof fn lemma_resolve_range(sc: Seq<ScopeV>, s: int, k: Seq<char>)
    ensures
        resolve(sc, s, k) matches Some(d) ==> 0 <= d <= s < sc.len(),
    decreases s,
{
    if 0 <= s < sc.len() && slot(sc[s].names, k) < 0 {
        match sc[s].parent {
            Some(p) => {
                if p < s {
                    lemma_resolve_range(sc, p as int, k);
                }
            },
            None => {},
        }
    }
}

proof fn lemma_resolve_same(a: Seq<ScopeV>, b: Seq<ScopeV>, s: int, k: Seq<char>)
    requires
        same_shape(a, b),
        0 <= s < a.len(),
    ensures
        resolve(b, s, k) == resolve(a, s, k),
    decreases s,
{
    if slot(a[s].names, k) < 0 {
        match a[s].parent {
            Some(p) => {
                if p < s {
                    lemma_resolve_same(a, b, p as int, k);
                }
            },
            None => {},
        }
    }
}

/// A closure sees its defining scope by reference: in a call's frame, a
/// name that is not a parameter has the value it has at the time of the
/// call in the scope the function was declared in, not a value copied when
/// the function was declared.
pub proof fn law_closure_sees_current_scope(st: St, f: FunV, vals: Seq<Val>, k: Seq<char>)
    requires
        scopes_wf(st.scopes),
        0 <= f.env < st.scopes.len(),
        st.scopes.len() < usize::MAX,
        f.params.len() == vals.len(),
        slot(f.params, k) < 0,
    ensures
        lookup(enter_frame(st, f, vals).scopes, st.scopes.len() as int, k) == lookup(
            st.scopes,
            f.env,
            k,
        ),
{
    let b = enter_frame(st, f, vals).scopes;
    let frame = st.scopes.len() as int;
    assert(b[frame].parent == Some(f.env as usize));
    assert(b[frame].names == f.params);
    assert forall|i: int| 0 <= i < st.scopes.len() implies (#[trigger] b[i]).names
        == st.scopes[i].names && b[i].parent == st.scopes[i].parent by {}
    assert(same_shape(st.scopes, b));
    lemma_resolve_same(st.scopes, b, f.env, k);
    assert(resolve(b, frame, k) == resolve(b, f.env, k));
    lemma_resolve_range(st.scopes, f.env, k);
    match resolve(st.scopes, f.env, k) {
        Some(d) => {
            assert(b[d] == st.scopes[d]);
        },
        None => {},
    }
}

/// Declaring a function binds its name to a closure over the scope that is
/// current at the declaration (its index, so the closure shares the scope).
pub proof fn law_function_captures_scope(
    fuel: nat,
    st: St,
    cur: int,
    t: Token,
    params: Vec<String>,
    body: std::rc::Rc<Stmt>,
)
    requires
        0 <= cur < st.scopes.len(),
        slot(st.scopes[cur].names, t.lexeme@) < 0,
    ensures
        ({
            let (s1, r) = exec(fuel, st, cur, Stmt::Function(t, params, body));
            &&& r == Ok::<Flow, crate::error::ErrV>(Flow::Normal)
            &&& s1.funs.len() == st.funs.len() + 1
            &&& s1.funs[st.funs.len() as int].env == cur
            &&& s1.scopes == defined(st.scopes, cur, t.lexeme@, Val::Fun(st.funs.len()))
        }),
{
}


/// `b` keeps the shape of `a` except that scope `c` may bind more names:
/// every scope of `a` is in `b` with the same parent, and every scope but
/// `c` with the same names.
pub open spec fn kept_except(a: Seq<ScopeV>, b: Seq<ScopeV>, c: int) -> bool {
    &&& b.len() >= a.len()
    &&& forall|i: int|
        0 <= i < a.len() ==> (#[trigger] b[i]).parent == a[i].parent && (i != c ==> b[i].names
            == a[i].names)
}

proof fn lemma_kept_trans(a: Seq<ScopeV>, b: Seq<ScopeV>, d: Seq<ScopeV>, c: int)
    requires
        kept_except(a, b, c),
        kept_except(b, d, c),
    ensures
        kept_except(a, d, c),
{
    assert forall|i: int| 0 <= i < a.len() implies (#[trigger] d[i]).parent == a[i].parent && (i
        != c ==> d[i].names == a[i].names) by {
        assert(b[i].parent == a[i].parent);
        assert(d[i].parent == b[i].parent);
    }
}

/// A run in a scope `x` made after `a` keeps all of `a`'s shape.
proof fn lemma_kept_inner(a: Seq<ScopeV>, a1: Seq<ScopeV>, b: Seq<ScopeV>, x: int, c: int)
    requires
        a1.len() == a.len() + 1,
        forall|i: int| 0 <= i < a.len() ==> #[trigger] a1[i] == a[i],
        x == a.len(),
        kept_except(a1, b, x),
    ensures
        kept_except(a, b, c),
{
    assert forall|i: int| 0 <= i < a.len() implies (#[trigger] b[i]).parent == a[i].parent && (i
        != c ==> b[i].names == a[i].names) by {
        assert(a1[i] == a[i]);
        assert(b[i].parent == a1[i].parent);
    }
}

/// Dropping the scopes made during a block or call keeps the shape.
proof fn lemma_kept_reclaim(before: St, after: St, a: Seq<ScopeV>, c: int)
    requires
        kept_except(a, after.scopes, c),
        a.len() <= before.scopes.len() <= after.scopes.len(),
    ensures
        kept_except(a, reclaim(before, after).scopes, c),
{
    let r = reclaim(before, after).scopes;
    if after.funs.len() == before.funs.len() {
        assert forall|i: int| 0 <= i < a.len() implies (#[trigger] r[i]).parent == a[i].parent
            && (i != c ==> r[i].names == a[i].names) by {
            assert(r[i] == after.scopes[i]);
        }
    }
}

proof fn lemma_kept_define(st: St, cur: int, k: Seq<char>, v: Val)
    requires
        0 <= cur < st.scopes.len(),
    ensures
        kept_except(st.scopes, defined(st.scopes, cur, k, v), cur),
{
    let d = defined(st.scopes, cur, k, v);
    assert forall|i: int| 0 <= i < st.scopes.len() implies (#[trigger] d[i]).parent
        == st.scopes[i].parent && (i != cur ==> d[i].names == st.scopes[i].names) by {}
}

proof fn lemma_kept_assign(st: St, cur: int, k: Seq<char>, v: Val)
    requires
        0 <= cur < st.scopes.len(),
    ensures
        kept_except(st.scopes, crate::env::assigned(st.scopes, cur, k, v), cur),
{
    lemma_resolve_range(st.scopes, cur, k);
    let d = crate::env::assigned(st.scopes, cur, k, v);
    assert forall|i: int| 0 <= i < st.scopes.len() implies (#[trigger] d[i]).parent
        == st.scopes[i].parent && (i != cur ==> d[i].names == st.scopes[i].names) by {}
}

proof fn lemma_eval_kept(fuel: nat, st: St, cur: int, e: Expr)
    requires
        0 <= cur < st.scopes.len(),
    ensures
        kept_except(st.scopes, eval(fuel, st, cur, e).0.scopes, cur),
    decreases fuel, expr_size(e),
{
    match e {
        Expr::Literal(_) => {},
        Expr::Identifier(_) => {},
        Expr::Grouping(inner) => {
            lemma_eval_kept(fuel, st, cur, *inner);
        },
        Expr::Assignment(t, rhs) => {
            lemma_eval_kept(fuel, st, cur, *rhs);
            let (s1, r) = eval(fuel, st, cur, *rhs);
            if r is Ok {
                lemma_kept_assign(s1, cur, t.lexeme@, r->Ok_0);
                lemma_kept_trans(
                    st.scopes,
                    s1.scopes,
                    crate::env::assigned(s1.scopes, cur, t.lexeme@, r->Ok_0),
                    cur,
                );
            }
        },
        Expr::Unary(_, rhs) => {
            lemma_eval_kept(fuel, st, cur, *rhs);
        },
        Expr::Binary(lhs, _, rhs) => {
            lemma_eval_kept(fuel, st, cur, *lhs);
            let (s1, a) = eval(fuel, st, cur, *lhs);
            if a is Ok {
                lemma_eval_kept(fuel, s1, cur, *rhs);
                lemma_kept_trans(st.scopes, s1.scopes, eval(fuel, s1, cur, *rhs).0.scopes, cur);
            }
        },
        Expr::Logical(lhs, _, rhs) => {
            lemma_eval_kept(fuel, st, cur, *lhs);
            let (s1, a) = eval(fuel, st, cur, *lhs);
            if a is Ok {
                lemma_eval_kept(fuel, s1, cur, *rhs);
                lemma_kept_trans(st.scopes, s1.scopes, eval(fuel, s1, cur, *rhs).0.scopes, cur);
            }
        },
        Expr::Call(callee, _, args) => {
            lemma_eval_kept(fuel, st, cur, *callee);
            let (s1, c) = eval(fuel, st, cur, *callee);
            if c is Ok {
                lemma_args_kept(fuel, s1, cur, args@, args@.len() as int);
                lemma_kept_trans(st.scopes, s1.scopes, eval_args(fuel, s1, cur, args@, args@.len() as int).0.scopes, cur);
                let (s2, av) = eval_args(fuel, s1, cur, args@, args@.len() as int);
                if av is Ok && c->Ok_0 is Fun {
                    let fid = c->Ok_0->Fun_0;
                    if fid < s2.funs.len() && 0 <= s2.funs[fid as int].env < s2.scopes.len()
                        && s2.funs[fid as int].params.len() == av->Ok_0.len() && fuel > 0 {
                        let s3 = enter_frame(s2, s2.funs[fid as int], av->Ok_0);
                        let frame = s2.scopes.len() as int;
                        lemma_exec_kept((fuel - 1) as nat, s3, frame, s2.funs[fid as int].body);
                        let s4 = exec((fuel - 1) as nat, s3, frame, s2.funs[fid as int].body).0;
                        lemma_kept_inner(s2.scopes, s3.scopes, s4.scopes, frame, cur);
                        lemma_kept_reclaim(s2, s4, s2.scopes, cur);
                        lemma_kept_trans(st.scopes, s2.scopes, reclaim(s2, s4).scopes, cur);
                    }
                }
            }
        },
    }
}

proof fn lemma_args_kept(fuel: nat, st: St, cur: int, args: Seq<Expr>, n: int)
    requires
        0 <= cur < st.scopes.len(),
    ensures
        kept_except(st.scopes, eval_args(fuel, st, cur, args, n).0.scopes, cur),
    decreases fuel, args_size(args, n),
{
    if 0 < n <= args.len() {
        lemma_args_kept(fuel, st, cur, args, n - 1);
        let (s1, r) = eval_args(fuel, st, cur, args, n - 1);
        if r is Ok {
            lemma_eval_kept(fuel, s1, cur, args[n - 1]);
            lemma_kept_trans(st.scopes, s1.scopes, eval(fuel, s1, cur, args[n - 1]).0.scopes, cur);
        }
    }
}

proof fn lemma_exec_kept(fuel: nat, st: St, cur: int, s: Stmt)
    requires
        0 <= cur < st.scopes.len(),
    ensures
        kept_except(st.scopes, exec(fuel, st, cur, s).0.scopes, cur),
    decreases fuel, stmt_size(s),
{
    match s {
        Stmt::Expression(e) => {
            lemma_eval_kept(fuel, st, cur, e);
        },
        Stmt::Print(e) => {
            lemma_eval_kept(fuel, st, cur, e);
        },
        Stmt::Return(_, e) => {
            lemma_eval_kept(fuel, st, cur, e);
        },
        Stmt::Declaration(t, init) => {
            match init {
                Some(e) => {
                    lemma_eval_kept(fuel, st, cur, e);
                    let (s1, r) = eval(fuel, st, cur, e);
                    if r is Ok {
                        lemma_kept_define(s1, cur, t.lexeme@, r->Ok_0);
                        lemma_kept_trans(
                            st.scopes,
                            s1.scopes,
                            defined(s1.scopes, cur, t.lexeme@, r->Ok_0),
                            cur,
                        );
                    }
                },
                None => {
                    lemma_kept_define(st, cur, t.lexeme@, Val::Nil);
                },
            }
        },
        Stmt::Function(t, params, body) => {
            lemma_kept_define(st, cur, t.lexeme@, Val::Fun(st.funs.len()));
        },
        Stmt::Block(ss) => {
            let s1 = St { scopes: st.scopes.push(crate::env::empty_scope(Some(cur as usize))), ..st };
            let child = st.scopes.len() as int;
            lemma_seq_kept(fuel, s1, child, ss@, ss@.len() as int);
            let s2 = exec_seq(fuel, s1, child, ss@, ss@.len() as int).0;
            lemma_kept_inner(st.scopes, s1.scopes, s2.scopes, child, cur);
            lemma_kept_reclaim(st, s2, st.scopes, cur);
        },
        Stmt::If(c, t, e) => {
            lemma_eval_kept(fuel, st, cur, c);
            let (s1, r) = eval(fuel, st, cur, c);
            if r is Ok {
                if truthy(r->Ok_0) {
                    lemma_exec_kept(fuel, s1, cur, *t);
                    lemma_kept_trans(st.scopes, s1.scopes, exec(fuel, s1, cur, *t).0.scopes, cur);
                } else {
                    match e {
                        Some(x) => {
                            lemma_exec_kept(fuel, s1, cur, *x);
                            lemma_kept_trans(
                                st.scopes,
                                s1.scopes,
                                exec(fuel, s1, cur, *x).0.scopes,
                                cur,
                            );
                        },
                        None => {},
                    }
                }
            }
        },
        Stmt::While(_, _) => {
            if fuel > 0 {
                lemma_while_kept((fuel - 1) as nat, st, cur, s);
            }
        },
        _ => {},
    }
}

proof fn lemma_seq_kept(fuel: nat, st: St, cur: int, ss: Seq<Stmt>, n: int)
    requires
        0 <= cur < st.scopes.len(),
    ensures
        kept_except(st.scopes, exec_seq(fuel, st, cur, ss, n).0.scopes, cur),
    decreases fuel, stmts_size(ss, n),
{
    if 0 < n <= ss.len() {
        lemma_seq_kept(fuel, st, cur, ss, n - 1);
        let (s1, r) = exec_seq(fuel, st, cur, ss, n - 1);
        if r matches Ok(Flow::Normal) {
            lemma_exec_kept(fuel, s1, cur, ss[n - 1]);
            lemma_kept_trans(st.scopes, s1.scopes, exec(fuel, s1, cur, ss[n - 1]).0.scopes, cur);
        }
    }
}

proof fn lemma_while_kept(fuel: nat, st: St, cur: int, w: Stmt)
    requires
        0 <= cur < st.scopes.len(),
    ensures
        kept_except(st.scopes, run_while(fuel, st, cur, w).0.scopes, cur),
    decreases fuel, stmt_size(w),
{
    match w {
        Stmt::While(c, b) => {
            lemma_eval_kept(fuel, st, cur, c);
            let (s1, r) = eval(fuel, st, cur, c);
            if r is Ok && truthy(r->Ok_0) {
                lemma_exec_kept(fuel, s1, cur, *b);
                lemma_kept_trans(st.scopes, s1.scopes, exec(fuel, s1, cur, *b).0.scopes, cur);
                let (s2, q) = exec(fuel, s1, cur, *b);
                if q matches Ok(Flow::Normal) {
                    if fuel > 0 {
                        lemma_while_kept((fuel - 1) as nat, s2, cur, w);
                        lemma_kept_trans(
                            st.scopes,
                            s2.scopes,
                            run_while((fuel - 1) as nat, s2, cur, w).0.scopes,
                            cur,
                        );
                    }
                }
            }
        },
        _ => {},
    }
}

/// Block scoping: a name that scope `cur` cannot see before a block runs
/// there is still unseen after the block, whatever the block declared
/// (`{ var x = 1; } print x;` fails with an undefined variable).
pub proof fn law_block_scoping(fuel: nat, st: St, cur: int, ss: Vec<Stmt>, k: Seq<char>)
    requires
        0 <= cur < st.scopes.len(),
        lookup(st.scopes, cur, k) is None,
    ensures
        lookup(exec(fuel, st, cur, Stmt::Block(ss)).0.scopes, cur, k) is None,
        same_shape(st.scopes, exec(fuel, st, cur, Stmt::Block(ss)).0.scopes),
{
    let s1 = St { scopes: st.scopes.push(crate::env::empty_scope(Some(cur as usize))), ..st };
    let child = st.scopes.len() as int;
    lemma_seq_kept(fuel, s1, child, ss@, ss@.len() as int);
    let s2 = exec_seq(fuel, s1, child, ss@, ss@.len() as int).0;
    assert forall|i: int| 0 <= i < st.scopes.len() implies #[trigger] s1.scopes[i] == st.scopes[i] by {}
    lemma_kept_inner(st.scopes, s1.scopes, s2.scopes, child, -1);
    lemma_kept_reclaim(st, s2, st.scopes, -1);
    let b = exec(fuel, st, cur, Stmt::Block(ss)).0.scopes;
    assert(kept_except(st.scopes, b, -1));
    assert forall|i: int| 0 <= i < st.scopes.len() implies (#[trigger] b[i]).names
        == st.scopes[i].names && b[i].parent == st.scopes[i].parent by {
        assert(b[i].parent == st.scopes[i].parent);
    }
    assert(same_shape(st.scopes, b));
    lemma_resolve_same(st.scopes, b, cur, k);
}

} // verus!
