//! Lexical environments: an arena of scopes, each chained to its parent.
//!
//! A scope is named by its index in the arena. A scope's parent always has
//! a smaller index, so every chain of parents ends. Closures hold the index
//! of the scope they were declared in, which keeps that scope reachable for
//! as long as the closure exists.
use vstd::prelude::*;
use crate::error::{ErrV, Error};
use crate::object::Object;
use crate::token::Val;

verus! {

/// One scope: names bound here, with their values, and the enclosing scope.
pub struct Scope {
    pub parent: Option<usize>,
    pub names: Vec<String>,
    pub values: Vec<Object>,
}

/// The mathematical content of a [`Scope`].
#[verifier::ext_equal]
pub struct ScopeV {
    pub parent: Option<usize>,
    pub names: Seq<Seq<char>>,
    pub vals: Seq<Val>,
}

impl View for Scope {
    type V = ScopeV;

    open spec fn view(&self) -> ScopeV {
        ScopeV {
            parent: self.parent,
            names: self.names@.map_values(|s: String| s@),
            vals: self.values@.map_values(|o: Object| o@),
        }
    }
}

/// The arena of all scopes.
pub struct Env {
    pub scopes: Vec<Scope>,
}

impl View for Env {
    type V = Seq<ScopeV>;

    open spec fn view(&self) -> Seq<ScopeV> {
        self.scopes@.map_values(|s: Scope| s@)
    }
}

/// Each scope's parent comes before it, and each name has a value.
pub open spec fn scopes_wf(sc: Seq<ScopeV>) -> bool {
    forall|i: int|
        0 <= i < sc.len() ==> {
            &&& sc[i].names.len() == sc[i].vals.len()
            &&& (sc[i].parent matches Some(p) ==> p < i)
        }
}

/// The first position of `k` in `names` at or after `i`, or -1.
pub open spec fn slot_from(names: Seq<Seq<char>>, k: Seq<char>, i: int) -> int
    decreases names.len() - i,
{
    if i < 0 || i >= names.len() {
        -1
    } else if names[i] == k {
        i
    } else {
        slot_from(names, k, i + 1)
    }
}

/// The position of `k` in `names`, or -1.
pub open spec fn slot(names: Seq<Seq<char>>, k: Seq<char>) -> int {
    slot_from(names, k, 0)
}

/// The nearest scope, walking outward from `s`, that binds `k`.
pub open spec fn resolve(sc: Seq<ScopeV>, s: int, k: Seq<char>) -> Option<int>
    decreases s,
{
    if s < 0 || s >= sc.len() {
        None
    } else if slot(sc[s].names, k) >= 0 {
        Some(s)
    } else {
        match sc[s].parent {
            Some(p) => if p < s {
                resolve(sc, p as int, k)
            } else {
                None
            },
            None => None,
        }
    }
}

/// The value that `k` has as seen from scope `s`.
pub open spec fn lookup(sc: Seq<ScopeV>, s: int, k: Seq<char>) -> Option<Val> {
    match resolve(sc, s, k) {
        Some(d) => Some(sc[d].vals[slot(sc[d].names, k)]),
        None => None,
    }
}

/// The scopes after rebinding `k`, as seen from `s`, to `v`.
pub open spec fn assigned(sc: Seq<ScopeV>, s: int, k: Seq<char>, v: Val) -> Seq<ScopeV> {
    match resolve(sc, s, k) {
        Some(d) => sc.update(
            d,
            ScopeV { vals: sc[d].vals.update(slot(sc[d].names, k), v), ..sc[d] },
        ),
        None => sc,
    }
}

/// The scopes after binding `k` to `v` in scope `s` itself.
pub open spec fn defined(sc: Seq<ScopeV>, s: int, k: Seq<char>, v: Val) -> Seq<ScopeV> {
    sc.update(s, ScopeV { names: sc[s].names.push(k), vals: sc[s].vals.push(v), ..sc[s] })
}

/// The outermost scope of the chain that starts at `s`.
pub open spec fn root_of(sc: Seq<ScopeV>, s: int) -> int
    decreases s,
{
    if s < 0 || s >= sc.len() {
        s
    } else {
        match sc[s].parent {
            Some(p) => if p < s {
                root_of(sc, p as int)
            } else {
                s
            },
            None => s,
        }
    }
}

/// A fresh scope with nothing bound.
pub open spec fn empty_scope(parent: Option<usize>) -> ScopeV {
    ScopeV { parent, names: Seq::empty(), vals: Seq::empty() }
}

/// Message of the error for a name that no scope binds.
pub open spec fn undefined_msg(k: Seq<char>) -> Seq<char> {
    "variable `"@ + k + "` is undefined"@
}

/// Message of the error for a second definition in one scope.
pub open spec fn duplicate_msg(k: Seq<char>) -> Seq<char> {
    "variable `"@ + k + "` already defined"@
}

fn message(front: &str, name: &String, back: &str) -> (r: String)
    ensures
        r@ == front@ + name@ + back@,
{
    let mut s = String::from_str(front);
    s.append(name.as_str());
    s.append(back);
    s
}

impl Env {
    /// Well-formedness of the arena.
    pub open spec fn wf(&self) -> bool {
        &&& scopes_wf(self@)
        &&& forall|i: int|
            0 <= i < self.scopes@.len() ==> self.scopes@[i].names@.len()
                == self.scopes@[i].values@.len()
    }

    /// An arena holding one empty scope (index 0) without a parent.
    pub fn new() -> (r: Env)
        ensures
            r.wf(),
            r@ == seq![empty_scope(None)],
    {
        let root = Scope { parent: None, names: Vec::new(), values: Vec::new() };
        let mut scopes: Vec<Scope> = Vec::new();
        scopes.push(root);
        let r = Env { scopes };
        assert(r@[0].names =~= Seq::empty());
        assert(r@[0].vals =~= Seq::empty());
        assert(r@ =~= seq![empty_scope(None)]);
        r
    }

    /// Adds an empty scope chained to `parent` and returns its index.
    pub fn with_parent(&mut self, parent: usize) -> (r: usize)
        requires
            old(self).wf(),
            parent < old(self)@.len(),
        ensures
            final(self).wf(),
            r == old(self)@.len(),
            final(self)@ == old(self)@.push(empty_scope(Some(parent))),
    {
        let r = self.scopes.len();
        let sc = Scope { parent: Some(parent), names: Vec::new(), values: Vec::new() };
        proof {
            assert(sc@.names =~= Seq::empty());
            assert(sc@.vals =~= Seq::empty());
            assert(sc@ =~= empty_scope(Some(parent)));
        }
        self.scopes.push(sc);
        assert(self@ =~= old(self)@.push(empty_scope(Some(parent))));
        r
    }

    /// Adds an empty scope chained to the outermost scope of `scope`'s chain.
    pub fn with_globals(&mut self, scope: usize) -> (r: usize)
        requires
            old(self).wf(),
            scope < old(self)@.len(),
        ensures
            final(self).wf(),
            r == old(self)@.len(),
            final(self)@ == old(self)@.push(
                empty_scope(Some(root_of(old(self)@, scope as int) as usize)),
            ),
    {
        let mut s = scope;
        loop
            invariant
                self.wf(),
                s < self@.len(),
                root_of(self@, s as int) == root_of(self@, scope as int),
            ensures
                s < self@.len(),
                self@[s as int].parent is None,
                root_of(self@, s as int) == root_of(self@, scope as int),
            decreases s,
        {
            match self.scopes[s].parent {
                Some(p) => {
                    assert(self@[s as int].parent == Some(p));
                    s = p;
                },
                None => {
                    assert(self@[s as int].parent is None);
                    break ;
                },
            }
        }
        assert(root_of(self@, s as int) == s);
        self.with_parent(s)
    }

    /// The position of `name` in scope `s`, or none.
    fn find(&self, s: usize, name: &String) -> (r: Option<usize>)
        requires
            self.wf(),
            s < self@.len(),
        ensures
            match r {
                Some(i) => i as int == slot(self@[s as int].names, name@) && i
                    < self@[s as int].names.len(),
                None => slot(self@[s as int].names, name@) == -1,
            },
    {
        let names = &self.scopes[s].names;
        let ghost ns = self@[s as int].names;
        assert(ns == names@.map_values(|x: String| x@));
        let mut i: usize = 0;
        while i < names.len()
            invariant
                0 <= i <= names@.len(),
                ns == names@.map_values(|x: String| x@),
                ns.len() == names@.len(),
                s < self@.len(),
                ns == self@[s as int].names,
                slot_from(ns, name@, 0) == slot_from(ns, name@, i as int),
            decreases names@.len() - i,
        {
            if names[i].eq(name) {
                assert(ns[i as int] == names@[i as int]@);
                return Some(i);
            }
            i = i + 1;
        }
        None
    }

    /// Binds `name` to `val` in scope `scope`; fails if `scope` already
    /// binds `name` (binding a name that an outer scope has is allowed).
    pub fn define(&mut self, scope: usize, name: &String, val: Object) -> (r: Result<(), Error>)
        requires
            old(self).wf(),
            scope < old(self)@.len(),
        ensures
            final(self).wf(),
            final(self)@.len() == old(self)@.len(),
            slot(old(self)@[scope as int].names, name@) >= 0 ==> {
                &&& r matches Err(e)
                &&& e@ == ErrV::Runtime(0, duplicate_msg(name@), name@)
                &&& final(self)@ == old(self)@
            },
            slot(old(self)@[scope as int].names, name@) < 0 ==> {
                &&& r is Ok
                &&& final(self)@ == defined(old(self)@, scope as int, name@, val@)
            },
    {
        match self.find(scope, name) {
            Some(_) => Err(
                Error::Runtime(0, message("variable `", name, "` already defined"), name.clone()),
            ),
            None => {
                let ghost v = val@;
                self.scopes[scope].names.push(name.clone());
                self.scopes[scope].values.push(val);
                assert(self@[scope as int].names =~= old(self)@[scope as int].names.push(name@));
                assert(self@[scope as int].vals =~= old(self)@[scope as int].vals.push(v));
                assert(self@ =~= defined(old(self)@, scope as int, name@, v));
                Ok(())
            },
        }
    }

    /// The scope that binds `name`, walking outward from `scope`, and the
    /// position of `name` in it.
    fn locate(&self, scope: usize, name: &String) -> (r: Option<(usize, usize)>)
        requires
            self.wf(),
            scope < self@.len(),
        ensures
            match r {
                Some((d, i)) => {
                    &&& resolve(self@, scope as int, name@) == Some(d as int)
                    &&& d < self@.len()
                    &&& i as int == slot(self@[d as int].names, name@)
                    &&& i < self@[d as int].names.len()
                },
                None => resolve(self@, scope as int, name@) is None,
            },
    {
        let mut s = scope;
        loop
            invariant
                self.wf(),
                s < self@.len(),
                resolve(self@, s as int, name@) == resolve(self@, scope as int, name@),
            decreases s,
        {
            match self.find(s, name) {
                Some(i) => {
                    return Some((s, i));
                },
                None => {},
            }
            match self.scopes[s].parent {
                Some(p) => {
                    assert(self@[s as int].parent == Some(p));
                    s = p;
                },
                None => {
                    assert(self@[s as int].parent is None);
                    return None;
                },
            }
        }
    }

    /// Rebinds `name` in the nearest scope, walking outward from `scope`,
    /// that binds it, and returns the value; fails if no scope binds it.
    pub fn assign(&mut self, scope: usize, name: &String, val: Object) -> (r: Result<
        Object,
        Error,
    >)
        requires
            old(self).wf(),
            scope < old(self)@.len(),
        ensures
            final(self).wf(),
            final(self)@.len() == old(self)@.len(),
            resolve(old(self)@, scope as int, name@) is None ==> {
                &&& r matches Err(e)
                &&& e@ == ErrV::Runtime(0, undefined_msg(name@), name@)
                &&& final(self)@ == old(self)@
            },
            resolve(old(self)@, scope as int, name@) is Some ==> {
                &&& r matches Ok(v)
                &&& v == val
                &&& final(self)@ == assigned(old(self)@, scope as int, name@, val@)
            },
    {
        match self.locate(scope, name) {
            Some((d, i)) => {
                let ghost v = val@;
                let out = val.duplicate();
                self.scopes[d].values[i] = val;
                assert(self@[d as int].names =~= old(self)@[d as int].names);
                assert(self@[d as int].vals =~= old(self)@[d as int].vals.update(i as int, v));
                assert(self@ =~= assigned(old(self)@, scope as int, name@, v));
                Ok(out)
            },
            None => Err(
                Error::Runtime(0, message("variable `", name, "` is undefined"), name.clone()),
            ),
        }
    }

    /// The value of `name` in the nearest scope, walking outward from
    /// `scope`, that binds it; fails if no scope binds it.
    pub fn get(&self, scope: usize, name: &String) -> (r: Result<Object, Error>)
        requires
            self.wf(),
            scope < self@.len(),
        ensures
            lookup(self@, scope as int, name@) is None ==> (r matches Err(e) && e@
                == ErrV::Runtime(0, undefined_msg(name@), name@)),
            lookup(self@, scope as int, name@) matches Some(v) ==> (r matches Ok(o) && o@ == v),
    {
        match self.locate(scope, name) {
            Some((d, i)) => Ok(self.scopes[d].values[i].duplicate()),
            None => Err(
                Error::Runtime(0, message("variable `", name, "` is undefined"), name.clone()),
            ),
        }
    }

    /// Drops every scope from index `len` on.
    pub fn truncate(&mut self, len: usize)
        requires
            old(self).wf(),
        ensures
            final(self).wf(),
            len <= old(self)@.len() ==> final(self)@ == old(self)@.subrange(0, len as int),
            len > old(self)@.len() ==> final(self)@ == old(self)@,
    {
        self.scopes.truncate(len);
        assert(len <= old(self)@.len() ==> self@ =~= old(self)@.subrange(0, len as int));
        assert(len > old(self)@.len() ==> self@ =~= old(self)@);
    }
}

} // verus!
