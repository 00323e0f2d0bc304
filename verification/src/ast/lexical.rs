//! Resolution of renaming: in the renamed tree a reference carries the id of
//! the innermost binder of its name in whose scope it stands, and 0 where
//! no binder of its name is in scope.

use crate::ast::binders::lemma_tuple_ids;
use crate::ast::rename::{
    builtin_scope, declare, lemma_declare_outer, lookup, resolve, rn_clauses, rn_expr, rn_exprs,
    rn_pattern, rn_program, rn_tuple, rn_val, rn_vals, Scopes,
};
use crate::ast::{ExprView, PatternView, TyDefer, ValView};
use crate::prim::SymbolView;
use vstd::prelude::*;

verus! {

/// The binders in scope at some place, by name: the id of the innermost
/// one of each name.
pub type Names = Map<Seq<char>, u64>;

/// The id of the innermost binder of the name `x` in scope; 0 without one.
pub open spec fn named(names: Names, x: Seq<char>) -> u64 {
    if names.contains_key(x) {
        names[x]
    } else {
        0
    }
}

/// Whether a reference carries the id of the innermost binder of its name.
pub open spec fn refers(names: Names, sym: SymbolView) -> bool {
    sym.id == named(names, sym.name)
}

/// The binders in scope after the first `n` of `binds` have been added.
pub open spec fn bind_all(names: Names, binds: Seq<(SymbolView, TyDefer)>, n: nat) -> Names
    decreases n,
{
    if n == 0 || n > binds.len() {
        names
    } else {
        bind_all(names, binds, (n - 1) as nat).insert(binds[n - 1].0.name, binds[n - 1].0.id)
    }
}

/// The binders in scope where a pattern has bound its names.
pub open spec fn extend(names: Names, p: PatternView) -> Names {
    bind_all(names, p.binds(), p.binds().len())
}

/// The binders in scope behind the first `n` bindings of a list.
pub open spec fn names_after(vals: Seq<ValView>, n: nat, names: Names) -> Names
    decreases n,
{
    if n == 0 || n > vals.len() {
        names
    } else {
        extend(names_after(vals, (n - 1) as nat, names), vals[n - 1].pattern)
    }
}

/// Whether every reference in the expression carries the id of the
/// innermost binder of its name, `names` being the binders around it.
pub open spec fn lexical(e: ExprView, names: Names) -> bool
    decreases e, 0nat,
{
    match e {
        ExprView::Binds { binds, ret, .. } => {
            &&& lexical_vals(binds, names)
            &&& lexical(*ret, names_after(binds, binds.len(), names))
        },
        ExprView::BinOp { op, l, r, .. } => refers(names, op) && lexical(*l, names) && lexical(
            *r,
            names,
        ),
        ExprView::Fun { param, body, .. } => lexical(*body, names.insert(param.name, param.id)),
        ExprView::App { fun, arg, .. } => lexical(*fun, names) && lexical(*arg, names),
        ExprView::If { cond, then, else_, .. } => lexical(*cond, names) && lexical(*then, names)
            && lexical(*else_, names),
        ExprView::Case { cond, clauses, .. } => {
            &&& lexical(*cond, names)
            &&& forall|i: int|
                0 <= i < clauses.len() ==> lexical(
                    (#[trigger] clauses[i]).1,
                    extend(names, clauses[i].0),
                )
        },
        ExprView::Tuple { tuple, .. } => forall|i: int|
            0 <= i < tuple.len() ==> lexical(#[trigger] tuple[i], names),
        ExprView::Sym { name, .. } => refers(names, name),
        ExprView::Lit { .. } => true,
    }
}

/// The same of one binding: its own names are in scope in its right-hand
/// side if it is recursive.
pub open spec fn lexical_val(v: ValView, names: Names) -> bool
    decreases v, 0nat,
{
    if v.rec {
        lexical(v.expr, extend(names, v.pattern))
    } else {
        lexical(v.expr, names)
    }
}

/// The same of a list of bindings, each of which stands in the scope of
/// those before it.
pub open spec fn lexical_vals(vals: Seq<ValView>, names: Names) -> bool
    decreases vals, 0nat,
{
    forall|i: int|
        0 <= i < vals.len() ==> lexical_val(#[trigger] vals[i], names_after(vals, i as nat, names))
}

/// Whether every name that the pattern binds has the id 0.
pub open spec fn unresolved_pattern(p: PatternView) -> bool {
    forall|i: int| 0 <= i < p.binds().len() ==> (#[trigger] p.binds()[i]).0.id == 0
}

/// Whether every symbol of the expression, binding or reference, has the
/// id 0, as in a tree that has not been renamed yet.
pub open spec fn unresolved(e: ExprView) -> bool
    decreases e, 0nat,
{
    match e {
        ExprView::Binds { binds, ret, .. } => unresolved_vals(binds) && unresolved(*ret),
        ExprView::BinOp { op, l, r, .. } => op.id == 0 && unresolved(*l) && unresolved(*r),
        ExprView::Fun { param, body, .. } => param.id == 0 && unresolved(*body),
        ExprView::App { fun, arg, .. } => unresolved(*fun) && unresolved(*arg),
        ExprView::If { cond, then, else_, .. } => unresolved(*cond) && unresolved(*then)
            && unresolved(*else_),
        ExprView::Case { cond, clauses, .. } => {
            &&& unresolved(*cond)
            &&& forall|i: int|
                0 <= i < clauses.len() ==> unresolved_pattern((#[trigger] clauses[i]).0)
                    && unresolved(clauses[i].1)
        },
        ExprView::Tuple { tuple, .. } => forall|i: int|
            0 <= i < tuple.len() ==> unresolved(#[trigger] tuple[i]),
        ExprView::Sym { name, .. } => name.id == 0,
        ExprView::Lit { .. } => true,
    }
}

/// The same of a list of bindings.
pub open spec fn unresolved_vals(vals: Seq<ValView>) -> bool
    decreases vals, 0nat,
{
    forall|i: int|
        0 <= i < vals.len() ==> unresolved_pattern((#[trigger] vals[i]).pattern) && unresolved(
            vals[i].expr,
        )
}

/// The id that the scopes give to the unresolved name `x`; 0 if none does.
pub open spec fn found(env: Scopes, x: Seq<char>) -> u64 {
    resolve(env, SymbolView { name: x, id: 0 }).id
}

/// Whether the scopes resolve every unresolved name as `names` does.
pub open spec fn agrees(env: Scopes, names: Names) -> bool {
    forall|x: Seq<char>| #[trigger] found(env, x) == named(names, x)
}

pub proof fn lemma_lookup_push(env: Scopes, s: SymbolView)
    ensures
        lookup(env.push(Map::empty()), s) == lookup(env, s),
{
    assert(env.push(Map::empty()).drop_last() =~= env);
}

pub proof fn lemma_lookup_declare(env: Scopes, s: SymbolView, id: u64, t: SymbolView)
    requires
        env.len() >= 1,
    ensures
        lookup(declare(env, s, id), t) == if t == s {
            Some(id)
        } else {
            lookup(env, t)
        },
{
    assert(declare(env, s, id).drop_last() =~= env.drop_last());
}

proof fn lemma_agrees_push(env: Scopes, names: Names)
    requires
        agrees(env, names),
    ensures
        agrees(env.push(Map::empty()), names),
{
    assert forall|x: Seq<char>| #[trigger]
        found(env.push(Map::empty()), x) == named(names, x) by {
        lemma_lookup_push(env, SymbolView { name: x, id: 0 });
        assert(found(env, x) == named(names, x));
    }
}

proof fn lemma_agrees_declare(env: Scopes, names: Names, s: SymbolView, id: u64)
    requires
        agrees(env, names),
        env.len() >= 1,
        s.id == 0,
    ensures
        agrees(declare(env, s, id), names.insert(s.name, id)),
{
    assert forall|x: Seq<char>| #[trigger]
        found(declare(env, s, id), x) == named(names.insert(s.name, id), x) by {
        lemma_lookup_declare(env, s, id, SymbolView { name: x, id: 0 });
        assert(found(env, x) == named(names, x));
        if x == s.name {
            assert(SymbolView { name: x, id: 0 } == s);
        }
    }
}

proof fn lemma_agrees_tuple(
    tuple: Seq<(TyDefer, SymbolView)>,
    n: nat,
    env: Scopes,
    last: nat,
    names: Names,
    binds: Seq<(SymbolView, TyDefer)>,
)
    requires
        n <= tuple.len(),
        binds.len() == tuple.len(),
        forall|i: int| 0 <= i < tuple.len() ==> (#[trigger] tuple[i]).1.id == 0,
        forall|i: int|
            0 <= i < tuple.len() ==> (#[trigger] binds[i]).0 == tuple[i].1.with_id(
                (last + 1 + i) as u64,
            ),
        agrees(env, names),
        env.len() >= 1,
    ensures
        agrees(rn_tuple(tuple, n, env, last).1, bind_all(names, binds, n)),
        rn_tuple(tuple, n, env, last).1.len() == env.len(),
    decreases n,
{
    if n > 0 {
        lemma_agrees_tuple(tuple, (n - 1) as nat, env, last, names, binds);
        lemma_tuple_ids(tuple, (n - 1) as nat, env, last);
        let (done, env1, last1) = rn_tuple(tuple, (n - 1) as nat, env, last);
        let id = (last1 + 1) as u64;
        lemma_agrees_declare(env1, bind_all(names, binds, (n - 1) as nat), tuple[n - 1].1, id);
        lemma_declare_outer(env1, tuple[n - 1].1, id);
        assert(binds[n - 1].0.name == tuple[n - 1].1.name);
        assert(binds[n - 1].0.id == id);
    }
}

/// Where a pattern of unresolved names is renamed, the scopes afterwards
/// resolve as the binders around it and those of the renamed pattern do.
pub proof fn lemma_agrees_pattern(p: PatternView, env: Scopes, last: nat, names: Names)
    requires
        unresolved_pattern(p),
        agrees(env, names),
        env.len() >= 1,
    ensures
        agrees(rn_pattern(p, env, last).1, extend(names, rn_pattern(p, env, last).0)),
        rn_pattern(p, env, last).1.len() == env.len(),
{
    match p {
        PatternView::Var { name, ty } => {
            assert(p.binds()[0].0.id == 0);
            lemma_agrees_declare(env, names, name, (last + 1) as u64);
            let out = rn_pattern(p, env, last).0;
            assert(out.binds().len() == 1);
            assert(bind_all(names, out.binds(), 0) == names);
            assert(extend(names, out) == names.insert(name.name, (last + 1) as u64));
        },
        PatternView::Tuple { tuple } => {
            let out = rn_pattern(p, env, last).0;
            lemma_tuple_ids(tuple, tuple.len(), env, last);
            assert forall|i: int| 0 <= i < tuple.len() implies (#[trigger] tuple[i]).1.id == 0 by {
                assert(p.binds()[i].0.id == 0);
            }
            assert forall|i: int| 0 <= i < tuple.len() implies (#[trigger] out.binds()[i]).0
                == tuple[i].1.with_id((last + 1 + i) as u64) by {
                assert(rn_tuple(tuple, tuple.len(), env, last).0[i] == (
                    tuple[i].0,
                    tuple[i].1.with_id((last + 1 + i) as u64),
                ));
            }
            lemma_agrees_tuple(tuple, tuple.len(), env, last, names, out.binds());
        },
        _ => {},
    }
}

proof fn lemma_names_after_prefix(a: Seq<ValView>, b: Seq<ValView>, n: nat, names: Names)
    requires
        n <= a.len(),
        n <= b.len(),
        a.take(n as int) == b.take(n as int),
    ensures
        names_after(a, n, names) == names_after(b, n, names),
    decreases n,
{
    if n > 0 {
        assert(a.take(n - 1) =~= a.take(n as int).take(n - 1));
        assert(b.take(n - 1) =~= b.take(n as int).take(n - 1));
        lemma_names_after_prefix(a, b, (n - 1) as nat, names);
        assert(a[n - 1] == a.take(n as int)[n - 1]);
        assert(b[n - 1] == b.take(n as int)[n - 1]);
    }
}

/// Renaming an unresolved expression under scopes that resolve as `names`
/// does leaves every reference with the id of the innermost binder of its
/// name.
pub proof fn lemma_lexical_expr(e: ExprView, env: Scopes, last: nat, names: Names)
    requires
        unresolved(e),
        agrees(env, names),
        env.len() >= 1,
    ensures
        lexical(rn_expr(e, env, last).0, names),
    decreases e, 0nat,
{
    match e {
        ExprView::Binds { ty, binds, ret } => {
            let inner = env.push(Map::empty());
            lemma_agrees_push(env, names);
            lemma_lexical_vals(binds, binds.len(), inner, last, names);
            let (done, env1, last1) = rn_vals(binds, binds.len(), inner, last);
            lemma_lexical_expr(*ret, env1, last1, names_after(done, done.len(), names));
        },
        ExprView::BinOp { op, l, r, .. } => {
            lemma_lexical_expr(*l, env, last, names);
            lemma_lexical_expr(*r, env, rn_expr(*l, env, last).1, names);
            assert(found(env, op.name) == named(names, op.name));
            assert(op == SymbolView { name: op.name, id: 0 });
        },
        ExprView::Fun { param, body, .. } => {
            let id = (last + 1) as u64;
            lemma_agrees_push(env, names);
            lemma_agrees_declare(env.push(Map::empty()), names, param, id);
            lemma_declare_outer(env.push(Map::empty()), param, id);
            lemma_lexical_expr(
                *body,
                declare(env.push(Map::empty()), param, id),
                last + 1,
                names.insert(param.name, id),
            );
        },
        ExprView::App { fun, arg, .. } => {
            lemma_lexical_expr(*fun, env, last, names);
            lemma_lexical_expr(*arg, env, rn_expr(*fun, env, last).1, names);
        },
        ExprView::If { cond, then, else_, .. } => {
            lemma_lexical_expr(*cond, env, last, names);
            let last1 = rn_expr(*cond, env, last).1;
            lemma_lexical_expr(*then, env, last1, names);
            lemma_lexical_expr(*else_, env, rn_expr(*then, env, last1).1, names);
        },
        ExprView::Case { cond, clauses, .. } => {
            lemma_lexical_expr(*cond, env, last, names);
            lemma_lexical_clauses(clauses, clauses.len(), env, rn_expr(*cond, env, last).1, names);
        },
        ExprView::Tuple { tuple, .. } => {
            lemma_lexical_exprs(tuple, tuple.len(), env, last, names);
        },
        ExprView::Sym { name, .. } => {
            assert(found(env, name.name) == named(names, name.name));
            assert(name == SymbolView { name: name.name, id: 0 });
        },
        ExprView::Lit { .. } => {},
    }
}

proof fn lemma_lexical_vals(vals: Seq<ValView>, n: nat, env: Scopes, last: nat, names: Names)
    requires
        n <= vals.len(),
        unresolved_vals(vals),
        agrees(env, names),
        env.len() >= 1,
    ensures
        rn_vals(vals, n, env, last).0.len() == n,
        rn_vals(vals, n, env, last).1.len() == env.len(),
        lexical_vals(rn_vals(vals, n, env, last).0, names),
        agrees(
            rn_vals(vals, n, env, last).1,
            names_after(rn_vals(vals, n, env, last).0, n, names),
        ),
    decreases vals, n,
{
    if n > 0 {
        lemma_lexical_vals(vals, (n - 1) as nat, env, last, names);
        let (done, env1, last1) = rn_vals(vals, (n - 1) as nat, env, last);
        let v = vals[n - 1];
        let (w, env2, last2) = rn_val(v, env1, last1);
        let out = done.push(w);
        let before = names_after(done, (n - 1) as nat, names);
        assert(unresolved_pattern(v.pattern) && unresolved(v.expr));
        if v.rec {
            lemma_agrees_pattern(v.pattern, env1, last1, before);
            let (pattern, env1b, last1b) = rn_pattern(v.pattern, env1, last1);
            lemma_lexical_expr(v.expr, env1b, last1b, extend(before, pattern));
        } else {
            lemma_lexical_expr(v.expr, env1, last1, before);
            lemma_agrees_pattern(v.pattern, env1, rn_expr(v.expr, env1, last1).1, before);
        }
        assert(lexical_val(w, before));
        assert(agrees(env2, extend(before, w.pattern)));
        assert forall|i: int| 0 <= i < out.len() implies lexical_val(
            #[trigger] out[i],
            names_after(out, i as nat, names),
        ) by {
            assert(out.take(i) =~= done.take(i));
            lemma_names_after_prefix(out, done, i as nat, names);
            if i < n - 1 {
                assert(lexical_val(done[i], names_after(done, i as nat, names)));
            }
        }
        assert(out.take(n - 1) =~= done.take(n - 1));
        lemma_names_after_prefix(out, done, (n - 1) as nat, names);
    }
}

proof fn lemma_lexical_clauses(
    clauses: Seq<(PatternView, ExprView)>,
    n: nat,
    env: Scopes,
    last: nat,
    names: Names,
)
    requires
        n <= clauses.len(),
        forall|i: int|
            0 <= i < clauses.len() ==> unresolved_pattern((#[trigger] clauses[i]).0) && unresolved(
                clauses[i].1,
            ),
        agrees(env, names),
        env.len() >= 1,
    ensures
        rn_clauses(clauses, n, env, last).0.len() == n,
        forall|i: int|
            0 <= i < n ==> lexical(
                (#[trigger] rn_clauses(clauses, n, env, last).0[i]).1,
                extend(names, rn_clauses(clauses, n, env, last).0[i].0),
            ),
    decreases clauses, n,
{
    if n > 0 {
        lemma_lexical_clauses(clauses, (n - 1) as nat, env, last, names);
        let (done, last1) = rn_clauses(clauses, (n - 1) as nat, env, last);
        let inner = env.push(Map::empty());
        lemma_agrees_push(env, names);
        assert(unresolved_pattern(clauses[n - 1].0) && unresolved(clauses[n - 1].1));
        lemma_agrees_pattern(clauses[n - 1].0, inner, last1, names);
        let (pattern, env1, last2) = rn_pattern(clauses[n - 1].0, inner, last1);
        lemma_lexical_expr(clauses[n - 1].1, env1, last2, extend(names, pattern));
        let out = rn_clauses(clauses, n, env, last).0;
        assert forall|i: int| 0 <= i < n implies lexical(
            (#[trigger] out[i]).1,
            extend(names, out[i].0),
        ) by {
            if i < n - 1 {
                assert(out[i] == done[i]);
            }
        }
    }
}

proof fn lemma_lexical_exprs(exprs: Seq<ExprView>, n: nat, env: Scopes, last: nat, names: Names)
    requires
        n <= exprs.len(),
        forall|i: int| 0 <= i < exprs.len() ==> unresolved(#[trigger] exprs[i]),
        agrees(env, names),
        env.len() >= 1,
    ensures
        rn_exprs(exprs, n, env, last).0.len() == n,
        forall|i: int| 0 <= i < n ==> lexical(#[trigger] rn_exprs(exprs, n, env, last).0[i], names),
    decreases exprs, n,
{
    if n > 0 {
        lemma_lexical_exprs(exprs, (n - 1) as nat, env, last, names);
        let (done, last1) = rn_exprs(exprs, (n - 1) as nat, env, last);
        lemma_lexical_expr(exprs[n - 1], env, last1, names);
        let out = rn_exprs(exprs, n, env, last).0;
        assert forall|i: int| 0 <= i < n implies lexical(#[trigger] out[i], names) by {
            if i < n - 1 {
                assert(out[i] == done[i]);
            }
        }
    }
}

/// Resolution: where a program whose symbols are all unresolved is renamed
/// under the scope of the built-ins alone, every reference of the result
/// carries the id of the innermost binder of its name in whose scope it
/// stands.  A reference with the id 0 has no binder of its name in scope:
/// it names a built-in or is free.
pub proof fn renamed_refers_lexically(vals: Seq<ValView>, builtins: Seq<Seq<char>>, last: nat)
    requires
        unresolved_vals(vals),
    ensures
        lexical_vals(rn_program(vals, seq![builtin_scope(builtins)], last).0, Map::empty()),
{
    let env = seq![builtin_scope(builtins)];
    let names: Names = Map::empty();
    assert forall|x: Seq<char>| #[trigger] found(env, x) == named(names, x) by {
        let s = SymbolView { name: x, id: 0 };
        assert(env.drop_last() =~= Seq::<Map<SymbolView, u64>>::empty());
        assert(lookup(env.drop_last(), s) == None::<u64>);
    }
    lemma_agrees_push(env, names);
    lemma_lexical_vals(vals, vals.len(), env.push(Map::empty()), last, names);
}

} // verus!
