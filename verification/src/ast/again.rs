//! Renaming a renamed tree: the second pass finds every binder and every
//! reference where the first left them, so its result is the result of the
//! first with the ids counted from another start.

use crate::ast::binders::{lemma_clauses_ids, lemma_exprs_ids, lemma_tuple_ids, lemma_vals_ids};
use crate::ast::lexical::{
    lemma_lookup_declare, lemma_lookup_push, unresolved, unresolved_pattern, unresolved_vals,
};
use crate::ast::rename::{
    binders, binders_clauses, binders_exprs, binders_vals, builtin_scope, declare,
    lemma_declare_outer, lookup, resolve, rn_clauses, rn_expr, rn_exprs, rn_pattern, rn_program,
    rn_tuple, rn_val, rn_vals, Scopes,
};
use crate::ast::{ExprView, PatternView, TyDefer, ValView};
use crate::prim::SymbolView;
use vstd::prelude::*;

verus! {

/// The id that stands for `id` when the ids handed out after `from` are
/// handed out after `to` instead; 0 stands for itself.
pub open spec fn renumber(id: u64, from: nat, to: nat) -> u64 {
    if id == 0 {
        0
    } else {
        (id - from + to) as u64
    }
}

/// A symbol with its id renumbered.
pub open spec fn renumbered_symbol(s: SymbolView, from: nat, to: nat) -> SymbolView {
    s.with_id(renumber(s.id, from, to))
}

/// A pattern with the ids of its names renumbered.
pub open spec fn renumbered_pattern(p: PatternView, from: nat, to: nat) -> PatternView {
    match p {
        PatternView::Var { name, ty } => PatternView::Var {
            name: renumbered_symbol(name, from, to),
            ty,
        },
        PatternView::Tuple { tuple } => PatternView::Tuple {
            tuple: Seq::new(
                tuple.len(),
                |i: int| (tuple[i].0, renumbered_symbol(tuple[i].1, from, to)),
            ),
        },
        _ => p,
    }
}

/// An expression with the ids of all its symbols renumbered.
pub open spec fn renumbered(e: ExprView, from: nat, to: nat) -> ExprView
    decreases e,
{
    match e {
        ExprView::Binds { ty, binds, ret } => ExprView::Binds {
            ty,
            binds: Seq::new(
                binds.len(),
                |i: int|
                    if 0 <= i < binds.len() {
                        renumbered_val(binds[i], from, to)
                    } else {
                        arbitrary()
                    },
            ),
            ret: Box::new(renumbered(*ret, from, to)),
        },
        ExprView::BinOp { op, ty, l, r } => ExprView::BinOp {
            op: renumbered_symbol(op, from, to),
            ty,
            l: Box::new(renumbered(*l, from, to)),
            r: Box::new(renumbered(*r, from, to)),
        },
        ExprView::Fun { param_ty, param, body_ty, body } => ExprView::Fun {
            param_ty,
            param: renumbered_symbol(param, from, to),
            body_ty,
            body: Box::new(renumbered(*body, from, to)),
        },
        ExprView::App { ty, fun, arg } => ExprView::App {
            ty,
            fun: Box::new(renumbered(*fun, from, to)),
            arg: Box::new(renumbered(*arg, from, to)),
        },
        ExprView::If { ty, cond, then, else_ } => ExprView::If {
            ty,
            cond: Box::new(renumbered(*cond, from, to)),
            then: Box::new(renumbered(*then, from, to)),
            else_: Box::new(renumbered(*else_, from, to)),
        },
        ExprView::Case { ty, cond, clauses } => ExprView::Case {
            ty,
            cond: Box::new(renumbered(*cond, from, to)),
            clauses: Seq::new(
                clauses.len(),
                |i: int|
                    if 0 <= i < clauses.len() {
                        (
                            renumbered_pattern(clauses[i].0, from, to),
                            renumbered(clauses[i].1, from, to),
                        )
                    } else {
                        arbitrary()
                    },
            ),
        },
        ExprView::Tuple { ty, tuple } => ExprView::Tuple {
            ty,
            tuple: Seq::new(
                tuple.len(),
                |i: int|
                    if 0 <= i < tuple.len() {
                        renumbered(tuple[i], from, to)
                    } else {
                        arbitrary()
                    },
            ),
        },
        ExprView::Sym { ty, name } => ExprView::Sym { ty, name: renumbered_symbol(name, from, to) },
        ExprView::Lit { .. } => e,
    }
}

/// A binding with the ids of all its symbols renumbered.
pub open spec fn renumbered_val(v: ValView, from: nat, to: nat) -> ValView
    decreases v,
{
    ValView {
        ty: v.ty,
        rec: v.rec,
        pattern: renumbered_pattern(v.pattern, from, to),
        expr: renumbered(v.expr, from, to),
    }
}

/// A list of bindings with the ids of all their symbols renumbered.
pub open spec fn renumbered_vals(vals: Seq<ValView>, from: nat, to: nat) -> Seq<ValView> {
    Seq::new(vals.len(), |i: int| renumbered_val(vals[i], from, to))
}

/// A list of clauses with the ids of all their symbols renumbered.
pub open spec fn renumbered_clauses(clauses: Seq<(PatternView, ExprView)>, from: nat, to: nat) -> Seq<
    (PatternView, ExprView),
> {
    Seq::new(
        clauses.len(),
        |i: int| (renumbered_pattern(clauses[i].0, from, to), renumbered(clauses[i].1, from, to)),
    )
}

/// A list of expressions with the ids of all their symbols renumbered.
pub open spec fn renumbered_exprs(exprs: Seq<ExprView>, from: nat, to: nat) -> Seq<ExprView> {
    Seq::new(exprs.len(), |i: int| renumbered(exprs[i], from, to))
}

/// The symbol of the name `x` with the id `id`.
pub open spec fn key(x: Seq<char>, id: u64) -> SymbolView {
    SymbolView { name: x, id }
}

/// Whether the second stack finds the name `x`, as the first stack leaves
/// it, where the first finds it unresolved: with the renumbered id.
pub open spec fn tracks(env1: Scopes, env2: Scopes, x: Seq<char>, from: nat, to: nat) -> bool {
    match lookup(env1, key(x, 0)) {
        Some(k) => if k != 0 {
            lookup(env2, key(x, k)) == Some(renumber(k, from, to))
        } else {
            resolve(env2, key(x, 0)).id == 0
        },
        None => resolve(env2, key(x, 0)).id == 0,
    }
}

/// Whether the second stack follows the first for every name.
pub open spec fn follows(env1: Scopes, env2: Scopes, from: nat, to: nat) -> bool {
    &&& env1.len() >= 1
    &&& env2.len() >= 1
    &&& forall|x: Seq<char>| #[trigger] tracks(env1, env2, x, from, to)
}

proof fn lemma_follows_push(env1: Scopes, env2: Scopes, from: nat, to: nat)
    requires
        follows(env1, env2, from, to),
    ensures
        follows(env1.push(Map::empty()), env2.push(Map::empty()), from, to),
{
    let inner1 = env1.push(Map::empty());
    let inner2 = env2.push(Map::empty());
    assert forall|x: Seq<char>| #[trigger] tracks(inner1, inner2, x, from, to) by {
        assert(tracks(env1, env2, x, from, to));
        lemma_lookup_push(env1, key(x, 0));
        lemma_lookup_push(env2, key(x, 0));
        match lookup(env1, key(x, 0)) {
            Some(k) => {
                lemma_lookup_push(env2, key(x, k));
            },
            None => {},
        }
    }
}

proof fn lemma_follows_declare(
    env1: Scopes,
    env2: Scopes,
    x: Seq<char>,
    k: u64,
    from: nat,
    to: nat,
)
    requires
        follows(env1, env2, from, to),
        k != 0,
    ensures
        follows(
            declare(env1, key(x, 0), k),
            declare(env2, key(x, k), renumber(k, from, to)),
            from,
            to,
        ),
{
    let next1 = declare(env1, key(x, 0), k);
    let next2 = declare(env2, key(x, k), renumber(k, from, to));
    lemma_declare_outer(env1, key(x, 0), k);
    lemma_declare_outer(env2, key(x, k), renumber(k, from, to));
    assert forall|y: Seq<char>| #[trigger] tracks(next1, next2, y, from, to) by {
        assert(tracks(env1, env2, y, from, to));
        lemma_lookup_declare(env1, key(x, 0), k, key(y, 0));
        lemma_lookup_declare(env2, key(x, k), renumber(k, from, to), key(y, 0));
        if y == x {
            assert(key(y, 0) == key(x, 0));
            lemma_lookup_declare(env2, key(x, k), renumber(k, from, to), key(y, k));
        } else {
            assert(key(y, 0) != key(x, 0));
            match lookup(env1, key(y, 0)) {
                Some(j) => {
                    lemma_lookup_declare(env2, key(x, k), renumber(k, from, to), key(y, j));
                    assert(key(y, j) != key(x, k));
                },
                None => {},
            }
        }
    }
}

proof fn lemma_follows_reference(env1: Scopes, env2: Scopes, s: SymbolView, from: nat, to: nat)
    requires
        follows(env1, env2, from, to),
        s.id == 0,
    ensures
        resolve(env2, resolve(env1, s)) == renumbered_symbol(resolve(env1, s), from, to),
{
    assert(tracks(env1, env2, s.name, from, to));
    assert(s == key(s.name, 0));
    match lookup(env1, s) {
        Some(k) => {
            assert(resolve(env1, s) == key(s.name, k));
        },
        None => {},
    }
}

proof fn lemma_rn_vals_prefix(a: Seq<ValView>, b: Seq<ValView>, n: nat, env: Scopes, last: nat)
    requires
        n <= a.len(),
        n <= b.len(),
        a.take(n as int) == b.take(n as int),
    ensures
        rn_vals(a, n, env, last) == rn_vals(b, n, env, last),
    decreases n,
{
    if n > 0 {
        assert(a.take(n - 1) =~= a.take(n as int).take(n - 1));
        assert(b.take(n - 1) =~= b.take(n as int).take(n - 1));
        lemma_rn_vals_prefix(a, b, (n - 1) as nat, env, last);
        assert(a[n - 1] == a.take(n as int)[n - 1]);
        assert(b[n - 1] == b.take(n as int)[n - 1]);
    }
}

proof fn lemma_rn_clauses_prefix(
    a: Seq<(PatternView, ExprView)>,
    b: Seq<(PatternView, ExprView)>,
    n: nat,
    env: Scopes,
    last: nat,
)
    requires
        n <= a.len(),
        n <= b.len(),
        a.take(n as int) == b.take(n as int),
    ensures
        rn_clauses(a, n, env, last) == rn_clauses(b, n, env, last),
    decreases n,
{
    if n > 0 {
        assert(a.take(n - 1) =~= a.take(n as int).take(n - 1));
        assert(b.take(n - 1) =~= b.take(n as int).take(n - 1));
        lemma_rn_clauses_prefix(a, b, (n - 1) as nat, env, last);
        assert(a[n - 1] == a.take(n as int)[n - 1]);
        assert(b[n - 1] == b.take(n as int)[n - 1]);
    }
}

proof fn lemma_rn_exprs_prefix(a: Seq<ExprView>, b: Seq<ExprView>, n: nat, env: Scopes, last: nat)
    requires
        n <= a.len(),
        n <= b.len(),
        a.take(n as int) == b.take(n as int),
    ensures
        rn_exprs(a, n, env, last) == rn_exprs(b, n, env, last),
    decreases n,
{
    if n > 0 {
        assert(a.take(n - 1) =~= a.take(n as int).take(n - 1));
        assert(b.take(n - 1) =~= b.take(n as int).take(n - 1));
        lemma_rn_exprs_prefix(a, b, (n - 1) as nat, env, last);
        assert(a[n - 1] == a.take(n as int)[n - 1]);
        assert(b[n - 1] == b.take(n as int)[n - 1]);
    }
}

proof fn lemma_again_tuple(
    given: Seq<(TyDefer, SymbolView)>,
    once: Seq<(TyDefer, SymbolView)>,
    n: nat,
    env1: Scopes,
    env2: Scopes,
    last1: nat,
    last2: nat,
    from: nat,
    to: nat,
)
    requires
        n <= given.len(),
        once.len() == given.len(),
        forall|i: int| 0 <= i < given.len() ==> (#[trigger] given[i]).1.id == 0,
        forall|i: int|
            0 <= i < given.len() ==> (#[trigger] once[i]) == (
                given[i].0,
                given[i].1.with_id((last1 + 1 + i) as u64),
            ),
        follows(env1, env2, from, to),
        from <= last1,
        last2 - last1 == to - from,
        last1 + given.len() <= u64::MAX,
        last2 + given.len() <= u64::MAX,
    ensures
        follows(
            rn_tuple(given, n, env1, last1).1,
            rn_tuple(once, n, env2, last2).1,
            from,
            to,
        ),
    decreases n,
{
    if n > 0 {
        lemma_again_tuple(given, once, (n - 1) as nat, env1, env2, last1, last2, from, to);
        lemma_tuple_ids(given, (n - 1) as nat, env1, last1);
        lemma_tuple_ids(once, (n - 1) as nat, env2, last2);
        let (done1, e1, l1) = rn_tuple(given, (n - 1) as nat, env1, last1);
        let (done2, e2, l2) = rn_tuple(once, (n - 1) as nat, env2, last2);
        let k = (l1 + 1) as u64;
        lemma_follows_declare(e1, e2, given[n - 1].1.name, k, from, to);
        assert(given[n - 1].1 == key(given[n - 1].1.name, 0));
        assert(once[n - 1].1 == key(given[n - 1].1.name, k));
        assert(renumber(k, from, to) == (l2 + 1) as u64);
    }
}

proof fn lemma_again_pattern(
    p: PatternView,
    env1: Scopes,
    env2: Scopes,
    last1: nat,
    last2: nat,
    from: nat,
    to: nat,
)
    requires
        unresolved_pattern(p),
        follows(env1, env2, from, to),
        from <= last1,
        last2 - last1 == to - from,
        last1 + p.binds().len() <= u64::MAX,
        last2 + p.binds().len() <= u64::MAX,
    ensures
        ({
            let r1 = rn_pattern(p, env1, last1);
            let r2 = rn_pattern(r1.0, env2, last2);
            &&& r2.0 == renumbered_pattern(r1.0, from, to)
            &&& follows(r1.1, r2.1, from, to)
            &&& r1.2 == last1 + p.binds().len()
            &&& r2.2 == last2 + p.binds().len()
        }),
{
    match p {
        PatternView::Var { name, ty } => {
            assert(p.binds()[0].0.id == 0);
            let k = (last1 + 1) as u64;
            lemma_follows_declare(env1, env2, name.name, k, from, to);
            assert(name == key(name.name, 0));
            assert(name.with_id(k) == key(name.name, k));
        },
        PatternView::Tuple { tuple } => {
            lemma_tuple_ids(tuple, tuple.len(), env1, last1);
            let once = rn_tuple(tuple, tuple.len(), env1, last1).0;
            lemma_tuple_ids(once, once.len(), env2, last2);
            assert forall|i: int| 0 <= i < tuple.len() implies (#[trigger] tuple[i]).1.id == 0 by {
                assert(p.binds()[i].0.id == 0);
            }
            lemma_again_tuple(tuple, once, tuple.len(), env1, env2, last1, last2, from, to);
            let twice = rn_tuple(once, once.len(), env2, last2).0;
            assert(twice =~= Seq::new(
                once.len(),
                |i: int| (once[i].0, renumbered_symbol(once[i].1, from, to)),
            ));
        },
        _ => {},
    }
}

proof fn lemma_again_expr(
    e: ExprView,
    env1: Scopes,
    env2: Scopes,
    last1: nat,
    last2: nat,
    from: nat,
    to: nat,
)
    requires
        unresolved(e),
        follows(env1, env2, from, to),
        from <= last1,
        last2 - last1 == to - from,
        last1 + binders(e) <= u64::MAX,
        last2 + binders(e) <= u64::MAX,
    ensures
        ({
            let r1 = rn_expr(e, env1, last1);
            let r2 = rn_expr(r1.0, env2, last2);
            &&& r2.0 == renumbered(r1.0, from, to)
            &&& r1.1 == last1 + binders(e)
            &&& r2.1 == last2 + binders(e)
        }),
    decreases e, 0nat,
{
    match e {
        ExprView::Binds { ty, binds, ret } => {
            lemma_follows_push(env1, env2, from, to);
            let inner1 = env1.push(Map::empty());
            let inner2 = env2.push(Map::empty());
            lemma_again_vals(binds, binds.len(), inner1, inner2, last1, last2, from, to);
            let (done1, e1, l1) = rn_vals(binds, binds.len(), inner1, last1);
            let (done2, e2, l2) = rn_vals(done1, binds.len(), inner2, last2);
            lemma_again_expr(*ret, e1, e2, l1, l2, from, to);
            lemma_vals_ids(binds, binds.len(), inner1, last1);
            let r1 = rn_expr(e, env1, last1);
            let r2 = rn_expr(r1.0, env2, last2);
            assert(r2.0->Binds_binds =~= renumbered(r1.0, from, to)->Binds_binds);
        },
        ExprView::BinOp { op, ty, l, r } => {
            lemma_follows_reference(env1, env2, op, from, to);
            lemma_again_expr(*l, env1, env2, last1, last2, from, to);
            lemma_again_expr(
                *r,
                env1,
                env2,
                last1 + binders(*l),
                last2 + binders(*l),
                from,
                to,
            );
        },
        ExprView::Fun { param_ty, param, body_ty, body } => {
            let k = (last1 + 1) as u64;
            lemma_follows_push(env1, env2, from, to);
            lemma_follows_declare(
                env1.push(Map::empty()),
                env2.push(Map::empty()),
                param.name,
                k,
                from,
                to,
            );
            assert(param == key(param.name, 0));
            assert(param.with_id(k) == key(param.name, k));
            lemma_again_expr(
                *body,
                declare(env1.push(Map::empty()), param, k),
                declare(env2.push(Map::empty()), param.with_id(k), renumber(k, from, to)),
                last1 + 1,
                last2 + 1,
                from,
                to,
            );
        },
        ExprView::App { ty, fun, arg } => {
            lemma_again_expr(*fun, env1, env2, last1, last2, from, to);
            lemma_again_expr(
                *arg,
                env1,
                env2,
                last1 + binders(*fun),
                last2 + binders(*fun),
                from,
                to,
            );
        },
        ExprView::If { ty, cond, then, else_ } => {
            lemma_again_expr(*cond, env1, env2, last1, last2, from, to);
            let a1 = last1 + binders(*cond);
            let a2 = last2 + binders(*cond);
            lemma_again_expr(*then, env1, env2, a1, a2, from, to);
            lemma_again_expr(
                *else_,
                env1,
                env2,
                a1 + binders(*then),
                a2 + binders(*then),
                from,
                to,
            );
        },
        ExprView::Case { ty, cond, clauses } => {
            lemma_again_expr(*cond, env1, env2, last1, last2, from, to);
            let a1 = last1 + binders(*cond);
            let a2 = last2 + binders(*cond);
            lemma_again_clauses(clauses, clauses.len(), env1, env2, a1, a2, from, to);
            lemma_clauses_ids(clauses, clauses.len(), env1, a1);
            let r1 = rn_expr(e, env1, last1);
            let r2 = rn_expr(r1.0, env2, last2);
            assert(r2.0->Case_clauses =~= renumbered(r1.0, from, to)->Case_clauses);
        },
        ExprView::Tuple { ty, tuple } => {
            lemma_again_exprs(tuple, tuple.len(), env1, env2, last1, last2, from, to);
            lemma_exprs_ids(tuple, tuple.len(), env1, last1);
            let r1 = rn_expr(e, env1, last1);
            let r2 = rn_expr(r1.0, env2, last2);
            assert(r2.0->Tuple_tuple =~= renumbered(r1.0, from, to)->Tuple_tuple);
        },
        ExprView::Sym { ty, name } => {
            lemma_follows_reference(env1, env2, name, from, to);
        },
        ExprView::Lit { .. } => {},
    }
}

proof fn lemma_again_val(
    v: ValView,
    env1: Scopes,
    env2: Scopes,
    last1: nat,
    last2: nat,
    from: nat,
    to: nat,
)
    requires
        unresolved_pattern(v.pattern),
        unresolved(v.expr),
        follows(env1, env2, from, to),
        from <= last1,
        last2 - last1 == to - from,
        last1 + v.pattern.binds().len() + binders(v.expr) <= u64::MAX,
        last2 + v.pattern.binds().len() + binders(v.expr) <= u64::MAX,
    ensures
        ({
            let r1 = rn_val(v, env1, last1);
            let r2 = rn_val(r1.0, env2, last2);
            &&& r2.0 == renumbered_val(r1.0, from, to)
            &&& follows(r1.1, r2.1, from, to)
            &&& r1.2 == last1 + v.pattern.binds().len() + binders(v.expr)
            &&& r2.2 == last2 + v.pattern.binds().len() + binders(v.expr)
        }),
    decreases v, 0nat,
{
    if v.rec {
        lemma_again_pattern(v.pattern, env1, env2, last1, last2, from, to);
        let (q1, e1, l1) = rn_pattern(v.pattern, env1, last1);
        let (q2, e2, l2) = rn_pattern(q1, env2, last2);
        lemma_again_expr(v.expr, e1, e2, l1, l2, from, to);
    } else {
        lemma_again_expr(v.expr, env1, env2, last1, last2, from, to);
        let (x1, l1) = rn_expr(v.expr, env1, last1);
        let (x2, l2) = rn_expr(x1, env2, last2);
        lemma_again_pattern(v.pattern, env1, env2, l1, l2, from, to);
    }
}

proof fn lemma_again_vals(
    vals: Seq<ValView>,
    n: nat,
    env1: Scopes,
    env2: Scopes,
    last1: nat,
    last2: nat,
    from: nat,
    to: nat,
)
    requires
        n <= vals.len(),
        unresolved_vals(vals),
        follows(env1, env2, from, to),
        from <= last1,
        last2 - last1 == to - from,
        last1 + binders_vals(vals, n) <= u64::MAX,
        last2 + binders_vals(vals, n) <= u64::MAX,
    ensures
        ({
            let r1 = rn_vals(vals, n, env1, last1);
            let r2 = rn_vals(r1.0, n, env2, last2);
            &&& r1.0.len() == n
            &&& r2.0 == renumbered_vals(r1.0, from, to)
            &&& follows(r1.1, r2.1, from, to)
            &&& r1.2 == last1 + binders_vals(vals, n)
            &&& r2.2 == last2 + binders_vals(vals, n)
        }),
    decreases vals, n,
{
    if n == 0 {
        let r1 = rn_vals(vals, n, env1, last1);
        let r2 = rn_vals(r1.0, n, env2, last2);
        assert(r2.0 =~= renumbered_vals(r1.0, from, to));
    } else {
        lemma_again_vals(vals, (n - 1) as nat, env1, env2, last1, last2, from, to);
        let (done1, e1, l1) = rn_vals(vals, (n - 1) as nat, env1, last1);
        let (done2, e2, l2) = rn_vals(done1, (n - 1) as nat, env2, last2);
        let v = vals[n - 1];
        assert(unresolved_pattern(v.pattern) && unresolved(v.expr));
        lemma_again_val(v, e1, e2, l1, l2, from, to);
        let (w1, f1, m1) = rn_val(v, e1, l1);
        let (w2, f2, m2) = rn_val(w1, e2, l2);
        let out1 = done1.push(w1);
        assert(out1.take(n - 1) =~= done1.take(n - 1));
        lemma_rn_vals_prefix(out1, done1, (n - 1) as nat, env2, last2);
        assert(rn_vals(out1, n, env2, last2).0 =~= renumbered_vals(out1, from, to));
    }
}

proof fn lemma_again_clauses(
    clauses: Seq<(PatternView, ExprView)>,
    n: nat,
    env1: Scopes,
    env2: Scopes,
    last1: nat,
    last2: nat,
    from: nat,
    to: nat,
)
    requires
        n <= clauses.len(),
        forall|i: int|
            0 <= i < clauses.len() ==> unresolved_pattern((#[trigger] clauses[i]).0) && unresolved(
                clauses[i].1,
            ),
        follows(env1, env2, from, to),
        from <= last1,
        last2 - last1 == to - from,
        last1 + binders_clauses(clauses, n) <= u64::MAX,
        last2 + binders_clauses(clauses, n) <= u64::MAX,
    ensures
        ({
            let r1 = rn_clauses(clauses, n, env1, last1);
            let r2 = rn_clauses(r1.0, n, env2, last2);
            &&& r1.0.len() == n
            &&& r2.0 == renumbered_clauses(r1.0, from, to)
            &&& r1.1 == last1 + binders_clauses(clauses, n)
            &&& r2.1 == last2 + binders_clauses(clauses, n)
        }),
    decreases clauses, n,
{
    if n == 0 {
        let r1 = rn_clauses(clauses, n, env1, last1);
        let r2 = rn_clauses(r1.0, n, env2, last2);
        assert(r2.0 =~= renumbered_clauses(r1.0, from, to));
    } else {
        lemma_again_clauses(clauses, (n - 1) as nat, env1, env2, last1, last2, from, to);
        let (done1, l1) = rn_clauses(clauses, (n - 1) as nat, env1, last1);
        let (done2, l2) = rn_clauses(done1, (n - 1) as nat, env2, last2);
        let c = clauses[n - 1];
        assert(unresolved_pattern(c.0) && unresolved(c.1));
        lemma_follows_push(env1, env2, from, to);
        let inner1 = env1.push(Map::empty());
        let inner2 = env2.push(Map::empty());
        lemma_again_pattern(c.0, inner1, inner2, l1, l2, from, to);
        let (q1, f1, m1) = rn_pattern(c.0, inner1, l1);
        let (q2, f2, m2) = rn_pattern(q1, inner2, l2);
        lemma_again_expr(c.1, f1, f2, m1, m2, from, to);
        let (a1, k1) = rn_expr(c.1, f1, m1);
        let out1 = done1.push((q1, a1));
        assert(out1.take(n - 1) =~= done1.take(n - 1));
        lemma_rn_clauses_prefix(out1, done1, (n - 1) as nat, env2, last2);
        assert(rn_clauses(out1, n, env2, last2).0 =~= renumbered_clauses(out1, from, to));
    }
}

proof fn lemma_again_exprs(
    exprs: Seq<ExprView>,
    n: nat,
    env1: Scopes,
    env2: Scopes,
    last1: nat,
    last2: nat,
    from: nat,
    to: nat,
)
    requires
        n <= exprs.len(),
        forall|i: int| 0 <= i < exprs.len() ==> unresolved(#[trigger] exprs[i]),
        follows(env1, env2, from, to),
        from <= last1,
        last2 - last1 == to - from,
        last1 + binders_exprs(exprs, n) <= u64::MAX,
        last2 + binders_exprs(exprs, n) <= u64::MAX,
    ensures
        ({
            let r1 = rn_exprs(exprs, n, env1, last1);
            let r2 = rn_exprs(r1.0, n, env2, last2);
            &&& r1.0.len() == n
            &&& r2.0 == renumbered_exprs(r1.0, from, to)
            &&& r1.1 == last1 + binders_exprs(exprs, n)
            &&& r2.1 == last2 + binders_exprs(exprs, n)
        }),
    decreases exprs, n,
{
    if n == 0 {
        let r1 = rn_exprs(exprs, n, env1, last1);
        let r2 = rn_exprs(r1.0, n, env2, last2);
        assert(r2.0 =~= renumbered_exprs(r1.0, from, to));
    } else {
        lemma_again_exprs(exprs, (n - 1) as nat, env1, env2, last1, last2, from, to);
        let (done1, l1) = rn_exprs(exprs, (n - 1) as nat, env1, last1);
        let (done2, l2) = rn_exprs(done1, (n - 1) as nat, env2, last2);
        lemma_again_expr(exprs[n - 1], env1, env2, l1, l2, from, to);
        let (x1, m1) = rn_expr(exprs[n - 1], env1, l1);
        let out1 = done1.push(x1);
        assert(out1.take(n - 1) =~= done1.take(n - 1));
        lemma_rn_exprs_prefix(out1, done1, (n - 1) as nat, env2, last2);
        assert(rn_exprs(out1, n, env2, last2).0 =~= renumbered_exprs(out1, from, to));
    }
}

proof fn lemma_renumbered_same(e: ExprView, from: nat)
    ensures
        renumbered(e, from, from) == e,
    decreases e, 0nat,
{
    match e {
        ExprView::Binds { ty, binds, ret } => {
            assert forall|i: int| 0 <= i < binds.len() implies renumbered_val(
                binds[i],
                from,
                from,
            ) == binds[i] by {
                lemma_renumbered_val_same(binds[i], from);
            }
            lemma_renumbered_same(*ret, from);
            assert(renumbered(e, from, from)->Binds_binds =~= binds);
        },
        ExprView::BinOp { l, r, .. } => {
            lemma_renumbered_same(*l, from);
            lemma_renumbered_same(*r, from);
        },
        ExprView::Fun { body, .. } => {
            lemma_renumbered_same(*body, from);
        },
        ExprView::App { fun, arg, .. } => {
            lemma_renumbered_same(*fun, from);
            lemma_renumbered_same(*arg, from);
        },
        ExprView::If { cond, then, else_, .. } => {
            lemma_renumbered_same(*cond, from);
            lemma_renumbered_same(*then, from);
            lemma_renumbered_same(*else_, from);
        },
        ExprView::Case { cond, clauses, .. } => {
            lemma_renumbered_same(*cond, from);
            assert forall|i: int| 0 <= i < clauses.len() implies (
                renumbered_pattern(clauses[i].0, from, from),
                renumbered(clauses[i].1, from, from),
            ) == clauses[i] by {
                lemma_renumbered_pattern_same(clauses[i].0, from);
                lemma_renumbered_same(clauses[i].1, from);
            }
            assert(renumbered(e, from, from)->Case_clauses =~= clauses);
        },
        ExprView::Tuple { tuple, .. } => {
            assert forall|i: int| 0 <= i < tuple.len() implies renumbered(tuple[i], from, from)
                == tuple[i] by {
                lemma_renumbered_same(tuple[i], from);
            }
            assert(renumbered(e, from, from)->Tuple_tuple =~= tuple);
        },
        _ => {},
    }
}

proof fn lemma_renumbered_pattern_same(p: PatternView, from: nat)
    ensures
        renumbered_pattern(p, from, from) == p,
{
    match p {
        PatternView::Tuple { tuple } => {
            assert(renumbered_pattern(p, from, from)->Tuple_tuple =~= tuple);
        },
        _ => {},
    }
}

proof fn lemma_renumbered_val_same(v: ValView, from: nat)
    ensures
        renumbered_val(v, from, from) == v,
    decreases v, 1nat,
{
    lemma_renumbered_pattern_same(v.pattern, from);
    lemma_renumbered_same(v.expr, from);
}

/// Renumbering is one to one on the ids that were handed out after `from`.
pub proof fn renumber_is_one_to_one(i: u64, j: u64, from: nat, to: nat)
    requires
        from < i,
        from < j,
        i - from + to <= u64::MAX,
        j - from + to <= u64::MAX,
        renumber(i, from, to) == renumber(j, from, to),
    ensures
        i == j,
        renumber(i, from, to) != 0,
{
}

/// Renaming again: where a program whose symbols are all unresolved has
/// been renamed with ids counted from `first`, renaming the result with ids
/// counted from `second` gives the same tree with every id renumbered from
/// the one count to the other; an id 0 stays 0.
pub proof fn renaming_again_renumbers(
    vals: Seq<ValView>,
    builtins: Seq<Seq<char>>,
    first: nat,
    second: nat,
)
    requires
        unresolved_vals(vals),
        first + binders_vals(vals, vals.len()) <= u64::MAX,
        second + binders_vals(vals, vals.len()) <= u64::MAX,
    ensures
        ({
            let env = seq![builtin_scope(builtins)];
            let once = rn_program(vals, env, first).0;
            let twice = rn_program(once, env, second).0;
            twice == renumbered_vals(once, first, second)
        }),
{
    let env = seq![builtin_scope(builtins)];
    assert forall|x: Seq<char>| #[trigger] tracks(env, env, x, first, second) by {
        assert(env.drop_last() =~= Seq::<Map<SymbolView, u64>>::empty());
        assert(lookup(env.drop_last(), key(x, 0)) == None::<u64>);
    }
    lemma_follows_push(env, env, first, second);
    lemma_again_vals(
        vals,
        vals.len(),
        env.push(Map::empty()),
        env.push(Map::empty()),
        first,
        second,
        first,
        second,
    );
}


/// Renaming again with a fresh allocator: where both passes count their
/// ids from the same start, the second pass leaves the tree as the first
/// made it.
pub proof fn renaming_again_changes_nothing(vals: Seq<ValView>, builtins: Seq<Seq<char>>, first: nat)
    requires
        unresolved_vals(vals),
        first + binders_vals(vals, vals.len()) <= u64::MAX,
    ensures
        ({
            let env = seq![builtin_scope(builtins)];
            let once = rn_program(vals, env, first).0;
            rn_program(once, env, first).0 == once
        }),
{
    renaming_again_renumbers(vals, builtins, first, first);
    let env = seq![builtin_scope(builtins)];
    let once = rn_program(vals, env, first).0;
    assert forall|i: int| 0 <= i < once.len() implies renumbered_val(once[i], first, first)
        == once[i] by {
        lemma_renumbered_val_same(once[i], first);
    }
    assert(renumbered_vals(once, first, first) =~= once);
}

} // verus!
