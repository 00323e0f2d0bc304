//! Freshness of renaming: the ids that the renamed tree carries at its
//! binding occurrences are the ids handed out during the pass, each once.

use crate::ast::rename::{
    binders, binders_clauses, binders_exprs, binders_vals, rn_clauses, rn_expr, rn_exprs,
    rn_pattern, rn_program, rn_tuple, rn_val, rn_vals, Scopes,
};
use crate::ast::{ExprView, PatternView, TyDefer, ValView};
use crate::prim::SymbolView;
use vstd::prelude::*;

verus! {

/// The ids at the names that a pattern binds, in the pattern's order.
pub open spec fn pattern_ids(p: PatternView) -> Seq<u64> {
    Seq::new(p.binds().len(), |i: int| p.binds()[i].0.id)
}

/// The ids at the binding occurrences of an expression, in the order in
/// which renaming comes to them.
pub open spec fn binder_ids(e: ExprView) -> Seq<u64>
    decreases e, 0nat,
{
    match e {
        ExprView::Binds { binds, ret, .. } => binder_ids_vals(binds, binds.len()) + binder_ids(
            *ret,
        ),
        ExprView::BinOp { l, r, .. } => binder_ids(*l) + binder_ids(*r),
        ExprView::Fun { param, body, .. } => seq![param.id] + binder_ids(*body),
        ExprView::App { fun, arg, .. } => binder_ids(*fun) + binder_ids(*arg),
        ExprView::If { cond, then, else_, .. } => binder_ids(*cond) + binder_ids(*then)
            + binder_ids(*else_),
        ExprView::Case { cond, clauses, .. } => binder_ids(*cond) + binder_ids_clauses(
            clauses,
            clauses.len(),
        ),
        ExprView::Tuple { tuple, .. } => binder_ids_exprs(tuple, tuple.len()),
        _ => Seq::empty(),
    }
}

/// The ids at the binding occurrences of one binding: those of its pattern
/// come first in a recursive binding, last in any other.
pub open spec fn binder_ids_val(v: ValView) -> Seq<u64>
    decreases v, 0nat,
{
    if v.rec {
        pattern_ids(v.pattern) + binder_ids(v.expr)
    } else {
        binder_ids(v.expr) + pattern_ids(v.pattern)
    }
}

/// The ids at the binding occurrences of the first `n` bindings of a list.
pub open spec fn binder_ids_vals(vals: Seq<ValView>, n: nat) -> Seq<u64>
    decreases vals, n,
{
    if n == 0 || n > vals.len() {
        Seq::empty()
    } else {
        binder_ids_vals(vals, (n - 1) as nat) + binder_ids_val(vals[n - 1])
    }
}

/// The ids at the binding occurrences of the first `n` clauses of a case.
pub open spec fn binder_ids_clauses(clauses: Seq<(PatternView, ExprView)>, n: nat) -> Seq<u64>
    decreases clauses, n,
{
    if n == 0 || n > clauses.len() {
        Seq::empty()
    } else {
        binder_ids_clauses(clauses, (n - 1) as nat) + pattern_ids(clauses[n - 1].0) + binder_ids(
            clauses[n - 1].1,
        )
    }
}

/// The ids at the binding occurrences of the first `n` expressions of a list.
pub open spec fn binder_ids_exprs(exprs: Seq<ExprView>, n: nat) -> Seq<u64>
    decreases exprs, n,
{
    if n == 0 || n > exprs.len() {
        Seq::empty()
    } else {
        binder_ids_exprs(exprs, (n - 1) as nat) + binder_ids(exprs[n - 1])
    }
}

/// The `n` ids that follow `last`.
pub open spec fn run(last: nat, n: nat) -> Seq<u64> {
    Seq::new(n, |i: int| (last + 1 + i) as u64)
}

proof fn lemma_run_append(last: nat, a: nat, b: nat)
    ensures
        run(last, a) + run(last + a, b) == run(last, a + b),
{
    assert(run(last, a) + run(last + a, b) =~= run(last, a + b));
}

proof fn lemma_vals_ids_prefix(a: Seq<ValView>, b: Seq<ValView>, n: nat)
    requires
        n <= a.len(),
        n <= b.len(),
        a.take(n as int) == b.take(n as int),
    ensures
        binder_ids_vals(a, n) == binder_ids_vals(b, n),
    decreases n,
{
    if n > 0 {
        assert(a.take(n - 1) =~= a.take(n as int).take(n - 1));
        assert(b.take(n - 1) =~= b.take(n as int).take(n - 1));
        lemma_vals_ids_prefix(a, b, (n - 1) as nat);
        assert(a[n - 1] == a.take(n as int)[n - 1]);
        assert(b[n - 1] == b.take(n as int)[n - 1]);
    }
}

proof fn lemma_clauses_ids_prefix(
    a: Seq<(PatternView, ExprView)>,
    b: Seq<(PatternView, ExprView)>,
    n: nat,
)
    requires
        n <= a.len(),
        n <= b.len(),
        a.take(n as int) == b.take(n as int),
    ensures
        binder_ids_clauses(a, n) == binder_ids_clauses(b, n),
    decreases n,
{
    if n > 0 {
        assert(a.take(n - 1) =~= a.take(n as int).take(n - 1));
        assert(b.take(n - 1) =~= b.take(n as int).take(n - 1));
        lemma_clauses_ids_prefix(a, b, (n - 1) as nat);
        assert(a[n - 1] == a.take(n as int)[n - 1]);
        assert(b[n - 1] == b.take(n as int)[n - 1]);
    }
}

proof fn lemma_exprs_ids_prefix(a: Seq<ExprView>, b: Seq<ExprView>, n: nat)
    requires
        n <= a.len(),
        n <= b.len(),
        a.take(n as int) == b.take(n as int),
    ensures
        binder_ids_exprs(a, n) == binder_ids_exprs(b, n),
    decreases n,
{
    if n > 0 {
        assert(a.take(n - 1) =~= a.take(n as int).take(n - 1));
        assert(b.take(n - 1) =~= b.take(n as int).take(n - 1));
        lemma_exprs_ids_prefix(a, b, (n - 1) as nat);
        assert(a[n - 1] == a.take(n as int)[n - 1]);
        assert(b[n - 1] == b.take(n as int)[n - 1]);
    }
}

pub proof fn lemma_tuple_ids(tuple: Seq<(TyDefer, SymbolView)>, n: nat, env: Scopes, last: nat)
    requires
        n <= tuple.len(),
    ensures
        rn_tuple(tuple, n, env, last).0.len() == n,
        rn_tuple(tuple, n, env, last).2 == last + n,
        forall|i: int|
            0 <= i < n ==> (#[trigger] rn_tuple(tuple, n, env, last).0[i]) == (
                tuple[i].0,
                tuple[i].1.with_id((last + 1 + i) as u64),
            ),
    decreases n,
{
    if n > 0 {
        lemma_tuple_ids(tuple, (n - 1) as nat, env, last);
    }
}

/// Renaming a pattern gives the names that it binds the ids that follow
/// `last`, in the pattern's order.
pub proof fn lemma_pattern_ids(p: PatternView, env: Scopes, last: nat)
    ensures
        rn_pattern(p, env, last).2 == last + p.binds().len(),
        rn_pattern(p, env, last).0.binds().len() == p.binds().len(),
        pattern_ids(rn_pattern(p, env, last).0) == run(last, p.binds().len()),
{
    match p {
        PatternView::Tuple { tuple } => {
            lemma_tuple_ids(tuple, tuple.len(), env, last);
            assert(pattern_ids(rn_pattern(p, env, last).0) =~= run(last, p.binds().len()));
        },
        PatternView::Var { .. } => {
            assert(pattern_ids(rn_pattern(p, env, last).0) =~= run(last, p.binds().len()));
        },
        _ => {
            assert(pattern_ids(rn_pattern(p, env, last).0) =~= run(last, p.binds().len()));
        },
    }
}

/// Renaming an expression hands out as many ids as the expression has
/// binding occurrences, and these occurrences carry them in order.
pub proof fn lemma_expr_ids(e: ExprView, env: Scopes, last: nat)
    ensures
        rn_expr(e, env, last).1 == last + binders(e),
        binder_ids(rn_expr(e, env, last).0) == run(last, binders(e)),
    decreases e, 0nat,
{
    match e {
        ExprView::Binds { ty, binds, ret } => {
            let inner = env.push(Map::empty());
            lemma_vals_ids(binds, binds.len(), inner, last);
            let (done, env1, last1) = rn_vals(binds, binds.len(), inner, last);
            lemma_expr_ids(*ret, env1, last1);
            lemma_run_append(last, binders_vals(binds, binds.len()), binders(*ret));
        },
        ExprView::BinOp { l, r, .. } => {
            lemma_expr_ids(*l, env, last);
            let last1 = rn_expr(*l, env, last).1;
            lemma_expr_ids(*r, env, last1);
            lemma_run_append(last, binders(*l), binders(*r));
        },
        ExprView::Fun { param, body, .. } => {
            let inner = crate::ast::rename::declare(
                env.push(Map::empty()),
                param,
                (last + 1) as u64,
            );
            lemma_expr_ids(*body, inner, last + 1);
            assert(seq![(last + 1) as u64] =~= run(last, 1));
            lemma_run_append(last, 1, binders(*body));
        },
        ExprView::App { fun, arg, .. } => {
            lemma_expr_ids(*fun, env, last);
            let last1 = rn_expr(*fun, env, last).1;
            lemma_expr_ids(*arg, env, last1);
            lemma_run_append(last, binders(*fun), binders(*arg));
        },
        ExprView::If { cond, then, else_, .. } => {
            lemma_expr_ids(*cond, env, last);
            let last1 = rn_expr(*cond, env, last).1;
            lemma_expr_ids(*then, env, last1);
            let last2 = rn_expr(*then, env, last1).1;
            lemma_expr_ids(*else_, env, last2);
            lemma_run_append(last, binders(*cond), binders(*then));
            lemma_run_append(last, binders(*cond) + binders(*then), binders(*else_));
        },
        ExprView::Case { cond, clauses, .. } => {
            lemma_expr_ids(*cond, env, last);
            let last1 = rn_expr(*cond, env, last).1;
            lemma_clauses_ids(clauses, clauses.len(), env, last1);
            lemma_run_append(last, binders(*cond), binders_clauses(clauses, clauses.len()));
        },
        ExprView::Tuple { tuple, .. } => {
            lemma_exprs_ids(tuple, tuple.len(), env, last);
        },
        _ => {
            assert(binder_ids(rn_expr(e, env, last).0) =~= run(last, 0));
        },
    }
}

pub proof fn lemma_val_ids(v: ValView, env: Scopes, last: nat)
    ensures
        rn_val(v, env, last).2 == last + v.pattern.binds().len() + binders(v.expr),
        binder_ids_val(rn_val(v, env, last).0) == run(
            last,
            v.pattern.binds().len() + binders(v.expr),
        ),
    decreases v, 0nat,
{
    if v.rec {
        lemma_pattern_ids(v.pattern, env, last);
        let (pattern, env1, last1) = rn_pattern(v.pattern, env, last);
        lemma_expr_ids(v.expr, env1, last1);
        lemma_run_append(last, v.pattern.binds().len(), binders(v.expr));
    } else {
        lemma_expr_ids(v.expr, env, last);
        let (expr, last1) = rn_expr(v.expr, env, last);
        lemma_pattern_ids(v.pattern, env, last1);
        lemma_run_append(last, binders(v.expr), v.pattern.binds().len());
    }
}

pub proof fn lemma_vals_ids(vals: Seq<ValView>, n: nat, env: Scopes, last: nat)
    requires
        n <= vals.len(),
    ensures
        rn_vals(vals, n, env, last).0.len() == n,
        rn_vals(vals, n, env, last).2 == last + binders_vals(vals, n),
        binder_ids_vals(rn_vals(vals, n, env, last).0, n) == run(last, binders_vals(vals, n)),
    decreases vals, n,
{
    if n == 0 {
        assert(binder_ids_vals(rn_vals(vals, n, env, last).0, n) =~= run(last, 0));
    } else {
        lemma_vals_ids(vals, (n - 1) as nat, env, last);
        let (done, env1, last1) = rn_vals(vals, (n - 1) as nat, env, last);
        lemma_val_ids(vals[n - 1], env1, last1);
        let (v, env2, last2) = rn_val(vals[n - 1], env1, last1);
        assert(done.push(v).take(n - 1) =~= done.take(n - 1));
        lemma_vals_ids_prefix(done.push(v), done, (n - 1) as nat);
        lemma_run_append(
            last,
            binders_vals(vals, (n - 1) as nat),
            vals[n - 1].pattern.binds().len() + binders(vals[n - 1].expr),
        );
    }
}

pub proof fn lemma_clauses_ids(clauses: Seq<(PatternView, ExprView)>, n: nat, env: Scopes, last: nat)
    requires
        n <= clauses.len(),
    ensures
        rn_clauses(clauses, n, env, last).0.len() == n,
        rn_clauses(clauses, n, env, last).1 == last + binders_clauses(clauses, n),
        binder_ids_clauses(rn_clauses(clauses, n, env, last).0, n) == run(
            last,
            binders_clauses(clauses, n),
        ),
    decreases clauses, n,
{
    if n == 0 {
        assert(binder_ids_clauses(rn_clauses(clauses, n, env, last).0, n) =~= run(last, 0));
    } else {
        lemma_clauses_ids(clauses, (n - 1) as nat, env, last);
        let (done, last1) = rn_clauses(clauses, (n - 1) as nat, env, last);
        let inner = env.push(Map::empty());
        lemma_pattern_ids(clauses[n - 1].0, inner, last1);
        let (pattern, env1, last2) = rn_pattern(clauses[n - 1].0, inner, last1);
        lemma_expr_ids(clauses[n - 1].1, env1, last2);
        let (arm, last3) = rn_expr(clauses[n - 1].1, env1, last2);
        assert(done.push((pattern, arm)).take(n - 1) =~= done.take(n - 1));
        lemma_clauses_ids_prefix(done.push((pattern, arm)), done, (n - 1) as nat);
        lemma_run_append(
            last,
            binders_clauses(clauses, (n - 1) as nat),
            clauses[n - 1].0.binds().len(),
        );
        lemma_run_append(
            last,
            binders_clauses(clauses, (n - 1) as nat) + clauses[n - 1].0.binds().len(),
            binders(clauses[n - 1].1),
        );
    }
}

pub proof fn lemma_exprs_ids(exprs: Seq<ExprView>, n: nat, env: Scopes, last: nat)
    requires
        n <= exprs.len(),
    ensures
        rn_exprs(exprs, n, env, last).0.len() == n,
        rn_exprs(exprs, n, env, last).1 == last + binders_exprs(exprs, n),
        binder_ids_exprs(rn_exprs(exprs, n, env, last).0, n) == run(last, binders_exprs(exprs, n)),
    decreases exprs, n,
{
    if n == 0 {
        assert(binder_ids_exprs(rn_exprs(exprs, n, env, last).0, n) =~= run(last, 0));
    } else {
        lemma_exprs_ids(exprs, (n - 1) as nat, env, last);
        let (done, last1) = rn_exprs(exprs, (n - 1) as nat, env, last);
        lemma_expr_ids(exprs[n - 1], env, last1);
        let (e, last2) = rn_expr(exprs[n - 1], env, last1);
        assert(done.push(e).take(n - 1) =~= done.take(n - 1));
        lemma_exprs_ids_prefix(done.push(e), done, (n - 1) as nat);
        lemma_run_append(last, binders_exprs(exprs, (n - 1) as nat), binders(exprs[n - 1]));
    }
}

/// Uniqueness: in a renamed program the binding occurrences carry, in the
/// order in which the pass came to them, the ids that follow the one handed
/// out last before.  So none of them is 0 and no two of them are equal.
pub proof fn renamed_binders_are_distinct(vals: Seq<ValView>, env: Scopes, last: nat)
    requires
        last + binders_vals(vals, vals.len()) <= u64::MAX,
    ensures
        ({
            let out = rn_program(vals, env, last).0;
            let ids = binder_ids_vals(out, out.len());
            &&& out.len() == vals.len()
            &&& ids == run(last, binders_vals(vals, vals.len()))
            &&& forall|i: int| 0 <= i < ids.len() ==> ids[i] != 0
            &&& forall|i: int, j: int| 0 <= i < j < ids.len() ==> ids[i] != ids[j]
        }),
{
    lemma_vals_ids(vals, vals.len(), env.push(Map::empty()), last);
}

} // verus!
