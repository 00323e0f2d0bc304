//! Alpha renaming: every binding occurrence gets a fresh id, and every
//! reference gets the id of the innermost binder in whose scope it stands.
//! Names of built-in functions, and names that nothing binds, keep the id 0.

use crate::ast::{
    clauses_view, exprs_view, lemma_binds_view, lemma_case_view, lemma_tuple_view, tuple_view,
    vals_view, Expr, ExprView, Pattern, PatternView, TyDefer, TypeError, Val, ValView, AST,
};
use crate::config::Config;
use crate::id::Id;
use crate::prim::{Symbol, SymbolView};
use vstd::prelude::*;

verus! {

/// The stack of scopes, outermost first.  Each scope maps the symbols bound
/// in it, as they were written, to the ids given to them.
pub type Scopes = Seq<Map<SymbolView, u64>>;

/// The id that the innermost scope knowing `sym` gives to it.
pub open spec fn lookup(env: Scopes, sym: SymbolView) -> Option<u64>
    decreases env.len(),
{
    if env.len() == 0 {
        None
    } else if env.last().contains_key(sym) {
        Some(env.last()[sym])
    } else {
        lookup(env.drop_last(), sym)
    }
}

/// A reference as renaming leaves it: with the id found for it, or as it
/// was when no scope knows it.
pub open spec fn resolve(env: Scopes, sym: SymbolView) -> SymbolView {
    match lookup(env, sym) {
        Some(id) => sym.with_id(id),
        None => sym,
    }
}

/// The stack after the innermost scope has learnt that `sym` has `id`.
pub open spec fn declare(env: Scopes, sym: SymbolView, id: u64) -> Scopes {
    if env.len() == 0 {
        env
    } else {
        env.update(env.len() - 1, env.last().insert(sym, id))
    }
}

/// Renaming of the first `n` components of a tuple pattern, when `last` is
/// the id handed out last: the components with their new ids, the stack
/// that knows them, and the id handed out last afterwards.
pub open spec fn rn_tuple(tuple: Seq<(TyDefer, SymbolView)>, n: nat, env: Scopes, last: nat) -> (
    Seq<(TyDefer, SymbolView)>,
    Scopes,
    nat,
)
    decreases n,
{
    if n == 0 || n > tuple.len() {
        (Seq::empty(), env, last)
    } else {
        let (done, env1, last1) = rn_tuple(tuple, (n - 1) as nat, env, last);
        let id = (last1 + 1) as u64;
        (
            done.push((tuple[n - 1].0, tuple[n - 1].1.with_id(id))),
            declare(env1, tuple[n - 1].1, id),
            last1 + 1,
        )
    }
}

/// Renaming of a pattern: each name that it binds takes the next id and is
/// made known to the innermost scope.
pub open spec fn rn_pattern(p: PatternView, env: Scopes, last: nat) -> (PatternView, Scopes, nat) {
    match p {
        PatternView::Var { name, ty } => {
            let id = (last + 1) as u64;
            (PatternView::Var { name: name.with_id(id), ty }, declare(env, name, id), last + 1)
        },
        PatternView::Tuple { tuple } => {
            let (done, env1, last1) = rn_tuple(tuple, tuple.len(), env, last);
            (PatternView::Tuple { tuple: done }, env1, last1)
        },
        _ => (p, env, last),
    }
}

/// Renaming of an expression under the scopes `env`, when `last` is the id
/// handed out last: the renamed expression and the id handed out last
/// afterwards.  The scopes that an expression opens are closed again at its
/// end, so the stack itself is afterwards what it was.
pub open spec fn rn_expr(e: ExprView, env: Scopes, last: nat) -> (ExprView, nat)
    decreases e, 0nat,
{
    match e {
        ExprView::Binds { ty, binds, ret } => {
            let (done, env1, last1) = rn_vals(binds, binds.len(), env.push(Map::empty()), last);
            let (body, last2) = rn_expr(*ret, env1, last1);
            (ExprView::Binds { ty, binds: done, ret: Box::new(body) }, last2)
        },
        ExprView::BinOp { op, ty, l, r } => {
            let (left, last1) = rn_expr(*l, env, last);
            let (right, last2) = rn_expr(*r, env, last1);
            (
                ExprView::BinOp {
                    op: resolve(env, op),
                    ty,
                    l: Box::new(left),
                    r: Box::new(right),
                },
                last2,
            )
        },
        ExprView::Fun { param_ty, param, body_ty, body } => {
            let id = (last + 1) as u64;
            let inner = declare(env.push(Map::empty()), param, id);
            let (done, last1) = rn_expr(*body, inner, last + 1);
            (
                ExprView::Fun { param_ty, param: param.with_id(id), body_ty, body: Box::new(done) },
                last1,
            )
        },
        ExprView::App { ty, fun, arg } => {
            let (f, last1) = rn_expr(*fun, env, last);
            let (a, last2) = rn_expr(*arg, env, last1);
            (ExprView::App { ty, fun: Box::new(f), arg: Box::new(a) }, last2)
        },
        ExprView::If { ty, cond, then, else_ } => {
            let (c, last1) = rn_expr(*cond, env, last);
            let (t, last2) = rn_expr(*then, env, last1);
            let (f, last3) = rn_expr(*else_, env, last2);
            (ExprView::If { ty, cond: Box::new(c), then: Box::new(t), else_: Box::new(f) }, last3)
        },
        ExprView::Case { ty, cond, clauses } => {
            let (c, last1) = rn_expr(*cond, env, last);
            let (done, last2) = rn_clauses(clauses, clauses.len(), env, last1);
            (ExprView::Case { ty, cond: Box::new(c), clauses: done }, last2)
        },
        ExprView::Tuple { ty, tuple } => {
            let (done, last1) = rn_exprs(tuple, tuple.len(), env, last);
            (ExprView::Tuple { ty, tuple: done }, last1)
        },
        ExprView::Sym { ty, name } => (ExprView::Sym { ty, name: resolve(env, name) }, last),
        ExprView::Lit { .. } => (e, last),
    }
}

/// Renaming of one binding.  A recursive binding makes its names known
/// before its right-hand side is renamed, any other one after.
pub open spec fn rn_val(v: ValView, env: Scopes, last: nat) -> (ValView, Scopes, nat)
    decreases v, 0nat,
{
    if v.rec {
        let (pattern, env1, last1) = rn_pattern(v.pattern, env, last);
        let (expr, last2) = rn_expr(v.expr, env1, last1);
        (ValView { ty: v.ty, rec: v.rec, pattern, expr }, env1, last2)
    } else {
        let (expr, last1) = rn_expr(v.expr, env, last);
        let (pattern, env1, last2) = rn_pattern(v.pattern, env, last1);
        (ValView { ty: v.ty, rec: v.rec, pattern, expr }, env1, last2)
    }
}

/// Renaming of the first `n` bindings of a list, one after the other in the
/// same scope, so that each sees the names of those before it.
pub open spec fn rn_vals(vals: Seq<ValView>, n: nat, env: Scopes, last: nat) -> (
    Seq<ValView>,
    Scopes,
    nat,
)
    decreases vals, n,
{
    if n == 0 || n > vals.len() {
        (Seq::empty(), env, last)
    } else {
        let (done, env1, last1) = rn_vals(vals, (n - 1) as nat, env, last);
        let (v, env2, last2) = rn_val(vals[n - 1], env1, last1);
        (done.push(v), env2, last2)
    }
}

/// Renaming of the first `n` clauses of a case: each clause has a scope of
/// its own, in which its pattern binds and its arm is renamed.
pub open spec fn rn_clauses(
    clauses: Seq<(PatternView, ExprView)>,
    n: nat,
    env: Scopes,
    last: nat,
) -> (Seq<(PatternView, ExprView)>, nat)
    decreases clauses, n,
{
    if n == 0 || n > clauses.len() {
        (Seq::empty(), last)
    } else {
        let (done, last1) = rn_clauses(clauses, (n - 1) as nat, env, last);
        let (pattern, env1, last2) = rn_pattern(clauses[n - 1].0, env.push(Map::empty()), last1);
        let (arm, last3) = rn_expr(clauses[n - 1].1, env1, last2);
        (done.push((pattern, arm)), last3)
    }
}

/// Renaming of the first `n` expressions of a list, all under the same scopes.
pub open spec fn rn_exprs(exprs: Seq<ExprView>, n: nat, env: Scopes, last: nat) -> (
    Seq<ExprView>,
    nat,
)
    decreases exprs, n,
{
    if n == 0 || n > exprs.len() {
        (Seq::empty(), last)
    } else {
        let (done, last1) = rn_exprs(exprs, (n - 1) as nat, env, last);
        let (e, last2) = rn_expr(exprs[n - 1], env, last1);
        (done.push(e), last2)
    }
}

/// Renaming of a whole program: its bindings are renamed in a scope of
/// their own on top of `env`.
pub open spec fn rn_program(vals: Seq<ValView>, env: Scopes, last: nat) -> (Seq<ValView>, nat) {
    let (done, _env1, last1) = rn_vals(vals, vals.len(), env.push(Map::empty()), last);
    (done, last1)
}

/// Number of binding occurrences in an expression.
pub open spec fn binders(e: ExprView) -> nat
    decreases e, 0nat,
{
    match e {
        ExprView::Binds { binds, ret, .. } => binders_vals(binds, binds.len()) + binders(*ret),
        ExprView::BinOp { l, r, .. } => binders(*l) + binders(*r),
        ExprView::Fun { body, .. } => 1 + binders(*body),
        ExprView::App { fun, arg, .. } => binders(*fun) + binders(*arg),
        ExprView::If { cond, then, else_, .. } => binders(*cond) + binders(*then) + binders(*else_),
        ExprView::Case { cond, clauses, .. } => binders(*cond) + binders_clauses(
            clauses,
            clauses.len(),
        ),
        ExprView::Tuple { tuple, .. } => binders_exprs(tuple, tuple.len()),
        _ => 0,
    }
}

/// Number of binding occurrences in the first `n` bindings of a list.
pub open spec fn binders_vals(vals: Seq<ValView>, n: nat) -> nat
    decreases vals, n,
{
    if n == 0 || n > vals.len() {
        0
    } else {
        binders_vals(vals, (n - 1) as nat) + vals[n - 1].pattern.binds().len() + binders(
            vals[n - 1].expr,
        )
    }
}

/// Number of binding occurrences in the first `n` clauses of a case.
pub open spec fn binders_clauses(clauses: Seq<(PatternView, ExprView)>, n: nat) -> nat
    decreases clauses, n,
{
    if n == 0 || n > clauses.len() {
        0
    } else {
        binders_clauses(clauses, (n - 1) as nat) + clauses[n - 1].0.binds().len() + binders(
            clauses[n - 1].1,
        )
    }
}

/// Number of binding occurrences in the first `n` expressions of a list.
pub open spec fn binders_exprs(exprs: Seq<ExprView>, n: nat) -> nat
    decreases exprs, n,
{
    if n == 0 || n > exprs.len() {
        0
    } else {
        binders_exprs(exprs, (n - 1) as nat) + binders(exprs[n - 1])
    }
}


/// The scope that a table of entries stands for: of two entries for one
/// symbol the later one counts.
pub open spec fn table_map(entries: Seq<(Symbol, u64)>) -> Map<SymbolView, u64>
    decreases entries.len(),
{
    if entries.len() == 0 {
        Map::empty()
    } else {
        table_map(entries.drop_last()).insert(entries.last().0@, entries.last().1)
    }
}

/// The scope of the built-in functions: each of their names, unresolved,
/// stands for the id 0.
pub open spec fn builtin_scope(names: Seq<Seq<char>>) -> Map<SymbolView, u64> {
    Map::new(|s: SymbolView| s.id == 0 && names.contains(s.name), |s: SymbolView| 0u64)
}

/// The names held by a list of string slices, in order.
pub open spec fn names_of(builtins: Seq<&str>) -> Seq<Seq<char>> {
    Seq::new(builtins.len(), |i: int| builtins[i]@)
}

proof fn lemma_table_push(entries: Seq<(Symbol, u64)>, entry: (Symbol, u64))
    ensures
        table_map(entries.push(entry)) == table_map(entries).insert(entry.0@, entry.1),
{
    assert(entries.push(entry).drop_last() =~= entries);
}

proof fn lemma_binders_vals_mono(vals: Seq<ValView>, i: nat, n: nat)
    requires
        i <= n <= vals.len(),
    ensures
        binders_vals(vals, i) <= binders_vals(vals, n),
    decreases n,
{
    if i < n {
        lemma_binders_vals_mono(vals, i, (n - 1) as nat);
    }
}

proof fn lemma_binders_clauses_mono(clauses: Seq<(PatternView, ExprView)>, i: nat, n: nat)
    requires
        i <= n <= clauses.len(),
    ensures
        binders_clauses(clauses, i) <= binders_clauses(clauses, n),
    decreases n,
{
    if i < n {
        lemma_binders_clauses_mono(clauses, i, (n - 1) as nat);
    }
}

proof fn lemma_binders_exprs_mono(exprs: Seq<ExprView>, i: nat, n: nat)
    requires
        i <= n <= exprs.len(),
    ensures
        binders_exprs(exprs, i) <= binders_exprs(exprs, n),
    decreases n,
{
    if i < n {
        lemma_binders_exprs_mono(exprs, i, (n - 1) as nat);
    }
}

/// Whether two stacks have the same depth and differ at most in their
/// innermost scope.
pub open spec fn same_outer(a: Scopes, b: Scopes) -> bool {
    a.len() == b.len() && a.drop_last() == b.drop_last()
}

pub proof fn lemma_declare_outer(env: Scopes, sym: SymbolView, id: u64)
    requires
        env.len() >= 1,
    ensures
        same_outer(declare(env, sym, id), env),
{
    assert(declare(env, sym, id).drop_last() =~= env.drop_last());
}

pub proof fn lemma_rn_tuple_outer(tuple: Seq<(TyDefer, SymbolView)>, n: nat, env: Scopes, last: nat)
    requires
        env.len() >= 1,
    ensures
        same_outer(rn_tuple(tuple, n, env, last).1, env),
    decreases n,
{
    if n == 0 || n > tuple.len() {
    } else {
        lemma_rn_tuple_outer(tuple, (n - 1) as nat, env, last);
        let (done, env1, last1) = rn_tuple(tuple, (n - 1) as nat, env, last);
        lemma_declare_outer(env1, tuple[n - 1].1, (last1 + 1) as u64);
    }
}

pub proof fn lemma_rn_pattern_outer(p: PatternView, env: Scopes, last: nat)
    requires
        env.len() >= 1,
    ensures
        same_outer(rn_pattern(p, env, last).1, env),
{
    match p {
        PatternView::Var { name, ty } => {
            lemma_declare_outer(env, name, (last + 1) as u64);
        },
        PatternView::Tuple { tuple } => {
            lemma_rn_tuple_outer(tuple, tuple.len(), env, last);
        },
        _ => {},
    }
}

pub proof fn lemma_rn_vals_outer(vals: Seq<ValView>, n: nat, env: Scopes, last: nat)
    requires
        env.len() >= 1,
    ensures
        same_outer(rn_vals(vals, n, env, last).1, env),
    decreases n,
{
    if n == 0 || n > vals.len() {
    } else {
        lemma_rn_vals_outer(vals, (n - 1) as nat, env, last);
        let (done, env1, last1) = rn_vals(vals, (n - 1) as nat, env, last);
        let v = vals[n - 1];
        if v.rec {
            lemma_rn_pattern_outer(v.pattern, env1, last1);
            assert(rn_val(v, env1, last1).1 == rn_pattern(v.pattern, env1, last1).1);
        } else {
            let last2 = rn_expr(v.expr, env1, last1).1;
            lemma_rn_pattern_outer(v.pattern, env1, last2);
            assert(rn_val(v, env1, last1).1 == rn_pattern(v.pattern, env1, last2).1);
        }
        assert(rn_vals(vals, n, env, last).1 == rn_val(v, env1, last1).1);
    }
}

/// The sum of two counts, as long as it fits in 64 bits.
fn sum(a: Option<u64>, b: Option<u64>) -> (r: Option<u64>)
    ensures
        r == match (a, b) {
            (Some(x), Some(y)) => if x + y <= u64::MAX {
                Some((x + y) as u64)
            } else {
                None
            },
            _ => None,
        },
{
    match (a, b) {
        (Some(x), Some(y)) => if x <= u64::MAX - y {
            Some(x + y)
        } else {
            None
        },
        _ => None,
    }
}

/// Whether `r` is the count `n`, or nothing for a count beyond 64 bits.
pub open spec fn counted(r: Option<u64>, n: nat) -> bool {
    match r {
        Some(c) => c == n,
        None => n > u64::MAX,
    }
}

/// Number of names that a pattern binds.
fn count_pattern(p: &Pattern) -> (r: Option<u64>)
    ensures
        counted(r, p@.binds().len()),
{
    match p {
        Pattern::Var { .. } => Some(1),
        Pattern::Tuple { tuple } => {
            let n = tuple.len();
            if n as u64 as usize == n {
                Some(n as u64)
            } else {
                None
            }
        },
        _ => Some(0),
    }
}

/// Number of binding occurrences in an expression.
fn count_expr(e: &Expr) -> (r: Option<u64>)
    ensures
        counted(r, binders(e@)),
    decreases e,
{
    match e {
        Expr::Binds { ty, binds, ret } => {
            proof {
                lemma_binds_view(*ty, *binds, *ret);
            }
            sum(count_vals(binds), count_expr(ret))
        },
        Expr::BinOp { l, r, .. } => sum(count_expr(l), count_expr(r)),
        Expr::Fun { body, .. } => sum(Some(1), count_expr(body)),
        Expr::App { fun, arg, .. } => sum(count_expr(fun), count_expr(arg)),
        Expr::If { cond, then, else_, .. } => sum(
            sum(count_expr(cond), count_expr(then)),
            count_expr(else_),
        ),
        Expr::Case { ty, cond, clauses } => {
            proof {
                lemma_case_view(*ty, *cond, *clauses);
            }
            sum(count_expr(cond), count_clauses(clauses))
        },
        Expr::Tuple { ty, tuple } => {
            proof {
                lemma_tuple_view(*ty, *tuple);
            }
            count_exprs(tuple)
        },
        Expr::Sym { .. } => Some(0),
        Expr::Lit { .. } => Some(0),
    }
}

/// Number of binding occurrences in a list of bindings.
fn count_vals(vals: &Vec<Val>) -> (r: Option<u64>)
    ensures
        counted(r, binders_vals(vals_view(vals@), vals@.len())),
    decreases vals,
{
    let ghost given = vals_view(vals@);
    let mut total: Option<u64> = Some(0);
    let mut i: usize = 0;
    while i < vals.len()
        invariant
            i <= vals@.len(),
            given == vals_view(vals@),
            counted(total, binders_vals(given, i as nat)),
        decreases vals@.len() - i,
    {
        total = sum(sum(total, count_pattern(&vals[i].pattern)), count_expr(&vals[i].expr));
        i += 1;
    }
    total
}

/// Number of binding occurrences in the clauses of a case.
fn count_clauses(clauses: &Vec<(Pattern, Expr)>) -> (r: Option<u64>)
    ensures
        counted(r, binders_clauses(clauses_view(clauses@), clauses@.len())),
    decreases clauses,
{
    let ghost given = clauses_view(clauses@);
    let mut total: Option<u64> = Some(0);
    let mut i: usize = 0;
    while i < clauses.len()
        invariant
            i <= clauses@.len(),
            given == clauses_view(clauses@),
            counted(total, binders_clauses(given, i as nat)),
        decreases clauses@.len() - i,
    {
        total = sum(sum(total, count_pattern(&clauses[i].0)), count_expr(&clauses[i].1));
        i += 1;
    }
    total
}

/// Number of binding occurrences in a list of expressions.
fn count_exprs(exprs: &Vec<Expr>) -> (r: Option<u64>)
    ensures
        counted(r, binders_exprs(exprs_view(exprs@), exprs@.len())),
    decreases exprs,
{
    let ghost given = exprs_view(exprs@);
    let mut total: Option<u64> = Some(0);
    let mut i: usize = 0;
    while i < exprs.len()
        invariant
            i <= exprs@.len(),
            given == exprs_view(exprs@),
            counted(total, binders_exprs(given, i as nat)),
        decreases exprs@.len() - i,
    {
        total = sum(total, count_expr(&exprs[i]));
        i += 1;
    }
    total
}

/// The id that a table gives to a symbol, the latest entry first.
fn find(table: &Vec<(Symbol, u64)>, symbol: &Symbol) -> (r: Option<u64>)
    ensures
        r == (if table_map(table@).contains_key(symbol@) {
            Some(table_map(table@)[symbol@])
        } else {
            None
        }),
{
    let mut i: usize = table.len();
    assert(table@.take(i as int) =~= table@);
    while i > 0
        invariant
            i <= table@.len(),
            table_map(table@).contains_key(symbol@) == table_map(
                table@.take(i as int),
            ).contains_key(symbol@),
            table_map(table@).contains_key(symbol@) ==> table_map(table@)[symbol@] == table_map(
                table@.take(i as int),
            )[symbol@],
        decreases i,
    {
        i -= 1;
        assert(table@.take(i + 1).drop_last() =~= table@.take(i as int));
        if table[i].0.same(symbol) {
            return Some(table[i].1);
        }
    }
    None
}

/// The renaming pass: the stack of scope tables, of which the first `pos`
/// are open, and the allocator of ids.
pub struct Rename {
    tables: Vec<Vec<(Symbol, u64)>>,
    pos: usize,
    id: Id,
}

impl Rename {
    /// The open scopes, outermost first.
    pub closed spec fn scopes(&self) -> Scopes {
        Seq::new(self.pos as nat, |j: int| table_map(self.tables@[j]@))
    }

    /// The id handed out last.
    pub closed spec fn issued(&self) -> nat {
        self.id.issued()
    }

    /// The scope of the built-ins is open, and every open scope has its table.
    pub closed spec fn wf(&self) -> bool {
        1 <= self.pos <= self.tables@.len()
    }

    /// A pass that draws its ids from `id` and leaves the names in
    /// `builtins` alone: its only open scope gives each of them the id 0.
    pub fn new(id: Id, builtins: &[&str]) -> (r: Self)
        ensures
            r.wf(),
            r.scopes() == seq![builtin_scope(names_of(builtins@))],
            r.issued() == id.issued(),
    {
        let mut prims: Vec<(Symbol, u64)> = Vec::new();
        let mut i: usize = 0;
        let ghost names = names_of(builtins@);
        assert(table_map(prims@) =~= builtin_scope(names.take(0)));
        while i < builtins.len()
            invariant
                i <= builtins@.len(),
                names == names_of(builtins@),
                table_map(prims@) == builtin_scope(names.take(i as int)),
            decreases builtins@.len() - i,
        {
            let entry = (Symbol::new(builtins[i]), 0u64);
            proof {
                lemma_table_push(prims@, entry);
                assert(names.take(i + 1) =~= names.take(i as int).push(names[i as int]));
                assert(entry.0@ == SymbolView { name: names[i as int], id: 0 });
                let sooner = names.take(i as int);
                let later = names.take(i + 1);
                let grown = builtin_scope(sooner).insert(entry.0@, 0u64);
                assert forall|s: SymbolView| #[trigger]
                    grown.dom().contains(s) == builtin_scope(later).dom().contains(s) by {
                    if sooner.contains(s.name) {
                        let k = choose|k: int| 0 <= k < sooner.len() && sooner[k] == s.name;
                        assert(later[k] == s.name);
                    }
                    if s.name == names[i as int] {
                        assert(later[i as int] == s.name);
                    }
                    if later.contains(s.name) {
                        let k = choose|k: int| 0 <= k < later.len() && later[k] == s.name;
                        if k < i {
                            assert(sooner[k] == s.name);
                        }
                    }
                }
                assert forall|s: SymbolView| #[trigger] grown.dom().contains(s) implies grown[s]
                    == builtin_scope(later)[s] by {}
                assert(table_map(prims@.push(entry)) == builtin_scope(sooner).insert(
                    entry.0@,
                    0u64,
                ));
                assert(builtin_scope(sooner).insert(entry.0@, 0u64) =~= builtin_scope(later));
            }
            prims.push(entry);
            i += 1;
        }
        assert(names.take(builtins@.len() as int) =~= names);
        let mut tables: Vec<Vec<(Symbol, u64)>> = Vec::new();
        tables.push(prims);
        let r = Rename { tables, pos: 1, id };
        assert(r.scopes() =~= seq![builtin_scope(names)]);
        r
    }

    /// Open the scope of a program's top-level bindings.
    fn scope(&mut self)
        requires
            old(self).wf(),
        ensures
            final(self).wf(),
            final(self).scopes() == old(self).scopes().push(Map::empty()),
            final(self).issued() == old(self).issued(),
    {
        self.new_scope()
    }

    /// Open a scope that knows no symbol yet.
    fn new_scope(&mut self)
        requires
            old(self).wf(),
        ensures
            final(self).wf(),
            final(self).scopes() == old(self).scopes().push(Map::empty()),
            final(self).issued() == old(self).issued(),
    {
        let pos = self.pos;
        if self.tables.len() <= pos {
            self.tables.push(Vec::new());
        } else {
            self.tables[pos].clear();
        }
        assert(pos < self.tables.len());
        self.pos = pos + 1;
        assert(self.scopes() =~= old(self).scopes().push(Map::empty()));
    }

    /// Close the innermost scope and forget what it knew.
    fn end_scope(&mut self)
        requires
            old(self).wf(),
            old(self).scopes().len() >= 2,
        ensures
            final(self).wf(),
            final(self).scopes() == old(self).scopes().drop_last(),
            final(self).issued() == old(self).issued(),
    {
        self.pos = self.pos - 1;
        assert(self.scopes() =~= old(self).scopes().drop_last());
    }

    /// Give `symbol` the next id and make it known to the innermost scope.
    fn new_symbol(&mut self, symbol: &Symbol) -> (r: Symbol)
        requires
            old(self).wf(),
            old(self).issued() < u64::MAX,
        ensures
            final(self).wf(),
            final(self).issued() == old(self).issued() + 1,
            r@ == symbol@.with_id((old(self).issued() + 1) as u64),
            final(self).scopes() == declare(
                old(self).scopes(),
                symbol@,
                (old(self).issued() + 1) as u64,
            ),
    {
        let pos = self.pos - 1;
        let new_id = self.id.next();
        proof {
            lemma_table_push(self.tables@[pos as int]@, (*symbol, new_id));
        }
        self.tables[pos].push((symbol.duplicate(), new_id));
        assert(self.scopes() =~= declare(old(self).scopes(), symbol@, new_id));
        Symbol(symbol.0.clone(), new_id)
    }

    /// Give each name that the pattern binds the next id, in the order in
    /// which the pattern lists them.
    fn new_symbol_pattern(&mut self, pat: &Pattern) -> (r: Pattern)
        requires
            old(self).wf(),
            old(self).issued() + pat@.binds().len() <= u64::MAX,
        ensures
            final(self).wf(),
            final(self).issued() == old(self).issued() + pat@.binds().len(),
            (r@, final(self).scopes(), final(self).issued()) == rn_pattern(
                pat@,
                old(self).scopes(),
                old(self).issued(),
            ),
    {
        match pat {
            Pattern::Wildcard { ty } => Pattern::Wildcard { ty: *ty },
            Pattern::Lit { value, ty } => Pattern::Lit { value: value.duplicate(), ty: *ty },
            Pattern::Var { name, ty } => Pattern::Var { name: self.new_symbol(name), ty: *ty },
            Pattern::Tuple { tuple } => {
                let mut out: Vec<(TyDefer, Symbol)> = Vec::new();
                let mut i: usize = 0;
                assert(tuple_view(out@) =~= Seq::empty());
                while i < tuple.len()
                    invariant
                        i <= tuple@.len(),
                        self.wf(),
                        old(self).issued() + tuple@.len() <= u64::MAX,
                        self.issued() == old(self).issued() + i,
                        (tuple_view(out@), self.scopes(), self.issued()) == rn_tuple(
                            tuple_view(tuple@),
                            i as nat,
                            old(self).scopes(),
                            old(self).issued(),
                        ),
                    decreases tuple@.len() - i,
                {
                    let sym = self.new_symbol(&tuple[i].1);
                    let ghost before = out@;
                    out.push((tuple[i].0, sym));
                    assert(tuple_view(out@) =~= tuple_view(before).push((tuple@[i as int].0, sym@)));
                    i += 1;
                }
                Pattern::Tuple { tuple: out }
            },
        }
    }

    /// The reference as the open scopes resolve it.
    fn rename(&self, symbol: &Symbol) -> (r: Symbol)
        requires
            self.wf(),
        ensures
            r@ == resolve(self.scopes(), symbol@),
    {
        let mut j: usize = self.pos;
        assert(self.scopes().take(j as int) =~= self.scopes());
        while j > 0
            invariant
                j <= self.pos,
                self.wf(),
                lookup(self.scopes(), symbol@) == lookup(self.scopes().take(j as int), symbol@),
            decreases j,
        {
            j -= 1;
            assert(self.scopes().take(j + 1).drop_last() =~= self.scopes().take(j as int));
            match find(&self.tables[j], symbol) {
                Some(new_id) => {
                    return Symbol(symbol.0.clone(), new_id);
                },
                None => {},
            }
        }
        symbol.duplicate()
    }

    /// Rename a whole program in the innermost open scope.
    fn traverse_ast(&mut self, ast: &AST) -> (r: AST)
        requires
            old(self).wf(),
            old(self).issued() + binders_vals(ast@, ast@.len()) <= u64::MAX,
        ensures
            final(self).wf(),
            final(self).issued() == old(self).issued() + binders_vals(ast@, ast@.len()),
            (r@, final(self).scopes(), final(self).issued()) == rn_vals(
                ast@,
                ast@.len(),
                old(self).scopes(),
                old(self).issued(),
            ),
    {
        AST(self.traverse_vals(&ast.0))
    }

    /// Rename a list of bindings, one after the other, in the innermost
    /// open scope.
    fn traverse_vals(&mut self, vals: &Vec<Val>) -> (r: Vec<Val>)
        requires
            old(self).wf(),
            old(self).issued() + binders_vals(vals_view(vals@), vals@.len()) <= u64::MAX,
        ensures
            final(self).wf(),
            final(self).issued() == old(self).issued() + binders_vals(
                vals_view(vals@),
                vals@.len(),
            ),
            (vals_view(r@), final(self).scopes(), final(self).issued()) == rn_vals(
                vals_view(vals@),
                vals@.len(),
                old(self).scopes(),
                old(self).issued(),
            ),
        decreases vals,
    {
        let ghost env0 = self.scopes();
        let ghost last0 = self.issued();
        let ghost given = vals_view(vals@);
        let mut out: Vec<Val> = Vec::new();
        let mut i: usize = 0;
        assert(vals_view(out@) =~= Seq::empty());
        while i < vals.len()
            invariant
                i <= vals@.len(),
                given == vals_view(vals@),
                self.wf(),
                last0 + binders_vals(given, vals@.len()) <= u64::MAX,
                self.issued() == last0 + binders_vals(given, i as nat),
                (vals_view(out@), self.scopes(), self.issued()) == rn_vals(
                    given,
                    i as nat,
                    env0,
                    last0,
                ),
            decreases vals@.len() - i,
        {
            proof {
                lemma_binders_vals_mono(given, (i + 1) as nat, vals@.len());
            }
            let v = self.traverse_val(&vals[i]);
            let ghost before = out@;
            out.push(v);
            assert(vals_view(out@) =~= vals_view(before).push(v@));
            i += 1;
        }
        out
    }

    /// Rename one binding: a recursive one binds its names before its
    /// right-hand side is renamed, any other one after.
    fn traverse_val(&mut self, val: &Val) -> (r: Val)
        requires
            old(self).wf(),
            old(self).issued() + val@.pattern.binds().len() + binders(val@.expr) <= u64::MAX,
        ensures
            final(self).wf(),
            final(self).issued() == old(self).issued() + val@.pattern.binds().len() + binders(
                val@.expr,
            ),
            (r@, final(self).scopes(), final(self).issued()) == rn_val(
                val@,
                old(self).scopes(),
                old(self).issued(),
            ),
        decreases val,
    {
        if val.rec {
            let pattern = self.new_symbol_pattern(&val.pattern);
            let expr = self.traverse_expr(&val.expr);
            Val { ty: val.ty, rec: val.rec, pattern, expr }
        } else {
            let expr = self.traverse_expr(&val.expr);
            let pattern = self.new_symbol_pattern(&val.pattern);
            Val { ty: val.ty, rec: val.rec, pattern, expr }
        }
    }

    /// Rename an expression under the open scopes.
    fn traverse_expr(&mut self, e: &Expr) -> (r: Expr)
        requires
            old(self).wf(),
            old(self).issued() + binders(e@) <= u64::MAX,
        ensures
            final(self).wf(),
            final(self).scopes() == old(self).scopes(),
            final(self).issued() == old(self).issued() + binders(e@),
            (r@, final(self).issued()) == rn_expr(e@, old(self).scopes(), old(self).issued()),
        decreases e, 1nat,
    {
        match e {
            Expr::Binds { .. } => self.traverse_binds(e),
            Expr::BinOp { .. } => self.traverse_binop(e),
            Expr::Fun { .. } => self.traverse_fun(e),
            Expr::App { ty, fun, arg } => {
                let f = self.traverse_expr(fun);
                let a = self.traverse_expr(arg);
                Expr::App { ty: *ty, fun: Box::new(f), arg: Box::new(a) }
            },
            Expr::If { ty, cond, then, else_ } => {
                let c = self.traverse_expr(cond);
                let t = self.traverse_expr(then);
                let f = self.traverse_expr(else_);
                Expr::If { ty: *ty, cond: Box::new(c), then: Box::new(t), else_: Box::new(f) }
            },
            Expr::Case { .. } => self.traverse_case(e),
            Expr::Tuple { ty, tuple } => {
                proof {
                    lemma_tuple_view(*ty, *tuple);
                }
                let done = self.traverse_exprs(tuple);
                proof {
                    lemma_tuple_view(*ty, done);
                }
                Expr::Tuple { ty: *ty, tuple: done }
            },
            Expr::Sym { .. } => self.traverse_sym(e),
            Expr::Lit { ty, value } => Expr::Lit { ty: *ty, value: value.duplicate() },
        }
    }

    /// Rename a `let`: its bindings and its body share a scope of their own.
    fn traverse_binds(&mut self, e: &Expr) -> (r: Expr)
        requires
            old(self).wf(),
            old(self).issued() + binders(e@) <= u64::MAX,
            e is Binds,
        ensures
            final(self).wf(),
            final(self).scopes() == old(self).scopes(),
            final(self).issued() == old(self).issued() + binders(e@),
            (r@, final(self).issued()) == rn_expr(e@, old(self).scopes(), old(self).issued()),
        decreases e, 0nat,
    {
        match e {
            Expr::Binds { ty, binds, ret } => {
                proof {
                    lemma_binds_view(*ty, *binds, *ret);
                }
                self.new_scope();
                let done = self.traverse_vals(binds);
                let body = self.traverse_expr(ret);
                proof {
                    lemma_rn_vals_outer(
                        vals_view(binds@),
                        binds@.len(),
                        old(self).scopes().push(Map::empty()),
                        old(self).issued(),
                    );
                    assert(old(self).scopes().push(Map::empty()).drop_last() =~= old(
                        self,
                    ).scopes());
                    lemma_binds_view(*ty, done, Box::new(body));
                }
                self.end_scope();
                Expr::Binds { ty: *ty, binds: done, ret: Box::new(body) }
            },
            _ => unreached(),
        }
    }

    /// Rename an operation: the operator is a reference like any other.
    fn traverse_binop(&mut self, e: &Expr) -> (r: Expr)
        requires
            old(self).wf(),
            old(self).issued() + binders(e@) <= u64::MAX,
            e is BinOp,
        ensures
            final(self).wf(),
            final(self).scopes() == old(self).scopes(),
            final(self).issued() == old(self).issued() + binders(e@),
            (r@, final(self).issued()) == rn_expr(e@, old(self).scopes(), old(self).issued()),
        decreases e, 0nat,
    {
        match e {
            Expr::BinOp { op, ty, l, r } => {
                let op = self.rename(op);
                let left = self.traverse_expr(l);
                let right = self.traverse_expr(r);
                Expr::BinOp { op, ty: *ty, l: Box::new(left), r: Box::new(right) }
            },
            _ => unreached(),
        }
    }

    /// Rename a function: its parameter is bound in a scope of its own, in
    /// which the body is renamed.
    fn traverse_fun(&mut self, e: &Expr) -> (r: Expr)
        requires
            old(self).wf(),
            old(self).issued() + binders(e@) <= u64::MAX,
            e is Fun,
        ensures
            final(self).wf(),
            final(self).scopes() == old(self).scopes(),
            final(self).issued() == old(self).issued() + binders(e@),
            (r@, final(self).issued()) == rn_expr(e@, old(self).scopes(), old(self).issued()),
        decreases e, 0nat,
    {
        match e {
            Expr::Fun { param_ty, param, body_ty, body } => {
                self.new_scope();
                let bound = self.new_symbol(param);
                let done = self.traverse_expr(body);
                proof {
                    lemma_declare_outer(
                        old(self).scopes().push(Map::empty()),
                        param@,
                        (old(self).issued() + 1) as u64,
                    );
                    assert(old(self).scopes().push(Map::empty()).drop_last() =~= old(
                        self,
                    ).scopes());
                }
                self.end_scope();
                Expr::Fun {
                    param_ty: *param_ty,
                    param: bound,
                    body_ty: *body_ty,
                    body: Box::new(done),
                }
            },
            _ => unreached(),
        }
    }

    /// Rename a case: the scrutinee under the open scopes, each clause in a
    /// scope of its own.
    fn traverse_case(&mut self, e: &Expr) -> (r: Expr)
        requires
            old(self).wf(),
            old(self).issued() + binders(e@) <= u64::MAX,
            e is Case,
        ensures
            final(self).wf(),
            final(self).scopes() == old(self).scopes(),
            final(self).issued() == old(self).issued() + binders(e@),
            (r@, final(self).issued()) == rn_expr(e@, old(self).scopes(), old(self).issued()),
        decreases e, 0nat,
    {
        match e {
            Expr::Case { ty, cond, clauses } => {
                proof {
                    lemma_case_view(*ty, *cond, *clauses);
                }
                let c = self.traverse_expr(cond);
                let done = self.traverse_clauses(clauses);
                proof {
                    lemma_case_view(*ty, Box::new(c), done);
                }
                Expr::Case { ty: *ty, cond: Box::new(c), clauses: done }
            },
            _ => unreached(),
        }
    }

    /// Rename the clauses of a case, each in a scope of its own.
    fn traverse_clauses(&mut self, clauses: &Vec<(Pattern, Expr)>) -> (r: Vec<(Pattern, Expr)>)
        requires
            old(self).wf(),
            old(self).issued() + binders_clauses(clauses_view(clauses@), clauses@.len())
                <= u64::MAX,
        ensures
            final(self).wf(),
            final(self).scopes() == old(self).scopes(),
            final(self).issued() == old(self).issued() + binders_clauses(
                clauses_view(clauses@),
                clauses@.len(),
            ),
            (clauses_view(r@), final(self).issued()) == rn_clauses(
                clauses_view(clauses@),
                clauses@.len(),
                old(self).scopes(),
                old(self).issued(),
            ),
        decreases clauses,
    {
        let ghost env0 = self.scopes();
        let ghost last0 = self.issued();
        let ghost given = clauses_view(clauses@);
        let mut out: Vec<(Pattern, Expr)> = Vec::new();
        let mut i: usize = 0;
        assert(clauses_view(out@) =~= Seq::empty());
        while i < clauses.len()
            invariant
                i <= clauses@.len(),
                given == clauses_view(clauses@),
                self.wf(),
                self.scopes() == env0,
                last0 + binders_clauses(given, clauses@.len()) <= u64::MAX,
                self.issued() == last0 + binders_clauses(given, i as nat),
                (clauses_view(out@), self.issued()) == rn_clauses(given, i as nat, env0, last0),
            decreases clauses@.len() - i,
        {
            proof {
                lemma_binders_clauses_mono(given, (i + 1) as nat, clauses@.len());
            }
            let ghost last1 = self.issued();
            self.new_scope();
            let pattern = self.new_symbol_pattern(&clauses[i].0);
            let arm = self.traverse_expr(&clauses[i].1);
            proof {
                lemma_rn_pattern_outer(clauses@[i as int].0@, env0.push(Map::empty()), last1);
                assert(env0.push(Map::empty()).drop_last() =~= env0);
            }
            self.end_scope();
            let ghost before = out@;
            out.push((pattern, arm));
            assert(clauses_view(out@) =~= clauses_view(before).push((pattern@, arm@)));
            i += 1;
        }
        out
    }

    /// Rename a list of expressions under the open scopes.
    fn traverse_exprs(&mut self, exprs: &Vec<Expr>) -> (r: Vec<Expr>)
        requires
            old(self).wf(),
            old(self).issued() + binders_exprs(exprs_view(exprs@), exprs@.len()) <= u64::MAX,
        ensures
            final(self).wf(),
            final(self).scopes() == old(self).scopes(),
            final(self).issued() == old(self).issued() + binders_exprs(
                exprs_view(exprs@),
                exprs@.len(),
            ),
            (exprs_view(r@), final(self).issued()) == rn_exprs(
                exprs_view(exprs@),
                exprs@.len(),
                old(self).scopes(),
                old(self).issued(),
            ),
        decreases exprs,
    {
        let ghost env0 = self.scopes();
        let ghost last0 = self.issued();
        let ghost given = exprs_view(exprs@);
        let mut out: Vec<Expr> = Vec::new();
        let mut i: usize = 0;
        assert(exprs_view(out@) =~= Seq::empty());
        while i < exprs.len()
            invariant
                i <= exprs@.len(),
                given == exprs_view(exprs@),
                self.wf(),
                self.scopes() == env0,
                last0 + binders_exprs(given, exprs@.len()) <= u64::MAX,
                self.issued() == last0 + binders_exprs(given, i as nat),
                (exprs_view(out@), self.issued()) == rn_exprs(given, i as nat, env0, last0),
            decreases exprs@.len() - i,
        {
            proof {
                lemma_binders_exprs_mono(given, (i + 1) as nat, exprs@.len());
            }
            let e = self.traverse_expr(&exprs[i]);
            let ghost before = out@;
            out.push(e);
            assert(exprs_view(out@) =~= exprs_view(before).push(e@));
            i += 1;
        }
        out
    }

    /// Rename a reference.
    fn traverse_sym(&mut self, e: &Expr) -> (r: Expr)
        requires
            old(self).wf(),
            old(self).issued() + binders(e@) <= u64::MAX,
            e is Sym,
        ensures
            final(self).wf(),
            final(self).scopes() == old(self).scopes(),
            final(self).issued() == old(self).issued() + binders(e@),
            (r@, final(self).issued()) == rn_expr(e@, old(self).scopes(), old(self).issued()),
        decreases e, 0nat,
    {
        match e {
            Expr::Sym { ty, name } => Expr::Sym { ty: *ty, name: self.rename(name) },
            _ => unreached(),
        }
    }

    /// Whether the allocator has an id left for each binding occurrence
    /// of the program, which is what [`Rename::trans`] asks for.
    pub fn has_room(&self, ast: &AST) -> (r: bool)
        ensures
            r == (self.issued() + binders_vals(ast@, ast@.len()) <= u64::MAX),
    {
        match count_vals(&ast.0) {
            Some(n) => n <= self.id.remaining(),
            None => false,
        }
    }

    /// Run the pass on a program.  Every binding occurrence gets the next
    /// id, every reference the id of the innermost binder that is in scope
    /// for it; the open scopes are afterwards what they were.  The pass
    /// never fails and does not look at the configuration.
    pub fn trans(&mut self, ast: AST, config: &Config) -> (r: Result<AST, TypeError>)
        requires
            old(self).wf(),
            old(self).issued() + binders_vals(ast@, ast@.len()) <= u64::MAX,
        ensures
            final(self).wf(),
            final(self).scopes() == old(self).scopes(),
            r is Ok,
            (r->Ok_0@, final(self).issued()) == rn_program(
                ast@,
                old(self).scopes(),
                old(self).issued(),
            ),
            final(self).issued() == old(self).issued() + binders_vals(ast@, ast@.len()),
    {
        self.scope();
        let out = self.traverse_ast(&ast);
        proof {
            lemma_rn_vals_outer(
                ast@,
                ast@.len(),
                old(self).scopes().push(Map::empty()),
                old(self).issued(),
            );
            assert(old(self).scopes().push(Map::empty()).drop_last() =~= old(self).scopes());
        }
        self.end_scope();
        Ok(out)
    }
}

} // verus!
