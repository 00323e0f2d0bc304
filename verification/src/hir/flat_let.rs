//! Let flattening: bindings nested in the right-hand side of a binding, in
//! the function or the argument of an application, or in the condition of a
//! conditional move out to the enclosing list of bindings.  Branches of a
//! conditional and bodies of functions keep theirs, since they are not
//! evaluated unconditionally.

use crate::ast::{PatternView, TyDefer, TypeError};
use crate::config::Config;
use crate::hir::{lemma_binds_view, vals_view, Expr, ExprView, Val, ValView, HIR};
use crate::prim::{Symbol, SymbolView};
use crate::text::{ascii_chars, padded_decimal, padded_decimal_bytes, string_from_ascii};
use vstd::prelude::*;

verus! {

/// The bindings that an expression gives up to its surroundings: those of a
/// `Binds` at its root, or of what an application or a condition gives up.
pub open spec fn lifted(e: ExprView) -> Seq<ValView>
    decreases e,
{
    match e {
        ExprView::Binds { binds, .. } => binds,
        ExprView::App { fun, arg, .. } => lifted(*fun) + lifted(*arg),
        ExprView::If { cond, .. } => lifted(*cond),
        _ => Seq::empty(),
    }
}

/// What is left of an expression once it has given up [`lifted`].
pub open spec fn residue(e: ExprView) -> ExprView
    decreases e,
{
    match e {
        ExprView::Binds { ret, .. } => *ret,
        ExprView::App { ty, fun, arg } => ExprView::App {
            ty,
            fun: Box::new(residue(*fun)),
            arg: Box::new(residue(*arg)),
        },
        ExprView::If { ty, cond, then, else_ } => ExprView::If {
            ty,
            cond: Box::new(residue(*cond)),
            then,
            else_,
        },
        _ => e,
    }
}

/// The flattened form of an expression.
pub open spec fn flat(e: ExprView) -> ExprView
    decreases e, 0nat,
{
    match e {
        ExprView::Binds { ty, binds, ret } => ExprView::Binds {
            ty,
            binds: flat_vals(binds, binds.len()) + lifted(flat(*ret)),
            ret: Box::new(residue(flat(*ret))),
        },
        ExprView::Fun { ty, param, body } => ExprView::Fun {
            ty,
            param,
            body: Box::new(flat(*body)),
        },
        ExprView::App { ty, fun, arg } => ExprView::App {
            ty,
            fun: Box::new(flat(*fun)),
            arg: Box::new(flat(*arg)),
        },
        ExprView::If { ty, cond, then, else_ } => ExprView::If {
            ty,
            cond: Box::new(flat(*cond)),
            then: Box::new(flat(*then)),
            else_: Box::new(flat(*else_)),
        },
        _ => e,
    }
}

/// The flattened form of the first `n` bindings of a list: each binding is
/// preceded by what its flattened right-hand side gives up, and keeps the
/// rest of it.
pub open spec fn flat_vals(vals: Seq<ValView>, n: nat) -> Seq<ValView>
    decreases vals, n,
{
    if n == 0 || n > vals.len() {
        Seq::empty()
    } else {
        let v = vals[n - 1];
        let e = flat(v.expr);
        flat_vals(vals, (n - 1) as nat) + lifted(e) + seq![
            ValView { ty: v.ty, rec: v.rec, pattern: v.pattern, expr: residue(e) },
        ]
    }
}

/// Split an expression into what is left of it and the bindings it gives up.
pub fn take_binds(expr: Expr) -> (r: (Expr, Vec<Val>))
    ensures
        r.0@ == residue(expr@),
        vals_view(r.1@) == lifted(expr@),
    decreases expr,
{
    match expr {
        Expr::Binds { ty, binds, ret } => {
            proof {
                lemma_binds_view(ty, binds, ret);
            }
            (*ret, binds)
        },
        Expr::App { ty, fun, arg } => {
            let (f, mut fbinds) = take_binds(*fun);
            let (a, mut abinds) = take_binds(*arg);
            let ghost front = fbinds@;
            let ghost back = abinds@;
            fbinds.append(&mut abinds);
            assert(vals_view(fbinds@) =~= vals_view(front) + vals_view(back));
            (Expr::App { ty, fun: Box::new(f), arg: Box::new(a) }, fbinds)
        },
        Expr::If { ty, cond, then, else_ } => {
            let (c, cbinds) = take_binds(*cond);
            (Expr::If { ty, cond: Box::new(c), then, else_ }, cbinds)
        },
        Expr::Fun { ty, param, body } => {
            let none: Vec<Val> = Vec::new();
            assert(vals_view(none@) =~= Seq::empty());
            (Expr::Fun { ty, param, body }, none)
        },
        Expr::PrimFun { ty, name } => {
            let none: Vec<Val> = Vec::new();
            assert(vals_view(none@) =~= Seq::empty());
            (Expr::PrimFun { ty, name }, none)
        },
        Expr::Sym { ty, name } => {
            let none: Vec<Val> = Vec::new();
            assert(vals_view(none@) =~= Seq::empty());
            (Expr::Sym { ty, name }, none)
        },
        Expr::Lit { ty, value } => {
            let none: Vec<Val> = Vec::new();
            assert(vals_view(none@) =~= Seq::empty());
            (Expr::Lit { ty, value }, none)
        },
    }
}


/// The name of the `n`-th generated symbol: `#g` and the decimal numeral of
/// `n`, with zeros in front up to six digits.
pub open spec fn gensym_name(n: nat) -> Seq<char> {
    seq!['#', 'g'] + padded_decimal(n, 6)
}

/// The flattening pass.  It keeps a counter from which it names the symbols
/// that it hands out.
pub struct FlatLet {
    id: usize,
}

impl FlatLet {
    /// How many symbols have been generated so far.
    pub closed spec fn generated(&self) -> nat {
        self.id as nat
    }

    /// A pass that has generated no symbol yet.
    pub fn new() -> (r: Self)
        ensures
            r.generated() == 0,
    {
        FlatLet { id: 0 }
    }

    /// Whether the counter has run out, so that no further symbol can be
    /// generated.
    pub fn exhausted(&self) -> (r: bool)
        ensures
            r == (self.generated() >= usize::MAX),
    {
        self.id == usize::MAX
    }

    /// A symbol that no source text can hold and that this pass has not
    /// handed out before.
    pub fn gensym(&mut self) -> (r: Symbol)
        requires
            old(self).generated() < usize::MAX,
        ensures
            r@ == (SymbolView { name: gensym_name(old(self).generated()), id: 0 }),
            final(self).generated() == old(self).generated() + 1,
    {
        let mut name: Vec<u8> = Vec::new();
        name.push(35);
        name.push(103);
        let ghost head = name@;
        let mut digits = padded_decimal_bytes(self.id as u64, 6);
        let ghost tail = digits@;
        name.append(&mut digits);
        assert(ascii_chars(name@) =~= seq!['#', 'g'] + ascii_chars(tail));
        self.id += 1;
        Symbol(string_from_ascii(name), 0)
    }

    /// Flatten a whole program: every top-level binding is preceded by the
    /// bindings that its flattened right-hand side gives up.
    pub fn flat_hir(&mut self, hir: HIR) -> (r: HIR)
        ensures
            r@ == flat_vals(hir@, hir@.len()),
            final(self).generated() == old(self).generated(),
    {
        HIR(self.flat_vals(&hir.0))
    }

    /// Run the pass on a program.  The result is the flattened program; the
    /// pass never fails and does not look at the configuration.
    pub fn trans(&mut self, hir: HIR, config: &Config) -> (r: Result<HIR, TypeError>)
        ensures
            r is Ok,
            r->Ok_0@ == flat_vals(hir@, hir@.len()),
            final(self).generated() == old(self).generated(),
    {
        Ok(self.flat_hir(hir))
    }

    /// Flatten a list of bindings.
    fn flat_vals(&self, vals: &Vec<Val>) -> (r: Vec<Val>)
        ensures
            vals_view(r@) == flat_vals(vals_view(vals@), vals@.len()),
        decreases vals,
    {
        let mut out: Vec<Val> = Vec::new();
        let mut i: usize = 0;
        assert(vals_view(out@) =~= Seq::empty());
        while i < vals.len()
            invariant
                i <= vals@.len(),
                vals_view(out@) == flat_vals(vals_view(vals@), i as nat),
            decreases vals@.len() - i,
        {
            self.flat_val(&vals[i], &mut out);
            i += 1;
        }
        out
    }

    /// Flatten one binding onto the end of `out`: first what its flattened
    /// right-hand side gives up, then the binding with the rest of it.
    fn flat_val(&self, val: &Val, out: &mut Vec<Val>)
        ensures
            vals_view(final(out)@) == vals_view(old(out)@) + lifted(flat(val@.expr)) + seq![
                ValView {
                    ty: val@.ty,
                    rec: val@.rec,
                    pattern: val@.pattern,
                    expr: residue(flat(val@.expr)),
                },
            ],
        decreases val,
    {
        let (expr, mut binds) = take_binds(self.flat_expr(&val.expr));
        let ghost given = binds@;
        out.append(&mut binds);
        out.push(Val { ty: val.ty, rec: val.rec, pattern: val.pattern.duplicate(), expr });
        assert(vals_view(out@) =~= vals_view(old(out)@) + vals_view(given) + seq![
            ValView {
                ty: val@.ty,
                rec: val@.rec,
                pattern: val@.pattern,
                expr: residue(flat(val@.expr)),
            },
        ]);
    }

    /// Flatten an expression.
    fn flat_expr(&self, expr: &Expr) -> (r: Expr)
        ensures
            r@ == flat(expr@),
        decreases expr,
    {
        match expr {
            Expr::Binds { ty, binds, ret } => {
                proof {
                    lemma_binds_view(*ty, *binds, *ret);
                }
                let mut vec = self.flat_vals(binds);
                let (body, mut given) = take_binds(self.flat_expr(ret));
                let ghost front = vec@;
                let ghost back = given@;
                vec.append(&mut given);
                assert(vals_view(vec@) =~= vals_view(front) + vals_view(back));
                proof {
                    lemma_binds_view(*ty, vec, Box::new(body));
                }
                Expr::Binds { ty: *ty, binds: vec, ret: Box::new(body) }
            },
            Expr::Fun { ty, param, body } => Expr::Fun {
                ty: *ty,
                param: param.duplicate(),
                body: Box::new(self.flat_expr(body)),
            },
            Expr::App { ty, fun, arg } => Expr::App {
                ty: *ty,
                fun: Box::new(self.flat_expr(fun)),
                arg: Box::new(self.flat_expr(arg)),
            },
            Expr::If { ty, cond, then, else_ } => Expr::If {
                ty: *ty,
                cond: Box::new(self.flat_expr(cond)),
                then: Box::new(self.flat_expr(then)),
                else_: Box::new(self.flat_expr(else_)),
            },
            Expr::PrimFun { ty, name } => Expr::PrimFun { ty: *ty, name: name.duplicate() },
            Expr::Sym { ty, name } => Expr::Sym { ty: *ty, name: name.duplicate() },
            Expr::Lit { ty, value } => Expr::Lit { ty: *ty, value: value.duplicate() },
        }
    }
}


/// Whether an expression has nothing to give up: it is no `Binds`, and
/// neither is what an application or a condition at its root evaluates
/// unconditionally.
pub open spec fn is_bare(e: ExprView) -> bool
    decreases e,
{
    match e {
        ExprView::Binds { .. } => false,
        ExprView::App { fun, arg, .. } => is_bare(*fun) && is_bare(*arg),
        ExprView::If { cond, .. } => is_bare(*cond),
        _ => true,
    }
}

/// Whether every binding of the list has a right-hand side that is bare and
/// flat.
pub open spec fn all_settled(vals: Seq<ValView>) -> bool {
    forall|i: int|
        0 <= i < vals.len() ==> is_bare((#[trigger] vals[i]).expr) && is_flat(vals[i].expr)
}

/// Whether an expression is in flattened form: wherever a `Binds` stands in
/// it, the right-hand side of each of its bindings and its body are bare.
pub open spec fn is_flat(e: ExprView) -> bool
    decreases e,
{
    match e {
        ExprView::Binds { binds, ret, .. } => {
            &&& forall|i: int|
                0 <= i < binds.len() ==> is_bare((#[trigger] binds[i]).expr) && is_flat(
                    binds[i].expr,
                )
            &&& is_bare(*ret)
            &&& is_flat(*ret)
        },
        ExprView::Fun { body, .. } => is_flat(*body),
        ExprView::App { fun, arg, .. } => is_flat(*fun) && is_flat(*arg),
        ExprView::If { cond, then, else_, .. } => is_flat(*cond) && is_flat(*then) && is_flat(
            *else_,
        ),
        _ => true,
    }
}

/// What identifies a binding apart from its right-hand side.
pub open spec fn head(v: ValView) -> (TyDefer, bool, PatternView) {
    (v.ty, v.rec, v.pattern)
}

/// The heads of a list of bindings, in order.
pub open spec fn heads(vals: Seq<ValView>) -> Seq<(TyDefer, bool, PatternView)> {
    Seq::new(vals.len(), |i: int| head(vals[i]))
}

/// The bindings that evaluating an expression makes unconditionally, in the
/// order in which it makes them: those on the way through bindings,
/// applications and conditions, not those inside a branch or a function body.
pub open spec fn evaluated(e: ExprView) -> Seq<(TyDefer, bool, PatternView)>
    decreases e, 0nat,
{
    match e {
        ExprView::Binds { binds, ret, .. } => evaluated_vals(binds, binds.len()) + evaluated(*ret),
        ExprView::App { fun, arg, .. } => evaluated(*fun) + evaluated(*arg),
        ExprView::If { cond, .. } => evaluated(*cond),
        _ => Seq::empty(),
    }
}

/// The bindings that evaluating the first `n` bindings of a list makes: for
/// each, those of its right-hand side and then the binding itself.
pub open spec fn evaluated_vals(vals: Seq<ValView>, n: nat) -> Seq<(TyDefer, bool, PatternView)>
    decreases vals, n,
{
    if n == 0 || n > vals.len() {
        Seq::empty()
    } else {
        evaluated_vals(vals, (n - 1) as nat) + evaluated(vals[n - 1].expr) + seq![
            head(vals[n - 1]),
        ]
    }
}

proof fn lemma_flat_shape(e: ExprView)
    ensures
        is_flat(flat(e)),
        is_bare(residue(flat(e))),
        is_flat(residue(flat(e))),
        all_settled(lifted(flat(e))),
    decreases e, 0nat,
{
    match e {
        ExprView::Binds { ty, binds, ret } => {
            lemma_flat_vals_shape(binds, binds.len());
            lemma_flat_shape(*ret);
        },
        ExprView::Fun { body, .. } => {
            lemma_flat_shape(*body);
        },
        ExprView::App { fun, arg, .. } => {
            lemma_flat_shape(*fun);
            lemma_flat_shape(*arg);
        },
        ExprView::If { cond, then, else_, .. } => {
            lemma_flat_shape(*cond);
            lemma_flat_shape(*then);
            lemma_flat_shape(*else_);
        },
        _ => {},
    }
}

proof fn lemma_flat_vals_shape(vals: Seq<ValView>, n: nat)
    ensures
        all_settled(flat_vals(vals, n)),
    decreases vals, n,
{
    if n == 0 || n > vals.len() {
    } else {
        lemma_flat_vals_shape(vals, (n - 1) as nat);
        lemma_flat_shape(vals[n - 1].expr);
    }
}

/// Shape of the result: a flattened expression is in flattened form.  No
/// `Binds` is left at the root of a right-hand side or of a body of a
/// `Binds`, nor under applications and conditions there.
pub proof fn flattened_is_flat(e: ExprView)
    ensures
        is_flat(flat(e)),
{
    lemma_flat_shape(e);
}

/// Shape of a flattened program: every binding of the resulting list, the
/// hoisted ones included, has a right-hand side that is bare and flat.
pub proof fn flattened_program_is_settled(vals: Seq<ValView>)
    ensures
        all_settled(flat_vals(vals, vals.len())),
{
    lemma_flat_vals_shape(vals, vals.len());
}

proof fn lemma_bare_evaluates_nothing(e: ExprView)
    requires
        is_bare(e),
    ensures
        evaluated(e) == Seq::<(TyDefer, bool, PatternView)>::empty(),
    decreases e,
{
    match e {
        ExprView::App { fun, arg, .. } => {
            lemma_bare_evaluates_nothing(*fun);
            lemma_bare_evaluates_nothing(*arg);
            assert(evaluated(e) =~= Seq::empty());
        },
        ExprView::If { cond, .. } => {
            lemma_bare_evaluates_nothing(*cond);
        },
        _ => {},
    }
}

proof fn lemma_settled_evaluated(vals: Seq<ValView>, n: nat)
    requires
        all_settled(vals),
        n <= vals.len(),
    ensures
        evaluated_vals(vals, n) == heads(vals).take(n as int),
    decreases n,
{
    if n == 0 {
        assert(heads(vals).take(0) =~= Seq::empty());
    } else {
        lemma_settled_evaluated(vals, (n - 1) as nat);
        lemma_bare_evaluates_nothing(vals[n - 1].expr);
        assert(evaluated_vals(vals, n) =~= heads(vals).take(n as int));
    }
}

proof fn lemma_flat_order(e: ExprView)
    ensures
        heads(lifted(flat(e))) == evaluated(e),
        evaluated(flat(e)) == evaluated(e),
    decreases e, 0nat,
{
    lemma_flat_shape(e);
    match e {
        ExprView::Binds { ty, binds, ret } => {
            lemma_flat_vals_order(binds, binds.len());
            lemma_flat_order(*ret);
            let given = flat_vals(binds, binds.len()) + lifted(flat(*ret));
            assert(heads(given) =~= heads(flat_vals(binds, binds.len())) + heads(
                lifted(flat(*ret)),
            ));
            lemma_settled_evaluated(given, given.len());
            assert(heads(given).take(given.len() as int) =~= heads(given));
            lemma_bare_evaluates_nothing(residue(flat(*ret)));
            assert(evaluated(flat(e)) =~= heads(given));
        },
        ExprView::App { fun, arg, .. } => {
            lemma_flat_order(*fun);
            lemma_flat_order(*arg);
            assert(heads(lifted(flat(e))) =~= heads(lifted(flat(*fun))) + heads(
                lifted(flat(*arg)),
            ));
        },
        ExprView::If { cond, .. } => {
            lemma_flat_order(*cond);
        },
        _ => {
            assert(heads(lifted(flat(e))) =~= Seq::empty());
        },
    }
}

proof fn lemma_flat_vals_order(vals: Seq<ValView>, n: nat)
    requires
        n <= vals.len(),
    ensures
        heads(flat_vals(vals, n)) == evaluated_vals(vals, n),
    decreases vals, n,
{
    if n == 0 {
        assert(heads(flat_vals(vals, n)) =~= Seq::empty());
    } else {
        lemma_flat_vals_order(vals, (n - 1) as nat);
        lemma_flat_order(vals[n - 1].expr);
        let v = vals[n - 1];
        let e = flat(v.expr);
        let last = ValView { ty: v.ty, rec: v.rec, pattern: v.pattern, expr: residue(e) };
        assert(heads(flat_vals(vals, n)) =~= heads(flat_vals(vals, (n - 1) as nat)) + heads(
            lifted(e),
        ) + seq![head(last)]);
    }
}

/// Order of evaluation: flattening an expression changes neither which
/// bindings its evaluation makes unconditionally nor their order, and the
/// bindings that the flattened expression gives up are exactly these.
pub proof fn flat_keeps_order(e: ExprView)
    ensures
        evaluated(flat(e)) == evaluated(e),
        heads(lifted(flat(e))) == evaluated(e),
{
    lemma_flat_order(e);
}

/// Order of evaluation of a program: the flattened list binds, one binding
/// after the other, what evaluating the given list binds, in the same order.
pub proof fn flat_program_keeps_order(vals: Seq<ValView>)
    ensures
        heads(flat_vals(vals, vals.len())) == evaluated_vals(vals, vals.len()),
        evaluated_vals(flat_vals(vals, vals.len()), flat_vals(vals, vals.len()).len())
            == evaluated_vals(vals, vals.len()),
{
    let out = flat_vals(vals, vals.len());
    lemma_flat_vals_order(vals, vals.len());
    lemma_flat_vals_shape(vals, vals.len());
    lemma_settled_evaluated(out, out.len());
    assert(heads(out).take(out.len() as int) =~= heads(out));
}

} // verus!
