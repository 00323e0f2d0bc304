//! The desugared intermediate form that the later passes work on.

pub mod flat_let;

use crate::ast::{Pattern, PatternView, TyDefer};
use crate::prim::{Literal, LiteralView, Symbol, SymbolView};
use vstd::prelude::*;

verus! {

/// One binding of the intermediate form.
#[derive(Debug, PartialEq, Eq)]
pub struct Val {
    pub ty: TyDefer,
    pub rec: bool,
    pub pattern: Pattern,
    pub expr: Expr,
}

/// An expression of the intermediate form.
#[derive(Debug, PartialEq, Eq)]
pub enum Expr {
    Binds { ty: TyDefer, binds: Vec<Val>, ret: Box<Expr> },
    Fun { ty: TyDefer, param: Symbol, body: Box<Expr> },
    App { ty: TyDefer, fun: Box<Expr>, arg: Box<Expr> },
    If { ty: TyDefer, cond: Box<Expr>, then: Box<Expr>, else_: Box<Expr> },
    PrimFun { ty: TyDefer, name: Symbol },
    Sym { ty: TyDefer, name: Symbol },
    Lit { ty: TyDefer, value: Literal },
}

/// A whole program of the intermediate form: its top-level bindings in order.
#[derive(Debug, PartialEq, Eq)]
pub struct HIR(pub Vec<Val>);

/// Mathematical value of a [`Val`].
pub struct ValView {
    pub ty: TyDefer,
    pub rec: bool,
    pub pattern: PatternView,
    pub expr: ExprView,
}

/// Mathematical value of an [`Expr`].
pub enum ExprView {
    Binds { ty: TyDefer, binds: Seq<ValView>, ret: Box<ExprView> },
    Fun { ty: TyDefer, param: SymbolView, body: Box<ExprView> },
    App { ty: TyDefer, fun: Box<ExprView>, arg: Box<ExprView> },
    If { ty: TyDefer, cond: Box<ExprView>, then: Box<ExprView>, else_: Box<ExprView> },
    PrimFun { ty: TyDefer, name: SymbolView },
    Sym { ty: TyDefer, name: SymbolView },
    Lit { ty: TyDefer, value: LiteralView },
}

/// Mathematical value of an expression.
pub open spec fn expr_view(e: Expr) -> ExprView
    decreases e,
{
    match e {
        Expr::Binds { ty, binds, ret } => ExprView::Binds {
            ty,
            binds: Seq::new(
                binds@.len(),
                |i: int|
                    if 0 <= i < binds@.len() {
                        val_view(binds@[i])
                    } else {
                        arbitrary()
                    },
            ),
            ret: Box::new(expr_view(*ret)),
        },
        Expr::Fun { ty, param, body } => ExprView::Fun {
            ty,
            param: param@,
            body: Box::new(expr_view(*body)),
        },
        Expr::App { ty, fun, arg } => ExprView::App {
            ty,
            fun: Box::new(expr_view(*fun)),
            arg: Box::new(expr_view(*arg)),
        },
        Expr::If { ty, cond, then, else_ } => ExprView::If {
            ty,
            cond: Box::new(expr_view(*cond)),
            then: Box::new(expr_view(*then)),
            else_: Box::new(expr_view(*else_)),
        },
        Expr::PrimFun { ty, name } => ExprView::PrimFun { ty, name: name@ },
        Expr::Sym { ty, name } => ExprView::Sym { ty, name: name@ },
        Expr::Lit { ty, value } => ExprView::Lit { ty, value: value@ },
    }
}

/// Mathematical value of a binding.
pub open spec fn val_view(v: Val) -> ValView
    decreases v,
{
    ValView { ty: v.ty, rec: v.rec, pattern: v.pattern@, expr: expr_view(v.expr) }
}

impl View for Expr {
    type V = ExprView;

    open spec fn view(&self) -> ExprView {
        expr_view(*self)
    }
}

impl View for Val {
    type V = ValView;

    open spec fn view(&self) -> ValView {
        val_view(*self)
    }
}

/// Views of a list of bindings, in order.
pub open spec fn vals_view(vals: Seq<Val>) -> Seq<ValView> {
    Seq::new(vals.len(), |i: int| vals[i]@)
}

impl View for HIR {
    type V = Seq<ValView>;

    open spec fn view(&self) -> Seq<ValView> {
        vals_view(self.0@)
    }
}

/// The view of a `Binds` node lists the views of its bindings.
pub proof fn lemma_binds_view(ty: TyDefer, binds: Vec<Val>, ret: Box<Expr>)
    ensures
        (Expr::Binds { ty, binds, ret })@ == (ExprView::Binds {
            ty,
            binds: vals_view(binds@),
            ret: Box::new(ret@),
        }),
{
    let e = Expr::Binds { ty, binds, ret };
    assert(e@->Binds_binds =~= vals_view(binds@));
}

} // verus!
