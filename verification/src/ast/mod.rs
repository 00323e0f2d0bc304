//! The syntax tree that the parser produces and the renaming pass rewrites,
//! together with the deferred type slots that every node refers to.



pub mod again;
pub mod binders;
pub mod lexical;
pub mod rename;

use crate::prim::{Literal, LiteralView, Symbol, SymbolView};
use vstd::prelude::*;

verus! {

/// Handle of a deferred type slot: an index into a [`TySlots`] table.  Nodes
/// that hold the same handle share one slot, so whatever is stored through
/// one of them is seen through all.
#[derive(Debug, Clone, Copy, PartialEq, Eq, Structural)]
pub struct TyDefer(pub usize);

/// A type of the source language.  The components of a function or tuple
/// type are slots of their own, so they too can be filled in later.
#[derive(Debug, Clone, PartialEq, Eq)]
pub enum Type {
    Bool,
    Int,
    Float,
    Fun(TyDefer, TyDefer),
    Tuple(Vec<TyDefer>),
}

/// Mathematical value of a [`Type`].
pub enum TypeView {
    Bool,
    Int,
    Float,
    Fun(TyDefer, TyDefer),
    Tuple(Seq<TyDefer>),
}

impl View for Type {
    type V = TypeView;

    open spec fn view(&self) -> TypeView {
        match self {
            Type::Bool => TypeView::Bool,
            Type::Int => TypeView::Int,
            Type::Float => TypeView::Float,
            Type::Fun(param, ret) => TypeView::Fun(*param, *ret),
            Type::Tuple(elems) => TypeView::Tuple(elems@),
        }
    }
}

/// Mathematical value of the content of one slot.
pub open spec fn content_view(content: Option<Type>) -> Option<TypeView> {
    match content {
        Some(t) => Some(t@),
        None => None,
    }
}

/// The table of deferred type slots.  A slot is created empty or filled, is
/// never removed, and is addressed by the [`TyDefer`] handed out at creation.
#[derive(Debug, Clone, PartialEq, Eq)]
pub struct TySlots {
    pub slots: Vec<Option<Type>>,
}

impl View for TySlots {
    type V = Seq<Option<TypeView>>;

    open spec fn view(&self) -> Seq<Option<TypeView>> {
        Seq::new(self.slots@.len(), |i: int| content_view(self.slots@[i]))
    }
}

/// A pattern on the left of a binding or of a case clause.
#[derive(Debug, Clone, PartialEq, Eq)]
pub enum Pattern {
    Lit { value: Literal, ty: TyDefer },
    Tuple { tuple: Vec<(TyDefer, Symbol)> },
    Var { name: Symbol, ty: TyDefer },
    Wildcard { ty: TyDefer },
}

/// Mathematical value of a [`Pattern`].
pub enum PatternView {
    Lit { value: LiteralView, ty: TyDefer },
    Tuple { tuple: Seq<(TyDefer, SymbolView)> },
    Var { name: SymbolView, ty: TyDefer },
    Wildcard { ty: TyDefer },
}

/// Views of the components of a tuple pattern, in order.
pub open spec fn tuple_view(tuple: Seq<(TyDefer, Symbol)>) -> Seq<(TyDefer, SymbolView)> {
    Seq::new(tuple.len(), |i: int| (tuple[i].0, tuple[i].1@))
}

impl View for Pattern {
    type V = PatternView;

    open spec fn view(&self) -> PatternView {
        match self {
            Pattern::Lit { value, ty } => PatternView::Lit { value: value@, ty: *ty },
            Pattern::Tuple { tuple } => PatternView::Tuple { tuple: tuple_view(tuple@) },
            Pattern::Var { name, ty } => PatternView::Var { name: name@, ty: *ty },
            Pattern::Wildcard { ty } => PatternView::Wildcard { ty: *ty },
        }
    }
}

/// One binding: `rec` tells whether the names bound by `pattern` are in
/// scope inside `expr` itself.
#[derive(Debug, PartialEq, Eq)]
pub struct Val {
    pub ty: TyDefer,
    pub rec: bool,
    pub pattern: Pattern,
    pub expr: Expr,
}

/// An expression of the source language.
#[derive(Debug, PartialEq, Eq)]
pub enum Expr {
    Binds { ty: TyDefer, binds: Vec<Val>, ret: Box<Expr> },
    BinOp { op: Symbol, ty: TyDefer, l: Box<Expr>, r: Box<Expr> },
    Fun { param_ty: TyDefer, param: Symbol, body_ty: TyDefer, body: Box<Expr> },
    App { ty: TyDefer, fun: Box<Expr>, arg: Box<Expr> },
    If { ty: TyDefer, cond: Box<Expr>, then: Box<Expr>, else_: Box<Expr> },
    Case { ty: TyDefer, cond: Box<Expr>, clauses: Vec<(Pattern, Expr)> },
    Tuple { ty: TyDefer, tuple: Vec<Expr> },
    Sym { ty: TyDefer, name: Symbol },
    Lit { ty: TyDefer, value: Literal },
}

/// A whole program: its top-level bindings in document order.
#[derive(Debug, PartialEq, Eq)]
pub struct AST(pub Vec<Val>);

/// Mathematical value of a [`Val`].
pub struct ValView {
    pub ty: TyDefer,
    pub rec: bool,
    pub pattern: PatternView,
    pub expr: ExprView,
}

/// Mathematical value of an [`Expr`].
pub enum ExprView {
    Binds { ty: TyDefer, binds: Seq<ValView>, ret: Box<ExprView> },
    BinOp { op: SymbolView, ty: TyDefer, l: Box<ExprView>, r: Box<ExprView> },
    Fun { param_ty: TyDefer, param: SymbolView, body_ty: TyDefer, body: Box<ExprView> },
    App { ty: TyDefer, fun: Box<ExprView>, arg: Box<ExprView> },
    If { ty: TyDefer, cond: Box<ExprView>, then: Box<ExprView>, else_: Box<ExprView> },
    Case { ty: TyDefer, cond: Box<ExprView>, clauses: Seq<(PatternView, ExprView)> },
    Tuple { ty: TyDefer, tuple: Seq<ExprView> },
    Sym { ty: TyDefer, name: SymbolView },
    Lit { ty: TyDefer, value: LiteralView },
}

/// Mathematical value of an expression.
pub open spec fn expr_view(e: Expr) -> ExprView
    decreases e,
{
    match e {
        Expr::Binds { ty, binds, ret } => ExprView::Binds {
            ty,
            binds: Seq::new(
                binds@.len(),
                |i: int|
                    if 0 <= i < binds@.len() {
                        val_view(binds@[i])
                    } else {
                        arbitrary()
                    },
            ),
            ret: Box::new(expr_view(*ret)),
        },
        Expr::BinOp { op, ty, l, r } => ExprView::BinOp {
            op: op@,
            ty,
            l: Box::new(expr_view(*l)),
            r: Box::new(expr_view(*r)),
        },
        Expr::Fun { param_ty, param, body_ty, body } => ExprView::Fun {
            param_ty,
            param: param@,
            body_ty,
            body: Box::new(expr_view(*body)),
        },
        Expr::App { ty, fun, arg } => ExprView::App {
            ty,
            fun: Box::new(expr_view(*fun)),
            arg: Box::new(expr_view(*arg)),
        },
        Expr::If { ty, cond, then, else_ } => ExprView::If {
            ty,
            cond: Box::new(expr_view(*cond)),
            then: Box::new(expr_view(*then)),
            else_: Box::new(expr_view(*else_)),
        },
        Expr::Case { ty, cond, clauses } => ExprView::Case {
            ty,
            cond: Box::new(expr_view(*cond)),
            clauses: Seq::new(
                clauses@.len(),
                |i: int|
                    if 0 <= i < clauses@.len() {
                        (clauses@[i].0@, expr_view(clauses@[i].1))
                    } else {
                        arbitrary()
                    },
            ),
        },
        Expr::Tuple { ty, tuple } => ExprView::Tuple {
            ty,
            tuple: Seq::new(
                tuple@.len(),
                |i: int|
                    if 0 <= i < tuple@.len() {
                        expr_view(tuple@[i])
                    } else {
                        arbitrary()
                    },
            ),
        },
        Expr::Sym { ty, name } => ExprView::Sym { ty, name: name@ },
        Expr::Lit { ty, value } => ExprView::Lit { ty, value: value@ },
    }
}

/// Mathematical value of a binding.
pub open spec fn val_view(v: Val) -> ValView
    decreases v,
{
    ValView { ty: v.ty, rec: v.rec, pattern: v.pattern@, expr: expr_view(v.expr) }
}

impl View for Expr {
    type V = ExprView;

    open spec fn view(&self) -> ExprView {
        expr_view(*self)
    }
}

impl View for Val {
    type V = ValView;

    open spec fn view(&self) -> ValView {
        val_view(*self)
    }
}

/// Views of a list of bindings, in order.
pub open spec fn vals_view(vals: Seq<Val>) -> Seq<ValView> {
    Seq::new(vals.len(), |i: int| vals[i]@)
}

/// Views of a list of expressions, in order.
pub open spec fn exprs_view(exprs: Seq<Expr>) -> Seq<ExprView> {
    Seq::new(exprs.len(), |i: int| exprs[i]@)
}

/// Views of a list of case clauses, in order.
pub open spec fn clauses_view(clauses: Seq<(Pattern, Expr)>) -> Seq<(PatternView, ExprView)> {
    Seq::new(clauses.len(), |i: int| (clauses[i].0@, clauses[i].1@))
}

impl View for AST {
    type V = Seq<ValView>;

    open spec fn view(&self) -> Seq<ValView> {
        vals_view(self.0@)
    }
}


impl Type {
    /// The type of functions from `param` to `ret`, each stored in a new
    /// slot of its own at the end of the table.
    pub fn fun(slots: &mut TySlots, param: Type, ret: Type) -> (r: Type)
        ensures
            r@ == TypeView::Fun(
                TyDefer(old(slots)@.len() as usize),
                TyDefer((old(slots)@.len() + 1) as usize),
            ),
            final(slots)@ == old(slots)@.push(Some(param@)).push(Some(ret@)),
    {
        let param_ty = TyDefer::new(slots, Some(param));
        let ret_ty = TyDefer::new(slots, Some(ret));
        Type::Fun(param_ty, ret_ty)
    }

    /// The unit type: the tuple of no components.
    pub fn unit() -> (r: Type)
        ensures
            r@ == TypeView::Tuple(Seq::empty()),
    {
        Type::Tuple(Vec::new())
    }

    /// An independent copy of the type; the copy refers to the same slots.
    pub fn duplicate(&self) -> (r: Type)
        ensures
            r@ == self@,
    {
        match self {
            Type::Bool => Type::Bool,
            Type::Int => Type::Int,
            Type::Float => Type::Float,
            Type::Fun(param, ret) => Type::Fun(*param, *ret),
            Type::Tuple(elems) => {
                let mut copy: Vec<TyDefer> = Vec::new();
                let mut i: usize = 0;
                while i < elems.len()
                    invariant
                        i <= elems@.len(),
                        copy@ == elems@.take(i as int),
                    decreases elems@.len() - i,
                {
                    copy.push(elems[i]);
                    assert(elems@.take(i + 1) == elems@.take(i as int).push(elems@[i as int]));
                    i += 1;
                }
                assert(elems@.take(elems@.len() as int) == elems@);
                Type::Tuple(copy)
            },
        }
    }
}

impl TySlots {
    /// A table without any slot.
    pub fn new() -> (r: TySlots)
        ensures
            r@ == Seq::<Option<TypeView>>::empty(),
    {
        let r = TySlots { slots: Vec::new() };
        assert(r@ =~= Seq::<Option<TypeView>>::empty());
        r
    }

    /// Number of slots created so far.
    pub fn len(&self) -> (n: usize)
        ensures
            n == self@.len(),
    {
        self.slots.len()
    }

    /// Whether `ty` addresses a slot of this table.
    pub open spec fn has(&self, ty: TyDefer) -> bool {
        ty.0 < self@.len()
    }

    /// Drop every slot from index `len` on; a table that is no longer than
    /// `len` is left as it is.
    pub fn truncate(&mut self, len: usize)
        ensures
            final(self)@ == if len <= old(self)@.len() {
                old(self)@.take(len as int)
            } else {
                old(self)@
            },
    {
        self.slots.truncate(len);
        assert(self@ =~= if len <= old(self)@.len() {
            old(self)@.take(len as int)
        } else {
            old(self)@
        });
    }
}

impl TyDefer {
    /// Exclusive access to the content of the slot, to read or replace it.
    /// What is stored through the returned reference is what every holder of
    /// this handle reads afterwards.
    pub fn get_mut<'a>(&mut self, slots: &'a mut TySlots) -> (r: &'a mut Option<Type>)
        requires
            old(slots).has(*old(self)),
        ensures
            *final(self) == *old(self),
            content_view(*r) == old(slots)@[old(self).0 as int],
            final(slots)@ == old(slots)@.update(old(self).0 as int, content_view(*final(r))),
    {
        &mut slots.slots[self.0]
    }

    /// Shared access to the content of the slot.
    pub fn get<'a>(&self, slots: &'a TySlots) -> (r: &'a Option<Type>)
        requires
            slots.has(*self),
        ensures
            content_view(*r) == slots@[self.0 as int],
    {
        &slots.slots[self.0]
    }

    /// A new slot holding `t`, appended to the table.
    pub fn new(slots: &mut TySlots, t: Option<Type>) -> (r: TyDefer)
        ensures
            r.0 == old(slots)@.len(),
            final(slots)@ == old(slots)@.push(content_view(t)),
    {
        let r = TyDefer(slots.slots.len());
        slots.slots.push(t);
        assert(slots@ =~= old(slots)@.push(content_view(t)));
        r
    }

    /// A new empty slot, appended to the table.
    pub fn empty(slots: &mut TySlots) -> (r: TyDefer)
        ensures
            r.0 == old(slots)@.len(),
            final(slots)@ == old(slots)@.push(None),
    {
        Self::new(slots, None)
    }

    /// A copy of the type stored in the slot; `None` while the slot is empty
    /// or when the handle addresses no slot of this table.
    pub fn defined(&self, slots: &TySlots) -> (r: Option<Type>)
        ensures
            content_view(r) == if slots.has(*self) {
                slots@[self.0 as int]
            } else {
                None
            },
    {
        if self.0 < slots.slots.len() {
            match &slots.slots[self.0] {
                Some(t) => Some(t.duplicate()),
                None => None,
            }
        } else {
            None
        }
    }

    /// A copy of the type stored in the slot, which must have been filled.
    /// `message` says what the caller relied on.
    pub fn force(self, slots: &TySlots, message: &str) -> (r: Type)
        requires
            slots.has(self),
            slots@[self.0 as int] is Some,
        ensures
            Some(r@) == slots@[self.0 as int],
    {
        match &slots.slots[self.0] {
            Some(t) => t.duplicate(),
            None => unreached(),
        }
    }
}


impl ExprView {
    /// The slot that stands for the type of the node itself; a function node
    /// has none, only the slots of its parameter and of its body.
    pub open spec fn own_slot(self) -> Option<TyDefer> {
        match self {
            ExprView::Binds { ty, .. } => Some(ty),
            ExprView::BinOp { ty, .. } => Some(ty),
            ExprView::Fun { .. } => None,
            ExprView::App { ty, .. } => Some(ty),
            ExprView::If { ty, .. } => Some(ty),
            ExprView::Case { ty, .. } => Some(ty),
            ExprView::Tuple { ty, .. } => Some(ty),
            ExprView::Sym { ty, .. } => Some(ty),
            ExprView::Lit { ty, .. } => Some(ty),
        }
    }
}

impl PatternView {
    /// The slot that stands for the type of the pattern itself; a tuple
    /// pattern has none, only the slots of its components.
    pub open spec fn own_slot(self) -> Option<TyDefer> {
        match self {
            PatternView::Lit { ty, .. } => Some(ty),
            PatternView::Tuple { .. } => None,
            PatternView::Var { ty, .. } => Some(ty),
            PatternView::Wildcard { ty } => Some(ty),
        }
    }

    /// The names that the pattern binds, each with the slot of its type, in
    /// the order in which the pattern lists them.
    pub open spec fn binds(self) -> Seq<(SymbolView, TyDefer)> {
        match self {
            PatternView::Lit { .. } => Seq::empty(),
            PatternView::Wildcard { .. } => Seq::empty(),
            PatternView::Var { name, ty } => seq![(name, ty)],
            PatternView::Tuple { tuple } => Seq::new(tuple.len(), |i: int| (tuple[i].1, tuple[i].0)),
        }
    }
}

impl Expr {
    /// The slot of the expression's type.  For a function node this is a new
    /// slot, appended to the table and filled with the function type built
    /// from the node's parameter and body slots; for any other node it is
    /// the node's own slot and the table stays as it was.
    pub fn ty_defer(&self, slots: &mut TySlots) -> (r: TyDefer)
        ensures
            match self@ {
                ExprView::Fun { param_ty, body_ty, .. } => {
                    &&& r.0 == old(slots)@.len()
                    &&& final(slots)@ == old(slots)@.push(Some(TypeView::Fun(param_ty, body_ty)))
                },
                _ => Some(r) == self@.own_slot() && final(slots)@ == old(slots)@,
            },
    {
        match self {
            Expr::Binds { ty, .. } => *ty,
            Expr::BinOp { ty, .. } => *ty,
            Expr::App { ty, .. } => *ty,
            Expr::If { ty, .. } => *ty,
            Expr::Case { ty, .. } => *ty,
            Expr::Tuple { ty, .. } => *ty,
            Expr::Sym { ty, .. } => *ty,
            Expr::Lit { ty, .. } => *ty,
            Expr::Fun { param_ty, body_ty, .. } => TyDefer::new(
                slots,
                Some(Type::Fun(*param_ty, *body_ty)),
            ),
        }
    }
}

impl Pattern {
    /// The slot of the pattern's type.  For a tuple pattern this is a new
    /// slot, appended to the table and filled with the tuple type over the
    /// component slots; for any other pattern it is the pattern's own slot
    /// and the table stays as it was.
    pub fn ty_defer(&self, slots: &mut TySlots) -> (r: TyDefer)
        ensures
            match self@ {
                PatternView::Tuple { tuple } => {
                    &&& r.0 == old(slots)@.len()
                    &&& final(slots)@ == old(slots)@.push(
                        Some(TypeView::Tuple(Seq::new(tuple.len(), |i: int| tuple[i].0))),
                    )
                },
                _ => Some(r) == self@.own_slot() && final(slots)@ == old(slots)@,
            },
    {
        match self {
            Pattern::Lit { ty, .. } => *ty,
            Pattern::Var { ty, .. } => *ty,
            Pattern::Wildcard { ty } => *ty,
            Pattern::Tuple { tuple } => {
                let mut tys: Vec<TyDefer> = Vec::new();
                let mut i: usize = 0;
                while i < tuple.len()
                    invariant
                        i <= tuple@.len(),
                        tys@ == Seq::new(i as nat, |k: int| tuple@[k].0),
                    decreases tuple@.len() - i,
                {
                    tys.push(tuple[i].0);
                    assert(tys@ =~= Seq::new((i + 1) as nat, |k: int| tuple@[k].0));
                    i += 1;
                }
                assert(tys@ =~= Seq::new(tuple_view(tuple@).len(), |k: int| tuple_view(tuple@)[k].0));
                TyDefer::new(slots, Some(Type::Tuple(tys)))
            },
        }
    }

    /// The names that the pattern binds, each with the slot of its type, in
    /// the order in which the pattern lists them.
    pub fn binds(&self) -> (r: Vec<(&Symbol, &TyDefer)>)
        ensures
            r@.len() == self@.binds().len(),
            forall|i: int|
                0 <= i < r@.len() ==> (#[trigger] r@[i].0@, *r@[i].1) == self@.binds()[i],
    {
        match self {
            Pattern::Lit { .. } => Vec::new(),
            Pattern::Wildcard { .. } => Vec::new(),
            Pattern::Var { name, ty } => {
                let mut out: Vec<(&Symbol, &TyDefer)> = Vec::new();
                out.push((name, ty));
                out
            },
            Pattern::Tuple { tuple } => {
                let mut out: Vec<(&Symbol, &TyDefer)> = Vec::new();
                let mut i: usize = 0;
                while i < tuple.len()
                    invariant
                        i <= tuple@.len(),
                        out@.len() == i,
                        forall|k: int|
                            0 <= k < i ==> (#[trigger] out@[k].0@, *out@[k].1) == (
                                tuple@[k].1@,
                                tuple@[k].0,
                            ),
                    decreases tuple@.len() - i,
                {
                    out.push((&tuple[i].1, &tuple[i].0));
                    i += 1;
                }
                out
            },
        }
    }

    /// An independent copy of the pattern.
    pub fn duplicate(&self) -> (r: Pattern)
        ensures
            r@ == self@,
    {
        match self {
            Pattern::Lit { value, ty } => Pattern::Lit { value: value.duplicate(), ty: *ty },
            Pattern::Var { name, ty } => Pattern::Var { name: name.duplicate(), ty: *ty },
            Pattern::Wildcard { ty } => Pattern::Wildcard { ty: *ty },
            Pattern::Tuple { tuple } => {
                let mut copy: Vec<(TyDefer, Symbol)> = Vec::new();
                let mut i: usize = 0;
                while i < tuple.len()
                    invariant
                        i <= tuple@.len(),
                        copy@ == tuple@.take(i as int),
                    decreases tuple@.len() - i,
                {
                    copy.push((tuple[i].0, tuple[i].1.duplicate()));
                    assert(tuple@.take(i + 1) == tuple@.take(i as int).push(tuple@[i as int]));
                    i += 1;
                }
                assert(tuple@.take(tuple@.len() as int) == tuple@);
                Pattern::Tuple { tuple: copy }
            },
        }
    }
}

/// What can go wrong in the front end and in the passes after it.
#[derive(Debug, PartialEq, Eq)]
pub enum TypeError {
    /// A type other than the expected one was found.
    MisMatch { expected: Type, actual: Type },
    /// A slot stayed empty where a type was needed.
    CannotInfer,
    /// A symbol that no binder claims and that names no built-in.
    FreeVar,
    /// The head of an application is no function.
    NotFunction(Expr),
    /// The source does not follow the grammar; the offset is that of the
    /// first byte that no binding can begin at or go on through.
    ParseError(usize),
}

impl TypeError {
    /// A short fixed description of the kind of error.
    pub fn description(&self) -> (r: &'static str)
        ensures
            r@ == match self {
                TypeError::MisMatch { .. } => "type mismatches against expected type"@,
                TypeError::CannotInfer => "cannot infer the type"@,
                TypeError::FreeVar => "free variable is found"@,
                TypeError::NotFunction(_) => "not a function"@,
                TypeError::ParseError(_) => "parse error"@,
            },
    {
        match self {
            TypeError::MisMatch { .. } => "type mismatches against expected type",
            TypeError::CannotInfer => "cannot infer the type",
            TypeError::FreeVar => "free variable is found",
            TypeError::NotFunction(_) => "not a function",
            TypeError::ParseError(_) => "parse error",
        }
    }
}


/// The view of a `Binds` node lists the views of its bindings.
pub proof fn lemma_binds_view(ty: TyDefer, binds: Vec<Val>, ret: Box<Expr>)
    ensures
        (Expr::Binds { ty, binds, ret })@ == (ExprView::Binds {
            ty,
            binds: vals_view(binds@),
            ret: Box::new(ret@),
        }),
{
    let e = Expr::Binds { ty, binds, ret };
    assert(e@->Binds_binds =~= vals_view(binds@));
}

/// The view of a `Case` node lists the views of its clauses.
pub proof fn lemma_case_view(ty: TyDefer, cond: Box<Expr>, clauses: Vec<(Pattern, Expr)>)
    ensures
        (Expr::Case { ty, cond, clauses })@ == (ExprView::Case {
            ty,
            cond: Box::new(cond@),
            clauses: clauses_view(clauses@),
        }),
{
    let e = Expr::Case { ty, cond, clauses };
    assert(e@->Case_clauses =~= clauses_view(clauses@));
}

/// The view of a `Tuple` node lists the views of its components.
pub proof fn lemma_tuple_view(ty: TyDefer, tuple: Vec<Expr>)
    ensures
        (Expr::Tuple { ty, tuple })@ == (ExprView::Tuple { ty, tuple: exprs_view(tuple@) }),
{
    let e = Expr::Tuple { ty, tuple };
    assert(e@->Tuple_tuple =~= exprs_view(tuple@));
}

} // verus!
