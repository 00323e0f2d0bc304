//! Primitive values shared by every tree of the compiler: symbols and literals.

use vstd::prelude::*;

verus! {

/// An identifier: its name and the id that tells apart binders of one name.
/// The id 0 marks a symbol that no binder has claimed yet (or a built-in).
#[derive(Debug, Clone, PartialEq, Eq, Hash)]
pub struct Symbol(pub String, pub u64);

/// Mathematical value of a [`Symbol`].
pub struct SymbolView {
    pub name: Seq<char>,
    pub id: u64,
}

impl View for Symbol {
    type V = SymbolView;

    open spec fn view(&self) -> SymbolView {
        SymbolView { name: self.0@, id: self.1 }
    }
}

impl SymbolView {
    /// The same name carrying another id.
    pub open spec fn with_id(self, id: u64) -> SymbolView {
        SymbolView { name: self.name, id }
    }
}

impl Symbol {
    /// A fresh, unresolved symbol of the given name.
    pub fn new(name: &str) -> (r: Symbol)
        ensures
            r@ == (SymbolView { name: name@, id: 0 }),
    {
        Symbol(String::from_str(name), 0)
    }

    /// Whether two symbols agree in both name and id.
    pub fn same(&self, other: &Symbol) -> (r: bool)
        ensures
            r == (self@ == other@),
    {
        self.1 == other.1 && self.0 == other.0
    }

    /// An independent copy with the same name and id.
    pub fn duplicate(&self) -> (r: Symbol)
        ensures
            r == *self,
    {
        Symbol(self.0.clone(), self.1)
    }
}

/// A literal constant of the source language.  A floating-point literal is
/// kept as the decimal text that denotes it.
#[derive(Debug, Clone, PartialEq, Eq)]
pub enum Literal {
    Int(i64),
    Float(String),
    Bool(bool),
}

/// Mathematical value of a [`Literal`].
pub enum LiteralView {
    Int(i64),
    Float(Seq<char>),
    Bool(bool),
}

impl View for Literal {
    type V = LiteralView;

    open spec fn view(&self) -> LiteralView {
        match self {
            Literal::Int(n) => LiteralView::Int(*n),
            Literal::Float(text) => LiteralView::Float(text@),
            Literal::Bool(b) => LiteralView::Bool(*b),
        }
    }
}

impl Literal {
    /// An independent copy of the literal.
    pub fn duplicate(&self) -> (r: Literal)
        ensures
            r == *self,
    {
        match self {
            Literal::Int(n) => Literal::Int(*n),
            Literal::Float(text) => Literal::Float(text.clone()),
            Literal::Bool(b) => Literal::Bool(*b),
        }
    }
}

} // verus!
