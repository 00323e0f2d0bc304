//! Front end of a compiler for a small ML-style language.
//!
//! * [`parser`] turns source bytes into a syntax tree ([`ast`]), as
//!   [`grammar`] says, recognising its tokens with [`token`].
//! * [`ast::rename`] gives every binding occurrence of the tree a fresh id
//!   and every reference the id of the binder it refers to.
//! * [`hir::flat_let`] hoists nested bindings of the desugared intermediate
//!   form ([`hir`]) to the enclosing list of bindings.
//! * [`pp`] prints a syntax tree as source text again.
//!
//! Every node refers to deferred type slots, which live in a table
//! ([`ast::TySlots`]) and are addressed by handles ([`ast::TyDefer`]).

pub mod ast;
pub mod config;
pub mod grammar;
pub mod hir;
pub mod id;
pub mod parser;
pub mod pp;
pub mod prim;
pub mod text;
pub mod token;
