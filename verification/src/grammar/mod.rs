//! The grammar of the source language, as a function from bytes to trees.
//!
//! Alternatives are tried in the order in which they are written and the
//! first that succeeds is taken; a repetition takes as many items as it can;
//! white space and names are taken as long as they go.  Every node of the
//! tree gets type slots of its own, numbered upwards from the first free
//! slot in the order in which the nodes are completed.
//!
//! ```text
//! top        := ws? (bind (ws bind)*)? ws? EOF
//! bind       := bind_val | bind_fun
//! bind_val   := "val" ws sym ws? "=" ws? expr
//! bind_fun   := "fun" ws sym ws sym (ws sym)* ws? "=" ws? expr
//! expr       := expr_let | expr_fn | expr_if | expr_add | expr1
//! expr_let   := "let" ws (bind (ws bind)*)? ws "in" ws expr ws "end"
//! expr_fn    := "fn" ws sym ws? "=>" ws? expr
//! expr_if    := "if" ws expr ws "then" ws expr ws "else" ws expr
//! expr_add   := expr1 ws? "+" ws? expr
//! expr1      := expr1_app | expr1_mul | expr0
//! expr1_app  := expr0 ws expr0 (ws expr0)*
//! expr1_mul  := expr0 ws? "*" ws? expr1
//! expr0      := "(" ws? expr ws? ")" | float | int | bool | sym
//! float      := digit+ "." digit*
//! int        := digit+
//! bool       := "true" | "false"
//! sym        := alphanumeric+, not a reserved word
//! ```
//!
//! A numeral that stands where an expression may begin is a number: one
//! without a dot whose value does not fit in 64 bits is no expression.
//! Since the white space behind `let` is taken whole, a block has at least
//! one binding; and since a truth value is taken as far as it goes, a name
//! that begins with `true` or `false` is no operand.

pub mod rules;

use crate::ast::{ExprView, PatternView, TyDefer, ValView};
use crate::prim::{LiteralView, SymbolView};
use crate::text::{ascii_chars, decimal_value};
use crate::token::{has_byte, has_word, is_text, run_len, Class};
use vstd::prelude::*;

verus! {

/// A parse that succeeded: the value, the number of bytes taken, and the
/// first slot that is still free.
pub type Parsed<T> = Option<(T, nat, nat)>;

/// The handle of slot number `n`.
pub open spec fn slot(n: nat) -> TyDefer {
    TyDefer(n as usize)
}

/// How many bytes are left from `pos` on.
pub open spec fn left(s: Seq<u8>, pos: nat) -> nat {
    if pos < s.len() {
        (s.len() - pos) as nat
    } else {
        0
    }
}

/// The position behind the white space that starts at `pos`, if any.
pub open spec fn skip(s: Seq<u8>, pos: nat) -> nat {
    pos + run_len(s, pos, Class::Space)
}

/// Whether there is white space at `pos`.
pub open spec fn spaced(s: Seq<u8>, pos: nat) -> bool {
    run_len(s, pos, Class::Space) >= 1
}

/// The first of two alternatives that succeeds.
pub open spec fn or<T>(first: Option<T>, second: Option<T>) -> Option<T> {
    if first is Some {
        first
    } else {
        second
    }
}

/// Whether the bytes spell a word that no symbol may be.
pub open spec fn reserved(bytes: Seq<u8>) -> bool {
    ||| is_text(bytes, "val"@)
    ||| is_text(bytes, "fun"@)
    ||| is_text(bytes, "fn"@)
    ||| is_text(bytes, "let"@)
    ||| is_text(bytes, "in"@)
    ||| is_text(bytes, "end"@)
    ||| is_text(bytes, "if"@)
    ||| is_text(bytes, "then"@)
    ||| is_text(bytes, "else"@)
}

/// `sym`: the symbol at `pos` and its length.
pub open spec fn g_sym(s: Seq<u8>, pos: nat) -> Option<(SymbolView, nat)> {
    let n = run_len(s, pos, Class::Alnum);
    let bytes = s.subrange(pos as int, (pos + n) as int);
    if n == 0 || reserved(bytes) {
        None
    } else {
        Some((SymbolView { name: ascii_chars(bytes), id: 0 }, n))
    }
}

/// `(ws sym)*`: the symbols that follow, each behind white space, and the
/// length of it all.
pub open spec fn g_syms(s: Seq<u8>, pos: nat) -> (Seq<SymbolView>, nat)
    decreases left(s, pos),
{
    if pos >= s.len() || !spaced(s, pos) {
        (Seq::empty(), 0)
    } else {
        match g_sym(s, skip(s, pos)) {
            None => (Seq::empty(), 0),
            Some((sym, n)) => {
                let end = skip(s, pos) + n;
                let (rest, m) = g_syms(s, end);
                (seq![sym] + rest, (end + m - pos) as nat)
            },
        }
    }
}

/// The function of the last `n` of `params`, one parameter at a time, over
/// `body`; the slots of each function are taken from `next` on, innermost
/// function first.
pub open spec fn curried(params: Seq<SymbolView>, n: nat, body: ExprView, next: nat) -> (
    ExprView,
    nat,
)
    decreases n,
{
    if n == 0 || n > params.len() {
        (body, next)
    } else {
        let (inner, next1) = curried(params, (n - 1) as nat, body, next);
        (
            ExprView::Fun {
                param_ty: slot(next1),
                param: params[params.len() - n],
                body_ty: slot(next1 + 1),
                body: Box::new(inner),
            },
            next1 + 2,
        )
    }
}

/// `float | int`: the number at `pos`.
pub open spec fn g_number(s: Seq<u8>, pos: nat, next: nat) -> Parsed<ExprView> {
    let d = run_len(s, pos, Class::Digit);
    if d == 0 {
        None
    } else if has_byte(s, pos + d, '.' as u8) {
        let f = run_len(s, pos + d + 1, Class::Digit);
        let text = ascii_chars(s.subrange(pos as int, (pos + d + 1 + f) as int));
        Some((ExprView::Lit { ty: slot(next), value: LiteralView::Float(text) }, d + 1 + f, next + 1))
    } else {
        let value = decimal_value(s.subrange(pos as int, (pos + d) as int));
        if value <= i64::MAX {
            Some((
                ExprView::Lit { ty: slot(next), value: LiteralView::Int(value as i64) },
                d,
                next + 1,
            ))
        } else {
            None
        }
    }
}

/// `bool`: the truth value at `pos`.
pub open spec fn g_bool(s: Seq<u8>, pos: nat, next: nat) -> Parsed<ExprView> {
    if has_word(s, pos, "true"@) {
        Some((
            ExprView::Lit { ty: slot(next), value: LiteralView::Bool(true) },
            "true"@.len(),
            next + 1,
        ))
    } else if has_word(s, pos, "false"@) {
        Some((
            ExprView::Lit { ty: slot(next), value: LiteralView::Bool(false) },
            "false"@.len(),
            next + 1,
        ))
    } else {
        None
    }
}

/// A symbol that stands as an expression.
pub open spec fn g_name(s: Seq<u8>, pos: nat, next: nat) -> Parsed<ExprView> {
    match g_sym(s, pos) {
        None => None,
        Some((name, n)) => Some((ExprView::Sym { ty: slot(next), name }, n, next + 1)),
    }
}

/// An operation on two expressions.
pub open spec fn binop(op: Seq<char>, l: ExprView, r: ExprView, next: nat) -> ExprView {
    ExprView::BinOp {
        op: SymbolView { name: op, id: 0 },
        ty: slot(next),
        l: Box::new(l),
        r: Box::new(r),
    }
}

/// `expr`.
pub open spec fn g_expr(s: Seq<u8>, pos: nat, next: nat) -> Parsed<ExprView>
    decreases left(s, pos), 6nat,
{
    if pos >= s.len() {
        None
    } else {
        or(
            g_expr_let(s, pos, next),
            or(
                g_expr_fn(s, pos, next),
                or(g_expr_if(s, pos, next), or(g_expr_add(s, pos, next), g_expr1(s, pos, next))),
            ),
        )
    }
}

/// `expr_let`.
pub open spec fn g_expr_let(s: Seq<u8>, pos: nat, next: nat) -> Parsed<ExprView>
    decreases left(s, pos), 5nat,
{
    let q1 = pos + "let"@.len();
    if pos >= s.len() || !has_word(s, pos, "let"@) || !spaced(s, q1) {
        None
    } else {
        let q2 = skip(s, q1);
        let (binds, l1, next1) = g_binds(s, q2, next);
        let q3 = q2 + l1;
        let q4 = skip(s, q3) + "in"@.len();
        if !spaced(s, q3) || !has_word(s, skip(s, q3), "in"@) || !spaced(s, q4) {
            None
        } else {
            let q5 = skip(s, q4);
            match g_expr(s, q5, next1) {
                None => None,
                Some((ret, l2, next2)) => {
                    let q6 = q5 + l2;
                    if !spaced(s, q6) || !has_word(s, skip(s, q6), "end"@) {
                        None
                    } else {
                        Some(
                            (
                                ExprView::Binds { ty: slot(next2), binds, ret: Box::new(ret) },
                                (skip(s, q6) + "end"@.len() - pos) as nat,
                                next2 + 1,
                            ),
                        )
                    }
                },
            }
        }
    }
}

/// `expr_fn`.
pub open spec fn g_expr_fn(s: Seq<u8>, pos: nat, next: nat) -> Parsed<ExprView>
    decreases left(s, pos), 5nat,
{
    let q1 = pos + "fn"@.len();
    if pos >= s.len() || !has_word(s, pos, "fn"@) || !spaced(s, q1) {
        None
    } else {
        match g_sym(s, skip(s, q1)) {
            None => None,
            Some((param, n)) => {
                let q2 = skip(s, skip(s, q1) + n);
                if !has_word(s, q2, "=>"@) {
                    None
                } else {
                    let q3 = skip(s, q2 + "=>"@.len());
                    match g_expr(s, q3, next) {
                        None => None,
                        Some((body, l, next1)) => Some(
                            (
                                ExprView::Fun {
                                    param_ty: slot(next1),
                                    param,
                                    body_ty: slot(next1 + 1),
                                    body: Box::new(body),
                                },
                                (q3 + l - pos) as nat,
                                next1 + 2,
                            ),
                        ),
                    }
                }
            },
        }
    }
}

/// `expr_if`.
pub open spec fn g_expr_if(s: Seq<u8>, pos: nat, next: nat) -> Parsed<ExprView>
    decreases left(s, pos), 5nat,
{
    let q1 = pos + "if"@.len();
    if pos >= s.len() || !has_word(s, pos, "if"@) || !spaced(s, q1) {
        None
    } else {
        let q2 = skip(s, q1);
        match g_expr(s, q2, next) {
            None => None,
            Some((cond, l1, next1)) => {
                let q3 = q2 + l1;
                let q4 = skip(s, q3) + "then"@.len();
                if !spaced(s, q3) || !has_word(s, skip(s, q3), "then"@) || !spaced(s, q4) {
                    None
                } else {
                    let q5 = skip(s, q4);
                    match g_expr(s, q5, next1) {
                        None => None,
                        Some((then, l2, next2)) => {
                            let q6 = q5 + l2;
                            let q7 = skip(s, q6) + "else"@.len();
                            if !spaced(s, q6) || !has_word(s, skip(s, q6), "else"@) || !spaced(
                                s,
                                q7,
                            ) {
                                None
                            } else {
                                let q8 = skip(s, q7);
                                match g_expr(s, q8, next2) {
                                    None => None,
                                    Some((else_, l3, next3)) => Some(
                                        (
                                            ExprView::If {
                                                ty: slot(next3),
                                                cond: Box::new(cond),
                                                then: Box::new(then),
                                                else_: Box::new(else_),
                                            },
                                            (q8 + l3 - pos) as nat,
                                            next3 + 1,
                                        ),
                                    ),
                                }
                            }
                        },
                    }
                }
            },
        }
    }
}

/// `expr_add`.
pub open spec fn g_expr_add(s: Seq<u8>, pos: nat, next: nat) -> Parsed<ExprView>
    decreases left(s, pos), 5nat,
{
    if pos >= s.len() {
        None
    } else {
        match g_expr1(s, pos, next) {
            None => None,
            Some((l, l1, next1)) => {
                let q1 = skip(s, pos + l1);
                if !has_byte(s, q1, '+' as u8) {
                    None
                } else {
                    let q2 = skip(s, q1 + 1);
                    match g_expr(s, q2, next1) {
                        None => None,
                        Some((r, l2, next2)) => Some(
                            (binop("+"@, l, r, next2), (q2 + l2 - pos) as nat, next2 + 1),
                        ),
                    }
                }
            },
        }
    }
}

/// `expr1`.
pub open spec fn g_expr1(s: Seq<u8>, pos: nat, next: nat) -> Parsed<ExprView>
    decreases left(s, pos), 4nat,
{
    if pos >= s.len() {
        None
    } else {
        or(g_expr1_app(s, pos, next), or(g_expr1_mul(s, pos, next), g_expr0(s, pos, next)))
    }
}

/// `expr1_app`.
pub open spec fn g_expr1_app(s: Seq<u8>, pos: nat, next: nat) -> Parsed<ExprView>
    decreases left(s, pos), 3nat,
{
    if pos >= s.len() {
        None
    } else {
        match g_expr0(s, pos, next) {
            None => None,
            Some((fun, l1, next1)) => {
                let q1 = pos + l1;
                if !spaced(s, q1) {
                    None
                } else {
                    match g_expr0(s, skip(s, q1), next1) {
                        None => None,
                        Some((arg, l2, next2)) => {
                            let q2 = skip(s, q1) + l2;
                            let first = ExprView::App {
                                ty: slot(next2),
                                fun: Box::new(fun),
                                arg: Box::new(arg),
                            };
                            let (all, l3, next3) = g_args(s, q2, next2 + 1, first);
                            Some((all, (q2 + l3 - pos) as nat, next3))
                        },
                    }
                }
            },
        }
    }
}

/// `(ws expr0)*` behind the function `fun`: the application of `fun` to
/// the arguments that follow, one after the other.
pub open spec fn g_args(s: Seq<u8>, pos: nat, next: nat, fun: ExprView) -> (ExprView, nat, nat)
    decreases left(s, pos), 0nat,
{
    if pos >= s.len() || !spaced(s, pos) {
        (fun, 0, next)
    } else {
        match g_expr0(s, skip(s, pos), next) {
            None => (fun, 0, next),
            Some((arg, l1, next1)) => {
                let q1 = skip(s, pos) + l1;
                let app = ExprView::App { ty: slot(next1), fun: Box::new(fun), arg: Box::new(arg) };
                let (all, l2, next2) = g_args(s, q1, next1 + 1, app);
                (all, (q1 + l2 - pos) as nat, next2)
            },
        }
    }
}

/// `expr1_mul`.
pub open spec fn g_expr1_mul(s: Seq<u8>, pos: nat, next: nat) -> Parsed<ExprView>
    decreases left(s, pos), 3nat,
{
    if pos >= s.len() {
        None
    } else {
        match g_expr0(s, pos, next) {
            None => None,
            Some((l, l1, next1)) => {
                let q1 = skip(s, pos + l1);
                if !has_byte(s, q1, '*' as u8) {
                    None
                } else {
                    let q2 = skip(s, q1 + 1);
                    match g_expr1(s, q2, next1) {
                        None => None,
                        Some((r, l2, next2)) => Some(
                            (binop("*"@, l, r, next2), (q2 + l2 - pos) as nat, next2 + 1),
                        ),
                    }
                }
            },
        }
    }
}

/// `expr0`.
pub open spec fn g_expr0(s: Seq<u8>, pos: nat, next: nat) -> Parsed<ExprView>
    decreases left(s, pos), 2nat,
{
    if pos >= s.len() {
        None
    } else {
        or(
            g_paren(s, pos, next),
            if run_len(s, pos, Class::Digit) >= 1 {
                g_number(s, pos, next)
            } else {
                or(g_bool(s, pos, next), g_name(s, pos, next))
            },
        )
    }
}

/// An expression in parentheses.
pub open spec fn g_paren(s: Seq<u8>, pos: nat, next: nat) -> Parsed<ExprView>
    decreases left(s, pos), 1nat,
{
    if !has_byte(s, pos, '(' as u8) {
        None
    } else {
        let q1 = skip(s, pos + 1);
        match g_expr(s, q1, next) {
            None => None,
            Some((e, l, next1)) => {
                let q2 = skip(s, q1 + l);
                if has_byte(s, q2, ')' as u8) {
                    Some((e, (q2 + 1 - pos) as nat, next1))
                } else {
                    None
                }
            },
        }
    }
}

/// `bind`.
pub open spec fn g_bind(s: Seq<u8>, pos: nat, next: nat) -> Parsed<ValView>
    decreases left(s, pos), 8nat,
{
    if pos >= s.len() {
        None
    } else {
        or(g_bind_val(s, pos, next), g_bind_fun(s, pos, next))
    }
}

/// A binding of `name` to `expr`, with its two slots from `next` on.
pub open spec fn binding(rec: bool, name: SymbolView, expr: ExprView, next: nat) -> ValView {
    ValView { ty: slot(next), rec, pattern: PatternView::Var { name, ty: slot(next + 1) }, expr }
}

/// `bind_val`.
pub open spec fn g_bind_val(s: Seq<u8>, pos: nat, next: nat) -> Parsed<ValView>
    decreases left(s, pos), 7nat,
{
    let q1 = pos + "val"@.len();
    if pos >= s.len() || !has_word(s, pos, "val"@) || !spaced(s, q1) {
        None
    } else {
        match g_sym(s, skip(s, q1)) {
            None => None,
            Some((name, n)) => {
                let q2 = skip(s, skip(s, q1) + n);
                if !has_byte(s, q2, '=' as u8) {
                    None
                } else {
                    let q3 = skip(s, q2 + 1);
                    match g_expr(s, q3, next) {
                        None => None,
                        Some((expr, l, next1)) => Some(
                            (binding(false, name, expr, next1), (q3 + l - pos) as nat, next1 + 2),
                        ),
                    }
                }
            },
        }
    }
}

/// `bind_fun`.
pub open spec fn g_bind_fun(s: Seq<u8>, pos: nat, next: nat) -> Parsed<ValView>
    decreases left(s, pos), 7nat,
{
    let q1 = pos + "fun"@.len();
    if pos >= s.len() || !has_word(s, pos, "fun"@) || !spaced(s, q1) {
        None
    } else {
        match g_sym(s, skip(s, q1)) {
            None => None,
            Some((name, n)) => {
                let q2 = skip(s, q1) + n;
                let (params, m) = g_syms(s, q2);
                let q3 = skip(s, q2 + m);
                if params.len() == 0 || !has_byte(s, q3, '=' as u8) {
                    None
                } else {
                    let q4 = skip(s, q3 + 1);
                    match g_expr(s, q4, next) {
                        None => None,
                        Some((body, l, next1)) => {
                            let (fun, next2) = curried(params, params.len(), body, next1);
                            Some((binding(true, name, fun, next2), (q4 + l - pos) as nat, next2 + 2))
                        },
                    }
                }
            },
        }
    }
}

/// `(bind (ws bind)*)?`: the bindings at `pos`, as many as there are.
pub open spec fn g_binds(s: Seq<u8>, pos: nat, next: nat) -> (Seq<ValView>, nat, nat)
    decreases left(s, pos), 9nat,
{
    match g_bind(s, pos, next) {
        None => (Seq::empty(), 0, next),
        Some((v, l, next1)) => {
            let (rest, m, next2) = g_more_binds(s, pos + l, next1);
            (seq![v] + rest, l + m, next2)
        },
    }
}

/// `(ws bind)*`: the bindings that follow, each behind white space.
pub open spec fn g_more_binds(s: Seq<u8>, pos: nat, next: nat) -> (Seq<ValView>, nat, nat)
    decreases left(s, pos), 0nat,
{
    if pos >= s.len() || !spaced(s, pos) {
        (Seq::empty(), 0, next)
    } else {
        match g_bind(s, skip(s, pos), next) {
            None => (Seq::empty(), 0, next),
            Some((v, l, next1)) => {
                let q1 = skip(s, pos) + l;
                let (rest, m, next2) = g_more_binds(s, q1, next1);
                (seq![v] + rest, (q1 + m - pos) as nat, next2)
            },
        }
    }
}

/// `top`: the bindings of a whole source text and the first slot that is
/// free behind them, or else the position at which the text stops being a
/// sequence of bindings.
pub open spec fn g_top(s: Seq<u8>, next: nat) -> Result<(Seq<ValView>, nat), nat> {
    let q1 = skip(s, 0);
    let (vals, l, next1) = g_binds(s, q1, next);
    let q2 = skip(s, q1 + l);
    if q2 == s.len() {
        Ok((vals, next1))
    } else {
        Err(q2)
    }
}

} // verus!
