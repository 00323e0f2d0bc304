//! The grammar read forwards: what each rule yields once its parts are
//! known to be there.

use crate::ast::{ExprView, ValView};
use crate::grammar::{
    binding, binop, curried, g_args, g_bind, g_bind_fun, g_bind_val, g_binds, g_expr, g_expr0,
    g_expr1, g_expr1_app, g_expr1_mul, g_expr_add, g_expr_fn, g_expr_if, g_expr_let, g_more_binds,
    g_paren, g_sym, g_syms, skip, slot, spaced,
};
use crate::prim::SymbolView;
use crate::token::{has_byte, has_word};
use vstd::prelude::*;

verus! {

/// An expression between parentheses is an operand.
pub proof fn rule_paren(s: Seq<u8>, pos: nat, next: nat, e: ExprView, len: nat, next1: nat)
    requires
        has_byte(s, pos, 40),
        g_expr(s, skip(s, pos + 1), next) == Some((e, len, next1)),
        has_byte(s, skip(s, skip(s, pos + 1) + len), 41),
    ensures
        g_expr0(s, pos, next) == Some(
            (e, (skip(s, skip(s, pos + 1) + len) + 1 - pos) as nat, next1),
        ),
{
    assert(g_paren(s, pos, next) is Some);
}

/// Two operands with white space between them, and no third behind them,
/// are an application.
pub proof fn rule_app(
    s: Seq<u8>,
    pos: nat,
    next: nat,
    fun: ExprView,
    len1: nat,
    next1: nat,
    arg: ExprView,
    len2: nat,
    next2: nat,
)
    requires
        pos < s.len(),
        g_expr0(s, pos, next) == Some((fun, len1, next1)),
        spaced(s, pos + len1),
        g_expr0(s, skip(s, pos + len1), next1) == Some((arg, len2, next2)),
        !spaced(s, skip(s, pos + len1) + len2),
    ensures
        g_expr1(s, pos, next) == Some(
            (
                ExprView::App { ty: slot(next2), fun: Box::new(fun), arg: Box::new(arg) },
                (skip(s, pos + len1) + len2 - pos) as nat,
                next2 + 1,
            ),
        ),
{
    let first = ExprView::App { ty: slot(next2), fun: Box::new(fun), arg: Box::new(arg) };
    assert(g_args(s, skip(s, pos + len1) + len2, next2 + 1, first) == (first, 0nat, next2 + 1));
    assert(g_expr1_app(s, pos, next) is Some);
}

/// An operand, a `*` and an operand of a product are a product, where the
/// first operand is not followed by another.
pub proof fn rule_product(
    s: Seq<u8>,
    pos: nat,
    next: nat,
    l: ExprView,
    len1: nat,
    next1: nat,
    r: ExprView,
    len2: nat,
    next2: nat,
)
    requires
        pos < s.len(),
        g_expr0(s, pos, next) == Some((l, len1, next1)),
        !spaced(s, pos + len1) || g_expr0(s, skip(s, pos + len1), next1) is None,
        has_byte(s, skip(s, pos + len1), 42),
        g_expr1(s, skip(s, skip(s, pos + len1) + 1), next1) == Some((r, len2, next2)),
    ensures
        g_expr1(s, pos, next) == Some(
            (
                binop("*"@, l, r, next2),
                (skip(s, skip(s, pos + len1) + 1) + len2 - pos) as nat,
                next2 + 1,
            ),
        ),
{
    assert(g_expr1_app(s, pos, next) is None);
    assert(g_expr1_mul(s, pos, next) is Some);
}

/// An operand that is followed neither by another nor by a `*` is an
/// operand of a product by itself.
pub proof fn rule_operand(s: Seq<u8>, pos: nat, next: nat, e: ExprView, len: nat, next1: nat)
    requires
        g_expr0(s, pos, next) == Some((e, len, next1)),
        !spaced(s, pos + len) || g_expr0(s, skip(s, pos + len), next1) is None,
        !has_byte(s, skip(s, pos + len), 42),
    ensures
        g_expr1(s, pos, next) == Some((e, len, next1)),
{
    assert(g_expr1_app(s, pos, next) is None);
    assert(g_expr1_mul(s, pos, next) is None);
}

/// An operand of a product, a `+` and an expression are a sum, where no
/// keyword begins an expression at the same place.
pub proof fn rule_sum(
    s: Seq<u8>,
    pos: nat,
    next: nat,
    l: ExprView,
    len1: nat,
    next1: nat,
    r: ExprView,
    len2: nat,
    next2: nat,
)
    requires
        g_expr_let(s, pos, next) is None,
        g_expr_fn(s, pos, next) is None,
        g_expr_if(s, pos, next) is None,
        g_expr1(s, pos, next) == Some((l, len1, next1)),
        has_byte(s, skip(s, pos + len1), 43),
        g_expr(s, skip(s, skip(s, pos + len1) + 1), next1) == Some((r, len2, next2)),
    ensures
        g_expr(s, pos, next) == Some(
            (
                binop("+"@, l, r, next2),
                (skip(s, skip(s, pos + len1) + 1) + len2 - pos) as nat,
                next2 + 1,
            ),
        ),
{
    assert(g_expr_add(s, pos, next) is Some);
}

/// An operand of a product that is followed by no `+` is an expression by
/// itself, where no keyword begins an expression at the same place.
pub proof fn rule_plain(s: Seq<u8>, pos: nat, next: nat, e: ExprView, len: nat, next1: nat)
    requires
        g_expr_let(s, pos, next) is None,
        g_expr_fn(s, pos, next) is None,
        g_expr_if(s, pos, next) is None,
        g_expr1(s, pos, next) == Some((e, len, next1)),
        !has_byte(s, skip(s, pos + len), 43),
    ensures
        g_expr(s, pos, next) == Some((e, len, next1)),
{
    assert(g_expr_add(s, pos, next) is None);
}

/// `fn`, a name, `=>` and an expression are a function.
pub proof fn rule_fn(
    s: Seq<u8>,
    pos: nat,
    next: nat,
    param: SymbolView,
    len1: nat,
    arrow: nat,
    body: ExprView,
    len2: nat,
    next1: nat,
)
    requires
        pos < s.len(),
        g_expr_let(s, pos, next) is None,
        has_word(s, pos, "fn"@),
        spaced(s, pos + "fn"@.len()),
        g_sym(s, skip(s, pos + "fn"@.len())) == Some((param, len1)),
        arrow == skip(s, skip(s, pos + "fn"@.len()) + len1),
        has_word(s, arrow, "=>"@),
        g_expr(s, skip(s, arrow + "=>"@.len()), next) == Some((body, len2, next1)),
    ensures
        g_expr(s, pos, next) == Some(
            (
                ExprView::Fun {
                    param_ty: slot(next1),
                    param,
                    body_ty: slot(next1 + 1),
                    body: Box::new(body),
                },
                (skip(s, arrow + "=>"@.len()) + len2 - pos) as nat,
                next1 + 2,
            ),
        ),
{
    assert(g_expr_fn(s, pos, next) is Some);
}

/// `if`, an expression, `then`, an expression, `else` and an expression
/// are a conditional.
pub proof fn rule_if(
    s: Seq<u8>,
    pos: nat,
    next: nat,
    q2: nat,
    cond: ExprView,
    len1: nat,
    next1: nat,
    q5: nat,
    then: ExprView,
    len2: nat,
    next2: nat,
    q8: nat,
    else_: ExprView,
    len3: nat,
    next3: nat,
)
    requires
        pos < s.len(),
        g_expr_let(s, pos, next) is None,
        g_expr_fn(s, pos, next) is None,
        has_word(s, pos, "if"@),
        spaced(s, pos + "if"@.len()),
        q2 == skip(s, pos + "if"@.len()),
        g_expr(s, q2, next) == Some((cond, len1, next1)),
        spaced(s, q2 + len1),
        has_word(s, skip(s, q2 + len1), "then"@),
        spaced(s, skip(s, q2 + len1) + "then"@.len()),
        q5 == skip(s, skip(s, q2 + len1) + "then"@.len()),
        g_expr(s, q5, next1) == Some((then, len2, next2)),
        spaced(s, q5 + len2),
        has_word(s, skip(s, q5 + len2), "else"@),
        spaced(s, skip(s, q5 + len2) + "else"@.len()),
        q8 == skip(s, skip(s, q5 + len2) + "else"@.len()),
        g_expr(s, q8, next2) == Some((else_, len3, next3)),
    ensures
        g_expr(s, pos, next) == Some(
            (
                ExprView::If {
                    ty: slot(next3),
                    cond: Box::new(cond),
                    then: Box::new(then),
                    else_: Box::new(else_),
                },
                (q8 + len3 - pos) as nat,
                next3 + 1,
            ),
        ),
{
    assert(g_expr_if(s, pos, next) is Some);
}

/// `let`, bindings, `in`, an expression and `end` are a block.
pub proof fn rule_let(
    s: Seq<u8>,
    pos: nat,
    next: nat,
    q2: nat,
    binds: Seq<ValView>,
    len1: nat,
    next1: nat,
    q5: nat,
    ret: ExprView,
    len2: nat,
    next2: nat,
)
    requires
        pos < s.len(),
        has_word(s, pos, "let"@),
        spaced(s, pos + "let"@.len()),
        q2 == skip(s, pos + "let"@.len()),
        g_binds(s, q2, next) == (binds, len1, next1),
        spaced(s, q2 + len1),
        has_word(s, skip(s, q2 + len1), "in"@),
        spaced(s, skip(s, q2 + len1) + "in"@.len()),
        q5 == skip(s, skip(s, q2 + len1) + "in"@.len()),
        g_expr(s, q5, next1) == Some((ret, len2, next2)),
        spaced(s, q5 + len2),
        has_word(s, skip(s, q5 + len2), "end"@),
    ensures
        g_expr(s, pos, next) == Some(
            (
                ExprView::Binds { ty: slot(next2), binds, ret: Box::new(ret) },
                (skip(s, q5 + len2) + "end"@.len() - pos) as nat,
                next2 + 1,
            ),
        ),
{
    assert(g_expr_let(s, pos, next) is Some);
}

/// `val`, a name, `=` and an expression are a binding.
pub proof fn rule_val(
    s: Seq<u8>,
    pos: nat,
    next: nat,
    name: SymbolView,
    len1: nat,
    eq: nat,
    expr: ExprView,
    len2: nat,
    next1: nat,
)
    requires
        pos < s.len(),
        has_word(s, pos, "val"@),
        spaced(s, pos + "val"@.len()),
        g_sym(s, skip(s, pos + "val"@.len())) == Some((name, len1)),
        eq == skip(s, skip(s, pos + "val"@.len()) + len1),
        has_byte(s, eq, 61),
        g_expr(s, skip(s, eq + 1), next) == Some((expr, len2, next1)),
    ensures
        g_bind(s, pos, next) == Some(
            (
                binding(false, name, expr, next1),
                (skip(s, eq + 1) + len2 - pos) as nat,
                next1 + 2,
            ),
        ),
{
    assert(g_bind_val(s, pos, next) is Some);
}

/// `fun`, a name, one parameter, `=` and an expression are a recursive
/// binding of the name to a function.
pub proof fn rule_fun(
    s: Seq<u8>,
    pos: nat,
    next: nat,
    name: SymbolView,
    len1: nat,
    param: SymbolView,
    len2: nat,
    eq: nat,
    body: ExprView,
    len3: nat,
    next1: nat,
)
    requires
        pos < s.len(),
        !has_word(s, pos, "val"@),
        has_word(s, pos, "fun"@),
        spaced(s, pos + "fun"@.len()),
        g_sym(s, skip(s, pos + "fun"@.len())) == Some((name, len1)),
        spaced(s, skip(s, pos + "fun"@.len()) + len1),
        g_sym(s, skip(s, skip(s, pos + "fun"@.len()) + len1)) == Some((param, len2)),
        eq == skip(s, skip(s, skip(s, pos + "fun"@.len()) + len1) + len2),
        spaced(s, skip(s, skip(s, pos + "fun"@.len()) + len1) + len2),
        g_sym(s, eq) is None,
        has_byte(s, eq, 61),
        g_expr(s, skip(s, eq + 1), next) == Some((body, len3, next1)),
    ensures
        g_bind(s, pos, next) == Some(
            (
                binding(
                    true,
                    name,
                    ExprView::Fun {
                        param_ty: slot(next1),
                        param,
                        body_ty: slot(next1 + 1),
                        body: Box::new(body),
                    },
                    next1 + 2,
                ),
                (skip(s, eq + 1) + len3 - pos) as nat,
                next1 + 4,
            ),
        ),
{
    let q2 = skip(s, pos + "fun"@.len()) + len1;
    let q3 = skip(s, q2) + len2;
    assert(g_syms(s, q3) == (Seq::<SymbolView>::empty(), 0nat));
    assert(g_syms(s, q2).0 =~= seq![param]);
    assert(g_syms(s, q2).1 == q3 - q2);
    let params = seq![param];
    assert(curried(params, 0, body, next1) == (body, next1));
    assert(curried(params, 1, body, next1).1 == next1 + 2);
    assert(g_bind_val(s, pos, next) is None);
    assert(g_bind_fun(s, pos, next) is Some);
}

/// A binding and the bindings that follow it are a list of bindings.
pub proof fn rule_binds(
    s: Seq<u8>,
    pos: nat,
    next: nat,
    v: ValView,
    len1: nat,
    next1: nat,
    rest: Seq<ValView>,
    len2: nat,
    next2: nat,
)
    requires
        g_bind(s, pos, next) == Some((v, len1, next1)),
        g_more_binds(s, pos + len1, next1) == (rest, len2, next2),
    ensures
        g_binds(s, pos, next) == (seq![v] + rest, len1 + len2, next2),
{
}

/// White space, a binding and the bindings that follow it are more
/// bindings.
pub proof fn rule_more_binds(
    s: Seq<u8>,
    pos: nat,
    next: nat,
    v: ValView,
    len1: nat,
    next1: nat,
    rest: Seq<ValView>,
    len2: nat,
    next2: nat,
)
    requires
        pos < s.len(),
        spaced(s, pos),
        g_bind(s, skip(s, pos), next) == Some((v, len1, next1)),
        g_more_binds(s, skip(s, pos) + len1, next1) == (rest, len2, next2),
    ensures
        g_more_binds(s, pos, next) == (
            seq![v] + rest,
            (skip(s, pos) + len1 + len2 - pos) as nat,
            next2,
        ),
{
}

/// Where no binding follows, there are no more bindings.
pub proof fn rule_no_more_binds(s: Seq<u8>, pos: nat, next: nat)
    requires
        !spaced(s, pos) || (!has_word(s, skip(s, pos), "val"@) && !has_word(
            s,
            skip(s, pos),
            "fun"@,
        )),
    ensures
        g_more_binds(s, pos, next) == (Seq::<ValView>::empty(), 0nat, next),
{
    if pos < s.len() && spaced(s, pos) {
        let q = skip(s, pos);
        assert(g_bind_val(s, q, next) is None);
        assert(g_bind_fun(s, q, next) is None);
        assert(g_bind(s, q, next) is None);
    }
}


/// Without `let` there is no block.
pub proof fn rule_not_let(s: Seq<u8>, pos: nat, next: nat)
    requires
        !has_word(s, pos, "let"@),
    ensures
        g_expr_let(s, pos, next) is None,
{
}

/// Without `fn` there is no function.
pub proof fn rule_not_fn(s: Seq<u8>, pos: nat, next: nat)
    requires
        !has_word(s, pos, "fn"@),
    ensures
        g_expr_fn(s, pos, next) is None,
{
}

} // verus!
