//! Printing a syntax tree as source text.  A compound expression is printed
//! in parentheses wherever it is part of another, so that the text shows
//! the tree without regard to precedence.  The submodules prove that the
//! text of a parsed program parses to that program again.

pub mod built;
pub mod reparse;
pub mod roundtrip;
pub mod spelling;

use crate::ast::{
    clauses_view, exprs_view, lemma_binds_view, lemma_case_view, lemma_tuple_view, tuple_view,
    vals_view, Expr, ExprView, Pattern, PatternView, TyDefer, Val, ValView, AST,
};
use crate::prim::{Literal, LiteralView, SymbolView};
use crate::text::{ascii_chars, decimal, padded_decimal_bytes};
use vstd::prelude::*;
use vstd::utf8::encode_utf8;

verus! {

/// The bytes of a decimal numeral.
pub open spec fn numeral(n: nat) -> Seq<u8> {
    Seq::new(decimal(n).len(), |i: int| decimal(n)[i] as u8)
}

/// The text of a literal.
pub open spec fn literal_text(value: LiteralView) -> Seq<u8> {
    match value {
        LiteralView::Int(n) => if n >= 0 {
            numeral(n as nat)
        } else {
            encode_utf8("-"@) + numeral((-n) as nat)
        },
        LiteralView::Float(text) => encode_utf8(text),
        LiteralView::Bool(b) => if b {
            encode_utf8("true"@)
        } else {
            encode_utf8("false"@)
        },
    }
}

/// The text of the first `n` components of a tuple pattern, with commas
/// between them.
pub open spec fn names_text(tuple: Seq<(TyDefer, SymbolView)>, n: nat) -> Seq<u8>
    decreases n,
{
    if n == 0 || n > tuple.len() {
        Seq::empty()
    } else if n == 1 {
        encode_utf8(tuple[0].1.name)
    } else {
        names_text(tuple, (n - 1) as nat) + encode_utf8(", "@) + encode_utf8(tuple[n - 1].1.name)
    }
}

/// The text of a pattern.
pub open spec fn pattern_text(p: PatternView) -> Seq<u8> {
    match p {
        PatternView::Lit { value, .. } => literal_text(value),
        PatternView::Tuple { tuple } => encode_utf8("("@) + names_text(tuple, tuple.len())
            + encode_utf8(")"@),
        PatternView::Var { name, .. } => encode_utf8(name.name),
        PatternView::Wildcard { .. } => encode_utf8("_"@),
    }
}

/// Whether an expression is printed without parentheses wherever it stands.
pub open spec fn is_atom(e: ExprView) -> bool {
    e is Lit || e is Sym
}

/// The text of an expression as a part of another: a literal or a symbol
/// as it is, anything else in parentheses.
pub open spec fn part_text(e: ExprView) -> Seq<u8>
    decreases e, 1nat,
{
    if is_atom(e) {
        expr_text(e)
    } else {
        encode_utf8("("@) + expr_text(e) + encode_utf8(")"@)
    }
}

/// The text of an expression by itself.
pub open spec fn expr_text(e: ExprView) -> Seq<u8>
    decreases e, 0nat,
{
    match e {
        ExprView::Binds { binds, ret, .. } => encode_utf8("let "@) + vals_text(binds, binds.len())
            + encode_utf8(" in "@) + part_text(*ret) + encode_utf8(" end"@),
        ExprView::BinOp { op, l, r, .. } => part_text(*l) + encode_utf8(" "@) + encode_utf8(op.name)
            + encode_utf8(" "@) + part_text(*r),
        ExprView::Fun { param, body, .. } => encode_utf8("fn "@) + encode_utf8(param.name)
            + encode_utf8(" => "@) + part_text(*body),
        ExprView::App { fun, arg, .. } => part_text(*fun) + encode_utf8(" "@) + part_text(*arg),
        ExprView::If { cond, then, else_, .. } => encode_utf8("if "@) + part_text(*cond)
            + encode_utf8(" then "@) + part_text(*then) + encode_utf8(" else "@) + part_text(
            *else_,
        ),
        ExprView::Case { cond, clauses, .. } => encode_utf8("case "@) + part_text(*cond)
            + encode_utf8(" of "@) + clauses_text(clauses, clauses.len()),
        ExprView::Tuple { tuple, .. } => exprs_text(tuple, tuple.len()),
        ExprView::Sym { name, .. } => encode_utf8(name.name),
        ExprView::Lit { value, .. } => literal_text(value),
    }
}

/// The text of a binding: `fun` with the first parameter for a recursive
/// binding of a name to a function, `val` for any other.
pub open spec fn val_text(v: ValView) -> Seq<u8>
    decreases v, 0nat,
{
    match (v.rec, v.pattern, v.expr) {
        (true, PatternView::Var { name, .. }, ExprView::Fun { param, body, .. }) => encode_utf8(
            "fun "@,
        ) + encode_utf8(name.name) + encode_utf8(" "@) + encode_utf8(param.name) + encode_utf8(
            " = "@,
        ) + part_text(*body),
        _ => encode_utf8("val "@) + pattern_text(v.pattern) + encode_utf8(" = "@) + part_text(
            v.expr,
        ),
    }
}

/// The text of the first `n` bindings of a list, one to a line.
pub open spec fn vals_text(vals: Seq<ValView>, n: nat) -> Seq<u8>
    decreases vals, n,
{
    if n == 0 || n > vals.len() {
        Seq::empty()
    } else if n == 1 {
        val_text(vals[0])
    } else {
        vals_text(vals, (n - 1) as nat) + encode_utf8("\n"@) + val_text(vals[n - 1])
    }
}

/// The text of the first `n` clauses of a case, with bars between them.
pub open spec fn clauses_text(clauses: Seq<(PatternView, ExprView)>, n: nat) -> Seq<u8>
    decreases clauses, n,
{
    if n == 0 || n > clauses.len() {
        Seq::empty()
    } else {
        let one = pattern_text(clauses[n - 1].0) + encode_utf8(" => "@) + part_text(
            clauses[n - 1].1,
        );
        if n == 1 {
            one
        } else {
            clauses_text(clauses, (n - 1) as nat) + encode_utf8(" | "@) + one
        }
    }
}

/// The text of the first `n` expressions of a list, with commas between
/// them.
pub open spec fn exprs_text(exprs: Seq<ExprView>, n: nat) -> Seq<u8>
    decreases exprs, n,
{
    if n == 0 || n > exprs.len() {
        Seq::empty()
    } else if n == 1 {
        part_text(exprs[0])
    } else {
        exprs_text(exprs, (n - 1) as nat) + encode_utf8(", "@) + part_text(exprs[n - 1])
    }
}

/// Append the bytes of `text`.
fn put(out: &mut Vec<u8>, text: &str)
    ensures
        final(out)@ == old(out)@ + encode_utf8(text@),
{
    out.extend_from_slice(text.as_bytes());
}

/// Append `more`.
fn put_bytes(out: &mut Vec<u8>, more: &Vec<u8>)
    ensures
        final(out)@ == old(out)@ + more@,
{
    out.extend_from_slice(more.as_slice());
}

/// Append the text of a literal.
fn put_literal(out: &mut Vec<u8>, value: &Literal)
    ensures
        final(out)@ == old(out)@ + literal_text(value@),
{
    match value {
        Literal::Int(n) => {
            if *n < 0 {
                put(out, "-");
            }
            let size: u64 = if *n >= 0 {
                *n as u64
            } else if *n == i64::MIN {
                9223372036854775808u64
            } else {
                (-*n) as u64
            };
            let digits = padded_decimal_bytes(size, 1);
            proof {
                let m: nat = if *n >= 0 {
                    *n as nat
                } else {
                    (-*n) as nat
                };
                assert(digits@ =~= numeral(m)) by {
                    assert(ascii_chars(digits@) == decimal(m));
                    assert forall|i: int| 0 <= i < digits@.len() implies digits@[i] == decimal(
                        m,
                    )[i] as u8 by {
                        assert(ascii_chars(digits@)[i] == digits@[i] as char);
                        assert(digits@[i] < 128);
                    }
                }
            }
            put_bytes(out, &digits);
            assert(out@ =~= old(out)@ + literal_text(value@));
        },
        Literal::Float(text) => {
            put(out, text.as_str());
        },
        Literal::Bool(b) => {
            if *b {
                put(out, "true");
            } else {
                put(out, "false");
            }
        },
    }
}

/// Append the text of a pattern.
fn put_pattern(out: &mut Vec<u8>, p: &Pattern)
    ensures
        final(out)@ == old(out)@ + pattern_text(p@),
{
    match p {
        Pattern::Lit { value, .. } => put_literal(out, value),
        Pattern::Var { name, .. } => put(out, name.0.as_str()),
        Pattern::Wildcard { .. } => put(out, "_"),
        Pattern::Tuple { tuple } => {
            put(out, "(");
            let ghost start = out@;
            let ghost given = tuple_view(tuple@);
            let mut i: usize = 0;
            assert(out@ =~= start + names_text(given, 0));
            while i < tuple.len()
                invariant
                    i <= tuple@.len(),
                    given == tuple_view(tuple@),
                    out@ == start + names_text(given, i as nat),
                decreases tuple@.len() - i,
            {
                let ghost before = out@;
                if i > 0 {
                    put(out, ", ");
                }
                put(out, tuple[i].1.0.as_str());
                assert(out@ =~= start + names_text(given, (i + 1) as nat));
                i += 1;
            }
            put(out, ")");
            assert(out@ =~= old(out)@ + pattern_text(p@));
        },
    }
}

/// Append the text of an expression as a part of another.
fn put_part(out: &mut Vec<u8>, e: &Expr)
    ensures
        final(out)@ == old(out)@ + part_text(e@),
    decreases e, 1nat,
{
    match e {
        Expr::Lit { .. } => put_expr(out, e),
        Expr::Sym { .. } => put_expr(out, e),
        _ => {
            put(out, "(");
            put_expr(out, e);
            put(out, ")");
            assert(out@ =~= old(out)@ + part_text(e@));
        },
    }
}

/// Append the text of an expression by itself.
fn put_expr(out: &mut Vec<u8>, e: &Expr)
    ensures
        final(out)@ == old(out)@ + expr_text(e@),
    decreases e, 0nat,
{
    match e {
        Expr::Binds { ty, binds, ret } => {
            proof {
                lemma_binds_view(*ty, *binds, *ret);
            }
            put(out, "let ");
            put_vals(out, binds);
            put(out, " in ");
            put_part(out, ret);
            put(out, " end");
            assert(out@ =~= old(out)@ + expr_text(e@));
        },
        Expr::BinOp { op, l, r, .. } => {
            put_part(out, l);
            put(out, " ");
            put(out, op.0.as_str());
            put(out, " ");
            put_part(out, r);
            assert(out@ =~= old(out)@ + expr_text(e@));
        },
        Expr::Fun { param, body, .. } => {
            put(out, "fn ");
            put(out, param.0.as_str());
            put(out, " => ");
            put_part(out, body);
            assert(out@ =~= old(out)@ + expr_text(e@));
        },
        Expr::App { fun, arg, .. } => {
            put_part(out, fun);
            put(out, " ");
            put_part(out, arg);
            assert(out@ =~= old(out)@ + expr_text(e@));
        },
        Expr::If { cond, then, else_, .. } => {
            put(out, "if ");
            put_part(out, cond);
            put(out, " then ");
            put_part(out, then);
            put(out, " else ");
            put_part(out, else_);
            assert(out@ =~= old(out)@ + expr_text(e@));
        },
        Expr::Case { ty, cond, clauses } => {
            proof {
                lemma_case_view(*ty, *cond, *clauses);
            }
            put(out, "case ");
            put_part(out, cond);
            put(out, " of ");
            put_clauses(out, clauses);
            assert(out@ =~= old(out)@ + expr_text(e@));
        },
        Expr::Tuple { ty, tuple } => {
            proof {
                lemma_tuple_view(*ty, *tuple);
            }
            put_exprs(out, tuple);
        },
        Expr::Sym { name, .. } => put(out, name.0.as_str()),
        Expr::Lit { value, .. } => put_literal(out, value),
    }
}

/// Append the text of a binding.
fn put_val(out: &mut Vec<u8>, v: &Val)
    ensures
        final(out)@ == old(out)@ + val_text(v@),
    decreases v, 0nat,
{
    if v.rec {
        match (&v.pattern, &v.expr) {
            (Pattern::Var { name, .. }, Expr::Fun { param, body, .. }) => {
                put(out, "fun ");
                put(out, name.0.as_str());
                put(out, " ");
                put(out, param.0.as_str());
                put(out, " = ");
                put_part(out, body);
                assert(out@ =~= old(out)@ + val_text(v@));
                return ;
            },
            _ => {},
        }
    }
    put(out, "val ");
    put_pattern(out, &v.pattern);
    put(out, " = ");
    put_part(out, &v.expr);
    assert(out@ =~= old(out)@ + val_text(v@));
}

/// Append the text of a list of bindings.
fn put_vals(out: &mut Vec<u8>, vals: &Vec<Val>)
    ensures
        final(out)@ == old(out)@ + vals_text(vals_view(vals@), vals@.len()),
    decreases vals,
{
    let ghost given = vals_view(vals@);
    let mut i: usize = 0;
    assert(out@ =~= old(out)@ + vals_text(given, 0));
    while i < vals.len()
        invariant
            i <= vals@.len(),
            given == vals_view(vals@),
            out@ == old(out)@ + vals_text(given, i as nat),
        decreases vals@.len() - i,
    {
        if i > 0 {
            put(out, "\n");
        }
        put_val(out, &vals[i]);
        assert(out@ =~= old(out)@ + vals_text(given, (i + 1) as nat));
        i += 1;
    }
}

/// Append the text of the clauses of a case.
fn put_clauses(out: &mut Vec<u8>, clauses: &Vec<(Pattern, Expr)>)
    ensures
        final(out)@ == old(out)@ + clauses_text(clauses_view(clauses@), clauses@.len()),
    decreases clauses,
{
    let ghost given = clauses_view(clauses@);
    let mut i: usize = 0;
    assert(out@ =~= old(out)@ + clauses_text(given, 0));
    while i < clauses.len()
        invariant
            i <= clauses@.len(),
            given == clauses_view(clauses@),
            out@ == old(out)@ + clauses_text(given, i as nat),
        decreases clauses@.len() - i,
    {
        if i > 0 {
            put(out, " | ");
        }
        put_pattern(out, &clauses[i].0);
        put(out, " => ");
        put_part(out, &clauses[i].1);
        assert(out@ =~= old(out)@ + clauses_text(given, (i + 1) as nat));
        i += 1;
    }
}

/// Append the text of a list of expressions.
fn put_exprs(out: &mut Vec<u8>, exprs: &Vec<Expr>)
    ensures
        final(out)@ == old(out)@ + exprs_text(exprs_view(exprs@), exprs@.len()),
    decreases exprs,
{
    let ghost given = exprs_view(exprs@);
    let mut i: usize = 0;
    assert(out@ =~= old(out)@ + exprs_text(given, 0));
    while i < exprs.len()
        invariant
            i <= exprs@.len(),
            given == exprs_view(exprs@),
            out@ == old(out)@ + exprs_text(given, i as nat),
        decreases exprs@.len() - i,
    {
        if i > 0 {
            put(out, ", ");
        }
        put_part(out, &exprs[i]);
        assert(out@ =~= old(out)@ + exprs_text(given, (i + 1) as nat));
        i += 1;
    }
}

/// The source text of a program: its bindings, one to a line.
pub fn print(ast: &AST) -> (r: Vec<u8>)
    ensures
        r@ == vals_text(ast@, ast@.len()),
{
    let mut out: Vec<u8> = Vec::new();
    put_vals(&mut out, &ast.0);
    assert(out@ =~= vals_text(ast@, ast@.len()));
    out
}

} // verus!
