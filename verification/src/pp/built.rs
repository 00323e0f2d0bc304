//! What the parser builds can be read back: every tree that the grammar
//! yields is made of names and literals that the grammar reads, and has its
//! slots numbered as the nodes are completed.

use crate::ast::{ExprView, ValView};
use crate::grammar::{
    binding, curried, g_args, g_bind, g_bind_val, g_binds, g_bool, g_expr, g_expr0, g_expr1,
    g_expr1_app, g_expr1_mul, g_expr_add, g_expr_fn, g_expr_if, g_expr_let, g_more_binds, g_number,
    g_paren, g_sym, g_syms, g_top, left, skip, slot, spaced,
};
use crate::prim::SymbolView;
use crate::pp::reparse::{
    holds, lemma_no_run, lemma_word, plain_float, plain_name, plain_operand, readable,
    readable_val, readable_vals, starts,
};
use crate::pp::spelling::{spell_false, spell_true};
use crate::text::ascii_chars;
use crate::token::{has_byte, is_run, lemma_run_is_run, lemma_run_len, run_len, Class};
use vstd::prelude::*;
use vstd::utf8::{encode_utf8, is_ascii_chars, is_ascii_chars_encode_utf8};

verus! {

/// The characters of ASCII bytes are ASCII, and their bytes are the bytes.
pub proof fn lemma_chars_of_bytes(bytes: Seq<u8>)
    requires
        forall|i: int| 0 <= i < bytes.len() ==> #[trigger] bytes[i] < 128,
    ensures
        is_ascii_chars(ascii_chars(bytes)),
        encode_utf8(ascii_chars(bytes)) == bytes,
{
    let chars = ascii_chars(bytes);
    assert forall|i: int| 0 <= i < chars.len() implies '\0' <= #[trigger] chars[i] <= '\u{7f}' by {
        assert(bytes[i] < 128);
    }
    is_ascii_chars_encode_utf8(chars);
    assert forall|i: int| 0 <= i < bytes.len() implies encode_utf8(chars)[i] == bytes[i] by {
        assert(bytes[i] < 128);
        assert(chars[i] == bytes[i] as char);
    }
    assert(encode_utf8(chars) =~= bytes);
}

/// Where the white space has been skipped no white space is left.
pub proof fn lemma_skip_ends(s: Seq<u8>, pos: nat)
    requires
        pos <= s.len(),
    ensures
        !spaced(s, skip(s, pos)),
{
    lemma_run_is_run(s, pos, Class::Space);
    lemma_no_run(s, skip(s, pos), Class::Space);
}

/// A symbol that the grammar yields is unresolved and has a plain name.
pub proof fn lemma_built_sym(s: Seq<u8>, pos: nat)
    requires
        pos <= s.len(),
        g_sym(s, pos) is Some,
    ensures
        g_sym(s, pos)->Some_0.0.id == 0,
        plain_name(g_sym(s, pos)->Some_0.0.name),
        g_sym(s, pos)->Some_0.1 == run_len(s, pos, Class::Alnum),
        encode_utf8(g_sym(s, pos)->Some_0.0.name) == s.subrange(
            pos as int,
            (pos + run_len(s, pos, Class::Alnum)) as int,
        ),
{
    let n = run_len(s, pos, Class::Alnum);
    let bytes = s.subrange(pos as int, (pos + n) as int);
    lemma_run_is_run(s, pos, Class::Alnum);
    assert forall|i: int| 0 <= i < bytes.len() implies #[trigger] bytes[i] < 128 by {
        assert(Class::Alnum.has(s[pos + i]));
    }
    lemma_chars_of_bytes(bytes);
    assert forall|i: int| 0 <= i < bytes.len() implies Class::Alnum.has(#[trigger] bytes[i]) by {
        assert(Class::Alnum.has(s[pos + i]));
    }
}

/// The symbols that follow have plain names.
pub proof fn lemma_built_syms(s: Seq<u8>, pos: nat)
    requires
        pos <= s.len(),
    ensures
        forall|i: int|
            0 <= i < g_syms(s, pos).0.len() ==> (#[trigger] g_syms(s, pos).0[i]).id == 0
                && plain_name(g_syms(s, pos).0[i].name),
    decreases left(s, pos),
{
    if pos >= s.len() || !spaced(s, pos) {
    } else {
        lemma_run_is_run(s, pos, Class::Space);
        match g_sym(s, skip(s, pos)) {
            None => {},
            Some((sym, n)) => {
                lemma_built_sym(s, skip(s, pos));
                lemma_run_is_run(s, skip(s, pos), Class::Alnum);
                crate::pp::reparse::lemma_spaced(s, pos);
                let end = skip(s, pos) + n;
                lemma_built_syms(s, end);
                let rest = g_syms(s, end).0;
                assert forall|i: int| 0 <= i < g_syms(s, pos).0.len() implies (
                #[trigger] g_syms(s, pos).0[i]).id == 0 && plain_name(g_syms(s, pos).0[i].name) by {
                    if i > 0 {
                        assert(g_syms(s, pos).0[i] == rest[i - 1]);
                    }
                }
            },
        }
    }
}

/// The function of plain parameters over a readable body is readable.
pub proof fn lemma_built_curried(
    params: Seq<SymbolView>,
    n: nat,
    body: ExprView,
    first: nat,
    next: nat,
)
    requires
        n <= params.len(),
        readable(body, first) == Some(next),
        forall|i: int|
            0 <= i < params.len() ==> (#[trigger] params[i]).id == 0 && plain_name(params[i].name),
    ensures
        readable(curried(params, n, body, next).0, first) == Some(curried(params, n, body, next).1),
        n >= 1 ==> curried(params, n, body, next).0 is Fun,
    decreases n,
{
    if n > 0 {
        lemma_built_curried(params, (n - 1) as nat, body, first, next);
    }
}

/// A first binding that is readable before readable ones makes a readable
/// list with them.
pub proof fn lemma_readable_cons(v: ValView, rest: Seq<ValView>, k: nat, next: nat, next1: nat)
    requires
        k <= rest.len(),
        readable_val(v, next) == Some(next1),
    ensures
        readable_vals(seq![v] + rest, k + 1, next) == readable_vals(rest, k, next1),
    decreases k,
{
    let all = seq![v] + rest;
    if k == 0 {
        assert(readable_vals(all, 0, next) == Some(next));
        assert(all[0] == v);
    } else {
        lemma_readable_cons(v, rest, (k - 1) as nat, next, next1);
        assert(all[k as int] == rest[k - 1]);
    }
}

/// A number that the grammar yields is readable.
pub proof fn lemma_built_number(s: Seq<u8>, pos: nat, next: nat)
    requires
        pos <= s.len(),
        g_number(s, pos, next) is Some,
    ensures
        readable(g_number(s, pos, next)->Some_0.0, next) == Some(g_number(s, pos, next)->Some_0.2),
{
    let d = run_len(s, pos, Class::Digit);
    lemma_run_is_run(s, pos, Class::Digit);
    if has_byte(s, pos + d, 46) {
        let f = run_len(s, pos + d + 1, Class::Digit);
        lemma_run_is_run(s, pos + d + 1, Class::Digit);
        let b = s.subrange(pos as int, (pos + d + 1 + f) as int);
        assert forall|i: int| 0 <= i < b.len() implies #[trigger] b[i] < 128 by {
            if i < d {
                assert(Class::Digit.has(s[pos + i]));
            } else if i > d {
                assert(Class::Digit.has(s[pos + i]));
            }
        }
        lemma_chars_of_bytes(b);
        assert forall|i: int| 0 <= i < d implies Class::Digit.has(#[trigger] b[i]) by {
            assert(Class::Digit.has(s[pos + i]));
        }
        assert(is_run(b, 0, d, Class::Digit));
        lemma_run_len(b, 0, d, Class::Digit);
        assert forall|i: int| d + 1 <= i < d + 1 + f implies Class::Digit.has(#[trigger] b[i]) by {
            assert(Class::Digit.has(s[pos + i]));
        }
        assert(is_run(b, d + 1, f, Class::Digit));
        lemma_run_len(b, d + 1, f, Class::Digit);
        assert(plain_float(ascii_chars(b)));
    }
}

/// An operand that the grammar yields is readable.
pub proof fn lemma_built_expr0(s: Seq<u8>, pos: nat, next: nat)
    requires
        g_expr0(s, pos, next) is Some,
    ensures
        readable(g_expr0(s, pos, next)->Some_0.0, next) == Some(g_expr0(s, pos, next)->Some_0.2),
    decreases left(s, pos), 2nat,
{
    if g_paren(s, pos, next) is Some {
        lemma_built_paren(s, pos, next);
    } else if run_len(s, pos, Class::Digit) >= 1 {
        lemma_built_number(s, pos, next);
    } else if g_bool(s, pos, next) is Some {
    } else {
        lemma_built_sym(s, pos);
        let name = g_sym(s, pos)->Some_0.0;
        let n = g_sym(s, pos)->Some_0.1;
        let bytes = encode_utf8(name.name);
        lemma_run_is_run(s, pos, Class::Alnum);
        lemma_run_is_run(s, pos, Class::Digit);
        assert(bytes[0] == s[pos as int]);
        spell_true();
        spell_false();
        lemma_word(s, pos, "true"@);
        lemma_word(s, pos, "false"@);
        assert(holds(s, pos, bytes)) by {
            reveal(holds);
        }
        if starts(bytes, encode_utf8("true"@)) {
            crate::pp::reparse::lemma_holds_prefix(s, pos, bytes, encode_utf8("true"@));
        }
        if starts(bytes, encode_utf8("false"@)) {
            crate::pp::reparse::lemma_holds_prefix(s, pos, bytes, encode_utf8("false"@));
        }
        assert(plain_operand(name.name));
    }
}

/// An expression in parentheses that the grammar yields is readable.
pub proof fn lemma_built_paren(s: Seq<u8>, pos: nat, next: nat)
    requires
        g_paren(s, pos, next) is Some,
    ensures
        readable(g_paren(s, pos, next)->Some_0.0, next) == Some(g_paren(s, pos, next)->Some_0.2),
    decreases left(s, pos), 1nat,
{
    lemma_built_expr(s, skip(s, pos + 1), next);
}

/// The application that the grammar yields of a readable function to the
/// arguments that follow is readable.
pub proof fn lemma_built_args(s: Seq<u8>, pos: nat, next: nat, fun: ExprView, first: nat)
    requires
        readable(fun, first) == Some(next),
    ensures
        readable(g_args(s, pos, next, fun).0, first) == Some(g_args(s, pos, next, fun).2),
    decreases left(s, pos), 0nat,
{
    if pos >= s.len() || !spaced(s, pos) {
    } else {
        crate::pp::reparse::lemma_spaced(s, pos);
        match g_expr0(s, skip(s, pos), next) {
            None => {},
            Some((arg, l1, next1)) => {
                lemma_built_expr0(s, skip(s, pos), next);
                let app = ExprView::App { ty: slot(next1), fun: Box::new(fun), arg: Box::new(arg) };
                assert(readable(app, first) == Some(next1 + 1));
                lemma_built_args(s, skip(s, pos) + l1, next1 + 1, app, first);
            },
        }
    }
}

/// An operand of a product that the grammar yields is readable.
pub proof fn lemma_built_expr1(s: Seq<u8>, pos: nat, next: nat)
    requires
        g_expr1(s, pos, next) is Some,
    ensures
        readable(g_expr1(s, pos, next)->Some_0.0, next) == Some(g_expr1(s, pos, next)->Some_0.2),
    decreases left(s, pos), 4nat,
{
    if g_expr1_app(s, pos, next) is Some {
        lemma_built_expr0(s, pos, next);
        let (fun, l1, next1) = g_expr0(s, pos, next)->Some_0;
        let q1 = pos + l1;
        crate::pp::reparse::lemma_spaced(s, q1);
        lemma_built_expr0(s, skip(s, q1), next1);
        let (arg, l2, next2) = g_expr0(s, skip(s, q1), next1)->Some_0;
        let first = ExprView::App { ty: slot(next2), fun: Box::new(fun), arg: Box::new(arg) };
        assert(readable(first, next) == Some(next2 + 1));
        lemma_built_args(s, skip(s, q1) + l2, next2 + 1, first, next);
    } else if g_expr1_mul(s, pos, next) is Some {
        lemma_built_expr0(s, pos, next);
        let (l, l1, next1) = g_expr0(s, pos, next)->Some_0;
        let q1 = skip(s, pos + l1);
        lemma_built_expr1(s, skip(s, q1 + 1), next1);
    } else {
        lemma_built_expr0(s, pos, next);
    }
}

/// An expression that the grammar yields is readable.
pub proof fn lemma_built_expr(s: Seq<u8>, pos: nat, next: nat)
    requires
        g_expr(s, pos, next) is Some,
    ensures
        readable(g_expr(s, pos, next)->Some_0.0, next) == Some(g_expr(s, pos, next)->Some_0.2),
    decreases left(s, pos), 6nat,
{
    if g_expr_let(s, pos, next) is Some {
        lemma_built_let(s, pos, next);
    } else if g_expr_fn(s, pos, next) is Some {
        lemma_built_fn(s, pos, next);
    } else if g_expr_if(s, pos, next) is Some {
        lemma_built_if(s, pos, next);
    } else if g_expr_add(s, pos, next) is Some {
        lemma_built_expr1(s, pos, next);
        let (l, l1, next1) = g_expr1(s, pos, next)->Some_0;
        let q1 = skip(s, pos + l1);
        lemma_built_expr(s, skip(s, q1 + 1), next1);
    } else {
        lemma_built_expr1(s, pos, next);
    }
}

/// A function that the grammar yields is readable.
pub proof fn lemma_built_fn(s: Seq<u8>, pos: nat, next: nat)
    requires
        g_expr_fn(s, pos, next) is Some,
    ensures
        readable(g_expr_fn(s, pos, next)->Some_0.0, next) == Some(
            g_expr_fn(s, pos, next)->Some_0.2,
        ),
    decreases left(s, pos), 5nat,
{
    let q1 = pos + "fn"@.len();
    crate::pp::reparse::lemma_spaced(s, q1);
    lemma_run_is_run(s, q1, Class::Space);
    lemma_built_sym(s, skip(s, q1));
    let (param, n) = g_sym(s, skip(s, q1))->Some_0;
    let q2 = skip(s, skip(s, q1) + n);
    let q3 = skip(s, q2 + "=>"@.len());
    lemma_built_expr(s, q3, next);
}

/// A conditional that the grammar yields is readable.
pub proof fn lemma_built_if(s: Seq<u8>, pos: nat, next: nat)
    requires
        g_expr_if(s, pos, next) is Some,
    ensures
        readable(g_expr_if(s, pos, next)->Some_0.0, next) == Some(
            g_expr_if(s, pos, next)->Some_0.2,
        ),
    decreases left(s, pos), 5nat,
{
    let q1 = pos + "if"@.len();
    crate::pp::reparse::lemma_spaced(s, q1);
    let q2 = skip(s, q1);
    lemma_built_expr(s, q2, next);
    let (cond, l1, next1) = g_expr(s, q2, next)->Some_0;
    let q3 = q2 + l1;
    let q4 = skip(s, q3) + "then"@.len();
    crate::pp::reparse::lemma_spaced(s, q4);
    let q5 = skip(s, q4);
    lemma_built_expr(s, q5, next1);
    let (then, l2, next2) = g_expr(s, q5, next1)->Some_0;
    let q6 = q5 + l2;
    let q7 = skip(s, q6) + "else"@.len();
    crate::pp::reparse::lemma_spaced(s, q7);
    let q8 = skip(s, q7);
    lemma_built_expr(s, q8, next2);
}

/// A block that the grammar yields is readable.
pub proof fn lemma_built_let(s: Seq<u8>, pos: nat, next: nat)
    requires
        g_expr_let(s, pos, next) is Some,
    ensures
        readable(g_expr_let(s, pos, next)->Some_0.0, next) == Some(
            g_expr_let(s, pos, next)->Some_0.2,
        ),
    decreases left(s, pos), 5nat,
{
    let q1 = pos + "let"@.len();
    crate::pp::reparse::lemma_spaced(s, q1);
    let q2 = skip(s, q1);
    lemma_built_binds(s, q2, next);
    let (binds, l1, next1) = g_binds(s, q2, next);
    let q3 = q2 + l1;
    lemma_skip_ends(s, q1);
    assert(binds.len() >= 1);
    let q4 = skip(s, q3) + "in"@.len();
    crate::pp::reparse::lemma_spaced(s, q4);
    let q5 = skip(s, q4);
    lemma_built_expr(s, q5, next1);
}

/// A binding that the grammar yields is readable.
pub proof fn lemma_built_bind(s: Seq<u8>, pos: nat, next: nat)
    requires
        g_bind(s, pos, next) is Some,
    ensures
        readable_val(g_bind(s, pos, next)->Some_0.0, next) == Some(g_bind(s, pos, next)->Some_0.2),
    decreases left(s, pos), 8nat,
{
    if g_bind_val(s, pos, next) is Some {
        let q1 = pos + "val"@.len();
        crate::pp::reparse::lemma_spaced(s, q1);
        lemma_run_is_run(s, q1, Class::Space);
        lemma_built_sym(s, skip(s, q1));
        let (name, n) = g_sym(s, skip(s, q1))->Some_0;
        let q2 = skip(s, skip(s, q1) + n);
        let q3 = skip(s, q2 + 1);
        lemma_built_expr(s, q3, next);
    } else {
        let q1 = pos + "fun"@.len();
        crate::pp::reparse::lemma_spaced(s, q1);
        lemma_run_is_run(s, q1, Class::Space);
        lemma_built_sym(s, skip(s, q1));
        lemma_run_is_run(s, skip(s, q1), Class::Alnum);
        let (name, n) = g_sym(s, skip(s, q1))->Some_0;
        let q2 = skip(s, q1) + n;
        lemma_built_syms(s, q2);
        let (params, m) = g_syms(s, q2);
        let q3 = skip(s, q2 + m);
        let q4 = skip(s, q3 + 1);
        lemma_built_expr(s, q4, next);
        let (body, l, next1) = g_expr(s, q4, next)->Some_0;
        lemma_built_curried(params, params.len(), body, next, next1);
    }
}

/// The bindings that the grammar yields are readable.
pub proof fn lemma_built_binds(s: Seq<u8>, pos: nat, next: nat)
    ensures
        readable_vals(g_binds(s, pos, next).0, g_binds(s, pos, next).0.len(), next) == Some(
            g_binds(s, pos, next).2,
        ),
        g_binds(s, pos, next).0.len() == 0 ==> g_binds(s, pos, next).1 == 0,
    decreases left(s, pos), 9nat,
{
    match g_bind(s, pos, next) {
        None => {},
        Some((v, l, next1)) => {
            lemma_built_bind(s, pos, next);
            lemma_built_more(s, pos + l, next1);
            let (rest, m, next2) = g_more_binds(s, pos + l, next1);
            lemma_readable_cons(v, rest, rest.len(), next, next1);
        },
    }
}

/// The bindings that follow, as the grammar yields them, are readable.
pub proof fn lemma_built_more(s: Seq<u8>, pos: nat, next: nat)
    ensures
        readable_vals(
            g_more_binds(s, pos, next).0,
            g_more_binds(s, pos, next).0.len(),
            next,
        ) == Some(g_more_binds(s, pos, next).2),
    decreases left(s, pos), 0nat,
{
    if pos >= s.len() || !spaced(s, pos) {
    } else {
        crate::pp::reparse::lemma_spaced(s, pos);
        match g_bind(s, skip(s, pos), next) {
            None => {},
            Some((v, l, next1)) => {
                lemma_built_bind(s, skip(s, pos), next);
                let q1 = skip(s, pos) + l;
                lemma_built_more(s, q1, next1);
                let (rest, m, next2) = g_more_binds(s, q1, next1);
                lemma_readable_cons(v, rest, rest.len(), next, next1);
            },
        }
    }
}

/// A program that the grammar yields is readable.
pub proof fn lemma_built_program(s: Seq<u8>, next: nat)
    requires
        g_top(s, next) is Ok,
    ensures
        readable_vals(g_top(s, next)->Ok_0.0, g_top(s, next)->Ok_0.0.len(), next) == Some(
            g_top(s, next)->Ok_0.1,
        ),
{
    lemma_built_binds(s, skip(s, 0), next);
}

} // verus!
