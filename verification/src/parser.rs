//! The parser: source bytes in, syntax tree out, as the grammar says.

use crate::ast::{
    lemma_binds_view, vals_view, Expr, ExprView, Pattern, TyDefer, TySlots, TypeError, TypeView,
    Val, ValView, AST,
};
use crate::grammar::{
    binding, curried, g_args, g_bind, g_bind_fun, g_bind_val, g_binds, g_bool, g_expr, g_expr0,
    g_expr1, g_expr_fn, g_expr_if, g_expr_let, g_more_binds, g_name, g_number, g_paren, g_sym,
    g_syms, g_top, reserved, skip, slot, Parsed,
};
use crate::prim::{Literal, Symbol, SymbolView};
use crate::text::{is_ascii_bytes, read_decimal, string_from_ascii};
use crate::token::{at, has_word, is_text, lemma_run_is_run, run, tag, Class};
use vstd::prelude::*;
use vstd::slice::{slice_subrange, slice_to_vec};

verus! {

/// Whether `after` is `before` with empty slots added at its end.
#[verifier::opaque]
pub open spec fn extends(before: Seq<Option<TypeView>>, after: Seq<Option<TypeView>>) -> bool {
    &&& before.len() <= after.len()
    &&& forall|i: int| 0 <= i < before.len() ==> #[trigger] after[i] == before[i]
    &&& forall|i: int| before.len() <= i < after.len() ==> #[trigger] after[i] is None
}

/// Whether the outcome `r` of parsing an expression at `pos` is what the
/// grammar gives, the table of slots going from `before` to `after`: on
/// success the tree, the position behind it and one empty slot more for
/// each slot of the tree; on failure nothing and the table as it was.
pub open spec fn expr_done(
    g: Parsed<ExprView>,
    r: Option<(Expr, usize)>,
    s: Seq<u8>,
    pos: usize,
    before: Seq<Option<TypeView>>,
    after: Seq<Option<TypeView>>,
) -> bool {
    match g {
        Some((e, len, next)) => {
            &&& r is Some
            &&& r->Some_0.0@ == e
            &&& r->Some_0.1 == pos + len
            &&& pos + len <= s.len()
            &&& next == after.len()
            &&& extends(before, after)
        },
        None => r is None && after == before,
    }
}

/// The same of a binding.
pub open spec fn val_done(
    g: Parsed<ValView>,
    r: Option<(Val, usize)>,
    s: Seq<u8>,
    pos: usize,
    before: Seq<Option<TypeView>>,
    after: Seq<Option<TypeView>>,
) -> bool {
    match g {
        Some((v, len, next)) => {
            &&& r is Some
            &&& r->Some_0.0@ == v
            &&& r->Some_0.1 == pos + len
            &&& pos + len <= s.len()
            &&& next == after.len()
            &&& extends(before, after)
        },
        None => r is None && after == before,
    }
}

/// Views of a list of symbols, in order.
pub open spec fn symbols_view(symbols: Seq<Symbol>) -> Seq<SymbolView> {
    Seq::new(symbols.len(), |i: int| symbols[i]@)
}

/// Adding empty slots goes on from where it stopped.
pub proof fn lemma_extends()
    ensures
        forall|a: Seq<Option<TypeView>>| #[trigger] extends(a, a),
        forall|a: Seq<Option<TypeView>>, b: Seq<Option<TypeView>>|
            extends(a, b) ==> #[trigger] extends(a, b.push(None)),
        forall|a: Seq<Option<TypeView>>, b: Seq<Option<TypeView>>, c: Seq<Option<TypeView>>|
            #[trigger] extends(a, b) && #[trigger] extends(b, c) ==> extends(a, c),
        forall|a: Seq<Option<TypeView>>, b: Seq<Option<TypeView>>| #[trigger]
            extends(a, b) ==> a.len() <= b.len(),
{
    reveal(extends);
}

/// Drop the slots added since the table was `was`.
fn rewind(slots: &mut TySlots, mark: usize, Ghost(was): Ghost<Seq<Option<TypeView>>>)
    requires
        extends(was, old(slots)@),
        was.len() == mark,
    ensures
        final(slots)@ == was,
{
    reveal(extends);
    slots.truncate(mark);
    assert(slots@ =~= was);
}

/// A new empty slot.
fn fresh(slots: &mut TySlots) -> (r: TyDefer)
    ensures
        r == slot(old(slots)@.len()),
        final(slots)@.len() == old(slots)@.len() + 1,
        extends(old(slots)@, final(slots)@),
{
    proof {
        lemma_extends();
    }
    TyDefer::empty(slots)
}

/// The string of the `n` bytes from `pos` on, which are ASCII.
fn text_of(input: &[u8], pos: usize, n: usize) -> (r: String)
    requires
        pos + n <= input.len(),
        is_ascii_bytes(input@.subrange(pos as int, pos + n)),
    ensures
        r@ == crate::text::ascii_chars(input@.subrange(pos as int, pos + n)),
{
    string_from_ascii(slice_to_vec(slice_subrange(input, pos, pos + n)))
}

/// Whether the `n` bytes from `pos` on spell `word`.
fn word_is(input: &[u8], pos: usize, n: usize, word: &str) -> (r: bool)
    requires
        pos + n <= input.len(),
    ensures
        r == is_text(input@.subrange(pos as int, pos + n), word@),
{
    reveal(is_text);
    reveal(has_word);
    match tag(input, pos, word) {
        Some(end) => end == pos + n,
        None => false,
    }
}

/// Whether the `n` bytes from `pos` on spell a reserved word.
fn is_reserved(input: &[u8], pos: usize, n: usize) -> (r: bool)
    requires
        pos + n <= input.len(),
    ensures
        r == reserved(input@.subrange(pos as int, pos + n)),
{
    word_is(input, pos, n, "val") || word_is(input, pos, n, "fun") || word_is(input, pos, n, "fn")
        || word_is(input, pos, n, "let") || word_is(input, pos, n, "in") || word_is(
        input,
        pos,
        n,
        "end",
    ) || word_is(input, pos, n, "if") || word_is(input, pos, n, "then") || word_is(
        input,
        pos,
        n,
        "else",
    )
}

/// The position behind the white space at `pos`, if any.
fn skip_space(input: &[u8], pos: usize) -> (r: usize)
    requires
        pos <= input.len(),
    ensures
        r == skip(input@, pos as nat),
        pos <= r <= input.len(),
{
    pos + run(input, pos, Class::Space)
}

/// Where `word` and white space behind it stand at `pos`, the position
/// behind both.
fn keyword(input: &[u8], pos: usize, word: &str) -> (r: Option<usize>)
    requires
        pos <= input.len(),
    ensures
        match r {
            Some(end) => {
                &&& has_word(input@, pos as nat, word@)
                &&& crate::grammar::spaced(input@, pos as nat + word@.len())
                &&& end == skip(input@, pos as nat + word@.len())
                &&& pos < end <= input.len()
            },
            None => !has_word(input@, pos as nat, word@) || !crate::grammar::spaced(
                input@,
                pos as nat + word@.len(),
            ),
        },
{
    match tag(input, pos, word) {
        None => None,
        Some(p) => {
            let w = run(input, p, Class::Space);
            if w == 0 {
                None
            } else {
                Some(p + w)
            }
        },
    }
}

/// Where white space, `word` and white space again stand at `pos`, the
/// position behind them.
fn spaced_keyword(input: &[u8], pos: usize, word: &str) -> (r: Option<usize>)
    requires
        pos <= input.len(),
    ensures
        match r {
            Some(end) => {
                &&& crate::grammar::spaced(input@, pos as nat)
                &&& has_word(input@, skip(input@, pos as nat), word@)
                &&& crate::grammar::spaced(input@, skip(input@, pos as nat) + word@.len())
                &&& end == skip(input@, skip(input@, pos as nat) + word@.len())
                &&& pos < end <= input.len()
            },
            None => {
                ||| !crate::grammar::spaced(input@, pos as nat)
                ||| !has_word(input@, skip(input@, pos as nat), word@)
                ||| !crate::grammar::spaced(input@, skip(input@, pos as nat) + word@.len())
            },
        },
{
    let w = run(input, pos, Class::Space);
    if w == 0 {
        None
    } else {
        keyword(input, pos + w, word)
    }
}

/// `sym`.
fn sym(input: &[u8], pos: usize) -> (r: Option<(Symbol, usize)>)
    requires
        pos <= input.len(),
    ensures
        match g_sym(input@, pos as nat) {
            Some((name, n)) => {
                &&& r is Some
                &&& r->Some_0.0@ == name
                &&& r->Some_0.1 == pos + n
                &&& n >= 1
                &&& pos + n <= input.len()
            },
            None => r is None,
        },
{
    let n = run(input, pos, Class::Alnum);
    if n == 0 || is_reserved(input, pos, n) {
        None
    } else {
        proof {
            lemma_run_is_run(input@, pos as nat, Class::Alnum);
            let bytes = input@.subrange(pos as int, pos + n);
            assert forall|i: int| 0 <= i < bytes.len() implies #[trigger] bytes[i] < 128 by {
                assert(Class::Alnum.has(input@[pos + i]));
            }
        }
        Some((Symbol(text_of(input, pos, n), 0), pos + n))
    }
}

/// `(ws sym)*`.
fn syms(input: &[u8], pos: usize) -> (r: (Vec<Symbol>, usize))
    requires
        pos <= input.len(),
    ensures
        symbols_view(r.0@) == g_syms(input@, pos as nat).0,
        r.1 == pos + g_syms(input@, pos as nat).1,
        r.1 <= input.len(),
{
    let ghost s = input@;
    let mut out: Vec<Symbol> = Vec::new();
    let mut p: usize = pos;
    let mut more = true;
    assert(symbols_view(out@) + g_syms(s, p as nat).0 =~= g_syms(s, pos as nat).0);
    while more
        invariant
            s == input@,
            s.len() == input.len(),
            pos <= p <= s.len(),
            g_syms(s, pos as nat).0 == symbols_view(out@) + g_syms(s, p as nat).0,
            g_syms(s, pos as nat).1 == (p - pos) + g_syms(s, p as nat).1,
            !more ==> g_syms(s, p as nat) == (Seq::<SymbolView>::empty(), 0nat),
        decreases s.len() - p + (if more { 1nat } else { 0nat }),
    {
        let w = run(input, p, Class::Space);
        if w == 0 {
            more = false;
        } else {
            match sym(input, p + w) {
                None => {
                    more = false;
                },
                Some((name, end)) => {
                    let ghost before = out@;
                    let ghost tail = g_syms(s, end as nat).0;
                    out.push(name);
                    assert(symbols_view(out@) + tail =~= symbols_view(before) + (seq![name@]
                        + tail));
                    p = end;
                },
            }
        }
    }
    assert(symbols_view(out@) + Seq::<SymbolView>::empty() =~= symbols_view(out@));
    (out, p)
}


/// `float | int`.
fn number(input: &[u8], pos: usize, slots: &mut TySlots) -> (r: Option<(Expr, usize)>)
    requires
        pos <= input.len(),
    ensures
        expr_done(
            g_number(input@, pos as nat, old(slots)@.len()),
            r,
            input@,
            pos,
            old(slots)@,
            final(slots)@,
        ),
{
    proof {
        lemma_extends();
    }
    let d = run(input, pos, Class::Digit);
    if d == 0 {
        return None;
    }
    proof {
        lemma_run_is_run(input@, pos as nat, Class::Digit);
    }
    if at(input, pos + d, '.' as u8) {
        let f = run(input, pos + d + 1, Class::Digit);
        proof {
            lemma_run_is_run(input@, (pos + d + 1) as nat, Class::Digit);
            let bytes = input@.subrange(pos as int, pos + d + 1 + f);
            assert forall|i: int| 0 <= i < bytes.len() implies #[trigger] bytes[i] < 128 by {
                if i < d {
                    assert(Class::Digit.has(input@[pos + i]));
                } else if i > d {
                    assert(Class::Digit.has(input@[pos + i]));
                }
            }
        }
        let text = text_of(input, pos, d + 1 + f);
        let ty = fresh(slots);
        Some((Expr::Lit { ty, value: Literal::Float(text) }, pos + d + 1 + f))
    } else {
        assert forall|i: int| pos <= i < pos + d implies 48 <= #[trigger] input@[i] <= 57 by {
            assert(Class::Digit.has(input@[i]));
        }
        match read_decimal(input, pos, d) {
            None => None,
            Some(value) => {
                let ty = fresh(slots);
                Some((Expr::Lit { ty, value: Literal::Int(value) }, pos + d))
            },
        }
    }
}

/// `bool`.
fn boolean(input: &[u8], pos: usize, slots: &mut TySlots) -> (r: Option<(Expr, usize)>)
    requires
        pos <= input.len(),
    ensures
        expr_done(
            g_bool(input@, pos as nat, old(slots)@.len()),
            r,
            input@,
            pos,
            old(slots)@,
            final(slots)@,
        ),
{
    proof {
        lemma_extends();
    }
    match tag(input, pos, "true") {
        Some(end) => {
            let ty = fresh(slots);
            Some((Expr::Lit { ty, value: Literal::Bool(true) }, end))
        },
        None => match tag(input, pos, "false") {
            Some(end) => {
                let ty = fresh(slots);
                Some((Expr::Lit { ty, value: Literal::Bool(false) }, end))
            },
            None => None,
        },
    }
}

/// A symbol that stands as an expression.
fn name(input: &[u8], pos: usize, slots: &mut TySlots) -> (r: Option<(Expr, usize)>)
    requires
        pos <= input.len(),
    ensures
        expr_done(
            g_name(input@, pos as nat, old(slots)@.len()),
            r,
            input@,
            pos,
            old(slots)@,
            final(slots)@,
        ),
{
    proof {
        lemma_extends();
    }
    match sym(input, pos) {
        None => None,
        Some((name, end)) => {
            let ty = fresh(slots);
            Some((Expr::Sym { ty, name }, end))
        },
    }
}

/// The function of `params`, one parameter at a time, over `body`.
fn curry(params: &Vec<Symbol>, body: Expr, slots: &mut TySlots) -> (r: Expr)
    ensures
        (r@, final(slots)@.len()) == curried(
            symbols_view(params@),
            params@.len(),
            body@,
            old(slots)@.len(),
        ),
        extends(old(slots)@, final(slots)@),
{
    proof {
        lemma_extends();
    }
    let ghost given = symbols_view(params@);
    let ghost inner = body@;
    let ghost first = slots@.len();
    let n = params.len();
    let mut acc = body;
    let mut j: usize = 0;
    while j < n
        invariant
            j <= n,
            n == params@.len(),
            given == symbols_view(params@),
            (acc@, slots@.len()) == curried(given, j as nat, inner, first),
            extends(old(slots)@, slots@),
        decreases n - j,
    {
        proof {
            lemma_extends();
        }
        let param_ty = fresh(slots);
        let body_ty = fresh(slots);
        let param = params[n - 1 - j].duplicate();
        acc = Expr::Fun { param_ty, param, body_ty, body: Box::new(acc) };
        j += 1;
    }
    acc
}

/// `expr`.
fn expr(input: &[u8], pos: usize, slots: &mut TySlots) -> (r: Option<(Expr, usize)>)
    requires
        pos <= input.len(),
    ensures
        expr_done(
            g_expr(input@, pos as nat, old(slots)@.len()),
            r,
            input@,
            pos,
            old(slots)@,
            final(slots)@,
        ),
    decreases input.len() - pos, 6nat,
{
    proof {
        lemma_extends();
    }
    if pos >= input.len() {
        return None;
    }
    match expr_let(input, pos, slots) {
        Some(found) => {
            return Some(found);
        },
        None => {},
    }
    match expr_fn(input, pos, slots) {
        Some(found) => {
            return Some(found);
        },
        None => {},
    }
    match expr_if(input, pos, slots) {
        Some(found) => {
            return Some(found);
        },
        None => {},
    }
    match expr1(input, pos, slots) {
        None => None,
        Some((l, end)) => {
            let q1 = skip_space(input, end);
            if at(input, q1, '+' as u8) {
                let q2 = skip_space(input, q1 + 1);
                match expr(input, q2, slots) {
                    Some((r, end2)) => {
                        let ty = fresh(slots);
                        let op = Symbol::new("+");
                        return Some(
                            (Expr::BinOp { op, ty, l: Box::new(l), r: Box::new(r) }, end2),
                        );
                    },
                    None => {},
                }
            }
            Some((l, end))
        },
    }
}

/// `expr_let`.
fn expr_let(input: &[u8], pos: usize, slots: &mut TySlots) -> (r: Option<(Expr, usize)>)
    requires
        pos < input.len(),
    ensures
        expr_done(
            g_expr_let(input@, pos as nat, old(slots)@.len()),
            r,
            input@,
            pos,
            old(slots)@,
            final(slots)@,
        ),
    decreases input.len() - pos, 5nat,
{
    proof {
        lemma_extends();
    }
    let mark = slots.len();
    let q2 = match keyword(input, pos, "let") {
        None => {
            return None;
        },
        Some(p) => p,
    };
    let (vals, q3) = binds(input, q2, slots);
    let q5 = match spaced_keyword(input, q3, "in") {
        None => {
            rewind(slots, mark, Ghost(old(slots)@));
            return None;
        },
        Some(p) => p,
    };
    match expr(input, q5, slots) {
        None => {
            rewind(slots, mark, Ghost(old(slots)@));
            None
        },
        Some((ret, q6)) => {
            let w = run(input, q6, Class::Space);
            let found = if w == 0 {
                None
            } else {
                tag(input, q6 + w, "end")
            };
            match found {
                None => {
                    rewind(slots, mark, Ghost(old(slots)@));
                    None
                },
                Some(end) => {
                    let ty = fresh(slots);
                    proof {
                        lemma_binds_view(ty, vals, Box::new(ret));
                    }
                    Some((Expr::Binds { ty, binds: vals, ret: Box::new(ret) }, end))
                },
            }
        },
    }
}

/// `expr_fn`.
fn expr_fn(input: &[u8], pos: usize, slots: &mut TySlots) -> (r: Option<(Expr, usize)>)
    requires
        pos < input.len(),
    ensures
        expr_done(
            g_expr_fn(input@, pos as nat, old(slots)@.len()),
            r,
            input@,
            pos,
            old(slots)@,
            final(slots)@,
        ),
    decreases input.len() - pos, 5nat,
{
    proof {
        lemma_extends();
    }
    let q1 = match keyword(input, pos, "fn") {
        None => {
            return None;
        },
        Some(p) => p,
    };
    let (param, end) = match sym(input, q1) {
        None => {
            return None;
        },
        Some(found) => found,
    };
    let q2 = skip_space(input, end);
    let arrow = match tag(input, q2, "=>") {
        None => {
            return None;
        },
        Some(p) => p,
    };
    let q3 = skip_space(input, arrow);
    match expr(input, q3, slots) {
        None => None,
        Some((body, end2)) => {
            let param_ty = fresh(slots);
            let body_ty = fresh(slots);
            Some((Expr::Fun { param_ty, param, body_ty, body: Box::new(body) }, end2))
        },
    }
}

/// `expr_if`.
fn expr_if(input: &[u8], pos: usize, slots: &mut TySlots) -> (r: Option<(Expr, usize)>)
    requires
        pos < input.len(),
    ensures
        expr_done(
            g_expr_if(input@, pos as nat, old(slots)@.len()),
            r,
            input@,
            pos,
            old(slots)@,
            final(slots)@,
        ),
    decreases input.len() - pos, 5nat,
{
    proof {
        lemma_extends();
    }
    let mark = slots.len();
    let q2 = match keyword(input, pos, "if") {
        None => {
            return None;
        },
        Some(p) => p,
    };
    let (cond, q3) = match expr(input, q2, slots) {
        None => {
            return None;
        },
        Some(found) => found,
    };
    let q5 = match spaced_keyword(input, q3, "then") {
        None => {
            rewind(slots, mark, Ghost(old(slots)@));
            return None;
        },
        Some(p) => p,
    };
    let (then, q6) = match expr(input, q5, slots) {
        None => {
            rewind(slots, mark, Ghost(old(slots)@));
            return None;
        },
        Some(found) => found,
    };
    let q8 = match spaced_keyword(input, q6, "else") {
        None => {
            rewind(slots, mark, Ghost(old(slots)@));
            return None;
        },
        Some(p) => p,
    };
    match expr(input, q8, slots) {
        None => {
            rewind(slots, mark, Ghost(old(slots)@));
            None
        },
        Some((else_, end)) => {
            let ty = fresh(slots);
            Some(
                (
                    Expr::If {
                        ty,
                        cond: Box::new(cond),
                        then: Box::new(then),
                        else_: Box::new(else_),
                    },
                    end,
                ),
            )
        },
    }
}

/// `expr1`.
fn expr1(input: &[u8], pos: usize, slots: &mut TySlots) -> (r: Option<(Expr, usize)>)
    requires
        pos <= input.len(),
    ensures
        expr_done(
            g_expr1(input@, pos as nat, old(slots)@.len()),
            r,
            input@,
            pos,
            old(slots)@,
            final(slots)@,
        ),
    decreases input.len() - pos, 4nat,
{
    proof {
        lemma_extends();
    }
    if pos >= input.len() {
        return None;
    }
    match expr0(input, pos, slots) {
        None => None,
        Some((first, q1)) => {
            let w = run(input, q1, Class::Space);
            if w >= 1 {
                match expr0(input, q1 + w, slots) {
                    Some((arg, q2)) => {
                        let ty = fresh(slots);
                        let app = Expr::App { ty, fun: Box::new(first), arg: Box::new(arg) };
                        return Some(args(input, q2, slots, app));
                    },
                    None => {},
                }
            }
            if at(input, q1 + w, '*' as u8) {
                let q3 = skip_space(input, q1 + w + 1);
                match expr1(input, q3, slots) {
                    Some((r, end)) => {
                        let ty = fresh(slots);
                        let op = Symbol::new("*");
                        return Some(
                            (Expr::BinOp { op, ty, l: Box::new(first), r: Box::new(r) }, end),
                        );
                    },
                    None => {},
                }
            }
            Some((first, q1))
        },
    }
}

/// `(ws expr0)*` behind the function `fun`.
fn args(input: &[u8], pos: usize, slots: &mut TySlots, fun: Expr) -> (r: (Expr, usize))
    requires
        pos <= input.len(),
    ensures
        r.0@ == g_args(input@, pos as nat, old(slots)@.len(), fun@).0,
        r.1 == pos + g_args(input@, pos as nat, old(slots)@.len(), fun@).1,
        r.1 <= input.len(),
        final(slots)@.len() == g_args(input@, pos as nat, old(slots)@.len(), fun@).2,
        extends(old(slots)@, final(slots)@),
    decreases input.len() - pos, 0nat,
{
    proof {
        lemma_extends();
    }
    let ghost s = input@;
    let ghost whole = g_args(s, pos as nat, slots@.len(), fun@);
    let mut acc = fun;
    let mut p: usize = pos;
    let mut more = true;
    while more
        invariant
            s == input@,
            s.len() == input.len(),
            pos <= p <= s.len(),
            extends(old(slots)@, slots@),
            whole.0 == g_args(s, p as nat, slots@.len(), acc@).0,
            whole.1 == (p - pos) + g_args(s, p as nat, slots@.len(), acc@).1,
            whole.2 == g_args(s, p as nat, slots@.len(), acc@).2,
            !more ==> g_args(s, p as nat, slots@.len(), acc@) == (acc@, 0nat, slots@.len()),
        decreases s.len() - p + (if more { 1nat } else { 0nat }),
    {
        proof {
            lemma_extends();
        }
        let w = run(input, p, Class::Space);
        if w == 0 {
            more = false;
        } else {
            match expr0(input, p + w, slots) {
                None => {
                    more = false;
                },
                Some((arg, end)) => {
                    let ty = fresh(slots);
                    acc = Expr::App { ty, fun: Box::new(acc), arg: Box::new(arg) };
                    p = end;
                },
            }
        }
    }
    (acc, p)
}

/// `expr0`.
fn expr0(input: &[u8], pos: usize, slots: &mut TySlots) -> (r: Option<(Expr, usize)>)
    requires
        pos <= input.len(),
    ensures
        expr_done(
            g_expr0(input@, pos as nat, old(slots)@.len()),
            r,
            input@,
            pos,
            old(slots)@,
            final(slots)@,
        ),
    decreases input.len() - pos, 2nat,
{
    proof {
        lemma_extends();
    }
    if pos >= input.len() {
        return None;
    }
    match paren(input, pos, slots) {
        Some(found) => {
            return Some(found);
        },
        None => {},
    }
    if run(input, pos, Class::Digit) >= 1 {
        number(input, pos, slots)
    } else {
        match boolean(input, pos, slots) {
            Some(found) => Some(found),
            None => name(input, pos, slots),
        }
    }
}

/// An expression in parentheses.
fn paren(input: &[u8], pos: usize, slots: &mut TySlots) -> (r: Option<(Expr, usize)>)
    requires
        pos < input.len(),
    ensures
        expr_done(
            g_paren(input@, pos as nat, old(slots)@.len()),
            r,
            input@,
            pos,
            old(slots)@,
            final(slots)@,
        ),
    decreases input.len() - pos, 1nat,
{
    proof {
        lemma_extends();
    }
    if !at(input, pos, '(' as u8) {
        return None;
    }
    let mark = slots.len();
    let q1 = skip_space(input, pos + 1);
    match expr(input, q1, slots) {
        None => None,
        Some((e, end)) => {
            let q2 = skip_space(input, end);
            if at(input, q2, ')' as u8) {
                Some((e, q2 + 1))
            } else {
                rewind(slots, mark, Ghost(old(slots)@));
                None
            }
        },
    }
}

/// The binding of `name` to `expr`, with two new slots.
fn bound(rec: bool, name: Symbol, expr: Expr, slots: &mut TySlots) -> (r: Val)
    ensures
        r@ == binding(rec, name@, expr@, old(slots)@.len()),
        final(slots)@.len() == old(slots)@.len() + 2,
        extends(old(slots)@, final(slots)@),
{
    proof {
        lemma_extends();
    }
    let ty = fresh(slots);
    let name_ty = fresh(slots);
    Val { ty, rec, pattern: Pattern::Var { name, ty: name_ty }, expr }
}

/// `bind`.
fn bind(input: &[u8], pos: usize, slots: &mut TySlots) -> (r: Option<(Val, usize)>)
    requires
        pos <= input.len(),
    ensures
        val_done(
            g_bind(input@, pos as nat, old(slots)@.len()),
            r,
            input@,
            pos,
            old(slots)@,
            final(slots)@,
        ),
    decreases input.len() - pos, 8nat,
{
    proof {
        lemma_extends();
    }
    if pos >= input.len() {
        return None;
    }
    match bind_val(input, pos, slots) {
        Some(found) => Some(found),
        None => bind_fun(input, pos, slots),
    }
}

/// `bind_val`.
fn bind_val(input: &[u8], pos: usize, slots: &mut TySlots) -> (r: Option<(Val, usize)>)
    requires
        pos < input.len(),
    ensures
        val_done(
            g_bind_val(input@, pos as nat, old(slots)@.len()),
            r,
            input@,
            pos,
            old(slots)@,
            final(slots)@,
        ),
    decreases input.len() - pos, 7nat,
{
    proof {
        lemma_extends();
    }
    let q1 = match keyword(input, pos, "val") {
        None => {
            return None;
        },
        Some(p) => p,
    };
    let (name, end) = match sym(input, q1) {
        None => {
            return None;
        },
        Some(found) => found,
    };
    let q2 = skip_space(input, end);
    if !at(input, q2, '=' as u8) {
        return None;
    }
    let q3 = skip_space(input, q2 + 1);
    match expr(input, q3, slots) {
        None => None,
        Some((expr, end2)) => {
            Some((bound(false, name, expr, slots), end2))
        },
    }
}

/// `bind_fun`.
fn bind_fun(input: &[u8], pos: usize, slots: &mut TySlots) -> (r: Option<(Val, usize)>)
    requires
        pos < input.len(),
    ensures
        val_done(
            g_bind_fun(input@, pos as nat, old(slots)@.len()),
            r,
            input@,
            pos,
            old(slots)@,
            final(slots)@,
        ),
    decreases input.len() - pos, 7nat,
{
    proof {
        lemma_extends();
    }
    let q1 = match keyword(input, pos, "fun") {
        None => {
            return None;
        },
        Some(p) => p,
    };
    let (name, q2) = match sym(input, q1) {
        None => {
            return None;
        },
        Some(found) => found,
    };
    let (params, end) = syms(input, q2);
    let q3 = skip_space(input, end);
    if params.len() == 0 || !at(input, q3, '=' as u8) {
        return None;
    }
    let q4 = skip_space(input, q3 + 1);
    match expr(input, q4, slots) {
        None => None,
        Some((body, end2)) => {
            let fun = curry(&params, body, slots);
            Some((bound(true, name, fun, slots), end2))
        },
    }
}

/// `(bind (ws bind)*)?`.
fn binds(input: &[u8], pos: usize, slots: &mut TySlots) -> (r: (Vec<Val>, usize))
    requires
        pos <= input.len(),
    ensures
        vals_view(r.0@) == g_binds(input@, pos as nat, old(slots)@.len()).0,
        r.1 == pos + g_binds(input@, pos as nat, old(slots)@.len()).1,
        r.1 <= input.len(),
        final(slots)@.len() == g_binds(input@, pos as nat, old(slots)@.len()).2,
        extends(old(slots)@, final(slots)@),
    decreases input.len() - pos, 9nat,
{
    proof {
        lemma_extends();
    }
    let ghost s = input@;
    let mut out: Vec<Val> = Vec::new();
    let (first, q1) = match bind(input, pos, slots) {
        None => {
            assert(vals_view(out@) =~= Seq::empty());
            return (out, pos);
        },
        Some(found) => found,
    };
    let ghost whole = g_more_binds(s, q1 as nat, slots@.len());
    let ghost head = first@;
    out.push(first);
    let mut p: usize = q1;
    let mut more = true;
    assert(vals_view(out@) + whole.0 =~= seq![head] + whole.0);
    while more
        invariant
            s == input@,
            s.len() == input.len(),
            pos <= q1 <= p <= s.len(),
            extends(old(slots)@, slots@),
            seq![head] + whole.0 == vals_view(out@) + g_more_binds(s, p as nat, slots@.len()).0,
            whole.1 == (p - q1) + g_more_binds(s, p as nat, slots@.len()).1,
            whole.2 == g_more_binds(s, p as nat, slots@.len()).2,
            !more ==> g_more_binds(s, p as nat, slots@.len()) == (
                Seq::<ValView>::empty(),
                0nat,
                slots@.len(),
            ),
        decreases s.len() - p + (if more { 1nat } else { 0nat }),
    {
        proof {
            lemma_extends();
        }
        let w = run(input, p, Class::Space);
        if w == 0 {
            more = false;
        } else {
            match bind(input, p + w, slots) {
                None => {
                    more = false;
                },
                Some((v, end)) => {
                    let ghost before = out@;
                    let ghost tail = g_more_binds(s, end as nat, slots@.len()).0;
                    out.push(v);
                    assert(vals_view(out@) + tail =~= vals_view(before) + (seq![v@] + tail));
                    p = end;
                },
            }
        }
    }
    assert(vals_view(out@) + Seq::<ValView>::empty() =~= vals_view(out@));
    (out, p)
}

/// Parse a whole source text.  On success the tree is the one that the
/// grammar gives for the text, and the table has one new empty slot for
/// each slot of the tree.  On failure the error names the position at which
/// the text stops being a sequence of bindings, and the table is as it was.
pub fn parse(input: &[u8], slots: &mut TySlots) -> (r: Result<AST, TypeError>)
    ensures
        match g_top(input@, old(slots)@.len()) {
            Ok((vals, next)) => {
                &&& r is Ok
                &&& r->Ok_0@ == vals
                &&& old(slots)@.len() <= next
                &&& final(slots)@ == old(slots)@ + Seq::new(
                    (next - old(slots)@.len()) as nat,
                    |i: int| None::<TypeView>,
                )
            },
            Err(at) => {
                &&& r == Err::<AST, TypeError>(TypeError::ParseError(at as usize))
                &&& final(slots)@ == old(slots)@
            },
        },
{
    proof {
        lemma_extends();
    }
    let mark = slots.len();
    let q1 = skip_space(input, 0);
    let (vals, end) = binds(input, q1, slots);
    let q2 = skip_space(input, end);
    if q2 == input.len() {
        proof {
            reveal(extends);
            assert(slots@ =~= old(slots)@ + Seq::new(
                (slots@.len() - old(slots)@.len()) as nat,
                |i: int| None::<TypeView>,
            ));
        }
        Ok(AST(vals))
    } else {
        rewind(slots, mark, Ghost(old(slots)@));
        Err(TypeError::ParseError(q2))
    }
}

} // verus!
