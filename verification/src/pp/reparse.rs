//! Reading back what was printed: the text of a tree that the parser can
//! build parses to that tree.

use crate::ast::{ExprView, PatternView, ValView};
use crate::grammar::{
    binding, g_bind, g_binds, g_bool, g_expr, g_expr0, g_expr1, g_expr_fn, g_expr_if, g_expr_let,
    g_more_binds, g_name, g_number, g_paren, g_sym, g_top, reserved, skip, slot, spaced,
};
use crate::pp::{expr_text, is_atom, numeral, part_text, val_text, vals_text};
use crate::prim::{LiteralView, SymbolView};
use crate::grammar::rules::{
    rule_app, rule_binds, rule_fn, rule_fun, rule_if, rule_let, rule_more_binds,
    rule_no_more_binds, rule_not_fn, rule_not_let, rule_operand, rule_paren, rule_plain,
    rule_product, rule_sum, rule_val,
};
use crate::pp::spelling::{
    spell_arrow, spell_close, spell_else, spell_end, spell_false, spell_fn, spell_fn_sp, spell_fun,
    spell_fun_sp, spell_if, spell_if_sp, spell_in, spell_let, spell_let_sp, spell_nl, spell_open,
    spell_plus, spell_sp, spell_sp_arrow_sp, spell_sp_else_sp, spell_sp_end, spell_sp_eq_sp,
    spell_sp_in_sp, spell_sp_then_sp, spell_star, spell_then, spell_true, spell_val, spell_val_sp,
};
use crate::text::{ascii_chars, decimal_value};
use crate::token::{
    has_byte, has_word, is_run, is_text, lemma_run_is_run, lemma_run_len, run_len, Class,
};
use vstd::prelude::*;
use vstd::utf8::{encode_utf8, is_ascii_chars, is_ascii_chars_encode_utf8};

verus! {

/// Whether a byte of `class` stands in `s` at `pos`.
pub open spec fn in_class(s: Seq<u8>, pos: nat, class: Class) -> bool {
    pos < s.len() && class.has(s[pos as int])
}

/// Whether the bytes `t` stand in `s` at `pos`.
#[verifier::opaque]
pub open spec fn holds(s: Seq<u8>, pos: nat, t: Seq<u8>) -> bool {
    pos + t.len() <= s.len() && s.subrange(pos as int, (pos + t.len()) as int) == t
}

/// Text that stands somewhere lies inside the whole.
pub proof fn lemma_holds_fits(s: Seq<u8>, pos: nat, t: Seq<u8>)
    requires
        holds(s, pos, t),
    ensures
        pos + t.len() <= s.len(),
{
    reveal(holds);
}

/// A whole text stands at its own beginning.
pub proof fn lemma_holds_whole(s: Seq<u8>)
    ensures
        holds(s, 0, s),
{
    reveal(holds);
    assert(s.subrange(0, s.len() as int) =~= s);
}

/// Text that stands somewhere: so do its two halves, one behind the other.
pub proof fn lemma_holds_split(s: Seq<u8>, pos: nat, a: Seq<u8>, b: Seq<u8>)
    requires
        holds(s, pos, a + b),
    ensures
        holds(s, pos, a),
        holds(s, pos + a.len(), b),
{
    reveal(holds);
    let whole = s.subrange(pos as int, (pos + (a + b).len()) as int);
    assert(s.subrange(pos as int, (pos + a.len()) as int) =~= whole.subrange(0, a.len() as int));
    assert((a + b).subrange(0, a.len() as int) =~= a);
    assert(s.subrange((pos + a.len()) as int, (pos + a.len() + b.len()) as int)
        =~= whole.subrange(a.len() as int, (a.len() + b.len()) as int));
    assert((a + b).subrange(a.len() as int, (a.len() + b.len()) as int) =~= b);
}

/// Text that stands somewhere: each of its bytes is where it belongs.
pub proof fn lemma_holds_at(s: Seq<u8>, pos: nat, t: Seq<u8>, i: int)
    requires
        holds(s, pos, t),
        0 <= i < t.len(),
    ensures
        pos + i < s.len(),
        s[pos + i] == t[i],
{
    reveal(holds);
    assert(s.subrange(pos as int, (pos + t.len()) as int)[i] == s[pos + i]);
}

/// Whether `b` begins with `k`.
pub open spec fn starts(b: Seq<u8>, k: Seq<u8>) -> bool {
    k.len() <= b.len() && b.subrange(0, k.len() as int) == k
}

/// Text that stands somewhere: so does what it begins with.
pub proof fn lemma_holds_prefix(s: Seq<u8>, pos: nat, t: Seq<u8>, k: Seq<u8>)
    requires
        holds(s, pos, t),
        starts(t, k),
    ensures
        holds(s, pos, k),
{
    assert(t =~= k + t.subrange(k.len() as int, t.len() as int));
    lemma_holds_split(s, pos, k, t.subrange(k.len() as int, t.len() as int));
}

/// Text that stands somewhere: so does what it holds in its middle.
pub proof fn lemma_holds_middle(s: Seq<u8>, pos: nat, t: Seq<u8>, from: nat, k: Seq<u8>)
    requires
        holds(s, pos, t),
        from + k.len() <= t.len(),
        t.subrange(from as int, (from + k.len()) as int) == k,
    ensures
        holds(s, pos + from, k),
{
    reveal(holds);
    assert(s.subrange((pos + from) as int, (pos + from + k.len()) as int) =~= s.subrange(
        pos as int,
        (pos + t.len()) as int,
    ).subrange(from as int, (from + k.len()) as int));
}

/// A word stands where its bytes stand.
pub proof fn lemma_word(s: Seq<u8>, pos: nat, w: Seq<char>)
    requires
        is_ascii_chars(w),
    ensures
        has_word(s, pos, w) <==> holds(s, pos, encode_utf8(w)),
{
    reveal(holds);
    reveal(has_word);
    reveal(is_text);
    is_ascii_chars_encode_utf8(w);
    let b = encode_utf8(w);
    if pos + w.len() <= s.len() {
        let part = s.subrange(pos as int, (pos + w.len()) as int);
        if has_word(s, pos, w) {
            assert(part =~= b);
        }
        if holds(s, pos, b) {
            assert forall|i: int| 0 <= i < w.len() implies #[trigger] part[i] == w[i] as u8 by {
                assert(b[i] == w[i] as u8);
            }
        }
    }
}

/// The bytes of a word spell the word.
pub proof fn lemma_spells(w: Seq<char>)
    requires
        is_ascii_chars(w),
    ensures
        is_text(encode_utf8(w), w),
{
    reveal(is_text);
    is_ascii_chars_encode_utf8(w);
}

/// A run inside a text that stands in `s` is a run of `s`: as it is where
/// it ends inside the text, and where it reaches the end of the text if
/// `s` does not go on with the class.
pub proof fn lemma_run_inside(s: Seq<u8>, pos: nat, t: Seq<u8>, k: nat, class: Class)
    requires
        holds(s, pos, t),
        k <= t.len(),
        k + run_len(t, k, class) < t.len() || !in_class(s, pos + t.len(), class),
    ensures
        run_len(s, pos + k, class) == run_len(t, k, class),
{
    lemma_holds_fits(s, pos, t);
    lemma_run_is_run(t, k, class);
    let r = run_len(t, k, class);
    assert forall|i: int| pos + k <= i < pos + k + r implies class.has(#[trigger] s[i]) by {
        lemma_holds_at(s, pos, t, i - pos);
    }
    if k + r < t.len() {
        lemma_holds_at(s, pos, t, (k + r) as int);
    }
    assert(is_run(s, pos + k, r, class));
    lemma_run_len(s, pos + k, r, class);
}

/// A text of bytes of one class that stands in `s` and is not continued is
/// a run of `s`.
pub proof fn lemma_run_of(s: Seq<u8>, pos: nat, t: Seq<u8>, class: Class)
    requires
        holds(s, pos, t),
        forall|i: int| 0 <= i < t.len() ==> class.has(#[trigger] t[i]),
        !in_class(s, pos + t.len(), class),
    ensures
        run_len(s, pos, class) == t.len(),
{
    lemma_holds_fits(s, pos, t);
    assert forall|i: int| pos <= i < pos + t.len() implies class.has(#[trigger] s[i]) by {
        lemma_holds_at(s, pos, t, i - pos);
    }
    assert(is_run(s, pos, t.len(), class));
    lemma_run_len(s, pos, t.len(), class);
}

/// No run begins at a byte outside the class, nor at the end.
pub proof fn lemma_no_run(s: Seq<u8>, pos: nat, class: Class)
    requires
        !in_class(s, pos, class),
    ensures
        run_len(s, pos, class) == 0,
{
    reveal_with_fuel(run_len, 2);
}

/// White space begins with a white byte.
pub proof fn lemma_spaced(s: Seq<u8>, pos: nat)
    requires
        spaced(s, pos),
    ensures
        in_class(s, pos, Class::Space),
{
    reveal_with_fuel(run_len, 2);
}

/// A single white byte is all the white space there is if no other follows.
pub proof fn lemma_one_space(s: Seq<u8>, pos: nat)
    requires
        in_class(s, pos, Class::Space),
        !in_class(s, pos + 1, Class::Space),
    ensures
        skip(s, pos) == pos + 1,
        spaced(s, pos),
{
    assert(is_run(s, pos, 1, Class::Space));
    lemma_run_len(s, pos, 1, Class::Space);
}

/// Where no white byte stands, no white space is skipped.
pub proof fn lemma_no_space(s: Seq<u8>, pos: nat)
    requires
        !in_class(s, pos, Class::Space),
    ensures
        skip(s, pos) == pos,
        !spaced(s, pos),
{
    lemma_no_run(s, pos, Class::Space);
}

/// Whether a token that is a run of letters and digits, or a number, ends
/// at `pos`: the text ends there or goes on with a byte that is neither a
/// letter, a digit nor a dot.
pub open spec fn ends_token(s: Seq<u8>, pos: nat) -> bool {
    !in_class(s, pos, Class::Alnum) && !has_byte(s, pos, 46)
}

/// Whether nothing at `pos` can begin an operand: the text ends there, or
/// what stands there is no parenthesis, no number, no truth value, and no
/// name but a reserved word.
pub open spec fn no_part_at(s: Seq<u8>, pos: nat) -> bool {
    ||| pos >= s.len()
    ||| {
        &&& s[pos as int] != 40
        &&& !Class::Digit.has(s[pos as int])
        &&& !has_word(s, pos, "true"@)
        &&& !has_word(s, pos, "false"@)
        &&& (run_len(s, pos, Class::Alnum) == 0 || reserved(
            s.subrange(pos as int, (pos + run_len(s, pos, Class::Alnum)) as int),
        ))
    }
}

/// Where nothing can begin an operand, none is read.
pub proof fn lemma_no_part(s: Seq<u8>, pos: nat, next: nat)
    requires
        no_part_at(s, pos),
    ensures
        g_expr0(s, pos, next) is None,
{
    if pos < s.len() {
        lemma_no_run(s, pos, Class::Digit);
        assert(g_paren(s, pos, next) is None);
        assert(g_bool(s, pos, next) is None);
        assert(g_sym(s, pos) is None);
        assert(g_name(s, pos, next) is None);
    }
}

/// Whether an operand of a product or an application that ends at `pos`
/// is not continued: a token ends there, no `*` follows, and behind white
/// space no further operand begins.
pub open spec fn rests(s: Seq<u8>, pos: nat) -> bool {
    &&& ends_token(s, pos)
    &&& !has_byte(s, skip(s, pos), 42)
    &&& (spaced(s, pos) ==> no_part_at(s, skip(s, pos)))
}

/// Whether an expression that ends at `pos` is not continued: it rests
/// there and no `+` follows.
pub open spec fn stops(s: Seq<u8>, pos: nat) -> bool {
    rests(s, pos) && !has_byte(s, skip(s, pos), 43)
}

/// An expression stops before a closing parenthesis.
pub proof fn lemma_stops_at_close(s: Seq<u8>, pos: nat)
    requires
        has_byte(s, pos, 41),
    ensures
        stops(s, pos),
        skip(s, pos) == pos,
        !spaced(s, pos),
{
    lemma_no_run(s, pos, Class::Space);
}

/// An expression stops at the end of the text.
pub proof fn lemma_stops_at_end(s: Seq<u8>, pos: nat)
    requires
        pos >= s.len(),
    ensures
        stops(s, pos),
        skip(s, pos) == pos,
        !spaced(s, pos),
{
    lemma_no_run(s, pos, Class::Space);
}

/// An expression stops before a reserved word that stands behind one white
/// byte and ends where it should.
pub proof fn lemma_stops_at_word(s: Seq<u8>, pos: nat, w: Seq<char>)
    requires
        in_class(s, pos, Class::Space),
        is_ascii_chars(w),
        w.len() >= 1,
        holds(s, pos + 1, encode_utf8(w)),
        forall|i: int| 0 <= i < w.len() ==> Class::Alnum.has(#[trigger] encode_utf8(w)[i]),
        !Class::Digit.has(encode_utf8(w)[0]),
        reserved(encode_utf8(w)),
        !in_class(s, pos + 1 + w.len(), Class::Alnum),
        !has_word(s, pos + 1, "true"@),
        !has_word(s, pos + 1, "false"@),
    ensures
        stops(s, pos),
        skip(s, pos) == pos + 1,
{
    let k = encode_utf8(w);
    is_ascii_chars_encode_utf8(w);
    lemma_holds_fits(s, pos + 1, k);
    lemma_holds_at(s, pos + 1, k, 0);
    assert(Class::Alnum.has(k[0]));
    lemma_one_space(s, pos);
    lemma_run_of(s, pos + 1, k, Class::Alnum);
    reveal(holds);
}

/// An operand rests before a `+` that stands behind one blank, and the `+`
/// is then what follows it.
pub proof fn lemma_rests_at_sign(s: Seq<u8>, pos: nat, sign: u8)
    requires
        sign == 43 || sign == 42,
        has_byte(s, pos, 32),
        has_byte(s, pos + 1, sign),
    ensures
        ends_token(s, pos),
        spaced(s, pos),
        skip(s, pos) == pos + 1,
        no_part_at(s, pos + 1),
        sign == 43 ==> rests(s, pos),
{
    lemma_one_space(s, pos);
    lemma_no_run(s, pos + 1, Class::Alnum);
    spell_true();
    spell_false();
    lemma_word(s, pos + 1, "true"@);
    lemma_word(s, pos + 1, "false"@);
    if has_word(s, pos + 1, "true"@) {
        lemma_holds_at(s, pos + 1, encode_utf8("true"@), 0);
    }
    if has_word(s, pos + 1, "false"@) {
        lemma_holds_at(s, pos + 1, encode_utf8("false"@), 0);
    }
}


/// Whether a name is one that the grammar reads as a symbol: letters and
/// digits, at least one, and no reserved word.
pub open spec fn plain_name(name: Seq<char>) -> bool {
    &&& is_ascii_chars(name)
    &&& name.len() >= 1
    &&& forall|i: int| 0 <= i < name.len() ==> Class::Alnum.has(#[trigger] encode_utf8(name)[i])
    &&& !reserved(encode_utf8(name))
}

/// Whether a name is one that the grammar reads as a symbol where an
/// operand begins: it does not begin with a digit nor with a truth value.
pub open spec fn plain_operand(name: Seq<char>) -> bool {
    &&& plain_name(name)
    &&& !Class::Digit.has(encode_utf8(name)[0])
    &&& !starts(encode_utf8(name), encode_utf8("true"@))
    &&& !starts(encode_utf8(name), encode_utf8("false"@))
}

/// Whether a text is a numeral with a dot: digits, a dot, digits or none.
pub open spec fn plain_float(text: Seq<char>) -> bool {
    let b = encode_utf8(text);
    let d = run_len(b, 0, Class::Digit);
    &&& is_ascii_chars(text)
    &&& d >= 1
    &&& has_byte(b, d, 46)
    &&& d + 1 + run_len(b, d + 1, Class::Digit) == b.len()
}

/// Whether a literal is one that the grammar reads.
pub open spec fn plain_literal(value: LiteralView) -> bool {
    match value {
        LiteralView::Int(n) => n >= 0,
        LiteralView::Float(text) => plain_float(text),
        LiteralView::Bool(_) => true,
    }
}

/// Whether an expression is one that the parser builds when its first free
/// slot is `next`: made of what the grammar has syntax for, with names and
/// literals that the grammar reads, all symbols unresolved, and the slots
/// numbered as the nodes are completed.  The answer is the first slot that
/// is free behind the expression.
pub open spec fn readable(e: ExprView, next: nat) -> Option<nat>
    decreases e, 0nat,
{
    match e {
        ExprView::Lit { ty, value } => if ty == slot(next) && plain_literal(value) {
            Some(next + 1)
        } else {
            None
        },
        ExprView::Sym { ty, name } => if ty == slot(next) && name.id == 0 && plain_operand(
            name.name,
        ) {
            Some(next + 1)
        } else {
            None
        },
        ExprView::App { ty, fun, arg } => match readable(*fun, next) {
            None => None,
            Some(next1) => match readable(*arg, next1) {
                None => None,
                Some(next2) => if ty == slot(next2) {
                    Some(next2 + 1)
                } else {
                    None
                },
            },
        },
        ExprView::BinOp { op, ty, l, r } => match readable(*l, next) {
            None => None,
            Some(next1) => match readable(*r, next1) {
                None => None,
                Some(next2) => if ty == slot(next2) && op.id == 0 && (op.name == "+"@ || op.name
                    == "*"@) {
                    Some(next2 + 1)
                } else {
                    None
                },
            },
        },
        ExprView::Fun { param_ty, param, body_ty, body } => match readable(*body, next) {
            None => None,
            Some(next1) => if param_ty == slot(next1) && body_ty == slot(next1 + 1) && param.id
                == 0 && plain_name(param.name) {
                Some(next1 + 2)
            } else {
                None
            },
        },
        ExprView::If { ty, cond, then, else_ } => match readable(*cond, next) {
            None => None,
            Some(next1) => match readable(*then, next1) {
                None => None,
                Some(next2) => match readable(*else_, next2) {
                    None => None,
                    Some(next3) => if ty == slot(next3) {
                        Some(next3 + 1)
                    } else {
                        None
                    },
                },
            },
        },
        ExprView::Binds { ty, binds, ret } => match readable_vals(binds, binds.len(), next) {
            None => None,
            Some(next1) => match readable(*ret, next1) {
                None => None,
                Some(next2) => if ty == slot(next2) && binds.len() >= 1 {
                    Some(next2 + 1)
                } else {
                    None
                },
            },
        },
        _ => None,
    }
}

/// The same of a binding: it binds one plain name, and a recursive one
/// binds it to a function.
pub open spec fn readable_val(v: ValView, next: nat) -> Option<nat>
    decreases v, 0nat,
{
    match (v.pattern, readable(v.expr, next)) {
        (PatternView::Var { name, ty }, Some(next1)) => if v.ty == slot(next1) && ty == slot(
            next1 + 1,
        ) && name.id == 0 && plain_name(name.name) && (v.rec ==> v.expr is Fun) {
            Some(next1 + 2)
        } else {
            None
        },
        _ => None,
    }
}

/// The same of the first `n` bindings of a list.
pub open spec fn readable_vals(vals: Seq<ValView>, n: nat, next: nat) -> Option<nat>
    decreases vals, n,
{
    if n == 0 || n > vals.len() {
        Some(next)
    } else {
        match readable_vals(vals, (n - 1) as nat, next) {
            None => None,
            Some(next1) => readable_val(vals[n - 1], next1),
        }
    }
}

/// The numeral of a number is made of digits and denotes the number.
pub proof fn lemma_numeral(n: nat)
    ensures
        numeral(n).len() >= 1,
        forall|i: int| 0 <= i < numeral(n).len() ==> 48 <= #[trigger] numeral(n)[i] <= 57,
        decimal_value(numeral(n)) == n,
    decreases n,
{
    if n < 10 {
        assert(numeral(n) =~= seq![(48 + n) as u8]);
        assert(numeral(n).drop_last() =~= Seq::<u8>::empty());
        assert(decimal_value(numeral(n).drop_last()) == 0);
    } else {
        lemma_numeral(n / 10);
        assert(numeral(n) =~= numeral(n / 10).push((48 + n % 10) as u8));
        assert(numeral(n).drop_last() =~= numeral(n / 10));
    }
}

/// Two runs of letters and digits that stand at the same place and both
/// end where they should are the same.
pub proof fn lemma_same_token(s: Seq<u8>, pos: nat, t: Seq<u8>, k: Seq<u8>)
    requires
        holds(s, pos, t),
        holds(s, pos, k),
        forall|i: int| 0 <= i < t.len() ==> Class::Alnum.has(#[trigger] t[i]),
        forall|i: int| 0 <= i < k.len() ==> Class::Alnum.has(#[trigger] k[i]),
        !in_class(s, pos + t.len(), Class::Alnum),
        !in_class(s, pos + k.len(), Class::Alnum),
    ensures
        t == k,
{
    if t.len() < k.len() {
        lemma_holds_at(s, pos, k, t.len() as int);
        assert(Class::Alnum.has(k[t.len() as int]));
    }
    if k.len() < t.len() {
        lemma_holds_at(s, pos, t, k.len() as int);
        assert(Class::Alnum.has(t[k.len() as int]));
    }
    assert forall|i: int| 0 <= i < t.len() implies t[i] == k[i] by {
        lemma_holds_at(s, pos, t, i);
        lemma_holds_at(s, pos, k, i);
    }
    assert(t =~= k);
}


/// A number without a dot that stands in the text and ends where it should
/// is read as what it is.
proof fn lemma_atom_int(e: ExprView, s: Seq<u8>, pos: nat, next: nat)
    requires
        e is Lit,
        e->value is Int,
        readable(e, next) is Some,
        holds(s, pos, expr_text(e)),
        ends_token(s, pos + expr_text(e).len()),
    ensures
        g_expr0(s, pos, next) == Some((e, expr_text(e).len(), next + 1)),
{
    let t = expr_text(e);
    let n = e->value->Int_0;
    lemma_numeral(n as nat);
    lemma_holds_fits(s, pos, t);
    lemma_holds_at(s, pos, t, 0);
    lemma_run_of(s, pos, t, Class::Digit);
    assert(s.subrange(pos as int, (pos + t.len()) as int) == t) by {
        reveal(holds);
    }
    assert(g_paren(s, pos, next) is None);
    assert(g_number(s, pos, next) == Some((e, t.len(), next + 1)));
}

/// A number with a dot that stands in the text and ends where it should is
/// read as what it is.
proof fn lemma_atom_float(e: ExprView, s: Seq<u8>, pos: nat, next: nat)
    requires
        e is Lit,
        e->value is Float,
        readable(e, next) is Some,
        holds(s, pos, expr_text(e)),
        ends_token(s, pos + expr_text(e).len()),
    ensures
        g_expr0(s, pos, next) == Some((e, expr_text(e).len(), next + 1)),
{
    let t = expr_text(e);
    let text = e->value->Float_0;
    let d = run_len(t, 0, Class::Digit);
    is_ascii_chars_encode_utf8(text);
    lemma_holds_fits(s, pos, t);
    lemma_holds_at(s, pos, t, 0);
    lemma_run_is_run(t, 0, Class::Digit);
    assert(Class::Digit.has(t[0]));
    lemma_run_inside(s, pos, t, 0, Class::Digit);
    lemma_holds_at(s, pos, t, d as int);
    lemma_run_inside(s, pos, t, d + 1, Class::Digit);
    assert(s.subrange(pos as int, (pos + t.len()) as int) == t) by {
        reveal(holds);
    }
    assert(ascii_chars(t) =~= text);
    assert(g_paren(s, pos, next) is None);
    assert(g_number(s, pos, next) == Some((e, t.len(), next + 1)));
}

/// A truth value that stands in the text is read as what it is.
proof fn lemma_atom_bool(e: ExprView, s: Seq<u8>, pos: nat, next: nat)
    requires
        e is Lit,
        e->value is Bool,
        readable(e, next) is Some,
        holds(s, pos, expr_text(e)),
    ensures
        g_expr0(s, pos, next) == Some((e, expr_text(e).len(), next + 1)),
{
    let t = expr_text(e);
    spell_true();
    spell_false();
    lemma_word(s, pos, "true"@);
    lemma_word(s, pos, "false"@);
    lemma_holds_fits(s, pos, t);
    lemma_holds_at(s, pos, t, 0);
    lemma_no_run(s, pos, Class::Digit);
    if has_word(s, pos, "true"@) {
        lemma_holds_at(s, pos, encode_utf8("true"@), 0);
    }
    assert(g_paren(s, pos, next) is None);
    assert(g_bool(s, pos, next) == Some((e, t.len(), next + 1)));
}

/// A plain name that stands in the text and ends where it should is read
/// as the unresolved symbol of that name.
pub proof fn lemma_name(s: Seq<u8>, pos: nat, name: Seq<char>)
    requires
        plain_name(name),
        holds(s, pos, encode_utf8(name)),
        !in_class(s, pos + name.len(), Class::Alnum),
    ensures
        encode_utf8(name).len() == name.len(),
        pos < s.len(),
        Class::Alnum.has(s[pos as int]),
        g_sym(s, pos) == Some((SymbolView { name, id: 0 }, name.len())),
{
    let t = encode_utf8(name);
    is_ascii_chars_encode_utf8(name);
    lemma_holds_at(s, pos, t, 0);
    lemma_run_of(s, pos, t, Class::Alnum);
    assert(s.subrange(pos as int, (pos + t.len()) as int) == t) by {
        reveal(holds);
    }
    assert(ascii_chars(t) =~= name);
}

/// A symbol that stands in the text where an operand may begin, and ends
/// where it should, is read as what it is.
proof fn lemma_atom_sym(e: ExprView, s: Seq<u8>, pos: nat, next: nat)
    requires
        e is Sym,
        readable(e, next) is Some,
        holds(s, pos, expr_text(e)),
        ends_token(s, pos + expr_text(e).len()),
    ensures
        g_expr0(s, pos, next) == Some((e, expr_text(e).len(), next + 1)),
{
    let t = expr_text(e);
    let name = e->name;
    spell_true();
    spell_false();
    lemma_word(s, pos, "true"@);
    lemma_word(s, pos, "false"@);
    is_ascii_chars_encode_utf8(name.name);
    lemma_holds_at(s, pos, t, 0);
    lemma_name(s, pos, name.name);
    lemma_no_run(s, pos, Class::Digit);
    lemma_starts_not(s, pos, t, encode_utf8("true"@));
    lemma_starts_not(s, pos, t, encode_utf8("false"@));
    assert(name == SymbolView { name: name.name, id: 0 });
    assert(g_paren(s, pos, next) is None);
    assert(g_bool(s, pos, next) is None);
    assert(g_name(s, pos, next) == Some((e, t.len(), next + 1)));
}

/// A literal or a symbol that stands in the text and ends where it should
/// is read as what it is.
pub proof fn lemma_atom(e: ExprView, s: Seq<u8>, pos: nat, next: nat)
    requires
        is_atom(e),
        readable(e, next) is Some,
        holds(s, pos, expr_text(e)),
        ends_token(s, pos + expr_text(e).len()),
    ensures
        g_expr0(s, pos, next) == Some((e, expr_text(e).len(), next + 1)),
{
    match e {
        ExprView::Lit { value, .. } => {
            match value {
                LiteralView::Int(_) => lemma_atom_int(e, s, pos, next),
                LiteralView::Float(_) => lemma_atom_float(e, s, pos, next),
                LiteralView::Bool(_) => lemma_atom_bool(e, s, pos, next),
            }
        },
        _ => lemma_atom_sym(e, s, pos, next),
    }
}

/// A token that does not begin with a word of letters and digits does not
/// have that word standing where the token stands.
pub proof fn lemma_starts_not(s: Seq<u8>, pos: nat, t: Seq<u8>, k: Seq<u8>)
    requires
        holds(s, pos, t),
        !in_class(s, pos + t.len(), Class::Alnum),
        forall|i: int| 0 <= i < k.len() ==> Class::Alnum.has(#[trigger] k[i]),
        !starts(t, k),
    ensures
        !holds(s, pos, k),
{
    if holds(s, pos, k) {
        if k.len() <= t.len() {
            assert forall|i: int| 0 <= i < k.len() implies t.subrange(0, k.len() as int)[i]
                == k[i] by {
                lemma_holds_at(s, pos, t, i);
                lemma_holds_at(s, pos, k, i);
            }
            assert(t.subrange(0, k.len() as int) =~= k);
        } else {
            lemma_holds_at(s, pos, k, t.len() as int);
            assert(Class::Alnum.has(k[t.len() as int]));
        }
    }
}

/// A readable expression has a text that begins with a byte that is
/// neither white nor a sign, whether it stands by itself or as a part.
pub proof fn lemma_first_byte(e: ExprView, next: nat)
    requires
        readable(e, next) is Some,
    ensures
        part_text(e).len() >= 1,
        expr_text(e).len() >= 1,
        part_text(e)[0] == 40 || Class::Alnum.has(part_text(e)[0]),
        expr_text(e)[0] == 40 || Class::Alnum.has(expr_text(e)[0]),
    decreases e,
{
    spell_true();
    spell_false();
    spell_open();
    spell_let();
    spell_fn();
    spell_if();
    crate::pp::spelling::spell_let_sp();
    crate::pp::spelling::spell_fn_sp();
    crate::pp::spelling::spell_if_sp();
    match e {
        ExprView::Lit { value, .. } => {
            match value {
                LiteralView::Int(n) => {
                    lemma_numeral(n as nat);
                },
                LiteralView::Float(text) => {
                    crate::token::lemma_run_is_run(encode_utf8(text), 0, Class::Digit);
                },
                LiteralView::Bool(b) => {},
            }
        },
        ExprView::Sym { name, .. } => {
            is_ascii_chars_encode_utf8(name.name);
        },
        ExprView::App { fun, .. } => {
            lemma_first_byte(*fun, next);
        },
        ExprView::BinOp { l, .. } => {
            lemma_first_byte(*l, next);
        },
        _ => {},
    }
}


/// Whether a word is a reserved word made of letters and digits that
/// begins with no digit and is no truth value.
pub open spec fn is_keyword(w: Seq<char>) -> bool {
    &&& is_ascii_chars(w)
    &&& w.len() >= 1
    &&& forall|i: int| 0 <= i < w.len() ==> Class::Alnum.has(#[trigger] encode_utf8(w)[i])
    &&& !Class::Digit.has(encode_utf8(w)[0])
    &&& reserved(encode_utf8(w))
    &&& encode_utf8(w) != encode_utf8("true"@)
    &&& encode_utf8(w) != encode_utf8("false"@)
}

/// The reserved words are keywords.
pub proof fn lemma_keywords()
    ensures
        is_keyword("val"@),
        is_keyword("fun"@),
        is_keyword("fn"@),
        is_keyword("let"@),
        is_keyword("in"@),
        is_keyword("end"@),
        is_keyword("if"@),
        is_keyword("then"@),
        is_keyword("else"@),
{
    spell_true();
    spell_false();
    spell_val();
    spell_fun();
    spell_fn();
    spell_let();
    spell_in();
    spell_end();
    spell_if();
    spell_then();
    spell_else();
    lemma_spells("val"@);
    lemma_spells("fun"@);
    lemma_spells("fn"@);
    lemma_spells("let"@);
    lemma_spells("in"@);
    lemma_spells("end"@);
    lemma_spells("if"@);
    lemma_spells("then"@);
    lemma_spells("else"@);
    assert(encode_utf8("then"@)[1] != encode_utf8("true"@)[1]);
    assert(encode_utf8("else"@)[0] != encode_utf8("true"@)[0]);
}

/// Where a readable expression stands as a part and ends where it should,
/// no keyword with white space behind it stands at the same place.
pub proof fn lemma_not_keyword(e: ExprView, s: Seq<u8>, pos: nat, next: nat, w: Seq<char>)
    requires
        readable(e, next) is Some,
        holds(s, pos, part_text(e)),
        ends_token(s, pos + part_text(e).len()),
        is_keyword(w),
    ensures
        !(has_word(s, pos, w) && spaced(s, pos + w.len())),
{
    let t = part_text(e);
    let k = encode_utf8(w);
    is_ascii_chars_encode_utf8(w);
    lemma_word(s, pos, w);
    lemma_first_byte(e, next);
    if has_word(s, pos, w) && spaced(s, pos + w.len()) {
        lemma_holds_at(s, pos, k, 0);
        lemma_holds_at(s, pos, t, 0);
        assert(Class::Alnum.has(k[0]));
        lemma_spaced(s, pos + k.len());
        spell_true();
        spell_false();
        spell_open();
        match e {
            ExprView::Lit { value, .. } => {
                match value {
                    LiteralView::Int(n) => {
                        lemma_numeral(n as nat);
                    },
                    LiteralView::Float(text) => {
                        crate::token::lemma_run_is_run(t, 0, Class::Digit);
                    },
                    LiteralView::Bool(b) => {
                        lemma_same_token(s, pos, t, k);
                    },
                }
            },
            ExprView::Sym { name, .. } => {
                is_ascii_chars_encode_utf8(name.name);
                lemma_same_token(s, pos, t, k);
            },
            _ => {
                assert(t[0] == 40);
            },
        }
    }
}


/// An expression stops before `then`, `else`, `in` or `end` that stands
/// behind one blank and is followed by a byte that is no letter or digit.
proof fn lemma_stops_at_keyword(s: Seq<u8>, pos: nat, w: Seq<char>)
    requires
        w == "then"@ || w == "else"@ || w == "in"@ || w == "end"@ || w == "val"@ || w == "fun"@,
        in_class(s, pos, Class::Space),
        holds(s, pos + 1, encode_utf8(w)),
        !in_class(s, pos + 1 + w.len(), Class::Alnum),
    ensures
        stops(s, pos),
        skip(s, pos) == pos + 1,
        spaced(s, pos),
        has_word(s, pos + 1, w),
{
    lemma_keywords();
    spell_true();
    spell_false();
    spell_then();
    spell_else();
    spell_in();
    spell_end();
    spell_val();
    spell_fun();
    lemma_word(s, pos + 1, "true"@);
    lemma_word(s, pos + 1, "false"@);
    lemma_word(s, pos + 1, w);
    lemma_holds_at(s, pos + 1, encode_utf8(w), 0);
    lemma_holds_at(s, pos + 1, encode_utf8(w), 1);
    if has_word(s, pos + 1, "true"@) {
        lemma_holds_at(s, pos + 1, encode_utf8("true"@), 0);
        lemma_holds_at(s, pos + 1, encode_utf8("true"@), 1);
    }
    if has_word(s, pos + 1, "false"@) {
        lemma_holds_at(s, pos + 1, encode_utf8("false"@), 0);
        lemma_holds_at(s, pos + 1, encode_utf8("false"@), 1);
    }
    lemma_stops_at_word(s, pos, w);
}


/// Whether no binding follows at `pos`: no white space stands there, or
/// behind it neither `val` nor `fun` does.
pub open spec fn no_bind_after(s: Seq<u8>, pos: nat) -> bool {
    !spaced(s, pos) || (!has_word(s, skip(s, pos), "val"@) && !has_word(s, skip(s, pos), "fun"@))
}

/// No keyword of an expression stands where a readable expression stands
/// as a part: neither a `let`, nor a `fn`, nor an `if` is read there.
pub proof fn lemma_no_keyword(e: ExprView, s: Seq<u8>, pos: nat, next: nat)
    requires
        readable(e, next) is Some,
        holds(s, pos, part_text(e)),
        ends_token(s, pos + part_text(e).len()),
    ensures
        g_expr_let(s, pos, next) is None,
        g_expr_fn(s, pos, next) is None,
        g_expr_if(s, pos, next) is None,
{
    lemma_keywords();
    lemma_not_keyword(e, s, pos, next, "let"@);
    lemma_not_keyword(e, s, pos, next, "fn"@);
    lemma_not_keyword(e, s, pos, next, "if"@);
}

/// What stands where `let` and a blank stand before a byte that is no white
/// space.
pub proof fn lemma_head_let(s: Seq<u8>, pos: nat)
    requires
        holds(s, pos, encode_utf8("let "@)),
        !in_class(s, pos + encode_utf8("let "@).len(), Class::Space),
    ensures
        encode_utf8("let "@).len() == 4,
        "let"@.len() == 3,
        pos < s.len(),
        has_word(s, pos, "let"@),
        spaced(s, pos + 3),
        skip(s, pos + 3) == pos + 4,
{
    spell_let_sp();
    spell_let();
    let head = encode_utf8("let "@);
    lemma_holds_at(s, pos, head, 0);
    lemma_holds_at(s, pos, head, 1);
    lemma_holds_at(s, pos, head, 3);
    assert(starts(head, encode_utf8("let"@))) by {
        assert(head.subrange(0, 3) =~= encode_utf8("let"@));
    }
    lemma_holds_prefix(s, pos, head, encode_utf8("let"@));
    lemma_word(s, pos, "let"@);
    lemma_one_space(s, pos + 3);
}

/// What stands where `fn` and a blank stand before a byte that is no white
/// space.
pub proof fn lemma_head_fn(s: Seq<u8>, pos: nat)
    requires
        holds(s, pos, encode_utf8("fn "@)),
        !in_class(s, pos + encode_utf8("fn "@).len(), Class::Space),
    ensures
        encode_utf8("fn "@).len() == 3,
        "fn"@.len() == 2,
        pos < s.len(),
        has_word(s, pos, "fn"@),
        spaced(s, pos + 2),
        skip(s, pos + 2) == pos + 3,
        !has_word(s, pos, "let"@),
{
    spell_fn_sp();
    spell_fn();
    spell_let();
    let head = encode_utf8("fn "@);
    lemma_holds_at(s, pos, head, 0);
    lemma_holds_at(s, pos, head, 1);
    lemma_holds_at(s, pos, head, 2);
    assert(starts(head, encode_utf8("fn"@))) by {
        assert(head.subrange(0, 2) =~= encode_utf8("fn"@));
    }
    lemma_holds_prefix(s, pos, head, encode_utf8("fn"@));
    lemma_word(s, pos, "fn"@);
    lemma_word(s, pos, "let"@);
    if has_word(s, pos, "let"@) {
        lemma_holds_at(s, pos, encode_utf8("let"@), 0);
        lemma_holds_at(s, pos, encode_utf8("let"@), 1);
    }
    lemma_one_space(s, pos + 2);
}

/// What stands where `if` and a blank stand before a byte that is no white
/// space.
pub proof fn lemma_head_if(s: Seq<u8>, pos: nat)
    requires
        holds(s, pos, encode_utf8("if "@)),
        !in_class(s, pos + encode_utf8("if "@).len(), Class::Space),
    ensures
        encode_utf8("if "@).len() == 3,
        "if"@.len() == 2,
        pos < s.len(),
        has_word(s, pos, "if"@),
        spaced(s, pos + 2),
        skip(s, pos + 2) == pos + 3,
        !has_word(s, pos, "let"@),
        !has_word(s, pos, "fn"@),
{
    spell_if_sp();
    spell_if();
    spell_let();
    spell_fn();
    let head = encode_utf8("if "@);
    lemma_holds_at(s, pos, head, 0);
    lemma_holds_at(s, pos, head, 1);
    lemma_holds_at(s, pos, head, 2);
    assert(starts(head, encode_utf8("if"@))) by {
        assert(head.subrange(0, 2) =~= encode_utf8("if"@));
    }
    lemma_holds_prefix(s, pos, head, encode_utf8("if"@));
    lemma_word(s, pos, "if"@);
    lemma_word(s, pos, "let"@);
    if has_word(s, pos, "let"@) {
        lemma_holds_at(s, pos, encode_utf8("let"@), 0);
        lemma_holds_at(s, pos, encode_utf8("let"@), 1);
    }
    lemma_word(s, pos, "fn"@);
    if has_word(s, pos, "fn"@) {
        lemma_holds_at(s, pos, encode_utf8("fn"@), 0);
        lemma_holds_at(s, pos, encode_utf8("fn"@), 1);
    }
    lemma_one_space(s, pos + 2);
}

/// What stands where `val` and a blank stand before a byte that is no white
/// space.
pub proof fn lemma_head_val(s: Seq<u8>, pos: nat)
    requires
        holds(s, pos, encode_utf8("val "@)),
        !in_class(s, pos + encode_utf8("val "@).len(), Class::Space),
    ensures
        encode_utf8("val "@).len() == 4,
        "val"@.len() == 3,
        pos < s.len(),
        has_word(s, pos, "val"@),
        spaced(s, pos + 3),
        skip(s, pos + 3) == pos + 4,
{
    spell_val_sp();
    spell_val();
    let head = encode_utf8("val "@);
    lemma_holds_at(s, pos, head, 0);
    lemma_holds_at(s, pos, head, 1);
    lemma_holds_at(s, pos, head, 3);
    assert(starts(head, encode_utf8("val"@))) by {
        assert(head.subrange(0, 3) =~= encode_utf8("val"@));
    }
    lemma_holds_prefix(s, pos, head, encode_utf8("val"@));
    lemma_word(s, pos, "val"@);
    lemma_one_space(s, pos + 3);
}

/// What stands where `fun` and a blank stand before a byte that is no white
/// space.
pub proof fn lemma_head_fun(s: Seq<u8>, pos: nat)
    requires
        holds(s, pos, encode_utf8("fun "@)),
        !in_class(s, pos + encode_utf8("fun "@).len(), Class::Space),
    ensures
        encode_utf8("fun "@).len() == 4,
        "fun"@.len() == 3,
        pos < s.len(),
        has_word(s, pos, "fun"@),
        spaced(s, pos + 3),
        skip(s, pos + 3) == pos + 4,
        !has_word(s, pos, "val"@),
{
    spell_fun_sp();
    spell_fun();
    spell_val();
    let head = encode_utf8("fun "@);
    lemma_holds_at(s, pos, head, 0);
    lemma_holds_at(s, pos, head, 1);
    lemma_holds_at(s, pos, head, 3);
    assert(starts(head, encode_utf8("fun"@))) by {
        assert(head.subrange(0, 3) =~= encode_utf8("fun"@));
    }
    lemma_holds_prefix(s, pos, head, encode_utf8("fun"@));
    lemma_word(s, pos, "fun"@);
    lemma_word(s, pos, "val"@);
    if has_word(s, pos, "val"@) {
        lemma_holds_at(s, pos, encode_utf8("val"@), 0);
        lemma_holds_at(s, pos, encode_utf8("val"@), 1);
    }
    lemma_one_space(s, pos + 3);
}

/// What stands where a blank, `then` and a blank stand before a byte that is
/// no white space.
pub proof fn lemma_mid_then(s: Seq<u8>, pos: nat)
    requires
        holds(s, pos, encode_utf8(" then "@)),
        !in_class(s, pos + encode_utf8(" then "@).len(), Class::Space),
    ensures
        encode_utf8(" then "@).len() == 6,
        "then"@.len() == 4,
        stops(s, pos),
        spaced(s, pos),
        skip(s, pos) == pos + 1,
        has_word(s, pos + 1, "then"@),
        spaced(s, pos + 5),
        skip(s, pos + 5) == pos + 6,
{
    spell_sp_then_sp();
    spell_then();
    let mid = encode_utf8(" then "@);
    lemma_holds_at(s, pos, mid, 0);
    lemma_holds_at(s, pos, mid, 5);
    assert(mid.subrange(1, 5) =~= encode_utf8("then"@));
    lemma_holds_middle(s, pos, mid, 1, encode_utf8("then"@));
    lemma_stops_at_keyword(s, pos, "then"@);
    lemma_one_space(s, pos + 5);
}

/// What stands where a blank, `else` and a blank stand before a byte that is
/// no white space.
pub proof fn lemma_mid_else(s: Seq<u8>, pos: nat)
    requires
        holds(s, pos, encode_utf8(" else "@)),
        !in_class(s, pos + encode_utf8(" else "@).len(), Class::Space),
    ensures
        encode_utf8(" else "@).len() == 6,
        "else"@.len() == 4,
        stops(s, pos),
        spaced(s, pos),
        skip(s, pos) == pos + 1,
        has_word(s, pos + 1, "else"@),
        spaced(s, pos + 5),
        skip(s, pos + 5) == pos + 6,
{
    spell_sp_else_sp();
    spell_else();
    let mid = encode_utf8(" else "@);
    lemma_holds_at(s, pos, mid, 0);
    lemma_holds_at(s, pos, mid, 5);
    assert(mid.subrange(1, 5) =~= encode_utf8("else"@));
    lemma_holds_middle(s, pos, mid, 1, encode_utf8("else"@));
    lemma_stops_at_keyword(s, pos, "else"@);
    lemma_one_space(s, pos + 5);
}

/// What stands where a blank, `in` and a blank stand before a byte that is
/// no white space.
pub proof fn lemma_mid_in(s: Seq<u8>, pos: nat)
    requires
        holds(s, pos, encode_utf8(" in "@)),
        !in_class(s, pos + encode_utf8(" in "@).len(), Class::Space),
    ensures
        encode_utf8(" in "@).len() == 4,
        "in"@.len() == 2,
        stops(s, pos),
        spaced(s, pos),
        skip(s, pos) == pos + 1,
        has_word(s, pos + 1, "in"@),
        spaced(s, pos + 3),
        skip(s, pos + 3) == pos + 4,
        no_bind_after(s, pos),
{
    spell_sp_in_sp();
    spell_in();
    let mid = encode_utf8(" in "@);
    lemma_holds_at(s, pos, mid, 0);
    lemma_holds_at(s, pos, mid, 3);
    assert(mid.subrange(1, 3) =~= encode_utf8("in"@));
    lemma_holds_middle(s, pos, mid, 1, encode_utf8("in"@));
    lemma_stops_at_keyword(s, pos, "in"@);
    lemma_one_space(s, pos + 3);
    lemma_holds_at(s, pos, mid, 1);
    spell_val();
    spell_fun();
    lemma_word(s, pos + 1, "val"@);
    lemma_word(s, pos + 1, "fun"@);
    if has_word(s, pos + 1, "val"@) {
        lemma_holds_at(s, pos + 1, encode_utf8("val"@), 0);
    }
    if has_word(s, pos + 1, "fun"@) {
        lemma_holds_at(s, pos + 1, encode_utf8("fun"@), 0);
    }
}


/// What stands where a blank and `end` stand before a closing parenthesis.
pub proof fn lemma_tail_end(s: Seq<u8>, pos: nat)
    requires
        holds(s, pos, encode_utf8(" end"@)),
        has_byte(s, pos + encode_utf8(" end"@).len(), 41),
    ensures
        encode_utf8(" end"@).len() == 4,
        "end"@.len() == 3,
        stops(s, pos),
        spaced(s, pos),
        skip(s, pos) == pos + 1,
        has_word(s, pos + 1, "end"@),
{
    spell_sp_end();
    spell_end();
    let tail = encode_utf8(" end"@);
    lemma_holds_at(s, pos, tail, 0);
    assert(tail.subrange(1, 4) =~= encode_utf8("end"@));
    lemma_holds_middle(s, pos, tail, 1, encode_utf8("end"@));
    lemma_stops_at_keyword(s, pos, "end"@);
}

/// What stands where a blank, `=>` and a blank stand before a byte that is
/// no white space.
pub proof fn lemma_mid_arrow(s: Seq<u8>, pos: nat)
    requires
        holds(s, pos, encode_utf8(" => "@)),
        !in_class(s, pos + encode_utf8(" => "@).len(), Class::Space),
    ensures
        encode_utf8(" => "@).len() == 4,
        "=>"@.len() == 2,
        !in_class(s, pos, Class::Alnum),
        skip(s, pos) == pos + 1,
        has_word(s, pos + 1, "=>"@),
        skip(s, pos + 3) == pos + 4,
{
    spell_sp_arrow_sp();
    spell_arrow();
    let mid = encode_utf8(" => "@);
    lemma_holds_at(s, pos, mid, 0);
    lemma_holds_at(s, pos, mid, 1);
    lemma_holds_at(s, pos, mid, 3);
    assert(mid.subrange(1, 3) =~= encode_utf8("=>"@));
    lemma_holds_middle(s, pos, mid, 1, encode_utf8("=>"@));
    lemma_word(s, pos + 1, "=>"@);
    lemma_one_space(s, pos);
    lemma_one_space(s, pos + 3);
}

/// What stands where a blank, `=` and a blank stand before a byte that is
/// no white space.
pub proof fn lemma_mid_eq(s: Seq<u8>, pos: nat)
    requires
        holds(s, pos, encode_utf8(" = "@)),
        !in_class(s, pos + encode_utf8(" = "@).len(), Class::Space),
    ensures
        encode_utf8(" = "@).len() == 3,
        !in_class(s, pos, Class::Alnum),
        spaced(s, pos),
        skip(s, pos) == pos + 1,
        has_byte(s, pos + 1, 61),
        skip(s, pos + 2) == pos + 3,
        g_sym(s, pos + 1) is None,
{
    spell_sp_eq_sp();
    let mid = encode_utf8(" = "@);
    lemma_holds_at(s, pos, mid, 0);
    lemma_holds_at(s, pos, mid, 1);
    lemma_holds_at(s, pos, mid, 2);
    lemma_one_space(s, pos);
    lemma_one_space(s, pos + 2);
    lemma_no_run(s, pos + 1, Class::Alnum);
}

/// What stands where a single blank stands before a byte that is no white
/// space.
pub proof fn lemma_blank(s: Seq<u8>, pos: nat)
    requires
        holds(s, pos, encode_utf8(" "@)),
        !in_class(s, pos + encode_utf8(" "@).len(), Class::Space),
    ensures
        encode_utf8(" "@).len() == 1,
        ends_token(s, pos),
        spaced(s, pos),
        skip(s, pos) == pos + 1,
{
    spell_sp();
    lemma_holds_at(s, pos, encode_utf8(" "@), 0);
    lemma_one_space(s, pos);
}

/// What stands where a sign stands between two blanks before a byte that
/// is no white space.
pub proof fn lemma_mid_sign(s: Seq<u8>, pos: nat, sign: Seq<char>)
    requires
        sign == "+"@ || sign == "*"@,
        holds(s, pos, encode_utf8(" "@)),
        holds(s, pos + encode_utf8(" "@).len(), encode_utf8(sign)),
        holds(s, pos + encode_utf8(" "@).len() + encode_utf8(sign).len(), encode_utf8(" "@)),
        !in_class(
            s,
            pos + encode_utf8(" "@).len() + encode_utf8(sign).len() + encode_utf8(" "@).len(),
            Class::Space,
        ),
    ensures
        encode_utf8(" "@).len() == 1,
        encode_utf8(sign).len() == 1,
        "+"@ != "*"@,
        ends_token(s, pos),
        spaced(s, pos),
        skip(s, pos) == pos + 1,
        no_part_at(s, pos + 1),
        skip(s, pos + 2) == pos + 3,
        sign == "+"@ ==> rests(s, pos) && has_byte(s, pos + 1, 43),
        sign == "*"@ ==> has_byte(s, pos + 1, 42),
{
    spell_sp();
    spell_plus();
    spell_star();
    lemma_holds_at(s, pos, encode_utf8(" "@), 0);
    lemma_holds_at(s, pos + 1, encode_utf8(sign), 0);
    lemma_holds_at(s, pos + 2, encode_utf8(" "@), 0);
    if sign == "+"@ {
        lemma_rests_at_sign(s, pos, 43);
    } else {
        lemma_rests_at_sign(s, pos, 42);
    }
    lemma_one_space(s, pos + 2);
    assert("+"@ != "*"@) by {
        assert(encode_utf8("+"@)[0] != encode_utf8("*"@)[0]);
    }
}

/// What stands between parentheses: the opening one, then text that does
/// not begin with white space, then the closing one.
pub proof fn lemma_parens(s: Seq<u8>, pos: nat, t: Seq<u8>)
    requires
        holds(s, pos, encode_utf8("("@) + t + encode_utf8(")"@)),
        t.len() >= 1,
        !Class::Space.has(t[0]),
    ensures
        encode_utf8("("@).len() == 1,
        encode_utf8(")"@).len() == 1,
        has_byte(s, pos, 40),
        skip(s, pos + 1) == pos + 1,
        holds(s, pos + 1, t),
        has_byte(s, pos + 1 + t.len(), 41),
{
    spell_open();
    spell_close();
    let open = encode_utf8("("@);
    let close = encode_utf8(")"@);
    lemma_holds_split(s, pos, open + t, close);
    lemma_holds_split(s, pos, open, t);
    lemma_holds_at(s, pos, open, 0);
    lemma_holds_at(s, pos + 1 + t.len(), close, 0);
    lemma_holds_at(s, pos + 1, t, 0);
    lemma_no_space(s, pos + 1);
}

/// What stands where a line break stands before a binding.
pub proof fn lemma_line_break(s: Seq<u8>, pos: nat, t: Seq<u8>)
    requires
        holds(s, pos, encode_utf8("\n"@)),
        holds(s, pos + encode_utf8("\n"@).len(), t),
        t.len() >= 4,
        t[3] == 32,
        starts(t, encode_utf8("val"@)) || starts(t, encode_utf8("fun"@)),
    ensures
        encode_utf8("\n"@).len() == 1,
        stops(s, pos),
        spaced(s, pos),
        skip(s, pos) == pos + 1,
{
    spell_nl();
    spell_val();
    spell_fun();
    lemma_holds_at(s, pos, encode_utf8("\n"@), 0);
    lemma_holds_at(s, pos + 1, t, 3);
    if starts(t, encode_utf8("val"@)) {
        lemma_holds_prefix(s, pos + 1, t, encode_utf8("val"@));
        lemma_stops_at_keyword(s, pos, "val"@);
    } else {
        lemma_holds_prefix(s, pos + 1, t, encode_utf8("fun"@));
        lemma_stops_at_keyword(s, pos, "fun"@);
    }
}


/// Where the text of a readable expression stands as a part, it begins
/// with a byte that is no white space.
pub proof fn lemma_part_begins(e: ExprView, s: Seq<u8>, pos: nat, next: nat)
    requires
        readable(e, next) is Some,
        holds(s, pos, part_text(e)),
    ensures
        pos < s.len(),
        !in_class(s, pos, Class::Space),
{
    lemma_first_byte(e, next);
    lemma_holds_at(s, pos, part_text(e), 0);
}

/// An operand that stands in the text as a part and ends where it should
/// is read as what it is.
pub proof fn lemma_part0(e: ExprView, s: Seq<u8>, pos: nat, next: nat)
    requires
        readable(e, next) is Some,
        holds(s, pos, part_text(e)),
        ends_token(s, pos + part_text(e).len()),
    ensures
        g_expr0(s, pos, next) == Some((e, part_text(e).len(), readable(e, next)->Some_0)),
    decreases e, 2nat,
{
    if is_atom(e) {
        lemma_atom(e, s, pos, next);
    } else {
        let t = expr_text(e);
        let next1 = readable(e, next)->Some_0;
        lemma_first_byte(e, next);
        lemma_parens(s, pos, t);
        lemma_inner(e, s, pos + 1, next);
        lemma_no_space(s, pos + 1 + t.len());
        rule_paren(s, pos, next, e, t.len(), next1);
    }
}

/// An operand of a product that stands in the text as a part and rests
/// where it ends is read as what it is.
pub proof fn lemma_part1(e: ExprView, s: Seq<u8>, pos: nat, next: nat)
    requires
        readable(e, next) is Some,
        holds(s, pos, part_text(e)),
        rests(s, pos + part_text(e).len()),
    ensures
        g_expr1(s, pos, next) == Some((e, part_text(e).len(), readable(e, next)->Some_0)),
    decreases e, 3nat,
{
    let end = pos + part_text(e).len();
    let next1 = readable(e, next)->Some_0;
    lemma_part0(e, s, pos, next);
    if spaced(s, end) {
        lemma_no_part(s, skip(s, end), next1);
    }
    rule_operand(s, pos, next, e, part_text(e).len(), next1);
}

/// An expression that stands in the text as a part and stops where it
/// ends is read as what it is.
pub proof fn lemma_part(e: ExprView, s: Seq<u8>, pos: nat, next: nat)
    requires
        readable(e, next) is Some,
        holds(s, pos, part_text(e)),
        stops(s, pos + part_text(e).len()),
    ensures
        g_expr(s, pos, next) == Some((e, part_text(e).len(), readable(e, next)->Some_0)),
    decreases e, 4nat,
{
    let next1 = readable(e, next)->Some_0;
    lemma_part1(e, s, pos, next);
    lemma_no_keyword(e, s, pos, next);
    rule_plain(s, pos, next, e, part_text(e).len(), next1);
}

/// A compound expression whose text stands before a closing parenthesis is
/// read as what it is.
pub proof fn lemma_inner(e: ExprView, s: Seq<u8>, pos: nat, next: nat)
    requires
        !is_atom(e),
        readable(e, next) is Some,
        holds(s, pos, expr_text(e)),
        has_byte(s, pos + expr_text(e).len(), 41),
    ensures
        g_expr(s, pos, next) == Some((e, expr_text(e).len(), readable(e, next)->Some_0)),
    decreases e, 1nat,
{
    match e {
        ExprView::App { .. } => lemma_inner_app(e, s, pos, next),
        ExprView::BinOp { op, .. } => {
            if op.name == "+"@ {
                lemma_inner_sum(e, s, pos, next)
            } else {
                lemma_inner_product(e, s, pos, next)
            }
        },
        ExprView::Fun { .. } => lemma_inner_fun(e, s, pos, next),
        ExprView::If { .. } => lemma_inner_if(e, s, pos, next),
        ExprView::Binds { .. } => lemma_inner_let(e, s, pos, next),
        _ => {},
    }
}

#[verifier::rlimit(50)]
#[verifier::spinoff_prover]
proof fn lemma_inner_app(e: ExprView, s: Seq<u8>, pos: nat, next: nat)
    requires
        e is App,
        readable(e, next) is Some,
        holds(s, pos, expr_text(e)),
        has_byte(s, pos + expr_text(e).len(), 41),
    ensures
        g_expr(s, pos, next) == Some((e, expr_text(e).len(), readable(e, next)->Some_0)),
    decreases e, 0nat,
{
    match e {
        ExprView::App { ty, fun, arg } => {
            let tf = part_text(*fun);
            let ta = part_text(*arg);
            let sp = encode_utf8(" "@);
            let next1 = readable(*fun, next)->Some_0;
            let next2 = readable(*arg, next1)->Some_0;
            lemma_holds_split(s, pos, tf + sp, ta);
            lemma_holds_split(s, pos, tf, sp);
            let a = pos + tf.len();
            let b = a + sp.len();
            let c = b + ta.len();
            lemma_part_begins(*fun, s, pos, next);
            lemma_part_begins(*arg, s, b, next1);
            lemma_blank(s, a);
            lemma_part0(*fun, s, pos, next);
            lemma_stops_at_close(s, c);
            lemma_part0(*arg, s, b, next1);
            rule_app(s, pos, next, *fun, tf.len(), next1, *arg, ta.len(), next2);
            lemma_no_keyword(*fun, s, pos, next);
            rule_plain(s, pos, next, e, expr_text(e).len(), next2 + 1);
        },
        _ => {},
    }
}

#[verifier::rlimit(50)]
#[verifier::spinoff_prover]
proof fn lemma_inner_sum(e: ExprView, s: Seq<u8>, pos: nat, next: nat)
    requires
        e is BinOp,
        e->op.name == "+"@,
        readable(e, next) is Some,
        holds(s, pos, expr_text(e)),
        has_byte(s, pos + expr_text(e).len(), 41),
    ensures
        g_expr(s, pos, next) == Some((e, expr_text(e).len(), readable(e, next)->Some_0)),
    decreases e, 0nat,
{
    match e {
        ExprView::BinOp { op, ty, l, r } => {
            let tl = part_text(*l);
            let tr = part_text(*r);
            let sp = encode_utf8(" "@);
            let sign = encode_utf8(op.name);
            let next1 = readable(*l, next)->Some_0;
            let next2 = readable(*r, next1)->Some_0;
            lemma_holds_split(s, pos, tl + sp + sign + sp, tr);
            lemma_holds_split(s, pos, tl + sp + sign, sp);
            lemma_holds_split(s, pos, tl + sp, sign);
            lemma_holds_split(s, pos, tl, sp);
            let a = pos + tl.len();
            let b = a + sp.len() + sign.len() + sp.len();
            let c = b + tr.len();
            lemma_part_begins(*r, s, b, next1);
            lemma_mid_sign(s, a, op.name);
            lemma_part1(*l, s, pos, next);
            lemma_stops_at_close(s, c);
            lemma_part(*r, s, b, next1);
            lemma_no_keyword(*l, s, pos, next);
            rule_sum(s, pos, next, *l, tl.len(), next1, *r, tr.len(), next2);
            assert(op == SymbolView { name: "+"@, id: 0 });
        },
        _ => {},
    }
}

#[verifier::rlimit(50)]
#[verifier::spinoff_prover]
proof fn lemma_inner_product(e: ExprView, s: Seq<u8>, pos: nat, next: nat)
    requires
        e is BinOp,
        e->op.name != "+"@,
        readable(e, next) is Some,
        holds(s, pos, expr_text(e)),
        has_byte(s, pos + expr_text(e).len(), 41),
    ensures
        g_expr(s, pos, next) == Some((e, expr_text(e).len(), readable(e, next)->Some_0)),
    decreases e, 0nat,
{
    match e {
        ExprView::BinOp { op, ty, l, r } => {
            let tl = part_text(*l);
            let tr = part_text(*r);
            let sp = encode_utf8(" "@);
            let sign = encode_utf8(op.name);
            let next1 = readable(*l, next)->Some_0;
            let next2 = readable(*r, next1)->Some_0;
            lemma_holds_split(s, pos, tl + sp + sign + sp, tr);
            lemma_holds_split(s, pos, tl + sp + sign, sp);
            lemma_holds_split(s, pos, tl + sp, sign);
            lemma_holds_split(s, pos, tl, sp);
            let a = pos + tl.len();
            let b = a + sp.len() + sign.len() + sp.len();
            let c = b + tr.len();
            lemma_part_begins(*l, s, pos, next);
            lemma_part_begins(*r, s, b, next1);
            lemma_mid_sign(s, a, op.name);
            lemma_part0(*l, s, pos, next);
            lemma_no_part(s, a + 1, next1);
            lemma_stops_at_close(s, c);
            lemma_part1(*r, s, b, next1);
            rule_product(s, pos, next, *l, tl.len(), next1, *r, tr.len(), next2);
            lemma_no_keyword(*l, s, pos, next);
            assert(op == SymbolView { name: "*"@, id: 0 });
            rule_plain(s, pos, next, e, expr_text(e).len(), next2 + 1);
        },
        _ => {},
    }
}

#[verifier::rlimit(50)]
#[verifier::spinoff_prover]
proof fn lemma_inner_fun(e: ExprView, s: Seq<u8>, pos: nat, next: nat)
    requires
        e is Fun,
        readable(e, next) is Some,
        holds(s, pos, expr_text(e)),
        has_byte(s, pos + expr_text(e).len(), 41),
    ensures
        g_expr(s, pos, next) == Some((e, expr_text(e).len(), readable(e, next)->Some_0)),
    decreases e, 0nat,
{
    match e {
        ExprView::Fun { param_ty, param, body_ty, body } => {
            let head = encode_utf8("fn "@);
            let name = encode_utf8(param.name);
            let arrow = encode_utf8(" => "@);
            let tb = part_text(*body);
            let next1 = readable(*body, next)->Some_0;
            lemma_holds_split(s, pos, head + name + arrow, tb);
            lemma_holds_split(s, pos, head + name, arrow);
            lemma_holds_split(s, pos, head, name);
            is_ascii_chars_encode_utf8(param.name);
            let at = pos + head.len();
            let a = at + name.len();
            let b = a + arrow.len();
            let c = b + tb.len();
            lemma_part_begins(*body, s, b, next);
            lemma_mid_arrow(s, a);
            lemma_name(s, at, param.name);
            lemma_head_fn(s, pos);
            lemma_stops_at_close(s, c);
            lemma_part(*body, s, b, next);
            assert(param == SymbolView { name: param.name, id: 0 });
            rule_not_let(s, pos, next);
            rule_fn(s, pos, next, param, name.len(), a + 1, *body, tb.len(), next1);
        },
        _ => {},
    }
}

#[verifier::rlimit(50)]
#[verifier::spinoff_prover]
proof fn lemma_inner_if(e: ExprView, s: Seq<u8>, pos: nat, next: nat)
    requires
        e is If,
        readable(e, next) is Some,
        holds(s, pos, expr_text(e)),
        has_byte(s, pos + expr_text(e).len(), 41),
    ensures
        g_expr(s, pos, next) == Some((e, expr_text(e).len(), readable(e, next)->Some_0)),
    decreases e, 0nat,
{
    match e {
        ExprView::If { ty, cond, then, else_ } => {
            let head = encode_utf8("if "@);
            let tc = part_text(*cond);
            let mid = encode_utf8(" then "@);
            let tt = part_text(*then);
            let alt = encode_utf8(" else "@);
            let te = part_text(*else_);
            let next1 = readable(*cond, next)->Some_0;
            let next2 = readable(*then, next1)->Some_0;
            let next3 = readable(*else_, next2)->Some_0;
            lemma_holds_split(s, pos, head + tc + mid + tt + alt, te);
            lemma_holds_split(s, pos, head + tc + mid + tt, alt);
            lemma_holds_split(s, pos, head + tc + mid, tt);
            lemma_holds_split(s, pos, head + tc, mid);
            lemma_holds_split(s, pos, head, tc);
            let at = pos + head.len();
            let a = at + tc.len();
            let b = a + mid.len();
            let c = b + tt.len();
            let d = c + alt.len();
            let end = d + te.len();
            lemma_part_begins(*else_, s, d, next2);
            lemma_mid_else(s, c);
            lemma_part_begins(*then, s, b, next1);
            lemma_mid_then(s, a);
            lemma_part_begins(*cond, s, at, next);
            lemma_head_if(s, pos);
            lemma_part(*cond, s, at, next);
            lemma_part(*then, s, b, next1);
            lemma_stops_at_close(s, end);
            lemma_part(*else_, s, d, next2);
            rule_not_let(s, pos, next);
            rule_not_fn(s, pos, next);
            rule_if(
                s,
                pos,
                next,
                at,
                *cond,
                tc.len(),
                next1,
                b,
                *then,
                tt.len(),
                next2,
                d,
                *else_,
                te.len(),
                next3,
            );
        },
        _ => {},
    }
}

#[verifier::rlimit(50)]
#[verifier::spinoff_prover]
proof fn lemma_inner_let(e: ExprView, s: Seq<u8>, pos: nat, next: nat)
    requires
        e is Binds,
        readable(e, next) is Some,
        holds(s, pos, expr_text(e)),
        has_byte(s, pos + expr_text(e).len(), 41),
    ensures
        g_expr(s, pos, next) == Some((e, expr_text(e).len(), readable(e, next)->Some_0)),
    decreases e, 0nat,
{
    match e {
        ExprView::Binds { ty, binds, ret } => {
            let head = encode_utf8("let "@);
            let tv = vals_text(binds, binds.len());
            let mid = encode_utf8(" in "@);
            let tr = part_text(*ret);
            let tail = encode_utf8(" end"@);
            let next1 = readable_vals(binds, binds.len(), next)->Some_0;
            let next2 = readable(*ret, next1)->Some_0;
            lemma_holds_split(s, pos, head + tv + mid + tr, tail);
            lemma_holds_split(s, pos, head + tv + mid, tr);
            lemma_holds_split(s, pos, head + tv, mid);
            lemma_holds_split(s, pos, head, tv);
            let at = pos + head.len();
            let a = at + tv.len();
            let b = a + mid.len();
            let c = b + tr.len();
            lemma_tail_end(s, c);
            lemma_part_begins(*ret, s, b, next1);
            lemma_mid_in(s, a);
            lemma_vals_begin(binds, binds.len(), next);
            lemma_holds_at(s, at, tv, 0);
            lemma_head_let(s, pos);
            lemma_vals(binds, s, at, next);
            lemma_part(*ret, s, b, next1);
            rule_let(s, pos, next, at, binds, tv.len(), next1, b, *ret, tr.len(), next2);
        },
        _ => {},
    }
}

/// The text of a readable binding begins with `val` or `fun` and a blank.
pub proof fn lemma_val_begins(v: ValView, next: nat)
    requires
        readable_val(v, next) is Some,
    ensures
        val_text(v).len() >= 4,
        Class::Alnum.has(val_text(v)[0]),
        val_text(v)[3] == 32,
        starts(val_text(v), encode_utf8("val"@)) || starts(val_text(v), encode_utf8("fun"@)),
{
    spell_val_sp();
    spell_fun_sp();
    spell_val();
    spell_fun();
    let t = val_text(v);
    if v.rec {
        assert(t.subrange(0, 3) =~= encode_utf8("fun"@));
    } else {
        assert(t.subrange(0, 3) =~= encode_utf8("val"@));
    }
}

/// The text of a list of readable bindings that is not empty begins with a
/// letter.
pub proof fn lemma_vals_begin(vals: Seq<ValView>, n: nat, next: nat)
    requires
        1 <= n <= vals.len(),
        readable_vals(vals, n, next) is Some,
    ensures
        vals_text(vals, n).len() >= 1,
        Class::Alnum.has(vals_text(vals, n)[0]),
    decreases n,
{
    if n == 1 {
        lemma_val_begins(vals[0], next);
    } else {
        lemma_vals_begin(vals, (n - 1) as nat, next);
    }
}

#[verifier::rlimit(50)]
#[verifier::spinoff_prover]
proof fn lemma_val_plain(v: ValView, s: Seq<u8>, pos: nat, next: nat)
    requires
        !v.rec,
        readable_val(v, next) is Some,
        holds(s, pos, val_text(v)),
        stops(s, pos + val_text(v).len()),
    ensures
        g_bind(s, pos, next) == Some((v, val_text(v).len(), readable_val(v, next)->Some_0)),
    decreases v, 0nat,
{
    match v.pattern {
        PatternView::Var { name, ty } => {
            let front = encode_utf8("val "@) + encode_utf8(name.name) + encode_utf8(" = "@);
            let te = part_text(v.expr);
            let next1 = readable(v.expr, next)->Some_0;
            assert(val_text(v) == front + te);
            lemma_holds_split(s, pos, front, te);
            spell_val_sp();
            spell_sp_eq_sp();
            is_ascii_chars_encode_utf8(name.name);
            let c = pos + 7 + name.name.len();
            assert(front.len() == 7 + name.name.len());
            lemma_part_begins(v.expr, s, c, next);
            lemma_val_head(s, pos, name.name);
            lemma_part(v.expr, s, c, next);
            assert(name == SymbolView { name: name.name, id: 0 });
            rule_val(
                s,
                pos,
                next,
                name,
                name.name.len(),
                pos + 5 + name.name.len(),
                v.expr,
                te.len(),
                next1,
            );
            assert(v == binding(false, name, v.expr, next1));
        },
        _ => {},
    }
}

/// What stands where the head of a recursive binding stands: `fun`, the
/// name, one parameter and `=`.
#[verifier::rlimit(50)]
#[verifier::spinoff_prover]
proof fn lemma_fun_head(s: Seq<u8>, pos: nat, name: Seq<char>, param: Seq<char>)
    requires
        plain_name(name),
        plain_name(param),
        holds(
            s,
            pos,
            encode_utf8("fun "@) + encode_utf8(name) + encode_utf8(" "@) + encode_utf8(param)
                + encode_utf8(" = "@),
        ),
        !in_class(s, pos + 4 + name.len() + 1 + param.len() + 3, Class::Space),
    ensures
        pos < s.len(),
        "fun"@.len() == 3,
        !has_word(s, pos, "val"@),
        has_word(s, pos, "fun"@),
        spaced(s, pos + 3),
        skip(s, pos + 3) == pos + 4,
        g_sym(s, pos + 4) == Some((SymbolView { name, id: 0 }, name.len())),
        spaced(s, pos + 4 + name.len()),
        skip(s, pos + 4 + name.len()) == pos + 5 + name.len(),
        g_sym(s, pos + 5 + name.len()) == Some((SymbolView { name: param, id: 0 }, param.len())),
        spaced(s, pos + 5 + name.len() + param.len()),
        skip(s, pos + 5 + name.len() + param.len()) == pos + 6 + name.len() + param.len(),
        g_sym(s, pos + 6 + name.len() + param.len()) is None,
        has_byte(s, pos + 6 + name.len() + param.len(), 61),
        skip(s, pos + 7 + name.len() + param.len()) == pos + 8 + name.len() + param.len(),
{
    let head = encode_utf8("fun "@);
    let tn = encode_utf8(name);
    let sp = encode_utf8(" "@);
    let tp = encode_utf8(param);
    let eq = encode_utf8(" = "@);
    spell_fun_sp();
    spell_sp();
    spell_sp_eq_sp();
    is_ascii_chars_encode_utf8(name);
    is_ascii_chars_encode_utf8(param);
    lemma_holds_split(s, pos, head + tn + sp + tp, eq);
    lemma_holds_split(s, pos, head + tn + sp, tp);
    lemma_holds_split(s, pos, head + tn, sp);
    lemma_holds_split(s, pos, head, tn);
    let at = pos + 4;
    let a = at + tn.len();
    let ap = a + 1;
    let b = ap + tp.len();
    lemma_mid_eq(s, b);
    lemma_name(s, ap, param);
    lemma_blank(s, a);
    lemma_name(s, at, name);
    lemma_head_fun(s, pos);
}

/// What stands where the head of a binding stands: `val`, the name and
/// `=`.
#[verifier::rlimit(50)]
#[verifier::spinoff_prover]
proof fn lemma_val_head(s: Seq<u8>, pos: nat, name: Seq<char>)
    requires
        plain_name(name),
        holds(s, pos, encode_utf8("val "@) + encode_utf8(name) + encode_utf8(" = "@)),
        !in_class(s, pos + 4 + name.len() + 3, Class::Space),
    ensures
        pos < s.len(),
        "val"@.len() == 3,
        has_word(s, pos, "val"@),
        spaced(s, pos + 3),
        skip(s, pos + 3) == pos + 4,
        g_sym(s, pos + 4) == Some((SymbolView { name, id: 0 }, name.len())),
        skip(s, pos + 4 + name.len()) == pos + 5 + name.len(),
        has_byte(s, pos + 5 + name.len(), 61),
        skip(s, pos + 6 + name.len()) == pos + 7 + name.len(),
{
    let head = encode_utf8("val "@);
    let tn = encode_utf8(name);
    let eq = encode_utf8(" = "@);
    spell_val_sp();
    spell_sp_eq_sp();
    is_ascii_chars_encode_utf8(name);
    lemma_holds_split(s, pos, head + tn, eq);
    lemma_holds_split(s, pos, head, tn);
    let at = pos + 4;
    let a = at + tn.len();
    lemma_mid_eq(s, a);
    lemma_name(s, at, name);
    lemma_head_val(s, pos);
}

#[verifier::rlimit(50)]
#[verifier::spinoff_prover]
proof fn lemma_val_rec(v: ValView, s: Seq<u8>, pos: nat, next: nat)
    requires
        v.rec,
        readable_val(v, next) is Some,
        holds(s, pos, val_text(v)),
        stops(s, pos + val_text(v).len()),
    ensures
        g_bind(s, pos, next) == Some((v, val_text(v).len(), readable_val(v, next)->Some_0)),
    decreases v, 0nat,
{
    match (v.pattern, v.expr) {
        (PatternView::Var { name, ty }, ExprView::Fun { param_ty, param, body_ty, body }) => {
            let front = encode_utf8("fun "@) + encode_utf8(name.name) + encode_utf8(" "@)
                + encode_utf8(param.name) + encode_utf8(" = "@);
            let tb = part_text(*body);
            let next1 = readable(*body, next)->Some_0;
            assert(val_text(v) == front + tb);
            lemma_holds_split(s, pos, front, tb);
            spell_fun_sp();
            spell_sp();
            spell_sp_eq_sp();
            is_ascii_chars_encode_utf8(name.name);
            is_ascii_chars_encode_utf8(param.name);
            let n = name.name.len();
            let m = param.name.len();
            let c = pos + 8 + n + m;
            assert(front.len() == 8 + n + m);
            lemma_part_begins(*body, s, c, next);
            lemma_fun_head(s, pos, name.name, param.name);
            lemma_part(*body, s, c, next);
            assert(name == SymbolView { name: name.name, id: 0 });
            assert(param == SymbolView { name: param.name, id: 0 });
            rule_fun(s, pos, next, name, n, param, m, pos + 6 + n + m, *body, tb.len(), next1);
            assert(v == binding(true, name, v.expr, next1 + 2));
        },
        _ => {},
    }
}

/// A binding whose text stands where no expression goes on behind it is
/// read as what it is.
pub proof fn lemma_val(v: ValView, s: Seq<u8>, pos: nat, next: nat)
    requires
        readable_val(v, next) is Some,
        holds(s, pos, val_text(v)),
        stops(s, pos + val_text(v).len()),
    ensures
        g_bind(s, pos, next) == Some((v, val_text(v).len(), readable_val(v, next)->Some_0)),
    decreases v, 1nat,
{
    if v.rec {
        lemma_val_rec(v, s, pos, next);
    } else {
        lemma_val_plain(v, s, pos, next);
    }
}

/// The bindings from number `i` on, read where the text of the first `i`
/// ends: they are read one after the other, each behind a line break.
#[verifier::rlimit(50)]
#[verifier::spinoff_prover]
proof fn lemma_more_vals(vals: Seq<ValView>, i: nat, s: Seq<u8>, pos: nat, next: nat)
    requires
        1 <= i <= vals.len(),
        readable_vals(vals, vals.len(), next) is Some,
        holds(s, pos, vals_text(vals, vals.len())),
        stops(s, pos + vals_text(vals, vals.len()).len()),
        no_bind_after(s, pos + vals_text(vals, vals.len()).len()),
    ensures
        readable_vals(vals, i, next) is Some,
        vals_text(vals, i).len() <= vals_text(vals, vals.len()).len(),
        holds(s, pos, vals_text(vals, i)),
        g_more_binds(s, pos + vals_text(vals, i).len(), readable_vals(vals, i, next)->Some_0) == (
            vals.subrange(i as int, vals.len() as int),
            (vals_text(vals, vals.len()).len() - vals_text(vals, i).len()) as nat,
            readable_vals(vals, vals.len(), next)->Some_0,
        ),
        stops(s, pos + vals_text(vals, i).len()),
    decreases vals, vals.len() - i,
{
    let n = vals.len();
    let end = pos + vals_text(vals, n).len();
    if i == n {
        let last = readable_vals(vals, n, next)->Some_0;
        assert(vals.subrange(i as int, n as int) =~= Seq::<ValView>::empty());
        rule_no_more_binds(s, end, last);
    } else {
        lemma_more_vals(vals, i + 1, s, pos, next);
        let nl = encode_utf8("\n"@);
        let ti = vals_text(vals, i);
        let tv = val_text(vals[i as int]);
        assert(vals_text(vals, i + 1) == ti + nl + tv);
        lemma_holds_split(s, pos, ti + nl, tv);
        lemma_holds_split(s, pos, ti, nl);
        lemma_holds_fits(s, pos, ti + nl);
        let a = pos + ti.len();
        let b = a + nl.len();
        let next1 = readable_vals(vals, i, next)->Some_0;
        let next2 = readable_vals(vals, i + 1, next)->Some_0;
        let last = readable_vals(vals, n, next)->Some_0;
        lemma_val_begins(vals[i as int], next1);
        lemma_line_break(s, a, tv);
        lemma_val(vals[i as int], s, b, next1);
        rule_more_binds(
            s,
            a,
            next1,
            vals[i as int],
            tv.len(),
            next2,
            vals.subrange((i + 1) as int, n as int),
            (vals_text(vals, n).len() - vals_text(vals, i + 1).len()) as nat,
            last,
        );
        assert(vals.subrange(i as int, n as int) =~= seq![vals[i as int]] + vals.subrange(
            (i + 1) as int,
            n as int,
        ));
    }
}

/// A list of bindings, not empty, whose text stands where neither an
/// expression nor the list goes on behind it is read as what it is.
#[verifier::rlimit(50)]
#[verifier::spinoff_prover]
pub proof fn lemma_vals(vals: Seq<ValView>, s: Seq<u8>, pos: nat, next: nat)
    requires
        vals.len() >= 1,
        readable_vals(vals, vals.len(), next) is Some,
        holds(s, pos, vals_text(vals, vals.len())),
        stops(s, pos + vals_text(vals, vals.len()).len()),
        no_bind_after(s, pos + vals_text(vals, vals.len()).len()),
    ensures
        g_binds(s, pos, next) == (
            vals,
            vals_text(vals, vals.len()).len(),
            readable_vals(vals, vals.len(), next)->Some_0,
        ),
    decreases vals, vals.len(),
{
    let n = vals.len();
    lemma_more_vals(vals, 1, s, pos, next);
    assert(vals_text(vals, 1) == val_text(vals[0]));
    assert(readable_vals(vals, 0, next) == Some(next));
    lemma_val(vals[0], s, pos, next);
    rule_binds(
        s,
        pos,
        next,
        vals[0],
        val_text(vals[0]).len(),
        readable_vals(vals, 1, next)->Some_0,
        vals.subrange(1, n as int),
        (vals_text(vals, n).len() - vals_text(vals, 1).len()) as nat,
        readable_vals(vals, n, next)->Some_0,
    );
    assert(vals =~= seq![vals[0]] + vals.subrange(1, n as int));
}


/// The text of a readable program is read as the program.
pub proof fn lemma_program(vals: Seq<ValView>, next: nat)
    requires
        readable_vals(vals, vals.len(), next) is Some,
    ensures
        g_top(vals_text(vals, vals.len()), next) == Ok::<(Seq<ValView>, nat), nat>(
            (vals, readable_vals(vals, vals.len(), next)->Some_0),
        ),
{
    let s = vals_text(vals, vals.len());
    if vals.len() == 0 {
        lemma_no_space(s, 0);
        assert(g_bind(s, 0, next) is None);
        assert(g_binds(s, 0, next) == (Seq::<ValView>::empty(), 0nat, next));
        assert(vals =~= Seq::<ValView>::empty());
    } else {
        lemma_holds_whole(s);
        lemma_vals_begin(vals, vals.len(), next);
        lemma_no_space(s, 0);
        lemma_stops_at_end(s, s.len());
        lemma_vals(vals, s, 0, next);
    }
}

} // verus!
