use webml::ast::{Pattern, TyDefer, TypeError};
use webml::config::Config;
use webml::hir::flat_let::{take_binds, FlatLet};
use webml::hir::{Expr, Val, HIR};
use webml::prim::{Literal, Symbol};

const T: TyDefer = TyDefer(0);

fn sym(name: &str) -> Expr {
    Expr::Sym { ty: T, name: Symbol(name.to_string(), 0) }
}

fn num(n: i64) -> Expr {
    Expr::Lit { ty: T, value: Literal::Int(n) }
}

fn val(name: &str, expr: Expr) -> Val {
    Val {
        ty: T,
        rec: false,
        pattern: Pattern::Var { name: Symbol(name.to_string(), 0), ty: T },
        expr,
    }
}

fn app(fun: Expr, arg: Expr) -> Expr {
    Expr::App { ty: T, fun: Box::new(fun), arg: Box::new(arg) }
}

fn binds(vals: Vec<Val>, ret: Expr) -> Expr {
    Expr::Binds { ty: T, binds: vals, ret: Box::new(ret) }
}

fn cond(c: Expr, t: Expr, e: Expr) -> Expr {
    Expr::If { ty: T, cond: Box::new(c), then: Box::new(t), else_: Box::new(e) }
}

fn fun(param: &str, body: Expr) -> Expr {
    Expr::Fun { ty: T, param: Symbol(param.to_string(), 0), body: Box::new(body) }
}

#[test]
fn flat_let_hoisting_through_application() {
    let z = app(
        app(sym("f"), binds(vec![val("a", num(1))], sym("a"))),
        binds(vec![val("b", num(2))], sym("b")),
    );
    let hir = HIR(vec![val("z", z)]);
    let out = FlatLet::new().flat_hir(hir);
    let expected = HIR(vec![
        val("a", num(1)),
        val("b", num(2)),
        val("z", app(app(sym("f"), sym("a")), sym("b"))),
    ]);
    assert_eq!(out, expected);
}

#[test]
fn flat_let_does_not_hoist_across_branches() {
    let z = cond(sym("c"), binds(vec![val("a", num(1))], sym("a")), num(0));
    let hir = HIR(vec![val("z", z)]);
    let out = FlatLet::new().flat_hir(hir);
    let expected =
        HIR(vec![val("z", cond(sym("c"), binds(vec![val("a", num(1))], sym("a")), num(0)))]);
    assert_eq!(out, expected);
}

#[test]
fn condition_of_an_if_is_hoisted() {
    let z = cond(binds(vec![val("a", num(1))], sym("a")), num(1), num(0));
    let out = FlatLet::new().flat_hir(HIR(vec![val("z", z)]));
    let expected = HIR(vec![val("a", num(1)), val("z", cond(sym("a"), num(1), num(0)))]);
    assert_eq!(out, expected);
}

#[test]
fn nested_lets_become_one_list() {
    let inner = binds(vec![val("b", binds(vec![val("c", num(1))], sym("c")))], sym("b"));
    let outer = binds(vec![val("a", inner)], binds(vec![val("d", sym("a"))], sym("d")));
    let out = FlatLet::new().flat_hir(HIR(vec![val("z", outer)]));
    let expected = HIR(vec![
        val("c", num(1)),
        val("b", sym("c")),
        val("a", sym("b")),
        val("d", sym("a")),
        val("z", sym("d")),
    ]);
    assert_eq!(out, expected);
}

#[test]
fn body_of_a_let_is_flattened_before_it_gives_up_its_bindings() {
    let body = app(sym("f"), binds(vec![val("b", num(2))], sym("b")));
    let e = fun("x", binds(vec![val("a", num(1))], body));
    let out = FlatLet::new().flat_hir(HIR(vec![val("g", e)]));
    let expected = HIR(vec![val(
        "g",
        fun("x", binds(vec![val("a", num(1)), val("b", num(2))], app(sym("f"), sym("b")))),
    )]);
    assert_eq!(out, expected);
}

#[test]
fn function_body_keeps_what_no_let_encloses() {
    let e = fun("x", app(sym("f"), binds(vec![val("a", num(1))], sym("a"))));
    let out = FlatLet::new().flat_hir(HIR(vec![val("g", e)]));
    let expected =
        HIR(vec![val("g", fun("x", app(sym("f"), binds(vec![val("a", num(1))], sym("a")))))]);
    assert_eq!(out, expected);
}

#[test]
fn leaves_and_flags_are_kept() {
    let prim = Expr::PrimFun { ty: TyDefer(7), name: Symbol("print".to_string(), 0) };
    let mut v = val("p", app(prim, Expr::Lit { ty: TyDefer(8), value: Literal::Bool(true) }));
    v.rec = true;
    v.ty = TyDefer(9);
    let out = FlatLet::new().flat_hir(HIR(vec![v]));
    let prim = Expr::PrimFun { ty: TyDefer(7), name: Symbol("print".to_string(), 0) };
    let mut expected = val("p", app(prim, Expr::Lit { ty: TyDefer(8), value: Literal::Bool(true) }));
    expected.rec = true;
    expected.ty = TyDefer(9);
    assert_eq!(out, HIR(vec![expected]));
}

#[test]
fn take_binds_splits_an_expression() {
    let e = app(binds(vec![val("a", num(1))], sym("a")), binds(vec![val("b", num(2))], sym("b")));
    let (rest, given) = take_binds(e);
    assert_eq!(rest, app(sym("a"), sym("b")));
    assert_eq!(given, vec![val("a", num(1)), val("b", num(2))]);

    let e = cond(sym("c"), binds(vec![val("a", num(1))], sym("a")), num(0));
    let (rest, given) = take_binds(e);
    assert_eq!(rest, cond(sym("c"), binds(vec![val("a", num(1))], sym("a")), num(0)));
    assert_eq!(given, vec![]);

    let (rest, given) = take_binds(fun("x", binds(vec![val("a", num(1))], sym("a"))));
    assert_eq!(rest, fun("x", binds(vec![val("a", num(1))], sym("a"))));
    assert!(given.is_empty());

    let (rest, given) = take_binds(num(5));
    assert_eq!(rest, num(5));
    assert!(given.is_empty());
}

#[test]
fn flattening_twice_changes_nothing_more() {
    let z = app(
        app(sym("f"), binds(vec![val("a", binds(vec![val("c", num(3))], sym("c")))], sym("a"))),
        cond(binds(vec![val("b", num(2))], sym("b")), num(1), binds(vec![val("d", num(4))], sym("d"))),
    );
    let mut pass = FlatLet::new();
    let once = pass.flat_hir(HIR(vec![val("z", z)]));
    let names: Vec<String> = once
        .0
        .iter()
        .map(|v| match &v.pattern {
            Pattern::Var { name, .. } => name.0.clone(),
            other => panic!("unexpected pattern {:?}", other),
        })
        .collect();
    assert_eq!(names, vec!["c", "a", "b", "z"]);
    let copy = format!("{:?}", once);
    let twice = pass.flat_hir(once);
    assert_eq!(format!("{:?}", twice), copy);
}

#[test]
fn trans_runs_the_pass() {
    let z = app(sym("f"), binds(vec![val("a", num(1))], sym("a")));
    let out: Result<HIR, TypeError> = FlatLet::new().trans(HIR(vec![val("z", z)]), &Config::default());
    assert_eq!(out, Ok(HIR(vec![val("a", num(1)), val("z", app(sym("f"), sym("a")))])));
}

#[test]
fn gensym_counts_up_in_six_digits() {
    let mut pass = FlatLet::new();
    assert_eq!(pass.gensym(), Symbol("#g000000".to_string(), 0));
    assert_eq!(pass.gensym(), Symbol("#g000001".to_string(), 0));
    for _ in 2..12 {
        pass.gensym();
    }
    assert_eq!(pass.gensym(), Symbol("#g000012".to_string(), 0));
}

fn bare(e: &Expr) -> bool {
    match e {
        Expr::Binds { .. } => false,
        Expr::App { fun, arg, .. } => bare(fun) && bare(arg),
        Expr::If { cond, .. } => bare(cond),
        _ => true,
    }
}

fn flat(e: &Expr) -> bool {
    match e {
        Expr::Binds { binds, ret, .. } => {
            binds.iter().all(|v| bare(&v.expr) && flat(&v.expr)) && bare(ret) && flat(ret)
        }
        Expr::Fun { body, .. } => flat(body),
        Expr::App { fun, arg, .. } => flat(fun) && flat(arg),
        Expr::If { cond, then, else_, .. } => flat(cond) && flat(then) && flat(else_),
        _ => true,
    }
}

#[test]
fn flattened_program_has_no_let_left_to_hoist() {
    let deep = binds(
        vec![val(
            "a",
            app(
                binds(vec![val("b", binds(vec![val("c", num(1))], sym("c")))], sym("f")),
                cond(
                    binds(vec![val("d", num(2))], sym("d")),
                    binds(vec![val("e", app(sym("g"), binds(vec![val("h", num(3))], sym("h"))))], sym("e")),
                    fun("x", binds(vec![val("i", binds(vec![val("j", num(4))], sym("j")))], sym("i"))),
                ),
            ),
        )],
        app(sym("a"), binds(vec![val("k", num(5))], sym("k"))),
    );
    assert!(!flat(&deep));
    let out = FlatLet::new().flat_hir(HIR(vec![val("z", deep)]));
    assert!(out.0.iter().all(|v| bare(&v.expr) && flat(&v.expr)));
    let names: Vec<String> = out
        .0
        .iter()
        .map(|v| match &v.pattern {
            Pattern::Var { name, .. } => name.0.clone(),
            other => panic!("unexpected pattern {:?}", other),
        })
        .collect();
    assert_eq!(names, vec!["c", "b", "d", "a", "k", "z"]);
}

#[test]
fn a_fresh_pass_can_generate_symbols() {
    assert!(!FlatLet::new().exhausted());
}
