use webml::ast::rename::Rename;
use webml::ast::{Expr, Pattern, TyDefer, TySlots, Val, AST};
use webml::config::Config;
use webml::id::Id;
use webml::parser::parse;
use webml::prim::{Literal, Symbol};

fn renamed_with(text: &str, builtins: &[&str]) -> AST {
    let mut slots = TySlots::new();
    let ast = parse(text.as_bytes(), &mut slots).expect("the text follows the grammar");
    let mut pass = Rename::new(Id::new(), builtins);
    pass.trans(ast, &Config::default()).expect("renaming never fails")
}

fn renamed(text: &str) -> AST {
    renamed_with(text, &["+", "*", "print"])
}

fn binder(val: &Val) -> &Symbol {
    match &val.pattern {
        Pattern::Var { name, .. } => name,
        other => panic!("unexpected pattern {:?}", other),
    }
}

fn reference(e: &Expr) -> &Symbol {
    match e {
        Expr::Sym { name, .. } => name,
        other => panic!("unexpected expression {:?}", other),
    }
}

fn s(name: &str, id: u64) -> Symbol {
    Symbol(name.to_string(), id)
}

#[test]
fn shadowing() {
    let ast = renamed("val y = let val x = 1 in let val x = 2 in x end end");
    let outer = match &ast.0[0].expr {
        Expr::Binds { binds, ret, .. } => (binds, ret),
        other => panic!("unexpected expression {:?}", other),
    };
    let inner = match &**outer.1 {
        Expr::Binds { binds, ret, .. } => (binds, ret),
        other => panic!("unexpected expression {:?}", other),
    };
    assert_eq!(binder(&outer.0[0]), &s("x", 1));
    assert_eq!(binder(&inner.0[0]), &s("x", 2));
    assert_eq!(reference(inner.1), &s("x", 2));
    assert_eq!(binder(&ast.0[0]), &s("y", 3));
}

#[test]
fn recursive_binding() {
    let ast = renamed("fun f x = f x");
    assert_eq!(binder(&ast.0[0]), &s("f", 1));
    match &ast.0[0].expr {
        Expr::Fun { param, body, .. } => {
            assert_eq!(param, &s("x", 2));
            match &**body {
                Expr::App { fun, arg, .. } => {
                    assert_eq!(reference(fun), &s("f", 1));
                    assert_eq!(reference(arg), &s("x", 2));
                }
                other => panic!("unexpected expression {:?}", other),
            }
        }
        other => panic!("unexpected expression {:?}", other),
    }
}

#[test]
fn built_in_preservation() {
    let ast = renamed_with("val y = x + 1", &["+"]);
    match &ast.0[0].expr {
        Expr::BinOp { op, l, .. } => {
            assert_eq!(op, &s("+", 0));
            assert_eq!(reference(l), &s("x", 0));
        }
        other => panic!("unexpected expression {:?}", other),
    }
    assert_eq!(binder(&ast.0[0]), &s("y", 1));
}

#[test]
fn a_value_binding_does_not_see_itself() {
    let ast = renamed("val x = 1 val x = x");
    assert_eq!(binder(&ast.0[0]), &s("x", 1));
    assert_eq!(reference(&ast.0[1].expr), &s("x", 1));
    assert_eq!(binder(&ast.0[1]), &s("x", 2));
}

#[test]
fn later_bindings_see_earlier_ones() {
    let ast = renamed("val a = 1 val b = a val c = b");
    assert_eq!(reference(&ast.0[1].expr), &s("a", 1));
    assert_eq!(reference(&ast.0[2].expr), &s("b", 2));
    assert_eq!(binder(&ast.0[2]), &s("c", 3));
}

#[test]
fn a_scope_ends_with_its_construct() {
    let ast = renamed("val a = (fn x => x) x val b = let val y = 1 in y end val c = y");
    match &ast.0[0].expr {
        Expr::App { fun, arg, .. } => {
            match &**fun {
                Expr::Fun { param, body, .. } => {
                    assert_eq!(param, &s("x", 1));
                    assert_eq!(reference(body), &s("x", 1));
                }
                other => panic!("unexpected expression {:?}", other),
            }
            assert_eq!(reference(arg), &s("x", 0));
        }
        other => panic!("unexpected expression {:?}", other),
    }
    assert_eq!(reference(&ast.0[2].expr), &s("y", 0));
}

#[test]
fn a_user_binding_hides_a_built_in() {
    let ast = renamed_with("val print = 1 val a = print", &["print"]);
    assert_eq!(binder(&ast.0[0]), &s("print", 1));
    assert_eq!(reference(&ast.0[1].expr), &s("print", 1));
}

#[test]
fn recursive_let_binding_sees_itself() {
    let ast = renamed("val r = let fun loop n = loop n in loop end");
    match &ast.0[0].expr {
        Expr::Binds { binds, ret, .. } => {
            assert_eq!(binder(&binds[0]), &s("loop", 1));
            match &binds[0].expr {
                Expr::Fun { param, body, .. } => {
                    assert_eq!(param, &s("n", 2));
                    match &**body {
                        Expr::App { fun, arg, .. } => {
                            assert_eq!(reference(fun), &s("loop", 1));
                            assert_eq!(reference(arg), &s("n", 2));
                        }
                        other => panic!("unexpected expression {:?}", other),
                    }
                }
                other => panic!("unexpected expression {:?}", other),
            }
            assert_eq!(reference(ret), &s("loop", 1));
        }
        other => panic!("unexpected expression {:?}", other),
    }
    assert_eq!(binder(&ast.0[0]), &s("r", 3));
}

#[test]
fn case_clauses_and_tuple_patterns() {
    let unresolved = |name: &str| Symbol::new(name);
    let slot = TyDefer(0);
    let clause_tuple = (
        Pattern::Tuple { tuple: vec![(slot, unresolved("a")), (slot, unresolved("b"))] },
        Expr::Tuple {
            ty: slot,
            tuple: vec![
                Expr::Sym { ty: slot, name: unresolved("b") },
                Expr::Sym { ty: slot, name: unresolved("a") },
                Expr::Sym { ty: slot, name: unresolved("c") },
            ],
        },
    );
    let clause_wild = (Pattern::Wildcard { ty: slot }, Expr::Sym { ty: slot, name: unresolved("a") });
    let clause_lit = (
        Pattern::Lit { value: Literal::Int(1), ty: slot },
        Expr::Lit { ty: slot, value: Literal::Bool(true) },
    );
    let case = Expr::Case {
        ty: slot,
        cond: Box::new(Expr::Sym { ty: slot, name: unresolved("c") }),
        clauses: vec![clause_tuple, clause_wild, clause_lit],
    };
    let ast = AST(vec![
        Val { ty: slot, rec: false, pattern: Pattern::Var { name: unresolved("c"), ty: slot }, expr: Expr::Lit { ty: slot, value: Literal::Int(0) } },
        Val { ty: slot, rec: false, pattern: Pattern::Wildcard { ty: slot }, expr: case },
    ]);
    let mut pass = Rename::new(Id::new(), &[]);
    let out = pass.trans(ast, &Config::default()).unwrap();
    assert_eq!(binder(&out.0[0]), &s("c", 1));
    match &out.0[1].expr {
        Expr::Case { cond, clauses, .. } => {
            assert_eq!(reference(cond), &s("c", 1));
            assert_eq!(
                clauses[0].0,
                Pattern::Tuple { tuple: vec![(slot, s("a", 2)), (slot, s("b", 3))] }
            );
            match &clauses[0].1 {
                Expr::Tuple { tuple, .. } => {
                    assert_eq!(reference(&tuple[0]), &s("b", 3));
                    assert_eq!(reference(&tuple[1]), &s("a", 2));
                    assert_eq!(reference(&tuple[2]), &s("c", 1));
                }
                other => panic!("unexpected expression {:?}", other),
            }
            assert_eq!(reference(&clauses[1].1), &s("a", 0));
            assert_eq!(clauses[2].0, Pattern::Lit { value: Literal::Int(1), ty: slot });
        }
        other => panic!("unexpected expression {:?}", other),
    }
}

#[test]
fn renaming_keeps_slots_and_shape() {
    let text = "fun f x = if x then f (x + 1) else let val y = 2.5 in y * x end";
    let mut slots = TySlots::new();
    let before = parse(text.as_bytes(), &mut slots).unwrap();
    let after = renamed(text);
    fn strip(e: &Expr) -> String {
        format!("{:?}", e)
            .split("Symbol(")
            .map(|part| match part.find(", ") {
                Some(at) if part.starts_with('"') => {
                    let rest = &part[at..];
                    let close = rest.find(')').unwrap();
                    format!("{}{}", &part[..at], &rest[close..])
                }
                _ => part.to_string(),
            })
            .collect::<Vec<String>>()
            .join("Symbol(")
    }
    assert_eq!(strip(&before.0[0].expr), strip(&after.0[0].expr));
    assert_eq!(before.0[0].ty, after.0[0].ty);
}

#[test]
fn ids_go_on_over_several_programs() {
    let mut slots = TySlots::new();
    let first = parse(b"val a = 1 val b = a", &mut slots).unwrap();
    let second = parse(b"val c = a", &mut slots).unwrap();
    let mut pass = Rename::new(Id::new(), &["+"]);
    let first = pass.trans(first, &Config::default()).unwrap();
    let second = pass.trans(second, &Config::default()).unwrap();
    assert_eq!(binder(&first.0[1]), &s("b", 2));
    assert_eq!(binder(&second.0[0]), &s("c", 3));
    assert_eq!(reference(&second.0[0].expr), &s("a", 0));
}

#[test]
fn binders_get_distinct_ids_in_order() {
    let ast = renamed("fun f a b = let val c = fn d => d in c a end val g = f");
    let mut ids: Vec<u64> = Vec::new();
    fn walk(e: &Expr, ids: &mut Vec<u64>) {
        match e {
            Expr::Binds { binds, ret, .. } => {
                for v in binds {
                    walk(&v.expr, ids);
                    if let Pattern::Var { name, .. } = &v.pattern {
                        ids.push(name.1);
                    }
                }
                walk(ret, ids);
            }
            Expr::Fun { param, body, .. } => {
                ids.push(param.1);
                walk(body, ids);
            }
            Expr::App { fun, arg, .. } => {
                walk(fun, ids);
                walk(arg, ids);
            }
            _ => {}
        }
    }
    ids.push(binder(&ast.0[0]).1);
    walk(&ast.0[0].expr, &mut ids);
    walk(&ast.0[1].expr, &mut ids);
    ids.push(binder(&ast.0[1]).1);
    assert_eq!(ids, vec![1, 2, 3, 4, 5, 6]);
    let mut sorted = ids.clone();
    sorted.sort();
    sorted.dedup();
    assert_eq!(sorted.len(), ids.len());
    assert!(ids.iter().all(|id| *id != 0));
}

#[test]
fn renaming_a_renamed_tree_keeps_it() {
    let text = "fun f x = let val y = x + z in f y end val z = f 1 val z = z";
    let once = renamed(text);
    let mut pass = Rename::new(Id::new(), &["+", "*", "print"]);
    let mut slots = TySlots::new();
    let copy = parse(text.as_bytes(), &mut slots).unwrap();
    let again = pass.trans(pass_once(copy), &Config::default()).unwrap();
    fn pass_once(ast: AST) -> AST {
        let mut first = Rename::new(Id::new(), &["+", "*", "print"]);
        first.trans(ast, &Config::default()).unwrap()
    }
    assert_eq!(once, again);
}

#[test]
fn renaming_again_from_another_count_shifts_the_ids() {
    let text = "fun f x = let val y = x + z in f y end val z = f 1";
    let once = renamed(text);
    let mut id = Id::new();
    for _ in 0..10 {
        id.next();
    }
    let mut pass = Rename::new(id, &["+", "*", "print"]);
    let again = pass.trans(once, &Config::default()).unwrap();
    let shifted = format!("{:?}", renamed(text))
        .replace(", 4)", ", 14)")
        .replace(", 3)", ", 13)")
        .replace(", 2)", ", 12)")
        .replace(", 1)", ", 11)");
    assert_eq!(format!("{:?}", again), shifted);
}

#[test]
fn room_for_ids_is_told_before_renaming() {
    let mut slots = TySlots::new();
    let ast = parse(b"fun f x = let val y = x in y end", &mut slots).unwrap();
    let pass = Rename::new(Id::new(), &[]);
    assert!(pass.has_room(&ast));
    let empty = AST(vec![]);
    assert!(pass.has_room(&empty));
}
