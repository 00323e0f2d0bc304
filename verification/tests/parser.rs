use webml::ast::{Expr, Pattern, TyDefer, TySlots, TypeError, Val, AST};
use webml::parser::parse;
use webml::prim::{Literal, Symbol};

fn sym(name: &str) -> Symbol {
    Symbol(name.to_string(), 0)
}

fn var(name: &str, slot: usize) -> Pattern {
    Pattern::Var { name: sym(name), ty: TyDefer(slot) }
}

fn num(value: i64, slot: usize) -> Expr {
    Expr::Lit { ty: TyDefer(slot), value: Literal::Int(value) }
}

fn name(text: &str, slot: usize) -> Expr {
    Expr::Sym { ty: TyDefer(slot), name: sym(text) }
}

fn parsed(text: &str) -> (AST, TySlots) {
    let mut slots = TySlots::new();
    let ast = parse(text.as_bytes(), &mut slots).expect("the text follows the grammar");
    (ast, slots)
}

fn rejected(text: &str) -> usize {
    let mut slots = TySlots::new();
    match parse(text.as_bytes(), &mut slots) {
        Err(TypeError::ParseError(at)) => {
            assert_eq!(slots.len(), 0);
            at
        }
        other => panic!("expected a parse error, got {:?}", other),
    }
}

#[test]
fn parses_a_value_binding() {
    let (ast, slots) = parsed("val x = 1");
    let expected = AST(vec![Val {
        ty: TyDefer(1),
        rec: false,
        pattern: var("x", 2),
        expr: num(1, 0),
    }]);
    assert_eq!(ast, expected);
    assert_eq!(slots.len(), 3);
    assert_eq!(slots.slots, vec![None, None, None]);
}

#[test]
fn parses_the_empty_program() {
    let (ast, slots) = parsed("");
    assert_eq!(ast, AST(vec![]));
    assert_eq!(slots.len(), 0);
    let (ast, _) = parsed(" \n\t\r ");
    assert_eq!(ast, AST(vec![]));
}

#[test]
fn slots_follow_those_already_in_the_table() {
    let mut slots = TySlots::new();
    let _ = TyDefer::empty(&mut slots);
    let _ = TyDefer::empty(&mut slots);
    let ast = parse(b"val x = 1", &mut slots).unwrap();
    let expected = AST(vec![Val {
        ty: TyDefer(3),
        rec: false,
        pattern: var("x", 4),
        expr: num(1, 2),
    }]);
    assert_eq!(ast, expected);
    assert_eq!(slots.len(), 5);
}

#[test]
fn fun_binding_is_a_recursive_value_of_nested_functions() {
    let (ast, slots) = parsed("fun f x y = x");
    let inner = Expr::Fun {
        param_ty: TyDefer(1),
        param: sym("y"),
        body_ty: TyDefer(2),
        body: Box::new(name("x", 0)),
    };
    let outer = Expr::Fun {
        param_ty: TyDefer(3),
        param: sym("x"),
        body_ty: TyDefer(4),
        body: Box::new(inner),
    };
    let expected =
        AST(vec![Val { ty: TyDefer(5), rec: true, pattern: var("f", 6), expr: outer }]);
    assert_eq!(ast, expected);
    assert_eq!(slots.len(), 7);
}

#[test]
fn fun_binding_needs_a_parameter() {
    assert_eq!(rejected("fun f = 1"), 0);
}

#[test]
fn application_associates_to_the_left() {
    let (ast, _) = parsed("val a = f x y");
    let first = Expr::App {
        ty: TyDefer(2),
        fun: Box::new(name("f", 0)),
        arg: Box::new(name("x", 1)),
    };
    let second = Expr::App { ty: TyDefer(4), fun: Box::new(first), arg: Box::new(name("y", 3)) };
    let expected =
        AST(vec![Val { ty: TyDefer(5), rec: false, pattern: var("a", 6), expr: second }]);
    assert_eq!(ast, expected);
}

#[test]
fn addition_and_multiplication_associate_to_the_right() {
    let (ast, _) = parsed("val a = 1 + 2 * 3");
    let product = Expr::BinOp {
        op: sym("*"),
        ty: TyDefer(3),
        l: Box::new(num(2, 1)),
        r: Box::new(num(3, 2)),
    };
    let sum =
        Expr::BinOp { op: sym("+"), ty: TyDefer(4), l: Box::new(num(1, 0)), r: Box::new(product) };
    let expected = AST(vec![Val { ty: TyDefer(5), rec: false, pattern: var("a", 6), expr: sum }]);
    assert_eq!(ast, expected);

    let (ast, _) = parsed("val a = 1 + 2 + 3");
    let right = Expr::BinOp {
        op: sym("+"),
        ty: TyDefer(3),
        l: Box::new(num(2, 1)),
        r: Box::new(num(3, 2)),
    };
    let sum =
        Expr::BinOp { op: sym("+"), ty: TyDefer(4), l: Box::new(num(1, 0)), r: Box::new(right) };
    assert_eq!(ast.0[0].expr, sum);

    let (ast, _) = parsed("val a = 1*2*3");
    let right = Expr::BinOp {
        op: sym("*"),
        ty: TyDefer(3),
        l: Box::new(num(2, 1)),
        r: Box::new(num(3, 2)),
    };
    let product =
        Expr::BinOp { op: sym("*"), ty: TyDefer(4), l: Box::new(num(1, 0)), r: Box::new(right) };
    assert_eq!(ast.0[0].expr, product);
}

#[test]
fn one_plus_one_does_not_overflow() {
    let (ast, _) = parsed("val two = 1 + 1");
    let sum = Expr::BinOp {
        op: sym("+"),
        ty: TyDefer(2),
        l: Box::new(num(1, 0)),
        r: Box::new(num(1, 1)),
    };
    assert_eq!(ast.0[0].expr, sum);
}

#[test]
fn parses_literals() {
    let (ast, _) = parsed("val a = 3.14 val b = 7. val c = true val d = false val e = 042");
    let values: Vec<&Expr> = ast.0.iter().map(|v| &v.expr).collect();
    assert_eq!(
        values[0],
        &Expr::Lit { ty: TyDefer(0), value: Literal::Float("3.14".to_string()) }
    );
    assert_eq!(values[1], &Expr::Lit { ty: TyDefer(3), value: Literal::Float("7.".to_string()) });
    assert_eq!(values[2], &Expr::Lit { ty: TyDefer(6), value: Literal::Bool(true) });
    assert_eq!(values[3], &Expr::Lit { ty: TyDefer(9), value: Literal::Bool(false) });
    assert_eq!(values[4], &num(42, 12));
}

#[test]
fn largest_integer_literal() {
    let (ast, _) = parsed("val a = 9223372036854775807");
    assert_eq!(ast.0[0].expr, num(i64::MAX, 0));
    assert_eq!(rejected("val a = 9223372036854775808"), 0);
    assert_eq!(rejected("val a = 99999999999999999999"), 0);
}

#[test]
fn parses_parentheses() {
    let (ast, _) = parsed("val a = ( 1 )");
    assert_eq!(ast.0[0].expr, num(1, 0));
    let (ast, _) = parsed("val a = (f x) (g y)");
    let left =
        Expr::App { ty: TyDefer(2), fun: Box::new(name("f", 0)), arg: Box::new(name("x", 1)) };
    let right =
        Expr::App { ty: TyDefer(5), fun: Box::new(name("g", 3)), arg: Box::new(name("y", 4)) };
    let both = Expr::App { ty: TyDefer(6), fun: Box::new(left), arg: Box::new(right) };
    assert_eq!(ast.0[0].expr, both);
    assert_eq!(rejected("val a = (1"), 0);
}

#[test]
fn parses_let() {
    let (ast, slots) = parsed("val y = let val x = 1 val z = x in z end");
    let binds = vec![
        Val { ty: TyDefer(1), rec: false, pattern: var("x", 2), expr: num(1, 0) },
        Val { ty: TyDefer(4), rec: false, pattern: var("z", 5), expr: name("x", 3) },
    ];
    let body = Expr::Binds { ty: TyDefer(7), binds, ret: Box::new(name("z", 6)) };
    let expected = AST(vec![Val { ty: TyDefer(8), rec: false, pattern: var("y", 9), expr: body }]);
    assert_eq!(ast, expected);
    assert_eq!(slots.len(), 10);
}

#[test]
fn parses_fn_and_if() {
    let (ast, _) = parsed("val f = fn x => if x then 1 else 2");
    let cond = Expr::If {
        ty: TyDefer(3),
        cond: Box::new(name("x", 0)),
        then: Box::new(num(1, 1)),
        else_: Box::new(num(2, 2)),
    };
    let fun = Expr::Fun {
        param_ty: TyDefer(4),
        param: sym("x"),
        body_ty: TyDefer(5),
        body: Box::new(cond),
    };
    let expected = AST(vec![Val { ty: TyDefer(6), rec: false, pattern: var("f", 7), expr: fun }]);
    assert_eq!(ast, expected);
}

#[test]
fn white_space_is_free_between_tokens() {
    let (a, _) = parsed("val x=1");
    let (b, _) = parsed("  val \t x \n = \r\n 1  ");
    assert_eq!(a, b);
    let (c, _) = parsed("val f = fn x=>x");
    let (d, _) = parsed("val f = fn x  =>  x");
    assert_eq!(c, d);
}

#[test]
fn several_bindings_in_document_order() {
    let (ast, _) = parsed("val a = 1\nfun f x = x\nval b = f a");
    let names: Vec<String> = ast
        .0
        .iter()
        .map(|v| match &v.pattern {
            Pattern::Var { name, .. } => name.0.clone(),
            other => panic!("unexpected pattern {:?}", other),
        })
        .collect();
    assert_eq!(names, vec!["a".to_string(), "f".to_string(), "b".to_string()]);
    assert_eq!(ast.0.iter().map(|v| v.rec).collect::<Vec<bool>>(), vec![false, true, false]);
}

#[test]
fn parser_reserved_words() {
    assert_eq!(rejected("val val = 1"), 0);
    for word in ["val", "fun", "fn", "let", "in", "end", "if", "then", "else"] {
        let text = format!("val {} = 1", word);
        assert_eq!(rejected(&text), 0, "{}", word);
        let text = format!("val x = {}", word);
        assert_eq!(rejected(&text), 0, "{}", word);
    }
    let (ast, _) = parsed("val value = 1 val iffy = 2 val lets = 3");
    assert_eq!(ast.0.len(), 3);
}

#[test]
fn error_names_the_place_where_the_bindings_stop() {
    assert_eq!(rejected("val x = 1 val"), 10);
    assert_eq!(rejected("val x = 1 )"), 10);
    assert_eq!(rejected("  val x = 1\n  + \n"), 14);
    assert_eq!(rejected("x"), 0);
    assert_eq!(rejected("  ?"), 2);
}

#[test]
fn bytes_outside_ascii_are_rejected() {
    let mut slots = TySlots::new();
    let text = [b'v', b'a', b'l', b' ', 0xc3, 0xa9, b' ', b'=', b' ', b'1'];
    assert_eq!(parse(&text, &mut slots), Err(TypeError::ParseError(0)));
    let text = [b'v', b'a', b'l', b' ', b'x', 0xff, b' ', b'=', b' ', b'1'];
    assert_eq!(parse(&text, &mut slots), Err(TypeError::ParseError(0)));
    assert_eq!(slots.len(), 0);
}

#[test]
fn a_symbol_may_hold_digits() {
    let (ast, _) = parsed("val x1 = y2z");
    assert_eq!(ast.0[0].pattern, var("x1", 2));
    assert_eq!(ast.0[0].expr, name("y2z", 0));
}

#[test]
fn let_needs_its_keywords() {
    assert_eq!(rejected("val y = let val x = 1 in x"), 0);
    assert_eq!(rejected("val y = let val x = 1 x end"), 0);
    assert_eq!(rejected("val y = if a then b"), 0);
}

#[test]
fn nested_parentheses_parse_quickly() {
    let depth = 200;
    let text = format!("val x = {}1{}", "(".repeat(depth), ")".repeat(depth));
    let (ast, slots) = parsed(&text);
    assert_eq!(ast.0[0].expr, num(1, 0));
    assert_eq!(slots.len(), 3);
}

#[test]
fn a_truth_value_is_read_as_far_as_it_goes() {
    assert_eq!(rejected("val v = falsehood"), 13);
    assert_eq!(rejected("val v = truest"), 12);
    let (ast, _) = parsed("val v = truly");
    assert_eq!(ast.0[0].expr, name("truly", 0));
}
