use webml::ast::{Expr, Pattern, TyDefer, TySlots, Val, AST};
use webml::parser::parse;
use webml::pp::print;
use webml::prim::{Literal, Symbol};

fn parsed(text: &str) -> AST {
    let mut slots = TySlots::new();
    parse(text.as_bytes(), &mut slots).expect("the text follows the grammar")
}

fn printed(text: &str) -> String {
    String::from_utf8(print(&parsed(text))).unwrap()
}

fn comes_back(text: &str) {
    let first = parsed(text);
    let again = print(&first);
    let mut slots = TySlots::new();
    let second = parse(&again, &mut slots).expect("printed text follows the grammar");
    assert_eq!(first, second, "{}", String::from_utf8_lossy(&again));
}

#[test]
fn prints_bindings_one_to_a_line() {
    assert_eq!(printed("val x = 1   val y = x"), "val x = 1\nval y = x");
    assert_eq!(printed(""), "");
}

#[test]
fn prints_compound_parts_in_parentheses() {
    assert_eq!(printed("val x = 1 + 2 * 3"), "val x = (1 + (2 * 3))");
    assert_eq!(printed("val x = f a b"), "val x = ((f a) b)");
    assert_eq!(printed("val x = f (g a)"), "val x = (f (g a))");
    assert_eq!(
        printed("val x = if a then fn y => y else let val z = 2. in z end"),
        "val x = (if a then (fn y => y) else (let val z = 2. in z end))"
    );
}

#[test]
fn prints_literals() {
    assert_eq!(
        printed("val a = 042 val b = 3.140 val c = true val d = false"),
        "val a = 42\nval b = 3.140\nval c = true\nval d = false"
    );
    let negative = AST(vec![Val {
        ty: TyDefer(1),
        rec: false,
        pattern: Pattern::Var { name: Symbol::new("n"), ty: TyDefer(2) },
        expr: Expr::Lit { ty: TyDefer(0), value: Literal::Int(i64::MIN) },
    }]);
    assert_eq!(String::from_utf8(print(&negative)).unwrap(), "val n = -9223372036854775808");
}

#[test]
fn prints_fun_bindings_with_their_first_parameter() {
    assert_eq!(printed("fun f x = x"), "fun f x = x");
    assert_eq!(printed("fun f x y = x y"), "fun f x = (fn y => (x y))");
}

#[test]
fn prints_what_the_grammar_has_no_syntax_for() {
    let slot = TyDefer(0);
    let case = Expr::Case {
        ty: slot,
        cond: Box::new(Expr::Sym { ty: slot, name: Symbol::new("p") }),
        clauses: vec![
            (
                Pattern::Tuple { tuple: vec![(slot, Symbol::new("a")), (slot, Symbol::new("b"))] },
                Expr::Tuple {
                    ty: slot,
                    tuple: vec![
                        Expr::Sym { ty: slot, name: Symbol::new("b") },
                        Expr::Sym { ty: slot, name: Symbol::new("a") },
                    ],
                },
            ),
            (Pattern::Wildcard { ty: slot }, Expr::Lit { ty: slot, value: Literal::Int(0) }),
        ],
    };
    let ast = AST(vec![Val { ty: slot, rec: false, pattern: Pattern::Wildcard { ty: slot }, expr: case }]);
    assert_eq!(
        String::from_utf8(print(&ast)).unwrap(),
        "val _ = (case p of (a, b) => (b, a) | _ => 0)"
    );
}

#[test]
fn printed_text_parses_to_the_same_tree() {
    comes_back("");
    comes_back("val x = 1");
    comes_back("val x = 007 val y = 1.50 val z = 9223372036854775807");
    comes_back("val t = true val f = false val u = truly val v = falls");
    comes_back("val x = 1 + 2 * 3 + 4 * 5");
    comes_back("val x = (1 + 2) * (3 + 4)");
    comes_back("val x = f a b c");
    comes_back("val x = f (g a) (h (i b) c)");
    comes_back("fun f x = x");
    comes_back("fun compose f g x = f (g x)");
    comes_back("val k = fn x => fn y => x");
    comes_back("val m = if a then b else if c then d else e");
    comes_back("val n = let val a = 1 fun g y = y + a val b = g a in b * 2 end");
    comes_back("val p = (fn x => x) 1 + (if t then 2 else 3) * (let val q = 4 in q end)");
    comes_back("val if1 = then2 val lets = ends val val1 = 1");
    comes_back("val 123 = 4 val true = 5");
    comes_back("fun f x = let fun g y = if y then f y else g (f x) in g end\nval r = f (f 1)");
}

#[test]
fn printing_twice_gives_the_same_text() {
    let text = "fun f a b = if a then b + 1 * 2 else let val c = f a b in c c end";
    let once = printed(text);
    assert_eq!(printed(&once), once);
}
