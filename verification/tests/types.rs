use webml::ast::{Expr, Pattern, TyDefer, TySlots, Type, TypeError};
use webml::id::Id;
use webml::prim::{Literal, Symbol};
use webml::text::padded_decimal_bytes;

#[test]
fn a_new_slot_is_appended() {
    let mut slots = TySlots::new();
    let a = TyDefer::empty(&mut slots);
    let b = TyDefer::new(&mut slots, Some(Type::Int));
    assert_eq!(a, TyDefer(0));
    assert_eq!(b, TyDefer(1));
    assert_eq!(slots.len(), 2);
    assert_eq!(a.get(&slots), &None);
    assert_eq!(b.get(&slots), &Some(Type::Int));
}

#[test]
fn holders_of_one_handle_see_the_same_type() {
    let mut slots = TySlots::new();
    let mut a = TyDefer::empty(&mut slots);
    let shared = a;
    assert_eq!(shared.defined(&slots), None);
    *a.get_mut(&mut slots) = Some(Type::Bool);
    assert_eq!(shared.defined(&slots), Some(Type::Bool));
    assert_eq!(shared.get(&slots), a.get(&slots));
    assert_eq!(shared.force(&slots, "filled above"), Type::Bool);
    *a.get_mut(&mut slots) = None;
    assert_eq!(shared.defined(&slots), None);
}

#[test]
fn defined_of_a_handle_outside_the_table_is_none() {
    let slots = TySlots::new();
    assert_eq!(TyDefer(3).defined(&slots), None);
}

#[test]
fn function_type_puts_its_parts_in_new_slots() {
    let mut slots = TySlots::new();
    let _ = TyDefer::empty(&mut slots);
    let t = Type::fun(&mut slots, Type::Int, Type::Bool);
    assert_eq!(t, Type::Fun(TyDefer(1), TyDefer(2)));
    assert_eq!(TyDefer(1).defined(&slots), Some(Type::Int));
    assert_eq!(TyDefer(2).defined(&slots), Some(Type::Bool));
    assert_eq!(slots.len(), 3);
}

#[test]
fn unit_is_the_empty_tuple() {
    assert_eq!(Type::unit(), Type::Tuple(vec![]));
}

#[test]
fn truncate_drops_the_newest_slots() {
    let mut slots = TySlots::new();
    let _ = TyDefer::new(&mut slots, Some(Type::Int));
    let _ = TyDefer::new(&mut slots, Some(Type::Float));
    let _ = TyDefer::empty(&mut slots);
    slots.truncate(5);
    assert_eq!(slots.len(), 3);
    slots.truncate(1);
    assert_eq!(slots.slots, vec![Some(Type::Int)]);
}

#[test]
fn type_slot_of_an_expression() {
    let mut slots = TySlots::new();
    let e = Expr::Sym { ty: TyDefer(4), name: Symbol::new("x") };
    assert_eq!(e.ty_defer(&mut slots), TyDefer(4));
    assert_eq!(slots.len(), 0);
    let f = Expr::Fun {
        param_ty: TyDefer(5),
        param: Symbol::new("x"),
        body_ty: TyDefer(6),
        body: Box::new(e),
    };
    let ty = f.ty_defer(&mut slots);
    assert_eq!(ty, TyDefer(0));
    assert_eq!(ty.defined(&slots), Some(Type::Fun(TyDefer(5), TyDefer(6))));
}

#[test]
fn type_slot_of_a_pattern() {
    let mut slots = TySlots::new();
    let p = Pattern::Wildcard { ty: TyDefer(2) };
    assert_eq!(p.ty_defer(&mut slots), TyDefer(2));
    let p = Pattern::Lit { value: Literal::Bool(true), ty: TyDefer(3) };
    assert_eq!(p.ty_defer(&mut slots), TyDefer(3));
    assert_eq!(slots.len(), 0);
    let p = Pattern::Tuple {
        tuple: vec![(TyDefer(7), Symbol::new("a")), (TyDefer(8), Symbol::new("b"))],
    };
    let ty = p.ty_defer(&mut slots);
    assert_eq!(ty, TyDefer(0));
    assert_eq!(ty.defined(&slots), Some(Type::Tuple(vec![TyDefer(7), TyDefer(8)])));
}

#[test]
fn names_bound_by_a_pattern() {
    let a = Symbol::new("a");
    let b = Symbol::new("b");
    let p = Pattern::Tuple { tuple: vec![(TyDefer(7), a.clone()), (TyDefer(8), b.clone())] };
    assert_eq!(p.binds(), vec![(&a, &TyDefer(7)), (&b, &TyDefer(8))]);
    let p = Pattern::Var { name: a.clone(), ty: TyDefer(1) };
    assert_eq!(p.binds(), vec![(&a, &TyDefer(1))]);
    assert!(Pattern::Wildcard { ty: TyDefer(1) }.binds().is_empty());
    assert!(Pattern::Lit { value: Literal::Int(3), ty: TyDefer(1) }.binds().is_empty());
}

#[test]
fn copies_are_equal() {
    let p = Pattern::Tuple { tuple: vec![(TyDefer(7), Symbol::new("a"))] };
    assert_eq!(p.duplicate(), p);
    let t = Type::Tuple(vec![TyDefer(1), TyDefer(2)]);
    assert_eq!(t.duplicate(), t);
    let l = Literal::Float("1.5".to_string());
    assert_eq!(l.duplicate(), l);
    let s = Symbol("x".to_string(), 4);
    assert_eq!(s.duplicate(), s);
    assert!(s.same(&Symbol("x".to_string(), 4)));
    assert!(!s.same(&Symbol("x".to_string(), 5)));
    assert!(!s.same(&Symbol("y".to_string(), 4)));
}

#[test]
fn error_descriptions() {
    let mismatch = TypeError::MisMatch { expected: Type::Int, actual: Type::Bool };
    assert_eq!(mismatch.description(), "type mismatches against expected type");
    assert_eq!(TypeError::CannotInfer.description(), "cannot infer the type");
    assert_eq!(TypeError::FreeVar.description(), "free variable is found");
    let e = Expr::Lit { ty: TyDefer(0), value: Literal::Int(1) };
    assert_eq!(TypeError::NotFunction(e).description(), "not a function");
    assert_eq!(TypeError::ParseError(3).description(), "parse error");
}

#[test]
fn ids_start_at_one_and_go_up() {
    let mut id = Id::new();
    assert_eq!(id.remaining(), u64::MAX);
    assert_eq!(id.next(), 1);
    assert_eq!(id.next(), 2);
    assert_eq!(id.next(), 3);
    assert_eq!(id.remaining(), u64::MAX - 3);
}

#[test]
fn decimal_numerals_with_zeros_in_front() {
    assert_eq!(padded_decimal_bytes(0, 6), b"000000".to_vec());
    assert_eq!(padded_decimal_bytes(42, 6), b"000042".to_vec());
    assert_eq!(padded_decimal_bytes(999999, 6), b"999999".to_vec());
    assert_eq!(padded_decimal_bytes(1234567, 6), b"1234567".to_vec());
    assert_eq!(padded_decimal_bytes(7, 0), b"7".to_vec());
    assert_eq!(padded_decimal_bytes(0, 1), b"0".to_vec());
}
