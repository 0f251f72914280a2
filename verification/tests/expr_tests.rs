use netlist_ir::ast::Expression;
use netlist_ir::error::ElabError;
use netlist_ir::expr::{Bindings, ExprArena, ParameterExpression};

#[test]
fn hash_consing_identical_handles() {
    let mut a = ExprArena::new();
    let c1 = a.mk_constant(5);
    let c2 = a.mk_constant(5);
    assert_eq!(c1, c2);
    let w1 = a.mk_parameter(String::from("W"));
    let w2 = a.mk_parameter(String::from("W"));
    assert_eq!(w1, w2);
    let s1 = a.mk_add(c1, w1);
    let s2 = a.mk_add(c2, w2);
    assert_eq!(s1, s2);
    let swapped = a.mk_add(w1, c1);
    assert_ne!(s1, swapped);
    let other_const = a.mk_constant(6);
    assert_ne!(c1, other_const);
}

#[test]
fn div_by_literal_zero_rejected_at_construction() {
    let mut a = ExprArena::new();
    let w = a.mk_parameter(String::from("W"));
    let zero = a.mk_constant(0);
    assert_eq!(a.mk_div(w, zero), Err(ElabError::DivisionByZero));
    assert_eq!(a.mk_mod(w, zero), Err(ElabError::DivisionByZero));
}

#[test]
fn evaluate_div_by_zero_at_evaluation_time() {
    let mut a = ExprArena::new();
    let w = a.mk_parameter(String::from("W"));
    let z = a.mk_sub(w, w);
    let four = a.mk_constant(4);
    let d = a.mk_div(four, z).unwrap();
    let mut b = Bindings::new();
    b.set("W", 7);
    assert_eq!(a.evaluate(d, &b), Err(ElabError::DivisionByZero));
}

#[test]
fn evaluate_div_of_parameter() {
    let mut a = ExprArena::new();
    let w = a.mk_parameter(String::from("W"));
    let two = a.mk_constant(2);
    let d = a.mk_div(w, two).unwrap();
    let mut b = Bindings::new();
    b.set("W", 4);
    assert_eq!(a.evaluate(d, &b), Ok(2));
}

#[test]
fn evaluate_unbound_parameter() {
    let mut a = ExprArena::new();
    let x = a.mk_parameter(String::from("X"));
    let b = Bindings::new();
    assert_eq!(
        a.evaluate(x, &b),
        Err(ElabError::UnboundParameter { name: String::from("X") })
    );
}

#[test]
fn evaluate_arithmetic() {
    // (W + 3) * 2 - 1 with W = 5 gives 15.
    let mut a = ExprArena::new();
    let w = a.mk_parameter(String::from("W"));
    let three = a.mk_constant(3);
    let two = a.mk_constant(2);
    let one = a.mk_constant(1);
    let sum = a.mk_add(w, three);
    let prod = a.mk_mul(sum, two);
    let e = a.mk_sub(prod, one);
    let mut b = Bindings::new();
    b.set("W", 5);
    assert_eq!(a.evaluate(e, &b), Ok(15));
}

#[test]
fn evaluate_overflow() {
    let mut a = ExprArena::new();
    let big = a.mk_constant(i64::MAX);
    let one = a.mk_constant(1);
    let e = a.mk_add(big, one);
    let b = Bindings::new();
    assert_eq!(a.evaluate(e, &b), Err(ElabError::ArithmeticOverflow));
}

#[test]
fn evaluate_mod_and_negative_division() {
    let mut a = ExprArena::new();
    let n7 = a.mk_constant(-7);
    let two = a.mk_constant(2);
    let d = a.mk_div(n7, two).unwrap();
    let m = a.mk_mod(n7, two).unwrap();
    let b = Bindings::new();
    // Truncating division, as Rust's `/` and `%` compute it.
    assert_eq!(a.evaluate(d, &b), Ok(-3));
    assert_eq!(a.evaluate(m, &b), Ok(-1));
}

#[test]
fn bindings_last_set_wins() {
    let mut b = Bindings::new();
    b.set("W", 1);
    b.set("W", 2);
    assert_eq!(b.get("W"), Some(2));
    assert_eq!(b.get("V"), None);
}

#[test]
fn constant_literal_parsing() {
    assert_eq!(Expression::with_constant("42"), Expression::ConstantInt(42));
    assert_eq!(Expression::with_constant("-7"), Expression::ConstantInt(-7));
    assert_eq!(Expression::with_constant("+13"), Expression::ConstantInt(13));
    assert_eq!(Expression::with_constant("0"), Expression::ConstantInt(0));
    assert_eq!(
        Expression::with_constant("9223372036854775807"),
        Expression::ConstantInt(i64::MAX)
    );
}

#[test]
fn node_shapes_are_distinct() {
    let mut a = ExprArena::new();
    let x = a.mk_constant(2);
    let y = a.mk_constant(3);
    let add = a.mk_add(x, y);
    let sub = a.mk_sub(x, y);
    let mul = a.mk_mul(x, y);
    assert_ne!(add, sub);
    assert_ne!(add, mul);
    assert_ne!(sub, mul);
    assert!(matches!(a.nodes[add], ParameterExpression::Add(p, q) if p == x && q == y));
}
