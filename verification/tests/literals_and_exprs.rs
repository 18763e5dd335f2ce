use egglog_prelude::exprs::{bool, call, integer, string, unit, var, Expr};
use egglog_prelude::literal::{Literal, LiteralConvertible};

#[test]
fn literal_round_trips() {
    assert_eq!(i64::from_literal(&(-5i64).to_literal()), Some(-5));
    assert_eq!(bool::from_literal(&true.to_literal()), Some(true));
    assert_eq!(<()>::from_literal(&().to_literal()), Some(()));
    assert_eq!(
        String::from_literal(&"hello".to_string().to_literal()),
        Some("hello".to_string())
    );
    assert_eq!(
        "x".to_string().to_literal(),
        Literal::String("x".to_string())
    );
}

#[test]
fn string_from_other_literals_is_nothing() {
    assert_eq!(String::from_literal(&Literal::Int(3)), None);
    assert_eq!(String::from_literal(&Literal::Unit), None);
}

#[test]
fn literal_of_another_kind_converts_to_nothing() {
    assert_eq!(i64::from_literal(&Literal::Bool(true)), None);
    assert_eq!(bool::from_literal(&Literal::Int(1)), None);
    assert_eq!(<()>::from_literal(&Literal::String("x".to_string())), None);
    assert_eq!(i64::from_literal(&Literal::Float(1.5f64.to_bits())), None);
}

#[test]
fn literals_are_built_as_expected() {
    assert_eq!(3i64.to_literal(), Literal::Int(3));
    assert_eq!(false.to_literal(), Literal::Bool(false));
    assert_eq!(().to_literal(), Literal::Unit);
}

#[test]
fn expression_builders() {
    assert_eq!(var("x"), Expr::Var("x".to_string()));
    assert_eq!(integer(20), Expr::Lit(Literal::Int(20)));
    assert_eq!(string("hi"), Expr::Lit(Literal::String("hi".to_string())));
    assert_eq!(unit(), Expr::Lit(Literal::Unit));
    assert_eq!(bool(true), Expr::Lit(Literal::Bool(true)));
    assert_eq!(
        call("fib", vec![integer(20)]),
        Expr::Call("fib".to_string(), vec![Expr::Lit(Literal::Int(20))])
    );
    assert_eq!(call("f", vec![]), Expr::Call("f".to_string(), vec![]));
}

#[test]
fn rust_rule_head_calls_the_primitive_on_the_variables() {
    let vars = vec!["x".to_string(), "f0".to_string(), "f1".to_string()];
    assert_eq!(
        egglog_prelude::wiring::rust_rule_head("rust_rule_prim", &vars),
        call("rust_rule_prim", vec![var("x"), var("f0"), var("f1")])
    );
}
