use symexpr::algebra::args::Arguments;
use symexpr::algebra::ops::{Add, Constant, Expr, ExprError, Mul, Pow, Variable};

fn plus(a: u64, b: u64) -> u64 {
    (f64::from_bits(a) + f64::from_bits(b)).to_bits()
}

fn times(a: u64, b: u64) -> u64 {
    (f64::from_bits(a) * f64::from_bits(b)).to_bits()
}

fn power(a: u64, b: u64) -> u64 {
    f64::from_bits(a).powf(f64::from_bits(b)).to_bits()
}

fn num(v: f64) -> Expr {
    Expr::Constant(Constant(v.to_bits()))
}

fn var(name: &str) -> Expr {
    Expr::Variable(Variable(name.to_string()))
}

fn bind(pairs: &[(&str, f64)]) -> Arguments {
    let mut a = Arguments::new();
    for (name, v) in pairs {
        a.insert(name.to_string(), v.to_bits());
    }
    a
}

fn value(e: &Expr, a: &Arguments) -> Result<f64, ExprError> {
    e.eval(a, &plus, &times, &power).map(f64::from_bits)
}

#[test]
fn constant_evaluates_to_itself_under_any_bindings() {
    for c in [0.0, -0.0, 1.5, -7.25, f64::MAX, f64::MIN_POSITIVE, f64::INFINITY] {
        let e = num(c);
        let empty = Arguments::new();
        let some = bind(&[("x", 3.0), ("y", -1.0)]);
        assert_eq!(e.eval(&empty, &plus, &times, &power), Ok(c.to_bits()));
        assert_eq!(e.eval(&some, &plus, &times, &power), Ok(c.to_bits()));
        assert_eq!(Constant(c.to_bits()).eval(&some, &plus, &times, &power), Ok(c.to_bits()));
    }
}

#[test]
fn constant_keeps_the_bits_of_a_nan() {
    let bits = 0x7ff8_0000_0000_1234u64;
    let e = Expr::Constant(Constant(bits));
    assert_eq!(e.eval(&Arguments::new(), &plus, &times, &power), Ok(bits));
}

#[test]
fn bound_variable_evaluates_to_its_binding() {
    let a = bind(&[("x", 4.5), ("speed", -2.0)]);
    assert_eq!(value(&var("x"), &a), Ok(4.5));
    assert_eq!(value(&var("speed"), &a), Ok(-2.0));
    assert_eq!(Variable("x".to_string()).eval(&a, &plus, &times, &power), Ok(4.5f64.to_bits()));
}

#[test]
fn unbound_variable_is_missing() {
    let a = bind(&[("x", 4.5)]);
    assert_eq!(value(&var("y"), &a), Err(ExprError::MissingVariable));
    assert_eq!(value(&var("x"), &Arguments::new()), Err(ExprError::MissingVariable));
    assert_eq!(value(&var("X"), &a), Err(ExprError::MissingVariable));
}

#[test]
fn sum_adds_its_operands() {
    let e = Expr::Add(Add(vec![num(1.0), num(2.0), num(3.5)]));
    assert_eq!(value(&e, &Arguments::new()), Ok(6.5));
}

#[test]
fn sum_of_one_operand_is_that_operand() {
    let e = Expr::Add(Add(vec![num(-4.0)]));
    assert_eq!(value(&e, &Arguments::new()), Ok(-4.0));
}

#[test]
fn sum_folds_from_the_left() {
    let e = Expr::Add(Add(vec![num(0.1), num(0.2), num(0.3)]));
    let got = value(&e, &Arguments::new()).unwrap();
    assert_eq!(got, (0.1f64 + 0.2) + 0.3);
    assert_eq!(got, 0.6000000000000001);
    assert_ne!(got, 0.1f64 + (0.2 + 0.3));
}

#[test]
fn product_multiplies_its_operands() {
    let e = Expr::Mul(Mul(vec![num(2.0), num(3.0), num(4.0)]));
    assert_eq!(value(&e, &Arguments::new()), Ok(24.0));
    assert_eq!(Mul(vec![num(2.0), num(-0.5)]).eval(&Arguments::new(), &plus, &times, &power), Ok((-1.0f64).to_bits()));
}

#[test]
fn product_folds_from_the_left() {
    let big = 1.0e200;
    let e = Expr::Mul(Mul(vec![num(big), num(big), num(1.0e-200)]));
    let got = value(&e, &Arguments::new()).unwrap();
    assert_eq!(got, f64::INFINITY);
    assert_ne!(got, big * (big * 1.0e-200));
}

#[test]
fn power_raises_base_to_exponent() {
    let e = Expr::Pow(Pow(Box::new(num(2.0)), Box::new(num(10.0))));
    assert_eq!(value(&e, &Arguments::new()), Ok(1024.0));
    let root = Pow(Box::new(num(9.0)), Box::new(num(0.5)));
    assert_eq!(root.eval(&Arguments::new(), &plus, &times, &power), Ok(3.0f64.to_bits()));
}

#[test]
fn power_of_negative_base_and_fraction_is_not_a_number() {
    let e = Expr::Pow(Pow(Box::new(num(-8.0)), Box::new(num(0.5))));
    let got = value(&e, &Arguments::new()).unwrap();
    assert!(got.is_nan());
}

#[test]
fn nested_expression_uses_bindings() {
    // 3 * x ^ 2 + y
    let e = Expr::Add(Add(vec![
        Expr::Mul(Mul(vec![num(3.0), Expr::Pow(Pow(Box::new(var("x")), Box::new(num(2.0))))])),
        var("y"),
    ]));
    let a = bind(&[("x", 4.0), ("y", 0.5)]);
    assert_eq!(value(&e, &a), Ok(48.5));
}

#[test]
fn empty_sum_is_invalid() {
    let e = Add(vec![]);
    assert_eq!(e.eval(&Arguments::new(), &plus, &times, &power), Err(ExprError::InvalidExpression));
    assert_eq!(value(&Expr::Add(Add(vec![])), &bind(&[("x", 1.0)])), Err(ExprError::InvalidExpression));
}

#[test]
fn empty_product_is_invalid() {
    let e = Mul(vec![]);
    assert_eq!(e.eval(&Arguments::new(), &plus, &times, &power), Err(ExprError::InvalidExpression));
    assert_eq!(value(&Expr::Mul(Mul(vec![])), &Arguments::new()), Err(ExprError::InvalidExpression));
}

#[test]
fn first_error_from_the_left_wins() {
    let empty = Expr::Add(Add(vec![]));
    let a = Arguments::new();
    let missing_first = Expr::Add(Add(vec![var("x"), empty.clone()]));
    assert_eq!(value(&missing_first, &a), Err(ExprError::MissingVariable));
    let invalid_first = Expr::Mul(Mul(vec![num(1.0), empty.clone(), var("x")]));
    assert_eq!(value(&invalid_first, &a), Err(ExprError::InvalidExpression));
}

#[test]
fn power_evaluates_its_base_first() {
    let empty = Expr::Mul(Mul(vec![]));
    let a = Arguments::new();
    let e = Expr::Pow(Pow(Box::new(var("x")), Box::new(empty.clone())));
    assert_eq!(value(&e, &a), Err(ExprError::MissingVariable));
    let f = Expr::Pow(Pow(Box::new(empty), Box::new(var("x"))));
    assert_eq!(value(&f, &a), Err(ExprError::InvalidExpression));
}

#[test]
fn error_deep_in_the_tree_surfaces() {
    let e = Expr::Add(Add(vec![
        num(1.0),
        Expr::Mul(Mul(vec![num(2.0), Expr::Pow(Pow(Box::new(num(2.0)), Box::new(var("n"))))])),
    ]));
    assert_eq!(value(&e, &bind(&[("m", 1.0)])), Err(ExprError::MissingVariable));
    assert_eq!(value(&e, &bind(&[("n", 3.0)])), Ok(17.0));
}

#[test]
fn evaluation_uses_the_arithmetic_it_is_given() {
    let first = |a: u64, _b: u64| a;
    let second = |_a: u64, b: u64| b;
    let xor = |a: u64, b: u64| a ^ b;
    let e = Expr::Add(Add(vec![
        Expr::Constant(Constant(5)),
        Expr::Mul(Mul(vec![Expr::Constant(Constant(6)), Expr::Constant(Constant(7))])),
        Expr::Pow(Pow(Box::new(Expr::Constant(Constant(12))), Box::new(Expr::Constant(Constant(10))))),
    ]));
    let a = Arguments::new();
    assert_eq!(e.eval(&a, &first, &second, &xor), Ok(5));
    assert_eq!(e.eval(&a, &second, &first, &xor), Ok(6));
    assert_eq!(e.eval(&a, &xor, &second, &first), Ok(5 ^ 7 ^ 12));
}
