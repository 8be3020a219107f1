use symexpr::algebra::ops::{Add, Constant, Expr, ExprError, Mul, Pow, Variable};

fn minus(a: u64, b: u64) -> u64 {
    (f64::from_bits(a) - f64::from_bits(b)).to_bits()
}

fn num(v: f64) -> Expr {
    Expr::Constant(Constant(v.to_bits()))
}

fn var(name: &str) -> Expr {
    Expr::Variable(Variable(name.to_string()))
}

fn pow(b: Expr, e: Expr) -> Expr {
    Expr::Pow(Pow(Box::new(b), Box::new(e)))
}

#[test]
fn derivative_of_a_constant_is_zero() {
    for c in [0.0, 1.0, -3.5, 1e300, f64::NAN] {
        assert_eq!(num(c).d("x", &minus), Ok(num(0.0)));
        assert_eq!(num(c).d("", &minus), Ok(num(0.0)));
        assert_eq!(Constant(c.to_bits()).d("anything", &minus), Ok(num(0.0)));
    }
}

#[test]
fn derivative_of_the_variable_itself_is_one() {
    assert_eq!(var("x").d("x", &minus), Ok(num(1.0)));
    assert_eq!(Variable("rate".to_string()).d("rate", &minus), Ok(num(1.0)));
}

#[test]
fn derivative_of_another_variable_is_zero() {
    assert_eq!(var("x").d("y", &minus), Ok(num(0.0)));
    assert_eq!(var("x").d("X", &minus), Ok(num(0.0)));
    assert_eq!(var("x").d("xx", &minus), Ok(num(0.0)));
    assert_eq!(Variable("x".to_string()).d("", &minus), Ok(num(0.0)));
}

#[test]
fn derivative_of_a_sum_is_the_sum_of_derivatives() {
    let e = Expr::Add(Add(vec![var("x"), num(5.0), var("y"), var("x")]));
    assert_eq!(
        e.d("x", &minus),
        Ok(Expr::Add(Add(vec![num(1.0), num(0.0), num(0.0), num(1.0)])))
    );
    assert_eq!(Add(vec![var("x")]).d("x", &minus), Ok(Expr::Add(Add(vec![num(1.0)]))));
}

#[test]
fn derivative_of_a_product_replaces_one_operand_at_a_time() {
    let e = Expr::Mul(Mul(vec![var("x"), var("y"), num(3.0)]));
    assert_eq!(
        e.d("x", &minus),
        Ok(Expr::Add(Add(vec![
            Expr::Mul(Mul(vec![num(1.0), var("y"), num(3.0)])),
            Expr::Mul(Mul(vec![var("x"), num(0.0), num(3.0)])),
            Expr::Mul(Mul(vec![var("x"), var("y"), num(0.0)])),
        ])))
    );
}

#[test]
fn derivative_of_a_product_of_one_operand() {
    assert_eq!(
        Mul(vec![var("x")]).d("x", &minus),
        Ok(Expr::Add(Add(vec![Expr::Mul(Mul(vec![num(1.0)]))])))
    );
}

#[test]
fn derivative_of_a_power_follows_the_power_rule() {
    let e = pow(var("x"), num(3.0));
    assert_eq!(
        e.d("x", &minus),
        Ok(Expr::Mul(Mul(vec![num(3.0), pow(var("x"), num(2.0)), num(1.0)])))
    );
    assert_eq!(
        e.d("y", &minus),
        Ok(Expr::Mul(Mul(vec![num(3.0), pow(var("x"), num(2.0)), num(0.0)])))
    );
}

#[test]
fn derivative_of_a_power_chains_into_the_base() {
    let base = Expr::Add(Add(vec![var("x"), num(1.0)]));
    let e = Pow(Box::new(base.clone()), Box::new(num(0.5)));
    assert_eq!(
        e.d("x", &minus),
        Ok(Expr::Mul(Mul(vec![
            num(0.5),
            pow(base, num(-0.5)),
            Expr::Add(Add(vec![num(1.0), num(0.0)])),
        ])))
    );
}

#[test]
fn power_with_a_variable_exponent_is_unimplemented() {
    assert_eq!(pow(num(2.0), var("x")).d("x", &minus), Err(ExprError::Unimplemented));
    assert_eq!(pow(var("x"), var("x")).d("y", &minus), Err(ExprError::Unimplemented));
}

#[test]
fn power_with_a_computed_exponent_is_unimplemented() {
    let two = Expr::Add(Add(vec![num(1.0), num(1.0)]));
    assert_eq!(pow(var("x"), two).d("x", &minus), Err(ExprError::Unimplemented));
    let nested = pow(var("x"), pow(num(2.0), num(2.0)));
    assert_eq!(nested.d("x", &minus), Err(ExprError::Unimplemented));
}

#[test]
fn unimplemented_power_anywhere_below_fails_the_whole() {
    let bad = pow(num(2.0), var("x"));
    assert_eq!(Expr::Add(Add(vec![var("x"), bad.clone()])).d("x", &minus), Err(ExprError::Unimplemented));
    assert_eq!(Expr::Mul(Mul(vec![bad.clone(), var("x")])).d("x", &minus), Err(ExprError::Unimplemented));
    assert_eq!(pow(bad, num(2.0)).d("x", &minus), Err(ExprError::Unimplemented));
}

#[test]
fn exponents_are_not_differentiated() {
    // The exponent is a constant node: what lies in the base decides alone.
    let e = pow(pow(var("x"), num(2.0)), num(3.0));
    assert_eq!(
        e.d("x", &minus),
        Ok(Expr::Mul(Mul(vec![
            num(3.0),
            pow(pow(var("x"), num(2.0)), num(2.0)),
            Expr::Mul(Mul(vec![num(2.0), pow(var("x"), num(1.0)), num(1.0)])),
        ])))
    );
}

#[test]
fn empty_sum_and_product_differentiate_to_the_empty_sum() {
    assert_eq!(Expr::Add(Add(vec![])).d("x", &minus), Ok(Expr::Add(Add(vec![]))));
    assert_eq!(Expr::Mul(Mul(vec![])).d("x", &minus), Ok(Expr::Add(Add(vec![]))));
}

#[test]
fn differentiation_leaves_the_original_unchanged() {
    let e = Expr::Mul(Mul(vec![var("x"), pow(var("x"), num(2.0))]));
    let copy = e.clone();
    let _ = e.d("x", &minus);
    assert_eq!(e, copy);
}

#[test]
fn the_exponent_is_lowered_by_the_subtraction_handed_in() {
    let seen = |a: u64, b: u64| a.wrapping_mul(1000).wrapping_add(b % 1000);
    let e = pow(var("x"), Expr::Constant(Constant(7)));
    let one = 1.0f64.to_bits();
    assert_eq!(
        e.d("x", &seen),
        Ok(Expr::Mul(Mul(vec![
            Expr::Constant(Constant(7)),
            pow(var("x"), Expr::Constant(Constant(7000 + one % 1000))),
            num(1.0),
        ])))
    );
}
