use symexpr::algebra::args::Arguments;
use symexpr::algebra::ops::{Add, Constant, Expr, ExprError, Mul, Pow, Variable};
use symexpr::parser::parse;

fn plus(a: u64, b: u64) -> u64 {
    (f64::from_bits(a) + f64::from_bits(b)).to_bits()
}

fn times(a: u64, b: u64) -> u64 {
    (f64::from_bits(a) * f64::from_bits(b)).to_bits()
}

fn power(a: u64, b: u64) -> u64 {
    f64::from_bits(a).powf(f64::from_bits(b)).to_bits()
}

fn number(c: u64) -> String {
    f64::from_bits(c).to_string()
}

fn read(text: &str) -> Option<u64> {
    text.parse::<f64>().ok().map(f64::to_bits)
}

fn num(v: f64) -> Expr {
    Expr::Constant(Constant(v.to_bits()))
}

fn var(name: &str) -> Expr {
    Expr::Variable(Variable(name.to_string()))
}

fn pow(b: Expr, e: Expr) -> Expr {
    Expr::Pow(Pow(Box::new(b), Box::new(e)))
}

fn simple(e: &Expr) -> Result<Expr, ExprError> {
    e.simplify(&plus, &times, &power)
}

#[test]
fn leaves_simplify_to_copies() {
    assert_eq!(simple(&num(2.5)), Ok(num(2.5)));
    assert_eq!(simple(&var("x")), Ok(var("x")));
    assert_eq!(Constant(7).simplify(&plus, &times, &power), Ok(Expr::Constant(Constant(7))));
    assert_eq!(Variable("t".to_string()).simplify(&plus, &times, &power), Ok(var("t")));
}

#[test]
fn constant_sum_folds() {
    assert_eq!(simple(&Expr::Add(Add(vec![num(3.0), num(4.0)]))), Ok(num(7.0)));
    assert_eq!(Add(vec![num(1.0)]).simplify(&plus, &times, &power), Ok(num(1.0)));
}

#[test]
fn constant_product_folds() {
    assert_eq!(simple(&Expr::Mul(Mul(vec![num(3.0), num(4.0), num(0.5)]))), Ok(num(6.0)));
    assert_eq!(Mul(vec![num(-2.0)]).simplify(&plus, &times, &power), Ok(num(-2.0)));
}

#[test]
fn constant_power_folds() {
    assert_eq!(simple(&pow(num(2.0), num(3.0))), Ok(num(8.0)));
    assert_eq!(
        Pow(Box::new(num(4.0)), Box::new(num(0.5))).simplify(&plus, &times, &power),
        Ok(num(2.0))
    );
}

#[test]
fn numeric_tree_folds_to_its_value() {
    // (1 + 2) * 2 ^ (1 + 2) + 0.5
    let e = Expr::Add(Add(vec![
        Expr::Mul(Mul(vec![
            Expr::Add(Add(vec![num(1.0), num(2.0)])),
            pow(num(2.0), Expr::Add(Add(vec![num(1.0), num(2.0)]))),
        ])),
        num(0.5),
    ]));
    let direct = e.eval(&Arguments::new(), &plus, &times, &power).unwrap();
    assert_eq!(f64::from_bits(direct), 24.5);
    assert_eq!(simple(&e), Ok(Expr::Constant(Constant(direct))));
}

#[test]
fn folding_agrees_with_evaluation_bit_for_bit() {
    let e = Expr::Add(Add(vec![num(0.1), num(0.2), Expr::Mul(Mul(vec![num(0.1), num(3.0)]))]));
    let direct = e.eval(&Arguments::new(), &plus, &times, &power).unwrap();
    assert_eq!(simple(&e), Ok(Expr::Constant(Constant(direct))));
}

#[test]
fn rendering_a_folded_tree_prints_its_value() {
    let e = parse("3 4 +2 2 *2", &read).unwrap();
    let direct = e.eval(&Arguments::new(), &plus, &times, &power).unwrap();
    let folded = simple(&e).unwrap();
    assert_eq!(folded.string(&number), number(direct));
    assert_eq!(folded.string(&number), "14");
    assert_eq!(folded.latex(&number), "14");
}

#[test]
fn rendering_a_folded_negative_value_keeps_the_parentheses() {
    let e = parse("3 -4.5 +2", &read).unwrap();
    let folded = simple(&e).unwrap();
    assert_eq!(folded, num(-1.5));
    assert_eq!(folded.string(&number), "(-1.5)");
}

#[test]
fn sum_with_a_variable_is_kept_with_folded_operands() {
    let e = Expr::Add(Add(vec![var("x"), Expr::Add(Add(vec![num(1.0), num(2.0)]))]));
    assert_eq!(simple(&e), Ok(Expr::Add(Add(vec![var("x"), num(3.0)]))));
}

#[test]
fn product_with_a_variable_is_kept_with_folded_operands() {
    let e = Expr::Mul(Mul(vec![pow(num(3.0), num(2.0)), var("x"), num(2.0)]));
    assert_eq!(simple(&e), Ok(Expr::Mul(Mul(vec![num(9.0), var("x"), num(2.0)]))));
}

#[test]
fn power_with_a_variable_keeps_its_simplified_operands() {
    let e = pow(var("x"), Expr::Add(Add(vec![num(1.0), num(1.0)])));
    assert_eq!(simple(&e), Ok(pow(var("x"), num(2.0))));
    let f = pow(Expr::Mul(Mul(vec![num(2.0), num(3.0)])), var("n"));
    assert_eq!(simple(&f), Ok(pow(num(6.0), var("n"))));
}

#[test]
fn no_identity_is_applied() {
    let plus_zero = Expr::Add(Add(vec![var("x"), num(0.0)]));
    assert_eq!(simple(&plus_zero), Ok(plus_zero.clone()));
    let times_one = Expr::Mul(Mul(vec![var("x"), num(1.0)]));
    assert_eq!(simple(&times_one), Ok(times_one.clone()));
    let times_zero = Expr::Mul(Mul(vec![var("x"), num(0.0)]));
    assert_eq!(simple(&times_zero), Ok(times_zero.clone()));
    let to_one = pow(var("x"), num(1.0));
    assert_eq!(simple(&to_one), Ok(to_one.clone()));
}

#[test]
fn nested_sums_are_not_flattened_nor_collected() {
    let e = Expr::Add(Add(vec![
        Expr::Add(Add(vec![var("x"), num(1.0)])),
        Expr::Add(Add(vec![var("x"), num(2.0)])),
    ]));
    assert_eq!(simple(&e), Ok(e.clone()));
    let single = Expr::Add(Add(vec![var("x")]));
    assert_eq!(simple(&single), Ok(single.clone()));
}

#[test]
fn one_pass_only() {
    // The inner sum becomes constant, the outer keeps its variable: the
    // constants next to the folded operand are not gathered up.
    let e = Expr::Add(Add(vec![num(1.0), Expr::Add(Add(vec![num(2.0), num(3.0)])), var("x")]));
    assert_eq!(simple(&e), Ok(Expr::Add(Add(vec![num(1.0), num(5.0), var("x")]))));
}

#[test]
fn empty_sum_or_product_is_invalid() {
    assert_eq!(simple(&Expr::Add(Add(vec![]))), Err(ExprError::InvalidExpression));
    assert_eq!(simple(&Expr::Mul(Mul(vec![]))), Err(ExprError::InvalidExpression));
    assert_eq!(Add(vec![]).simplify(&plus, &times, &power), Err(ExprError::InvalidExpression));
    assert_eq!(Mul(vec![]).simplify(&plus, &times, &power), Err(ExprError::InvalidExpression));
}

#[test]
fn empty_sum_anywhere_below_is_invalid() {
    let empty = Expr::Add(Add(vec![]));
    assert_eq!(simple(&Expr::Mul(Mul(vec![var("x"), empty.clone()]))), Err(ExprError::InvalidExpression));
    assert_eq!(simple(&pow(var("x"), empty.clone())), Err(ExprError::InvalidExpression));
    assert_eq!(simple(&pow(empty.clone(), num(2.0))), Err(ExprError::InvalidExpression));
    assert_eq!(
        simple(&Expr::Add(Add(vec![num(1.0), Expr::Add(Add(vec![num(2.0), Expr::Mul(Mul(vec![]))]))]))),
        Err(ExprError::InvalidExpression)
    );
}

#[test]
fn simplification_leaves_the_original_unchanged() {
    let e = Expr::Add(Add(vec![num(1.0), num(2.0)]));
    let copy = e.clone();
    let _ = simple(&e);
    assert_eq!(e, copy);
}

#[test]
fn folding_uses_the_arithmetic_it_is_given() {
    let xor = |a: u64, b: u64| a ^ b;
    let and = |a: u64, b: u64| a & b;
    let or = |a: u64, b: u64| a | b;
    let c = |v: u64| Expr::Constant(Constant(v));
    let e = Expr::Add(Add(vec![c(12), Expr::Mul(Mul(vec![c(6), c(3)])), pow(c(8), c(1))]));
    assert_eq!(e.simplify(&xor, &and, &or), Ok(c(12 ^ (6 & 3) ^ (8 | 1))));
}
