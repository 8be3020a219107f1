use symexpr::algebra::args::Arguments;
use symexpr::algebra::ops::{Add, Constant, Expr, ExprError, Mul, Pow, Variable};
use symexpr::parser::{parse, ParseError};

fn plus(a: u64, b: u64) -> u64 {
    (f64::from_bits(a) + f64::from_bits(b)).to_bits()
}

fn minus(a: u64, b: u64) -> u64 {
    (f64::from_bits(a) - f64::from_bits(b)).to_bits()
}

fn times(a: u64, b: u64) -> u64 {
    (f64::from_bits(a) * f64::from_bits(b)).to_bits()
}

fn power(a: u64, b: u64) -> u64 {
    f64::from_bits(a).powf(f64::from_bits(b)).to_bits()
}

fn number(c: u64) -> String {
    f64::from_bits(c).to_string()
}

fn read(text: &str) -> Option<u64> {
    text.parse::<f64>().ok().map(f64::to_bits)
}

fn num(v: f64) -> Expr {
    Expr::Constant(Constant(v.to_bits()))
}

fn var(name: &str) -> Expr {
    Expr::Variable(Variable(name.to_string()))
}

fn value(e: &Expr, a: &Arguments) -> Result<f64, ExprError> {
    e.eval(a, &plus, &times, &power).map(f64::from_bits)
}

#[test]
fn power_rule_at_two_is_twelve() {
    let e = Expr::Pow(Pow(Box::new(var("x")), Box::new(num(3.0))));
    let d = e.d("x", &minus).unwrap();
    let mut a = Arguments::new();
    a.insert("x".to_string(), 2.0f64.to_bits());
    assert_eq!(value(&d, &a), Ok(12.0));
}

#[test]
fn postfix_sum_builds_evaluates_and_renders() {
    let e = parse("3 4 +2", &read).unwrap();
    assert_eq!(e, Expr::Add(Add(vec![num(3.0), num(4.0)])));
    assert_eq!(value(&e, &Arguments::new()), Ok(7.0));
    assert_eq!(e.string(&number), "(3 + 4)");
}

#[test]
fn postfix_square_differentiates() {
    let e = parse("x 2 ^", &read).unwrap();
    assert_eq!(e, Expr::Pow(Pow(Box::new(var("x")), Box::new(num(2.0)))));
    let d = e.d("x", &minus).unwrap();
    assert_eq!(
        d,
        Expr::Mul(Mul(vec![
            num(2.0),
            Expr::Pow(Pow(Box::new(var("x")), Box::new(num(1.0)))),
            num(1.0),
        ]))
    );
    let mut a = Arguments::new();
    a.insert("x".to_string(), 5.0f64.to_bits());
    assert_eq!(value(&d, &a), Ok(10.0));
}

#[test]
fn empty_sum_and_product_are_invalid() {
    let a = Arguments::new();
    assert_eq!(value(&Expr::Add(Add(vec![])), &a), Err(ExprError::InvalidExpression));
    assert_eq!(value(&Expr::Mul(Mul(vec![])), &a), Err(ExprError::InvalidExpression));
    assert_eq!(parse("+0", &read), Err(ParseError::InvalidExpression));
}
