use symexpr::algebra::coeff::{same_signature, Coefficients, RawHash, VariableOrder};
use symexpr::algebra::ops::{constant_term, Add, Constant, Expr, ExprError, Mul, Pow, Variable};

fn number(c: u64) -> String {
    f64::from_bits(c).to_string()
}

fn num(v: f64) -> Expr {
    Expr::Constant(Constant(v.to_bits()))
}

fn var(name: &str) -> Expr {
    Expr::Variable(Variable(name.to_string()))
}

fn factor(name: &str, order: f64) -> VariableOrder {
    VariableOrder { variable: name.to_string(), order: RawHash(order.to_bits()) }
}

fn failure(r: Result<Coefficients, ExprError>) -> Option<ExprError> {
    r.err()
}

#[test]
fn constant_is_its_own_constant_term() {
    let table = num(5.0).coefficient().ok().unwrap();
    assert_eq!(table.get(&vec![]), Some(5.0f64.to_bits()));
    assert_eq!(table.get(&vec![factor("x", 1.0)]), None);
    let direct = Constant((-2.5f64).to_bits()).coefficient().ok().unwrap();
    assert_eq!(direct.get(&vec![]), Some((-2.5f64).to_bits()));
}

#[test]
fn variable_is_once_itself_to_the_first_power() {
    let table = var("x").coefficient().ok().unwrap();
    assert_eq!(table.get(&vec![factor("x", 1.0)]), Some(1.0f64.to_bits()));
    assert_eq!(table.get(&vec![]), None);
    assert_eq!(table.get(&vec![factor("y", 1.0)]), None);
    assert_eq!(table.get(&vec![factor("x", 2.0)]), None);
    assert_eq!(table.get(&vec![factor("x", 1.0), factor("x", 1.0)]), None);
    let direct = Variable("t".to_string()).coefficient().ok().unwrap();
    assert_eq!(direct.get(&vec![factor("t", 1.0)]), Some(1.0f64.to_bits()));
}

#[test]
fn extraction_is_unimplemented_on_sums_products_and_powers() {
    let sum = Expr::Add(Add(vec![num(1.0), var("x")]));
    let product = Expr::Mul(Mul(vec![num(2.0), var("x")]));
    let power = Expr::Pow(Pow(Box::new(var("x")), Box::new(num(2.0))));
    assert_eq!(failure(sum.coefficient()), Some(ExprError::Unimplemented));
    assert_eq!(failure(product.coefficient()), Some(ExprError::Unimplemented));
    assert_eq!(failure(power.coefficient()), Some(ExprError::Unimplemented));
    assert_eq!(failure(Add(vec![num(1.0)]).coefficient()), Some(ExprError::Unimplemented));
    assert_eq!(failure(Mul(vec![num(1.0)]).coefficient()), Some(ExprError::Unimplemented));
    assert_eq!(
        failure(Pow(Box::new(num(1.0)), Box::new(num(1.0))).coefficient()),
        Some(ExprError::Unimplemented)
    );
}

#[test]
fn only_a_constant_has_a_constant_value() {
    assert_eq!(num(5.0).get_const(), Some(5.0f64.to_bits()));
    assert_eq!(num(-0.0).get_const(), Some((-0.0f64).to_bits()));
    assert_eq!(Constant(42).get_const(), Some(42));
    assert_eq!(var("x").get_const(), None);
    assert_eq!(Variable("x".to_string()).get_const(), None);
    assert_eq!(Expr::Add(Add(vec![num(1.0)])).get_const(), None);
    assert_eq!(Expr::Mul(Mul(vec![num(1.0)])).get_const(), None);
    assert_eq!(Expr::Pow(Pow(Box::new(num(1.0)), Box::new(num(1.0)))).get_const(), None);
    assert_eq!(Add(vec![num(1.0)]).get_const(), None);
    assert_eq!(Mul(vec![num(1.0)]).get_const(), None);
    assert_eq!(Pow(Box::new(num(1.0)), Box::new(num(1.0))).get_const(), None);
}

#[test]
fn constant_term_is_the_entry_under_the_empty_signature() {
    let mut table = Coefficients::new();
    assert_eq!(constant_term(Ok(Coefficients::new())), None);
    table.insert(vec![factor("x", 1.0)], 7);
    table.insert(vec![], 9);
    assert_eq!(constant_term(Ok(table)), Some(9));
    assert_eq!(constant_term(Err(ExprError::Unimplemented)), None);
}

#[test]
fn table_insert_and_get() {
    let mut table = Coefficients::new();
    assert_eq!(table.get(&vec![]), None);
    assert_eq!(table.insert(vec![factor("x", 2.0)], 10), None);
    assert_eq!(table.insert(vec![factor("x", 2.0), factor("y", 1.0)], 20), None);
    assert_eq!(table.insert(vec![], 30), None);
    assert_eq!(table.get(&vec![factor("x", 2.0)]), Some(10));
    assert_eq!(table.get(&vec![factor("x", 2.0), factor("y", 1.0)]), Some(20));
    assert_eq!(table.get(&vec![]), Some(30));
    assert_eq!(table.get(&vec![factor("y", 1.0)]), None);
}

#[test]
fn table_insert_replaces_under_the_same_signature() {
    let mut table = Coefficients::new();
    assert_eq!(table.insert(vec![factor("x", 2.0)], 10), None);
    assert_eq!(table.insert(vec![factor("y", 2.0)], 11), None);
    assert_eq!(table.insert(vec![factor("x", 2.0)], 12), Some(10));
    assert_eq!(table.get(&vec![factor("x", 2.0)]), Some(12));
    assert_eq!(table.get(&vec![factor("y", 2.0)]), Some(11));
    assert_eq!(table.fmt(&|c: u64| c.to_string()).lines().count(), 2);
}

#[test]
fn signatures_are_ordered_lists() {
    let mut table = Coefficients::new();
    table.insert(vec![factor("x", 1.0), factor("y", 1.0)], 1);
    assert_eq!(table.get(&vec![factor("y", 1.0), factor("x", 1.0)]), None);
    assert_eq!(table.insert(vec![factor("y", 1.0), factor("x", 1.0)], 2), None);
    assert_eq!(table.get(&vec![factor("x", 1.0), factor("y", 1.0)]), Some(1));
    assert_eq!(table.get(&vec![factor("y", 1.0), factor("x", 1.0)]), Some(2));
}

#[test]
fn exponents_are_compared_by_their_bits() {
    let mut table = Coefficients::new();
    assert_eq!(table.insert(vec![factor("x", 0.0)], 1), None);
    assert_eq!(table.insert(vec![factor("x", -0.0)], 2), None);
    assert_eq!(table.get(&vec![factor("x", 0.0)]), Some(1));
    assert_eq!(table.get(&vec![factor("x", -0.0)]), Some(2));
    let quiet = VariableOrder { variable: "x".to_string(), order: RawHash(0x7ff8_0000_0000_0000) };
    let same = VariableOrder { variable: "x".to_string(), order: RawHash(0x7ff8_0000_0000_0000) };
    let other = VariableOrder { variable: "x".to_string(), order: RawHash(0x7ff8_0000_0000_0001) };
    assert_eq!(table.insert(vec![quiet], 3), None);
    assert_eq!(table.get(&vec![same]), Some(3));
    assert_eq!(table.get(&vec![other]), None);
}

#[test]
fn same_signature_compares_names_and_bits_in_order() {
    assert!(same_signature(&vec![], &vec![]));
    assert!(same_signature(&vec![factor("x", 1.0)], &vec![factor("x", 1.0)]));
    assert!(!same_signature(&vec![factor("x", 1.0)], &vec![factor("x", 2.0)]));
    assert!(!same_signature(&vec![factor("x", 1.0)], &vec![factor("y", 1.0)]));
    assert!(!same_signature(&vec![factor("x", 1.0)], &vec![]));
    assert!(!same_signature(&vec![factor("x", 0.0)], &vec![factor("x", -0.0)]));
    assert!(!same_signature(
        &vec![factor("x", 1.0), factor("y", 1.0)],
        &vec![factor("y", 1.0), factor("x", 1.0)]
    ));
}

#[test]
fn raw_hash_is_equal_where_the_bits_are() {
    assert_eq!(RawHash(5u64), RawHash(5u64));
    assert_ne!(RawHash(0.0f64.to_bits()), RawHash((-0.0f64).to_bits()));
}

#[test]
fn empty_table_prints_nothing() {
    assert_eq!(Coefficients::new().fmt(&number), "");
}

#[test]
fn constant_table_prints_one_line() {
    let table = num(5.0).coefficient().ok().unwrap();
    assert_eq!(table.fmt(&number), "5()\n");
}

#[test]
fn variable_table_prints_one_line() {
    let table = var("x").coefficient().ok().unwrap();
    assert_eq!(table.fmt(&number), "1(x^1)\n");
}

#[test]
fn table_prints_each_entry_in_the_order_stored() {
    let mut table = Coefficients::new();
    table.insert(vec![factor("x", 2.0), factor("y", 1.0), factor("z", -1.0)], 3.0f64.to_bits());
    table.insert(vec![], (-0.5f64).to_bits());
    table.insert(vec![factor("x", 0.5)], 4.0f64.to_bits());
    assert_eq!(table.fmt(&number), "3(x^2 + y^1 + z^-1)\n-0.5()\n4(x^0.5)\n");
    table.insert(vec![], 1.5f64.to_bits());
    assert_eq!(table.fmt(&number), "3(x^2 + y^1 + z^-1)\n1.5()\n4(x^0.5)\n");
}
