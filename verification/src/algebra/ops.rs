//! The expression node types, their mathematical view, and the operations
//! that need no arithmetic: copying and coefficient extraction.

use vstd::prelude::*;
use crate::algebra::assoc::lookup;
use crate::algebra::bits::ONE;
use crate::algebra::coeff::{Coefficients, RawHash, Signature, VariableOrder, signature};

verus! {

/// Why an operation on an expression did not produce a result.
#[derive(Debug, Clone, Copy, PartialEq, Eq, Structural)]
pub enum ExprError {
    /// Evaluation met a variable that the bindings do not hold.
    MissingVariable,
    /// A sum or a product has no operands.
    InvalidExpression,
    /// The operation is not defined on this shape of expression.
    Unimplemented,
}

/// The mathematical value of an expression: the same tree, over sequences.
pub enum Term {
    Constant(u64),
    Variable(Seq<char>),
    Add(Seq<Term>),
    Mul(Seq<Term>),
    Pow(Box<Term>, Box<Term>),
}

/// A number, held as its binary64 bit pattern.
#[derive(Debug, PartialEq, Eq)]
pub struct Constant(pub u64);

/// A named variable. The name is meant to be non-empty; nothing depends on it.
#[derive(Debug, PartialEq, Eq)]
pub struct Variable(pub String);

/// The sum of its operands, in order.
#[derive(Debug, PartialEq, Eq)]
pub struct Add(pub Vec<Expr>);

/// The product of its operands, in order.
#[derive(Debug, PartialEq, Eq)]
pub struct Mul(pub Vec<Expr>);

/// Base raised to exponent.
#[derive(Debug, PartialEq, Eq)]
pub struct Pow(pub Box<Expr>, pub Box<Expr>);

/// An expression node: exactly one of the five kinds.
#[derive(Debug, PartialEq, Eq)]
pub enum Expr {
    Constant(Constant),
    Variable(Variable),
    Add(Add),
    Mul(Mul),
    Pow(Pow),
}

/// The views of a list of expressions, element by element.
pub open spec fn terms(v: Seq<Expr>) -> Seq<Term>
    decreases v,
{
    Seq::new(v.len(), |i: int| if 0 <= i < v.len() { term_of(v[i]) } else { Term::Constant(0) })
}

/// The view of an expression.
pub open spec fn term_of(e: Expr) -> Term
    decreases e,
{
    match e {
        Expr::Constant(c) => Term::Constant(c.0),
        Expr::Variable(x) => Term::Variable(x.0@),
        Expr::Add(a) => Term::Add(terms(a.0@)),
        Expr::Mul(m) => Term::Mul(terms(m.0@)),
        Expr::Pow(p) => Term::Pow(Box::new(term_of(*p.0)), Box::new(term_of(*p.1))),
    }
}

impl View for Expr {
    type V = Term;

    open spec fn view(&self) -> Term {
        term_of(*self)
    }
}

impl View for Constant {
    type V = Term;

    open spec fn view(&self) -> Term {
        Term::Constant(self.0)
    }
}

impl View for Variable {
    type V = Term;

    open spec fn view(&self) -> Term {
        Term::Variable(self.0@)
    }
}

impl View for Add {
    type V = Term;

    open spec fn view(&self) -> Term {
        Term::Add(terms(self.0@))
    }
}

impl View for Mul {
    type V = Term;

    open spec fn view(&self) -> Term {
        Term::Mul(terms(self.0@))
    }
}

impl View for Pow {
    type V = Term;

    open spec fn view(&self) -> Term {
        Term::Pow(Box::new(term_of(*self.0)), Box::new(term_of(*self.1)))
    }
}

impl Term {
    /// Every sum and every product in the tree has at least one operand.
    pub open spec fn has_operands(self) -> bool
        decreases self,
    {
        match self {
            Term::Constant(_) => true,
            Term::Variable(_) => true,
            Term::Add(cs) => cs.len() >= 1 && forall|i: int|
                0 <= i < cs.len() ==> (#[trigger] cs[i]).has_operands(),
            Term::Mul(cs) => cs.len() >= 1 && forall|i: int|
                0 <= i < cs.len() ==> (#[trigger] cs[i]).has_operands(),
            Term::Pow(b, e) => b.has_operands() && e.has_operands(),
        }
    }

    /// Every leaf of the tree is a constant.
    pub open spec fn numeric(self) -> bool
        decreases self,
    {
        match self {
            Term::Constant(_) => true,
            Term::Variable(_) => false,
            Term::Add(cs) => forall|i: int| 0 <= i < cs.len() ==> (#[trigger] cs[i]).numeric(),
            Term::Mul(cs) => forall|i: int| 0 <= i < cs.len() ==> (#[trigger] cs[i]).numeric(),
            Term::Pow(b, e) => b.numeric() && e.numeric(),
        }
    }

    /// The variable `x` occurs somewhere in the tree.
    pub open spec fn mentions(self, x: Seq<char>) -> bool
        decreases self,
    {
        match self {
            Term::Constant(_) => false,
            Term::Variable(y) => y == x,
            Term::Add(cs) => exists|i: int| 0 <= i < cs.len() && (#[trigger] cs[i]).mentions(x),
            Term::Mul(cs) => exists|i: int| 0 <= i < cs.len() && (#[trigger] cs[i]).mentions(x),
            Term::Pow(b, e) => b.mentions(x) || e.mentions(x),
        }
    }

    /// The number that a constant node holds; nothing for any other node.
    pub open spec fn constant_value(self) -> Option<u64> {
        match self {
            Term::Constant(c) => Some(c),
            _ => None,
        }
    }
}

/// What coefficient extraction yields for a term: a constant is its own
/// constant term, a variable is once itself to the first power, and every
/// other shape is left undefined.
pub open spec fn coefficients_of(t: Term) -> Result<Map<Signature, u64>, ExprError> {
    match t {
        Term::Constant(c) => Ok(Map::<Signature, u64>::empty().insert(Seq::empty(), c)),
        Term::Variable(x) => Ok(Map::<Signature, u64>::empty().insert(seq![(x, ONE)], ONE)),
        _ => Err(ExprError::Unimplemented),
    }
}

/// An extraction result agrees with what the term calls for.
pub open spec fn extracted(t: Term, r: Result<Coefficients, ExprError>) -> bool {
    match r {
        Ok(m) => m.wf() && coefficients_of(t) == Ok::<Map<Signature, u64>, ExprError>(m@),
        Err(e) => coefficients_of(t) == Err::<Map<Signature, u64>, ExprError>(e),
    }
}

/// The constant term of an extraction result: the coefficient stored under
/// the empty signature, if extraction succeeded and stored one.
pub fn constant_term(extraction: Result<Coefficients, ExprError>) -> (r: Option<u64>)
    ensures
        r == match extraction {
            Ok(m) => lookup(m@, Seq::empty()),
            Err(_) => None,
        },
{
    match extraction {
        Ok(m) => {
            let key: Vec<VariableOrder> = Vec::new();
            assert(signature(key@) =~= Seq::empty());
            m.get(&key)
        },
        Err(_) => None,
    }
}

/// Copies a list of expressions.
pub fn clone_all(v: &Vec<Expr>) -> (r: Vec<Expr>)
    ensures
        terms(r@) == terms(v@),
    decreases v,
{
    let mut out: Vec<Expr> = Vec::new();
    let mut i: usize = 0;
    while i < v.len()
        invariant
            i <= v.len(),
            out.len() == i,
            forall|j: int| 0 <= j < i ==> term_of(out@[j]) == term_of(v@[j]),
        decreases v.len() - i,
    {
        let c = v[i].clone_dyn();
        out.push(c);
        i += 1;
    }
    out
}

impl Constant {
    /// A copy of this node, as an expression.
    pub fn clone_dyn(&self) -> (r: Expr)
        ensures
            r@ == self@,
    {
        Expr::Constant(Constant(self.0))
    }

    /// The table with the single entry: empty signature, this number.
    pub fn coefficient(&self) -> (r: Result<Coefficients, ExprError>)
        ensures
            extracted(self@, r),
            r is Ok,
    {
        let mut table = Coefficients::new();
        let key: Vec<VariableOrder> = Vec::new();
        assert(signature(key@) =~= Seq::empty());
        table.insert(key, self.0);
        Ok(table)
    }

    /// The number that this node holds.
    pub fn get_const(&self) -> (r: Option<u64>)
        ensures
            r == Some(self.0),
    {
        constant_term(self.coefficient())
    }
}

impl Clone for Constant {
    fn clone(&self) -> (r: Self)
        ensures
            r@ == self@,
    {
        Constant(self.0)
    }
}

impl Variable {
    /// A copy of this node, as an expression.
    pub fn clone_dyn(&self) -> (r: Expr)
        ensures
            r@ == self@,
    {
        Expr::Variable(Variable(self.0.clone()))
    }

    /// The table with the single entry: this variable to the first power,
    /// with coefficient one.
    pub fn coefficient(&self) -> (r: Result<Coefficients, ExprError>)
        ensures
            extracted(self@, r),
            r is Ok,
    {
        let mut table = Coefficients::new();
        let mut key: Vec<VariableOrder> = Vec::new();
        key.push(VariableOrder { variable: self.0.clone(), order: RawHash(ONE) });
        assert(signature(key@) =~= seq![(self.0@, ONE)]);
        table.insert(key, ONE);
        Ok(table)
    }

    /// Nothing: a variable has no constant value.
    pub fn get_const(&self) -> (r: Option<u64>)
        ensures
            r is None,
    {
        proof {
            assert(seq![(self.0@, ONE)].len() == 1);
        }
        constant_term(self.coefficient())
    }
}

impl Clone for Variable {
    fn clone(&self) -> (r: Self)
        ensures
            r@ == self@,
    {
        Variable(self.0.clone())
    }
}

impl Add {
    /// A copy of this node and of everything below it, as an expression.
    pub fn clone_dyn(&self) -> (r: Expr)
        ensures
            r@ == self@,
        decreases self,
    {
        Expr::Add(Add(clone_all(&self.0)))
    }

    /// Extraction is not defined on this kind of node.
    pub fn coefficient(&self) -> (r: Result<Coefficients, ExprError>)
        ensures
            extracted(self@, r),
            r matches Err(e) && e == ExprError::Unimplemented,
    {
        Err(ExprError::Unimplemented)
    }

    /// Nothing: only a constant node has a constant value.
    pub fn get_const(&self) -> (r: Option<u64>)
        ensures
            r is None,
    {
        constant_term(self.coefficient())
    }
}

impl Clone for Add {
    fn clone(&self) -> (r: Self)
        ensures
            r@ == self@,
    {
        Add(clone_all(&self.0))
    }
}

impl Mul {
    /// A copy of this node and of everything below it, as an expression.
    pub fn clone_dyn(&self) -> (r: Expr)
        ensures
            r@ == self@,
        decreases self,
    {
        Expr::Mul(Mul(clone_all(&self.0)))
    }

    /// Extraction is not defined on this kind of node.
    pub fn coefficient(&self) -> (r: Result<Coefficients, ExprError>)
        ensures
            extracted(self@, r),
            r matches Err(e) && e == ExprError::Unimplemented,
    {
        Err(ExprError::Unimplemented)
    }

    /// Nothing: only a constant node has a constant value.
    pub fn get_const(&self) -> (r: Option<u64>)
        ensures
            r is None,
    {
        constant_term(self.coefficient())
    }
}

impl Clone for Mul {
    fn clone(&self) -> (r: Self)
        ensures
            r@ == self@,
    {
        Mul(clone_all(&self.0))
    }
}

impl Pow {
    /// A copy of this node and of everything below it, as an expression.
    pub fn clone_dyn(&self) -> (r: Expr)
        ensures
            r@ == self@,
        decreases self,
    {
        let base = self.0.clone_dyn();
        let exponent = self.1.clone_dyn();
        Expr::Pow(Pow(Box::new(base), Box::new(exponent)))
    }

    /// Extraction is not defined on this kind of node.
    pub fn coefficient(&self) -> (r: Result<Coefficients, ExprError>)
        ensures
            extracted(self@, r),
            r matches Err(e) && e == ExprError::Unimplemented,
    {
        Err(ExprError::Unimplemented)
    }

    /// Nothing: only a constant node has a constant value.
    pub fn get_const(&self) -> (r: Option<u64>)
        ensures
            r is None,
    {
        constant_term(self.coefficient())
    }
}

impl Clone for Pow {
    fn clone(&self) -> (r: Self)
        ensures
            r@ == self@,
    {
        Pow(Box::new(self.0.clone_dyn()), Box::new(self.1.clone_dyn()))
    }
}

impl Expr {
    /// A copy of this expression: a new tree with the same view.
    pub fn clone_dyn(&self) -> (r: Expr)
        ensures
            r@ == self@,
        decreases self,
    {
        match self {
            Expr::Constant(c) => c.clone_dyn(),
            Expr::Variable(x) => x.clone_dyn(),
            Expr::Add(a) => a.clone_dyn(),
            Expr::Mul(m) => m.clone_dyn(),
            Expr::Pow(p) => p.clone_dyn(),
        }
    }

    /// The coefficient table of this expression: defined on constants and
    /// variables, `Unimplemented` on sums, products and powers.
    pub fn coefficient(&self) -> (r: Result<Coefficients, ExprError>)
        ensures
            extracted(self@, r),
            r is Ok <==> (self@ is Constant || self@ is Variable),
    {
        match self {
            Expr::Constant(c) => c.coefficient(),
            Expr::Variable(x) => x.coefficient(),
            Expr::Add(a) => a.coefficient(),
            Expr::Mul(m) => m.coefficient(),
            Expr::Pow(p) => p.coefficient(),
        }
    }

    /// The number that this expression is known to be without evaluating
    /// anything: the constant term of its coefficient table.
    pub fn get_const(&self) -> (r: Option<u64>)
        ensures
            r == self@.constant_value(),
    {
        proof {
            if let Term::Variable(x) = self@ {
                assert(seq![(x, ONE)].len() == 1);
            }
        }
        constant_term(self.coefficient())
    }
}

impl Clone for Expr {
    fn clone(&self) -> (r: Self)
        ensures
            r@ == self@,
    {
        self.clone_dyn()
    }
}

} // verus!
