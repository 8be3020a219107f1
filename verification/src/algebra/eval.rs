//! Evaluation of an expression under bindings.
//!
//! The arithmetic is the caller's: three operations on bit patterns, for
//! the sum, the product and the power of two numbers. In contracts an
//! operation stands as the relation between its arguments and what it may
//! return. What evaluation returns is stated relative to those relations,
//! so it holds for any arithmetic, also one that may answer the same
//! question in more than one way.

use vstd::prelude::*;
use crate::algebra::args::Arguments;
use crate::algebra::assoc::lookup;
use crate::algebra::ops::{Add, Constant, Expr, ExprError, Mul, Pow, Term, Variable, term_of, terms};

verus! {

/// The operation may be called on every pair of numbers.
pub open spec fn binary_total<F: Fn(u64, u64) -> u64>(f: F) -> bool {
    forall|a: u64, b: u64| call_requires(f, (a, b))
}

/// An operation on two numbers, as contracts see it: which results it may
/// return for which arguments.
pub type Binary = spec_fn(u64, u64, u64) -> bool;

/// The relation that an executable operation stands for.
pub open spec fn relation_of<F: Fn(u64, u64) -> u64>(f: F) -> Binary {
    |a: u64, b: u64, r: u64| call_ensures(f, (a, b), r)
}

/// `r` is something that the operation may return for `a` and `b`.
pub open spec fn holds(op: Binary, a: u64, b: u64, r: u64) -> bool {
    op(a, b, r)
}

/// `v` is something that the sum (or else the product) of `a` and `b` may be.
pub open spec fn combines(plus: Binary, times: Binary, sum: bool, a: u64, b: u64, v: u64) -> bool {
    if sum {
        holds(plus, a, b, v)
    } else {
        holds(times, a, b, v)
    }
}

/// The error that evaluation runs into first, going through the tree depth
/// first and from left to right; nothing if it runs into none. It depends
/// on the shape of the tree and on which variables are bound, never on the
/// arithmetic.
pub open spec fn eval_error(t: Term, bound: Set<Seq<char>>) -> Option<ExprError>
    decreases t, 0nat,
{
    match t {
        Term::Constant(_) => None,
        Term::Variable(x) => if bound.contains(x) {
            None
        } else {
            Some(ExprError::MissingVariable)
        },
        Term::Add(cs) => if cs.len() == 0 {
            Some(ExprError::InvalidExpression)
        } else {
            first_error(cs, cs.len(), bound)
        },
        Term::Mul(cs) => if cs.len() == 0 {
            Some(ExprError::InvalidExpression)
        } else {
            first_error(cs, cs.len(), bound)
        },
        Term::Pow(b, e) => match eval_error(*b, bound) {
            Some(error) => Some(error),
            None => eval_error(*e, bound),
        },
    }
}

/// The first error among the first `n` operands.
pub open spec fn first_error(cs: Seq<Term>, n: nat, bound: Set<Seq<char>>) -> Option<ExprError>
    decreases cs, n,
{
    if n == 0 || n > cs.len() {
        None
    } else {
        match first_error(cs, (n - 1) as nat, bound) {
            Some(error) => Some(error),
            None => eval_error(cs[n - 1], bound),
        }
    }
}

/// `v` is a value of the term under the bindings: a constant is its number,
/// a variable is what it is bound to, a sum or a product folds its operands
/// from the left, starting with the first, and a power applies the power
/// operation to a value of the base and a value of the exponent.
pub open spec fn evaluates_to(
    t: Term,
    env: Map<Seq<char>, u64>,
    plus: Binary,
    times: Binary,
    power: Binary,
    v: u64,
) -> bool
    decreases t, 0nat,
{
    match t {
        Term::Constant(c) => v == c,
        Term::Variable(x) => env.contains_key(x) && v == env[x],
        Term::Add(cs) => folds_to(cs, cs.len(), env, plus, times, power, true, v),
        Term::Mul(cs) => folds_to(cs, cs.len(), env, plus, times, power, false, v),
        Term::Pow(b, e) => exists|x: u64, y: u64|
            #![trigger holds(power, x, y, v)]
            {
                &&& evaluates_to(*b, env, plus, times, power, x)
                &&& evaluates_to(*e, env, plus, times, power, y)
                &&& holds(power, x, y, v)
            },
    }
}

/// `v` is a value of the first `n` operands folded from the left.
pub open spec fn folds_to(
    cs: Seq<Term>,
    n: nat,
    env: Map<Seq<char>, u64>,
    plus: Binary,
    times: Binary,
    power: Binary,
    sum: bool,
    v: u64,
) -> bool
    decreases cs, n,
{
    if n == 0 || n > cs.len() {
        false
    } else if n == 1 {
        evaluates_to(cs[0], env, plus, times, power, v)
    } else {
        exists|acc: u64, x: u64|
            #![trigger combines(plus, times, sum, acc, x, v)]
            {
                &&& folds_to(cs, (n - 1) as nat, env, plus, times, power, sum, acc)
                &&& evaluates_to(cs[n - 1], env, plus, times, power, x)
                &&& combines(plus, times, sum, acc, x, v)
            }
    }
}

/// `r` is an outcome of evaluating the term: the first error where there is
/// one, and a value of the term where there is none.
pub open spec fn evaluated(
    t: Term,
    env: Map<Seq<char>, u64>,
    plus: Binary,
    times: Binary,
    power: Binary,
    r: Result<u64, ExprError>,
) -> bool {
    match r {
        Ok(v) => eval_error(t, env.dom()) is None && evaluates_to(t, env, plus, times, power, v),
        Err(error) => eval_error(t, env.dom()) == Some(error),
    }
}

/// Once an operand has failed, the operands after it change nothing.
pub proof fn lemma_first_error_stays(cs: Seq<Term>, k: nat, n: nat, bound: Set<Seq<char>>)
    requires
        k <= n <= cs.len(),
        first_error(cs, k, bound) is Some,
    ensures
        first_error(cs, n, bound) == first_error(cs, k, bound),
    decreases n,
{
    if k < n {
        lemma_first_error_stays(cs, k, (n - 1) as nat, bound);
    }
}

/// Folds the operands of a sum or a product from the left.
fn fold<A: Fn(u64, u64) -> u64, M: Fn(u64, u64) -> u64, P: Fn(u64, u64) -> u64>(
    operands: &Vec<Expr>,
    a: &Arguments,
    plus: &A,
    times: &M,
    power: &P,
    sum: bool,
) -> (r: Result<u64, ExprError>)
    requires
        binary_total(*plus),
        binary_total(*times),
        binary_total(*power),
    ensures
        operands.len() == 0 ==> r == Err::<u64, ExprError>(ExprError::InvalidExpression),
        operands.len() > 0 ==> match r {
            Ok(v) => first_error(terms(operands@), operands.len() as nat, a@.dom()) is None
                && folds_to(
                terms(operands@),
                operands.len() as nat,
                a@,
                relation_of(*plus),
                relation_of(*times),
                relation_of(*power),
                sum,
                v,
            ),
            Err(error) => first_error(terms(operands@), operands.len() as nat, a@.dom()) == Some(
                error,
            ),
        },
    decreases operands,
{
    if operands.len() == 0 {
        return Err(ExprError::InvalidExpression);
    }
    let ghost cs = terms(operands@);
    assert(first_error(cs, 0, a@.dom()) is None);
    let mut acc = match operands[0].eval(a, plus, times, power) {
        Ok(v) => v,
        Err(error) => {
            proof {
                lemma_first_error_stays(cs, 1, cs.len(), a@.dom());
            }
            return Err(error);
        },
    };
    let mut i: usize = 1;
    while i < operands.len()
        invariant
            1 <= i <= operands.len(),
            cs == terms(operands@),
            binary_total(*plus),
            binary_total(*times),
            binary_total(*power),
            first_error(cs, i as nat, a@.dom()) is None,
            folds_to(
                cs,
                i as nat,
                a@,
                relation_of(*plus),
                relation_of(*times),
                relation_of(*power),
                sum,
                acc,
            ),
        decreases operands.len() - i,
    {
        let x = match operands[i].eval(a, plus, times, power) {
            Ok(v) => v,
            Err(error) => {
                proof {
                    lemma_first_error_stays(cs, (i + 1) as nat, cs.len(), a@.dom());
                }
                return Err(error);
            },
        };
        let next = if sum {
            plus(acc, x)
        } else {
            times(acc, x)
        };
        assert(combines(relation_of(*plus), relation_of(*times), sum, acc, x, next));
        acc = next;
        i += 1;
    }
    Ok(acc)
}

impl Constant {
    /// The number itself, whatever the bindings.
    pub fn eval<A: Fn(u64, u64) -> u64, M: Fn(u64, u64) -> u64, P: Fn(u64, u64) -> u64>(
        &self,
        a: &Arguments,
        plus: &A,
        times: &M,
        power: &P,
    ) -> (r: Result<u64, ExprError>)
        ensures
            r == Ok::<u64, ExprError>(self.0),
            evaluated(self@, a@, relation_of(*plus), relation_of(*times), relation_of(*power), r),
    {
        Ok(self.0)
    }
}

impl Variable {
    /// The number that the variable is bound to; `MissingVariable` where
    /// it is bound to none.
    pub fn eval<A: Fn(u64, u64) -> u64, M: Fn(u64, u64) -> u64, P: Fn(u64, u64) -> u64>(
        &self,
        a: &Arguments,
        plus: &A,
        times: &M,
        power: &P,
    ) -> (r: Result<u64, ExprError>)
        ensures
            r == match lookup(a@, self.0@) {
                Some(v) => Ok::<u64, ExprError>(v),
                None => Err(ExprError::MissingVariable),
            },
            evaluated(self@, a@, relation_of(*plus), relation_of(*times), relation_of(*power), r),
    {
        match a.get(&self.0) {
            Some(v) => Ok(v),
            None => Err(ExprError::MissingVariable),
        }
    }
}

impl Add {
    /// The operands added up from the left, starting with the first;
    /// `InvalidExpression` where there is no operand.
    pub fn eval<A: Fn(u64, u64) -> u64, M: Fn(u64, u64) -> u64, P: Fn(u64, u64) -> u64>(
        &self,
        a: &Arguments,
        plus: &A,
        times: &M,
        power: &P,
    ) -> (r: Result<u64, ExprError>)
        requires
            binary_total(*plus),
            binary_total(*times),
            binary_total(*power),
        ensures
            self.0.len() == 0 ==> r == Err::<u64, ExprError>(ExprError::InvalidExpression),
            evaluated(self@, a@, relation_of(*plus), relation_of(*times), relation_of(*power), r),
        decreases self,
    {
        fold(&self.0, a, plus, times, power, true)
    }
}

impl Mul {
    /// The operands multiplied from the left, starting with the first;
    /// `InvalidExpression` where there is no operand.
    pub fn eval<A: Fn(u64, u64) -> u64, M: Fn(u64, u64) -> u64, P: Fn(u64, u64) -> u64>(
        &self,
        a: &Arguments,
        plus: &A,
        times: &M,
        power: &P,
    ) -> (r: Result<u64, ExprError>)
        requires
            binary_total(*plus),
            binary_total(*times),
            binary_total(*power),
        ensures
            self.0.len() == 0 ==> r == Err::<u64, ExprError>(ExprError::InvalidExpression),
            evaluated(self@, a@, relation_of(*plus), relation_of(*times), relation_of(*power), r),
        decreases self,
    {
        fold(&self.0, a, plus, times, power, false)
    }
}

impl Pow {
    /// The value of the base raised to the value of the exponent. The base
    /// is evaluated first.
    pub fn eval<A: Fn(u64, u64) -> u64, M: Fn(u64, u64) -> u64, P: Fn(u64, u64) -> u64>(
        &self,
        a: &Arguments,
        plus: &A,
        times: &M,
        power: &P,
    ) -> (r: Result<u64, ExprError>)
        requires
            binary_total(*plus),
            binary_total(*times),
            binary_total(*power),
        ensures
            evaluated(self@, a@, relation_of(*plus), relation_of(*times), relation_of(*power), r),
        decreases self,
    {
        let x = match self.0.eval(a, plus, times, power) {
            Ok(v) => v,
            Err(error) => {
                return Err(error);
            },
        };
        let y = match self.1.eval(a, plus, times, power) {
            Ok(v) => v,
            Err(error) => {
                return Err(error);
            },
        };
        let v = power(x, y);
        assert(holds(relation_of(*power), x, y, v));
        Ok(v)
    }
}

impl Expr {
    /// Evaluates the expression under the bindings `a`, with the caller's
    /// arithmetic. Fails with the first error met, depth first and from
    /// left to right: `MissingVariable` at a variable that `a` does not
    /// bind, `InvalidExpression` at a sum or a product without operands.
    pub fn eval<A: Fn(u64, u64) -> u64, M: Fn(u64, u64) -> u64, P: Fn(u64, u64) -> u64>(
        &self,
        a: &Arguments,
        plus: &A,
        times: &M,
        power: &P,
    ) -> (r: Result<u64, ExprError>)
        requires
            binary_total(*plus),
            binary_total(*times),
            binary_total(*power),
        ensures
            evaluated(self@, a@, relation_of(*plus), relation_of(*times), relation_of(*power), r),
            self@ matches Term::Constant(c) ==> r == Ok::<u64, ExprError>(c),
            self@ matches Term::Variable(x) ==> r == match lookup(a@, x) {
                Some(v) => Ok::<u64, ExprError>(v),
                None => Err(ExprError::MissingVariable),
            },
            self@ matches Term::Add(cs) && cs.len() == 0 ==> r == Err::<u64, ExprError>(
                ExprError::InvalidExpression,
            ),
            self@ matches Term::Mul(cs) && cs.len() == 0 ==> r == Err::<u64, ExprError>(
                ExprError::InvalidExpression,
            ),
        decreases self,
    {
        match self {
            Expr::Constant(c) => c.eval(a, plus, times, power),
            Expr::Variable(x) => x.eval(a, plus, times, power),
            Expr::Add(s) => s.eval(a, plus, times, power),
            Expr::Mul(m) => m.eval(a, plus, times, power),
            Expr::Pow(p) => p.eval(a, plus, times, power),
        }
    }
}

} // verus!
