//! Constant folding: one pass from the leaves up.
//!
//! Every operand is simplified first. A sum, a product or a power whose
//! simplified operands are all constant nodes is then replaced by one
//! constant node, computed by evaluating it under empty bindings; any other
//! node is rebuilt from its simplified operands. Nothing else is rewritten.

use vstd::prelude::*;
use crate::algebra::args::Arguments;
use crate::algebra::eval::{
    binary_total, eval_error, evaluated, evaluates_to, first_error, relation_of, Binary,
};
use crate::algebra::ops::{Add, Constant, Expr, ExprError, Mul, Pow, Term, Variable, term_of, terms};

verus! {

/// The node is a sum, a product or a power, and each of its operands is a
/// constant node.
pub open spec fn operands_constant(node: Term) -> bool {
    match node {
        Term::Constant(_) => false,
        Term::Variable(_) => false,
        Term::Add(cs) => forall|i: int| 0 <= i < cs.len() ==> (#[trigger] cs[i]) is Constant,
        Term::Mul(cs) => forall|i: int| 0 <= i < cs.len() ==> (#[trigger] cs[i]) is Constant,
        Term::Pow(b, e) => *b is Constant && *e is Constant,
    }
}

/// `s` is what becomes of a node whose operands are already simplified:
/// a constant holding a value of the node where all operands are constant,
/// the node itself where they are not.
pub open spec fn folded(node: Term, plus: Binary, times: Binary, power: Binary, s: Term) -> bool {
    if operands_constant(node) {
        s matches Term::Constant(v) && evaluates_to(
            node,
            Map::<Seq<char>, u64>::empty(),
            plus,
            times,
            power,
            v,
        )
    } else {
        s == node
    }
}

/// `s` is a simplified form of `t`.
pub open spec fn simplifies_to(
    t: Term,
    plus: Binary,
    times: Binary,
    power: Binary,
    s: Term,
) -> bool
    decreases t,
{
    match t {
        Term::Constant(_) => s == t,
        Term::Variable(_) => s == t,
        Term::Add(cs) => exists|ss: Seq<Term>|
            #![trigger folded(Term::Add(ss), plus, times, power, s)]
            {
                &&& ss.len() == cs.len()
                &&& forall|i: int|
                    0 <= i < cs.len() ==> simplifies_to(cs[i], plus, times, power, #[trigger] ss[i])
                &&& folded(Term::Add(ss), plus, times, power, s)
            },
        Term::Mul(cs) => exists|ss: Seq<Term>|
            #![trigger folded(Term::Mul(ss), plus, times, power, s)]
            {
                &&& ss.len() == cs.len()
                &&& forall|i: int|
                    0 <= i < cs.len() ==> simplifies_to(cs[i], plus, times, power, #[trigger] ss[i])
                &&& folded(Term::Mul(ss), plus, times, power, s)
            },
        Term::Pow(b, e) => exists|sb: Term, se: Term|
            #![trigger folded(Term::Pow(Box::new(sb), Box::new(se)), plus, times, power, s)]
            {
                &&& simplifies_to(*b, plus, times, power, sb)
                &&& simplifies_to(*e, plus, times, power, se)
                &&& folded(Term::Pow(Box::new(sb), Box::new(se)), plus, times, power, s)
            },
    }
}

/// `r` is an outcome of simplifying `t`: a simplified form where every sum
/// and product in `t` has an operand, `InvalidExpression` where one has none.
pub open spec fn simplified(
    t: Term,
    plus: Binary,
    times: Binary,
    power: Binary,
    r: Result<Expr, ExprError>,
) -> bool {
    match r {
        Ok(s) => t.has_operands() && simplifies_to(t, plus, times, power, s@),
        Err(error) => !t.has_operands() && error == ExprError::InvalidExpression,
    }
}

/// Constant operands cannot fail.
pub proof fn lemma_constants_have_no_error(cs: Seq<Term>, n: nat, bound: Set<Seq<char>>)
    requires
        n <= cs.len(),
        forall|i: int| 0 <= i < cs.len() ==> (#[trigger] cs[i]) is Constant,
    ensures
        first_error(cs, n, bound) is None,
    decreases n,
{
    if n > 0 {
        lemma_constants_have_no_error(cs, (n - 1) as nat, bound);
        assert(eval_error(cs[n - 1], bound) is None);
    }
}

/// Simplifies each operand and reports whether all came out constant.
fn simplify_operands<A: Fn(u64, u64) -> u64, M: Fn(u64, u64) -> u64, P: Fn(u64, u64) -> u64>(
    operands: &Vec<Expr>,
    plus: &A,
    times: &M,
    power: &P,
) -> (r: Result<(Vec<Expr>, bool), ExprError>)
    requires
        binary_total(*plus),
        binary_total(*times),
        binary_total(*power),
    ensures
        match r {
            Ok((out, all)) => {
                &&& out.len() == operands.len()
                &&& forall|i: int|
                    0 <= i < operands.len() ==> (#[trigger] terms(operands@)[i]).has_operands()
                &&& forall|i: int|
                    0 <= i < operands.len() ==> simplifies_to(
                        terms(operands@)[i],
                        relation_of(*plus),
                        relation_of(*times),
                        relation_of(*power),
                        #[trigger] terms(out@)[i],
                    )
                &&& all == forall|i: int|
                    0 <= i < out.len() ==> (#[trigger] terms(out@)[i]) is Constant
            },
            Err(error) => {
                &&& error == ExprError::InvalidExpression
                &&& exists|i: int|
                    0 <= i < operands.len() && !(#[trigger] terms(operands@)[i]).has_operands()
            },
        },
    decreases operands,
{
    let mut out: Vec<Expr> = Vec::new();
    let mut all = true;
    let mut i: usize = 0;
    while i < operands.len()
        invariant
            i <= operands.len(),
            out.len() == i,
            binary_total(*plus),
            binary_total(*times),
            binary_total(*power),
            forall|j: int| 0 <= j < i ==> (#[trigger] terms(operands@)[j]).has_operands(),
            forall|j: int|
                0 <= j < i ==> simplifies_to(
                    terms(operands@)[j],
                    relation_of(*plus),
                    relation_of(*times),
                    relation_of(*power),
                    #[trigger] terms(out@)[j],
                ),
            all == forall|j: int| 0 <= j < i ==> (#[trigger] terms(out@)[j]) is Constant,
        decreases operands.len() - i,
    {
        assert(terms(operands@)[i as int] == operands[i as int]@);
        match operands[i].simplify(plus, times, power) {
            Ok(s) => {
                let known = s.get_const().is_some();
                proof {
                    let before = terms(out@);
                    let after = terms(out@.push(s));
                    assert forall|j: int| 0 <= j < i + 1 implies simplifies_to(
                        terms(operands@)[j],
                        relation_of(*plus),
                        relation_of(*times),
                        relation_of(*power),
                        #[trigger] after[j],
                    ) by {
                        if j < i {
                            assert(after[j] == before[j]);
                        }
                    }
                    if all && known {
                        assert forall|j: int| 0 <= j < i + 1 implies (#[trigger] after[j])
                            is Constant by {
                            if j < i {
                                assert(after[j] == before[j]);
                            }
                        }
                    } else if !known {
                        assert(!(after[i as int] is Constant));
                    } else {
                        let j = choose|j: int| 0 <= j < i && !(#[trigger] before[j] is Constant);
                        assert(after[j] == before[j]);
                    }
                }
                all = all && known;
                out.push(s);
            },
            Err(error) => {
                return Err(error);
            },
        }
        i += 1;
    }
    Ok((out, all))
}

impl Constant {
    /// A copy of the node.
    pub fn simplify<A: Fn(u64, u64) -> u64, M: Fn(u64, u64) -> u64, P: Fn(u64, u64) -> u64>(
        &self,
        plus: &A,
        times: &M,
        power: &P,
    ) -> (r: Result<Expr, ExprError>)
        ensures
            r matches Ok(s) && s@ == self@,
            simplified(self@, relation_of(*plus), relation_of(*times), relation_of(*power), r),
    {
        Ok(self.clone_dyn())
    }
}

impl Variable {
    /// A copy of the node.
    pub fn simplify<A: Fn(u64, u64) -> u64, M: Fn(u64, u64) -> u64, P: Fn(u64, u64) -> u64>(
        &self,
        plus: &A,
        times: &M,
        power: &P,
    ) -> (r: Result<Expr, ExprError>)
        ensures
            r matches Ok(s) && s@ == self@,
            simplified(self@, relation_of(*plus), relation_of(*times), relation_of(*power), r),
    {
        Ok(self.clone_dyn())
    }
}

impl Add {
    /// The sum of the simplified operands, folded into one constant where
    /// all of them are constant; `InvalidExpression` where a sum or a
    /// product in the tree has no operand.
    pub fn simplify<A: Fn(u64, u64) -> u64, M: Fn(u64, u64) -> u64, P: Fn(u64, u64) -> u64>(
        &self,
        plus: &A,
        times: &M,
        power: &P,
    ) -> (r: Result<Expr, ExprError>)
        requires
            binary_total(*plus),
            binary_total(*times),
            binary_total(*power),
        ensures
            self.0.len() == 0 ==> r is Err,
            simplified(self@, relation_of(*plus), relation_of(*times), relation_of(*power), r),
        decreases self,
    {
        let (operands, all) = match simplify_operands(&self.0, plus, times, power) {
            Ok(pair) => pair,
            Err(error) => {
                return Err(error);
            },
        };
        let node = Add(operands);
        let ghost ss = terms(node.0@);
        if all {
            let empty = Arguments::new();
            proof {
                lemma_constants_have_no_error(ss, ss.len(), empty@.dom());
            }
            match node.eval(&empty, plus, times, power) {
                Ok(v) => {
                    let s = Expr::Constant(Constant(v));
                    assert(folded(
                        Term::Add(ss),
                        relation_of(*plus),
                        relation_of(*times),
                        relation_of(*power),
                        s@,
                    ));
                    Ok(s)
                },
                Err(error) => Err(error),
            }
        } else {
            let s = Expr::Add(node);
            assert(folded(
                Term::Add(ss),
                relation_of(*plus),
                relation_of(*times),
                relation_of(*power),
                s@,
            ));
            Ok(s)
        }
    }
}

impl Mul {
    /// The product of the simplified operands, folded into one constant
    /// where all of them are constant; `InvalidExpression` where a sum or a
    /// product in the tree has no operand.
    pub fn simplify<A: Fn(u64, u64) -> u64, M: Fn(u64, u64) -> u64, P: Fn(u64, u64) -> u64>(
        &self,
        plus: &A,
        times: &M,
        power: &P,
    ) -> (r: Result<Expr, ExprError>)
        requires
            binary_total(*plus),
            binary_total(*times),
            binary_total(*power),
        ensures
            self.0.len() == 0 ==> r is Err,
            simplified(self@, relation_of(*plus), relation_of(*times), relation_of(*power), r),
        decreases self,
    {
        let (operands, all) = match simplify_operands(&self.0, plus, times, power) {
            Ok(pair) => pair,
            Err(error) => {
                return Err(error);
            },
        };
        let node = Mul(operands);
        let ghost ss = terms(node.0@);
        if all {
            let empty = Arguments::new();
            proof {
                lemma_constants_have_no_error(ss, ss.len(), empty@.dom());
            }
            match node.eval(&empty, plus, times, power) {
                Ok(v) => {
                    let s = Expr::Constant(Constant(v));
                    assert(folded(
                        Term::Mul(ss),
                        relation_of(*plus),
                        relation_of(*times),
                        relation_of(*power),
                        s@,
                    ));
                    Ok(s)
                },
                Err(error) => Err(error),
            }
        } else {
            let s = Expr::Mul(node);
            assert(folded(
                Term::Mul(ss),
                relation_of(*plus),
                relation_of(*times),
                relation_of(*power),
                s@,
            ));
            Ok(s)
        }
    }
}

impl Pow {
    /// The power of the simplified base and exponent, folded into one
    /// constant where both are constant; `InvalidExpression` where a sum or
    /// a product in the tree has no operand.
    pub fn simplify<A: Fn(u64, u64) -> u64, M: Fn(u64, u64) -> u64, P: Fn(u64, u64) -> u64>(
        &self,
        plus: &A,
        times: &M,
        power: &P,
    ) -> (r: Result<Expr, ExprError>)
        requires
            binary_total(*plus),
            binary_total(*times),
            binary_total(*power),
        ensures
            simplified(self@, relation_of(*plus), relation_of(*times), relation_of(*power), r),
        decreases self,
    {
        let base = match self.0.simplify(plus, times, power) {
            Ok(s) => s,
            Err(error) => {
                return Err(error);
            },
        };
        let exponent = match self.1.simplify(plus, times, power) {
            Ok(s) => s,
            Err(error) => {
                return Err(error);
            },
        };
        let all = base.get_const().is_some() && exponent.get_const().is_some();
        let ghost sb = base@;
        let ghost se = exponent@;
        let node = Pow(Box::new(base), Box::new(exponent));
        if all {
            let empty = Arguments::new();
            assert(eval_error(sb, empty@.dom()) is None);
            assert(eval_error(se, empty@.dom()) is None);
            match node.eval(&empty, plus, times, power) {
                Ok(v) => {
                    let s = Expr::Constant(Constant(v));
                    assert(folded(
                        node@,
                        relation_of(*plus),
                        relation_of(*times),
                        relation_of(*power),
                        s@,
                    ));
                    Ok(s)
                },
                Err(error) => Err(error),
            }
        } else {
            let s = Expr::Pow(node);
            assert(folded(
                node@,
                relation_of(*plus),
                relation_of(*times),
                relation_of(*power),
                s@,
            ));
            Ok(s)
        }
    }
}

impl Expr {
    /// Simplifies the expression with the caller's arithmetic: a new tree in
    /// which every sum, product and power whose simplified operands are all
    /// constant has become one constant. Fails with `InvalidExpression`
    /// exactly where a sum or a product in the tree has no operand.
    pub fn simplify<A: Fn(u64, u64) -> u64, M: Fn(u64, u64) -> u64, P: Fn(u64, u64) -> u64>(
        &self,
        plus: &A,
        times: &M,
        power: &P,
    ) -> (r: Result<Expr, ExprError>)
        requires
            binary_total(*plus),
            binary_total(*times),
            binary_total(*power),
        ensures
            simplified(self@, relation_of(*plus), relation_of(*times), relation_of(*power), r),
        decreases self,
    {
        match self {
            Expr::Constant(c) => c.simplify(plus, times, power),
            Expr::Variable(x) => x.simplify(plus, times, power),
            Expr::Add(a) => a.simplify(plus, times, power),
            Expr::Mul(m) => m.simplify(plus, times, power),
            Expr::Pow(p) => p.simplify(plus, times, power),
        }
    }
}

} // verus!
