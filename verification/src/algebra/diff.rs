//! Symbolic differentiation with respect to one variable.
//!
//! The rules build a new tree and compute one thing only: the exponent of
//! a power, lowered by one. That subtraction is the caller's.

use vstd::prelude::*;
use vstd::string::*;
use crate::algebra::bits::{ONE, ZERO};
use crate::algebra::eval::{binary_total, holds, relation_of, Binary};
use crate::algebra::ops::{
    Add, Constant, Expr, ExprError, Mul, Pow, Term, Variable, clone_all, term_of, terms,
};

verus! {

/// The rules reach no power whose exponent is anything but a constant
/// node. Exponents themselves are not differentiated.
pub open spec fn differentiable(t: Term) -> bool
    decreases t,
{
    match t {
        Term::Constant(_) => true,
        Term::Variable(_) => true,
        Term::Add(cs) => forall|i: int| 0 <= i < cs.len() ==> differentiable(#[trigger] cs[i]),
        Term::Mul(cs) => forall|i: int| 0 <= i < cs.len() ==> differentiable(#[trigger] cs[i]),
        Term::Pow(b, e) => *e is Constant && differentiable(*b),
    }
}

/// `d` is the derivative of `t` with respect to `x`:
/// a constant gives zero; a variable gives one if it is `x`, else zero;
/// a sum gives the sum of its operands' derivatives; a product of n
/// operands gives the sum of n products, the i-th with operand i replaced
/// by its derivative; a power with constant exponent `c` gives the product
/// of the exponent, the base raised to `c` less one, and the base's
/// derivative.
pub open spec fn derivative_of(t: Term, x: Seq<char>, minus: Binary, d: Term) -> bool
    decreases t, 0nat,
{
    match t {
        Term::Constant(_) => d == Term::Constant(ZERO),
        Term::Variable(y) => d == Term::Constant(
            if y == x {
                ONE
            } else {
                ZERO
            },
        ),
        Term::Add(cs) => {
            &&& d matches Term::Add(ds)
            &&& ds.len() == cs.len()
            &&& forall|i: int|
                0 <= i < cs.len() ==> derivative_of(cs[i], x, minus, #[trigger] ds[i])
        },
        Term::Mul(cs) => {
            &&& d matches Term::Add(ts)
            &&& ts.len() == cs.len()
            &&& forall|i: int| 0 <= i < cs.len() ==> product_term(cs, i, x, minus, #[trigger] ts[i])
        },
        Term::Pow(b, e) => {
            &&& *e matches Term::Constant(c)
            &&& d matches Term::Mul(fs)
            &&& fs.len() == 3
            &&& fs[0] == *e
            &&& fs[1] matches Term::Pow(b1, e1)
            &&& *b1 == *b
            &&& *e1 matches Term::Constant(c1)
            &&& holds(minus, c, ONE, c1)
            &&& derivative_of(*b, x, minus, fs[2])
        },
    }
}

/// `term` is the product of the operands `cs` with operand `i` replaced by
/// its derivative.
pub open spec fn product_term(
    cs: Seq<Term>,
    i: int,
    x: Seq<char>,
    minus: Binary,
    term: Term,
) -> bool
    decreases cs, 1nat,
{
    &&& 0 <= i < cs.len()
    &&& term matches Term::Mul(ps)
    &&& ps.len() == cs.len()
    &&& forall|j: int| 0 <= j < cs.len() && j != i ==> #[trigger] ps[j] == cs[j]
    &&& derivative_of(cs[i], x, minus, ps[i])
}

/// `r` is an outcome of differentiating `t`: its derivative where the rules
/// apply, `Unimplemented` where they do not.
pub open spec fn differentiated(
    t: Term,
    x: Seq<char>,
    minus: Binary,
    r: Result<Expr, ExprError>,
) -> bool {
    match r {
        Ok(d) => differentiable(t) && derivative_of(t, x, minus, d@),
        Err(error) => !differentiable(t) && error == ExprError::Unimplemented,
    }
}

impl Constant {
    /// Zero.
    pub fn d<S: Fn(u64, u64) -> u64>(&self, n: &str, minus: &S) -> (r: Result<Expr, ExprError>)
        ensures
            r matches Ok(d) && d@ == Term::Constant(ZERO),
            differentiated(self@, n@, relation_of(*minus), r),
    {
        Ok(Expr::Constant(Constant(ZERO)))
    }
}

impl Variable {
    /// One where the variable is the one differentiated by, zero where it
    /// is another.
    pub fn d<S: Fn(u64, u64) -> u64>(&self, n: &str, minus: &S) -> (r: Result<Expr, ExprError>)
        ensures
            r matches Ok(d) && d@ == Term::Constant(
                if self.0@ == n@ {
                    ONE
                } else {
                    ZERO
                },
            ),
            differentiated(self@, n@, relation_of(*minus), r),
    {
        let name = String::from_str(n);
        if name == self.0 {
            Ok(Expr::Constant(Constant(ONE)))
        } else {
            Ok(Expr::Constant(Constant(ZERO)))
        }
    }
}

impl Add {
    /// The sum of the operands' derivatives.
    pub fn d<S: Fn(u64, u64) -> u64>(&self, n: &str, minus: &S) -> (r: Result<Expr, ExprError>)
        requires
            binary_total(*minus),
        ensures
            differentiated(self@, n@, relation_of(*minus), r),
        decreases self,
    {
        let ghost cs = terms(self.0@);
        let mut out: Vec<Expr> = Vec::new();
        let mut i: usize = 0;
        while i < self.0.len()
            invariant
                i <= self.0.len(),
                out.len() == i,
                cs == terms(self.0@),
                binary_total(*minus),
                forall|j: int| 0 <= j < i ==> differentiable(#[trigger] cs[j]),
                forall|j: int|
                    0 <= j < i ==> derivative_of(
                        cs[j],
                        n@,
                        relation_of(*minus),
                        #[trigger] terms(out@)[j],
                    ),
            decreases self.0.len() - i,
        {
            match self.0[i].d(n, minus) {
                Ok(d) => {
                    proof {
                        let before = terms(out@);
                        let after = terms(out@.push(d));
                        assert forall|j: int| 0 <= j < i + 1 implies derivative_of(
                            cs[j],
                            n@,
                            relation_of(*minus),
                            #[trigger] after[j],
                        ) by {
                            if j < i {
                                assert(after[j] == before[j]);
                            }
                        }
                    }
                    out.push(d);
                },
                Err(error) => {
                    assert(!differentiable(cs[i as int]));
                    assert(self@->Add_0 == cs);
                    return Err(error);
                },
            }
            i += 1;
        }
        let d = Expr::Add(Add(out));
        assert(d@ == Term::Add(terms(out@)));
        Ok(d)
    }
}

impl Mul {
    /// The product rule for any number of operands: the sum, over the
    /// operands, of the product in which that one operand is replaced by
    /// its derivative.
    pub fn d<S: Fn(u64, u64) -> u64>(&self, n: &str, minus: &S) -> (r: Result<Expr, ExprError>)
        requires
            binary_total(*minus),
        ensures
            differentiated(self@, n@, relation_of(*minus), r),
        decreases self,
    {
        let ghost cs = terms(self.0@);
        let mut out: Vec<Expr> = Vec::new();
        let mut i: usize = 0;
        while i < self.0.len()
            invariant
                i <= self.0.len(),
                out.len() == i,
                cs == terms(self.0@),
                binary_total(*minus),
                forall|j: int| 0 <= j < i ==> differentiable(#[trigger] cs[j]),
                forall|j: int|
                    0 <= j < i ==> product_term(
                        cs,
                        j,
                        n@,
                        relation_of(*minus),
                        #[trigger] terms(out@)[j],
                    ),
            decreases self.0.len() - i,
        {
            let mut factors = clone_all(&self.0);
            assert(terms(factors@).len() == cs.len());
            match self.0[i].d(n, minus) {
                Ok(d) => {
                    let ghost copied = terms(factors@);
                    factors.set(i, d);
                    let term = Expr::Mul(Mul(factors));
                    proof {
                        assert(terms(factors@) =~= copied.update(i as int, d@));
                        let before = terms(out@);
                        let after = terms(out@.push(term));
                        assert forall|j: int| 0 <= j < i + 1 implies product_term(
                            cs,
                            j,
                            n@,
                            relation_of(*minus),
                            #[trigger] after[j],
                        ) by {
                            if j < i {
                                assert(after[j] == before[j]);
                            }
                        }
                    }
                    out.push(term);
                },
                Err(error) => {
                    assert(!differentiable(cs[i as int]));
                    assert(self@->Mul_0 == cs);
                    return Err(error);
                },
            }
            i += 1;
        }
        let d = Expr::Add(Add(out));
        assert(d@ == Term::Add(terms(out@)));
        Ok(d)
    }
}

impl Pow {
    /// The power rule with the chain rule, for an exponent that is a
    /// constant node: exponent, times base to the exponent less one, times
    /// the derivative of the base. `Unimplemented` for any other exponent.
    pub fn d<S: Fn(u64, u64) -> u64>(&self, n: &str, minus: &S) -> (r: Result<Expr, ExprError>)
        requires
            binary_total(*minus),
        ensures
            !(term_of(*self.1) is Constant) ==> r is Err,
            differentiated(self@, n@, relation_of(*minus), r),
        decreases self,
    {
        match self.1.get_const() {
            Some(exponent) => {
                let inner = match self.0.d(n, minus) {
                    Ok(d) => d,
                    Err(error) => {
                        return Err(error);
                    },
                };
                let lowered = minus(exponent, ONE);
                let reduced = Expr::Constant(Constant(lowered));
                assert(reduced@ == Term::Constant(lowered));
                let raised = Expr::Pow(Pow(Box::new(self.0.clone_dyn()), Box::new(reduced)));
                assert(raised@ == Term::Pow(
                    Box::new(term_of(*self.0)),
                    Box::new(Term::Constant(lowered)),
                ));
                let mut factors: Vec<Expr> = Vec::new();
                factors.push(self.1.clone_dyn());
                factors.push(raised);
                factors.push(inner);
                assert(terms(factors@).len() == 3);
                Ok(Expr::Mul(Mul(factors)))
            },
            None => Err(ExprError::Unimplemented),
        }
    }
}

impl Expr {
    /// Differentiates the expression with respect to the variable `n`, with
    /// the caller's subtraction. Fails with `Unimplemented` exactly where
    /// the rules reach a power whose exponent is not a constant node.
    pub fn d<S: Fn(u64, u64) -> u64>(&self, n: &str, minus: &S) -> (r: Result<Expr, ExprError>)
        requires
            binary_total(*minus),
        ensures
            differentiated(self@, n@, relation_of(*minus), r),
            self@ is Constant ==> (r matches Ok(d) && d@ == Term::Constant(ZERO)),
            self@ matches Term::Variable(x) ==> (r matches Ok(d) && d@ == Term::Constant(
                if x == n@ {
                    ONE
                } else {
                    ZERO
                },
            )),
        decreases self,
    {
        match self {
            Expr::Constant(c) => c.d(n, minus),
            Expr::Variable(x) => x.d(n, minus),
            Expr::Add(a) => a.d(n, minus),
            Expr::Mul(m) => m.d(n, minus),
            Expr::Pow(p) => p.d(n, minus),
        }
    }
}

} // verus!
