//! What holds across the operations: how evaluation, folding and rendering
//! agree with one another.

use vstd::prelude::*;
use crate::algebra::bits::ONE;
use crate::algebra::diff::{derivative_of, product_term};
use crate::algebra::eval::{
    combines, eval_error, evaluates_to, first_error, folds_to, holds, Binary,
};
use crate::algebra::ops::Term;
use crate::algebra::render::{
    group_text, number_text, power_text, product_sign, renders_to, sum_sign,
};
use crate::algebra::simplify::{folded, operands_constant, simplifies_to};
use crate::algebra::text::{prints, Printer};

verus! {

/// The operation answers each question in one way only.
pub open spec fn deterministic(op: Binary) -> bool {
    forall|a: u64, b: u64, r1: u64, r2: u64|
        #![trigger holds(op, a, b, r1), holds(op, a, b, r2)]
        holds(op, a, b, r1) && holds(op, a, b, r2) ==> r1 == r2
}

/// The bindings hold every variable that occurs in the tree.
pub open spec fn binds_all(t: Term, bound: Set<Seq<char>>) -> bool {
    forall|x: Seq<char>| t.mentions(x) ==> bound.contains(x)
}

/// The first `n` operands are free of error exactly when each of them is.
pub proof fn lemma_first_error_none(cs: Seq<Term>, n: nat, bound: Set<Seq<char>>)
    requires
        n <= cs.len(),
    ensures
        first_error(cs, n, bound) is None <==> forall|i: int|
            0 <= i < n ==> eval_error(#[trigger] cs[i], bound) is None,
    decreases n,
{
    if n > 0 {
        lemma_first_error_none(cs, (n - 1) as nat, bound);
        if first_error(cs, n, bound) is None {
            assert forall|i: int| 0 <= i < n implies eval_error(#[trigger] cs[i], bound)
                is None by {
                if i == n - 1 {
                    assert(eval_error(cs[n - 1], bound) is None);
                }
            }
        } else {
            if first_error(cs, (n - 1) as nat, bound) is None {
                assert(!(eval_error(cs[n - 1], bound) is None));
            }
        }
    }
}

/// Evaluation runs into no error exactly when every sum and product in the
/// tree has an operand and the bindings hold every variable in the tree.
pub proof fn lemma_eval_error_none(t: Term, bound: Set<Seq<char>>)
    ensures
        eval_error(t, bound) is None <==> t.has_operands() && binds_all(t, bound),
    decreases t,
{
    match t {
        Term::Constant(_) => {},
        Term::Variable(x) => {
            assert(t.mentions(x));
        },
        Term::Add(cs) => {
            lemma_operands_error_none(cs, bound);
            assert(t->Add_0 == cs);
            if forall|i: int| 0 <= i < cs.len() ==> binds_all(#[trigger] cs[i], bound) {
                assert forall|x: Seq<char>| t.mentions(x) implies bound.contains(x) by {
                    let i = choose|i: int| 0 <= i < cs.len() && (#[trigger] cs[i]).mentions(x);
                    assert(binds_all(cs[i], bound));
                }
            }
            if binds_all(t, bound) {
                assert forall|i: int| 0 <= i < cs.len() implies binds_all(
                    #[trigger] cs[i],
                    bound,
                ) by {
                    assert forall|x: Seq<char>| cs[i].mentions(x) implies bound.contains(x) by {
                        assert(t.mentions(x));
                    }
                }
            }
        },
        Term::Mul(cs) => {
            lemma_operands_error_none(cs, bound);
            assert(t->Mul_0 == cs);
            if forall|i: int| 0 <= i < cs.len() ==> binds_all(#[trigger] cs[i], bound) {
                assert forall|x: Seq<char>| t.mentions(x) implies bound.contains(x) by {
                    let i = choose|i: int| 0 <= i < cs.len() && (#[trigger] cs[i]).mentions(x);
                    assert(binds_all(cs[i], bound));
                }
            }
            if binds_all(t, bound) {
                assert forall|i: int| 0 <= i < cs.len() implies binds_all(
                    #[trigger] cs[i],
                    bound,
                ) by {
                    assert forall|x: Seq<char>| cs[i].mentions(x) implies bound.contains(x) by {
                        assert(t.mentions(x));
                    }
                }
            }
        },
        Term::Pow(b, e) => {
            lemma_eval_error_none(*b, bound);
            lemma_eval_error_none(*e, bound);
            if binds_all(t, bound) {
                assert forall|x: Seq<char>| b.mentions(x) implies bound.contains(x) by {
                    assert(t.mentions(x));
                }
                assert forall|x: Seq<char>| e.mentions(x) implies bound.contains(x) by {
                    assert(t.mentions(x));
                }
            }
        },
    }
}

/// The operands of a sum or a product are free of error exactly when each
/// has its operands and its variables bound.
proof fn lemma_operands_error_none(cs: Seq<Term>, bound: Set<Seq<char>>)
    ensures
        first_error(cs, cs.len(), bound) is None <==> forall|i: int|
            0 <= i < cs.len() ==> (#[trigger] cs[i]).has_operands() && binds_all(cs[i], bound),
    decreases cs,
{
    lemma_first_error_none(cs, cs.len(), bound);
    assert forall|i: int| 0 <= i < cs.len() implies (eval_error(#[trigger] cs[i], bound) is None
        <==> cs[i].has_operands() && binds_all(cs[i], bound)) by {
        lemma_eval_error_none(cs[i], bound);
    }
}

/// The printer prints each number in one way only.
pub open spec fn printer_deterministic(number: Printer) -> bool {
    forall|c: u64, t1: Seq<char>, t2: Seq<char>|
        #![trigger prints(number, c, t1), prints(number, c, t2)]
        prints(number, c, t1) && prints(number, c, t2) ==> t1 == t2
}

/// With an arithmetic that answers each question in one way only, a term
/// has at most one value under given bindings.
pub proof fn lemma_value_unique(
    t: Term,
    env: Map<Seq<char>, u64>,
    plus: Binary,
    times: Binary,
    power: Binary,
    v1: u64,
    v2: u64,
)
    requires
        deterministic(plus),
        deterministic(times),
        deterministic(power),
        evaluates_to(t, env, plus, times, power, v1),
        evaluates_to(t, env, plus, times, power, v2),
    ensures
        v1 == v2,
    decreases t, 0nat,
{
    match t {
        Term::Constant(_) => {},
        Term::Variable(_) => {},
        Term::Add(cs) => {
            lemma_fold_unique(cs, cs.len(), env, plus, times, power, true, v1, v2);
        },
        Term::Mul(cs) => {
            lemma_fold_unique(cs, cs.len(), env, plus, times, power, false, v1, v2);
        },
        Term::Pow(b, e) => {
            let (x1, y1) = choose|x: u64, y: u64|
                #![trigger holds(power, x, y, v1)]
                evaluates_to(*b, env, plus, times, power, x) && evaluates_to(
                    *e,
                    env,
                    plus,
                    times,
                    power,
                    y,
                ) && holds(power, x, y, v1);
            let (x2, y2) = choose|x: u64, y: u64|
                #![trigger holds(power, x, y, v2)]
                evaluates_to(*b, env, plus, times, power, x) && evaluates_to(
                    *e,
                    env,
                    plus,
                    times,
                    power,
                    y,
                ) && holds(power, x, y, v2);
            lemma_value_unique(*b, env, plus, times, power, x1, x2);
            lemma_value_unique(*e, env, plus, times, power, y1, y2);
        },
    }
}

/// The same for the first `n` operands of a sum or a product.
pub proof fn lemma_fold_unique(
    cs: Seq<Term>,
    n: nat,
    env: Map<Seq<char>, u64>,
    plus: Binary,
    times: Binary,
    power: Binary,
    sum: bool,
    v1: u64,
    v2: u64,
)
    requires
        deterministic(plus),
        deterministic(times),
        deterministic(power),
        folds_to(cs, n, env, plus, times, power, sum, v1),
        folds_to(cs, n, env, plus, times, power, sum, v2),
    ensures
        v1 == v2,
    decreases cs, n,
{
    if n == 1 {
        lemma_value_unique(cs[0], env, plus, times, power, v1, v2);
    } else {
        let (a1, x1) = choose|acc: u64, x: u64|
            #![trigger combines(plus, times, sum, acc, x, v1)]
            folds_to(cs, (n - 1) as nat, env, plus, times, power, sum, acc) && evaluates_to(
                cs[n - 1],
                env,
                plus,
                times,
                power,
                x,
            ) && combines(plus, times, sum, acc, x, v1);
        let (a2, x2) = choose|acc: u64, x: u64|
            #![trigger combines(plus, times, sum, acc, x, v2)]
            folds_to(cs, (n - 1) as nat, env, plus, times, power, sum, acc) && evaluates_to(
                cs[n - 1],
                env,
                plus,
                times,
                power,
                x,
            ) && combines(plus, times, sum, acc, x, v2);
        lemma_fold_unique(cs, (n - 1) as nat, env, plus, times, power, sum, a1, a2);
        lemma_value_unique(cs[n - 1], env, plus, times, power, x1, x2);
    }
}

/// A fold carries over from one list of operands to another that has, place
/// for place, every value that the first has.
proof fn lemma_fold_carries_over(
    ss: Seq<Term>,
    from: Map<Seq<char>, u64>,
    cs: Seq<Term>,
    to: Map<Seq<char>, u64>,
    n: nat,
    plus: Binary,
    times: Binary,
    power: Binary,
    sum: bool,
    v: u64,
)
    requires
        ss.len() == cs.len(),
        forall|i: int, x: u64|
            0 <= i < cs.len() && #[trigger] evaluates_to(ss[i], from, plus, times, power, x)
                ==> evaluates_to(cs[i], to, plus, times, power, x),
        folds_to(ss, n, from, plus, times, power, sum, v),
    ensures
        folds_to(cs, n, to, plus, times, power, sum, v),
    decreases n,
{
    if n == 1 {
        assert(evaluates_to(ss[0], from, plus, times, power, v));
    } else {
        let (acc, x) = choose|acc: u64, x: u64|
            #![trigger combines(plus, times, sum, acc, x, v)]
            folds_to(ss, (n - 1) as nat, from, plus, times, power, sum, acc) && evaluates_to(
                ss[n - 1],
                from,
                plus,
                times,
                power,
                x,
            ) && combines(plus, times, sum, acc, x, v);
        lemma_fold_carries_over(ss, from, cs, to, (n - 1) as nat, plus, times, power, sum, acc);
        assert(evaluates_to(cs[n - 1], to, plus, times, power, x));
    }
}

/// Simplification is sound: every value of the simplified form is a value
/// of the term it came from, under the same bindings.
pub proof fn lemma_simplify_sound(
    t: Term,
    env: Map<Seq<char>, u64>,
    plus: Binary,
    times: Binary,
    power: Binary,
    s: Term,
    v: u64,
)
    requires
        simplifies_to(t, plus, times, power, s),
        evaluates_to(s, env, plus, times, power, v),
    ensures
        evaluates_to(t, env, plus, times, power, v),
    decreases t,
{
    let empty = Map::<Seq<char>, u64>::empty();
    match t {
        Term::Constant(_) => {},
        Term::Variable(_) => {},
        Term::Add(cs) => {
            let ss = choose|ss: Seq<Term>|
                #![trigger folded(Term::Add(ss), plus, times, power, s)]
                {
                    &&& ss.len() == cs.len()
                    &&& forall|i: int|
                        0 <= i < cs.len() ==> simplifies_to(
                            cs[i],
                            plus,
                            times,
                            power,
                            #[trigger] ss[i],
                        )
                    &&& folded(Term::Add(ss), plus, times, power, s)
                };
            let node = Term::Add(ss);
            assert(node->Add_0 == ss);
            if operands_constant(node) {
                // A constant operand has its number as value under any
                // bindings, so the fold under no bindings carries over.
                assert forall|i: int, x: u64|
                    0 <= i < cs.len() && #[trigger] evaluates_to(
                        ss[i],
                        empty,
                        plus,
                        times,
                        power,
                        x,
                    ) implies evaluates_to(cs[i], env, plus, times, power, x) by {
                    assert(ss[i] is Constant);
                    lemma_simplify_sound(cs[i], env, plus, times, power, ss[i], x);
                }
                lemma_fold_carries_over(ss, empty, cs, env, cs.len(), plus, times, power, true, v);
            } else {
                assert forall|i: int, x: u64|
                    0 <= i < cs.len() && #[trigger] evaluates_to(
                        ss[i],
                        env,
                        plus,
                        times,
                        power,
                        x,
                    ) implies evaluates_to(cs[i], env, plus, times, power, x) by {
                    lemma_simplify_sound(cs[i], env, plus, times, power, ss[i], x);
                }
                lemma_fold_carries_over(ss, env, cs, env, cs.len(), plus, times, power, true, v);
            }
        },
        Term::Mul(cs) => {
            let ss = choose|ss: Seq<Term>|
                #![trigger folded(Term::Mul(ss), plus, times, power, s)]
                {
                    &&& ss.len() == cs.len()
                    &&& forall|i: int|
                        0 <= i < cs.len() ==> simplifies_to(
                            cs[i],
                            plus,
                            times,
                            power,
                            #[trigger] ss[i],
                        )
                    &&& folded(Term::Mul(ss), plus, times, power, s)
                };
            let node = Term::Mul(ss);
            assert(node->Mul_0 == ss);
            if operands_constant(node) {
                assert forall|i: int, x: u64|
                    0 <= i < cs.len() && #[trigger] evaluates_to(
                        ss[i],
                        empty,
                        plus,
                        times,
                        power,
                        x,
                    ) implies evaluates_to(cs[i], env, plus, times, power, x) by {
                    assert(ss[i] is Constant);
                    lemma_simplify_sound(cs[i], env, plus, times, power, ss[i], x);
                }
                lemma_fold_carries_over(ss, empty, cs, env, cs.len(), plus, times, power, false, v);
            } else {
                assert forall|i: int, x: u64|
                    0 <= i < cs.len() && #[trigger] evaluates_to(
                        ss[i],
                        env,
                        plus,
                        times,
                        power,
                        x,
                    ) implies evaluates_to(cs[i], env, plus, times, power, x) by {
                    lemma_simplify_sound(cs[i], env, plus, times, power, ss[i], x);
                }
                lemma_fold_carries_over(ss, env, cs, env, cs.len(), plus, times, power, false, v);
            }
        },
        Term::Pow(b, e) => {
            let (sb, se) = choose|sb: Term, se: Term|
                #![trigger folded(Term::Pow(Box::new(sb), Box::new(se)), plus, times, power, s)]
                {
                    &&& simplifies_to(*b, plus, times, power, sb)
                    &&& simplifies_to(*e, plus, times, power, se)
                    &&& folded(Term::Pow(Box::new(sb), Box::new(se)), plus, times, power, s)
                };
            let node = Term::Pow(Box::new(sb), Box::new(se));
            let under = if operands_constant(node) {
                empty
            } else {
                env
            };
            assert(evaluates_to(node, under, plus, times, power, v));
            let (x, y) = choose|x: u64, y: u64|
                #![trigger holds(power, x, y, v)]
                evaluates_to(sb, under, plus, times, power, x) && evaluates_to(
                    se,
                    under,
                    plus,
                    times,
                    power,
                    y,
                ) && holds(power, x, y, v);
            assert(evaluates_to(sb, env, plus, times, power, x));
            assert(evaluates_to(se, env, plus, times, power, y));
            lemma_simplify_sound(*b, env, plus, times, power, sb, x);
            lemma_simplify_sound(*e, env, plus, times, power, se, y);
        },
    }
}

/// Simplifying a tree whose every leaf is a constant gives a single
/// constant.
pub proof fn lemma_simplify_folds_numeric(
    t: Term,
    plus: Binary,
    times: Binary,
    power: Binary,
    s: Term,
)
    requires
        t.numeric(),
        simplifies_to(t, plus, times, power, s),
    ensures
        s is Constant,
    decreases t,
{
    match t {
        Term::Constant(_) => {},
        Term::Variable(_) => {},
        Term::Add(cs) => {
            let ss = choose|ss: Seq<Term>|
                #![trigger folded(Term::Add(ss), plus, times, power, s)]
                {
                    &&& ss.len() == cs.len()
                    &&& forall|i: int|
                        0 <= i < cs.len() ==> simplifies_to(
                            cs[i],
                            plus,
                            times,
                            power,
                            #[trigger] ss[i],
                        )
                    &&& folded(Term::Add(ss), plus, times, power, s)
                };
            assert forall|i: int| 0 <= i < cs.len() implies (#[trigger] ss[i]) is Constant by {
                lemma_simplify_folds_numeric(cs[i], plus, times, power, ss[i]);
            }
            assert(Term::Add(ss)->Add_0 == ss);
        },
        Term::Mul(cs) => {
            let ss = choose|ss: Seq<Term>|
                #![trigger folded(Term::Mul(ss), plus, times, power, s)]
                {
                    &&& ss.len() == cs.len()
                    &&& forall|i: int|
                        0 <= i < cs.len() ==> simplifies_to(
                            cs[i],
                            plus,
                            times,
                            power,
                            #[trigger] ss[i],
                        )
                    &&& folded(Term::Mul(ss), plus, times, power, s)
                };
            assert forall|i: int| 0 <= i < cs.len() implies (#[trigger] ss[i]) is Constant by {
                lemma_simplify_folds_numeric(cs[i], plus, times, power, ss[i]);
            }
            assert(Term::Mul(ss)->Mul_0 == ss);
        },
        Term::Pow(b, e) => {
            let (sb, se) = choose|sb: Term, se: Term|
                #![trigger folded(Term::Pow(Box::new(sb), Box::new(se)), plus, times, power, s)]
                {
                    &&& simplifies_to(*b, plus, times, power, sb)
                    &&& simplifies_to(*e, plus, times, power, se)
                    &&& folded(Term::Pow(Box::new(sb), Box::new(se)), plus, times, power, s)
                };
            lemma_simplify_folds_numeric(*b, plus, times, power, sb);
            lemma_simplify_folds_numeric(*e, plus, times, power, se);
        },
    }
}

/// Simplifying a tree whose every leaf is a constant gives a single
/// constant, and its number is a value of the tree, whatever the bindings.
pub proof fn lemma_simplify_numeric_is_value(
    t: Term,
    env: Map<Seq<char>, u64>,
    plus: Binary,
    times: Binary,
    power: Binary,
    s: Term,
)
    requires
        t.numeric(),
        simplifies_to(t, plus, times, power, s),
    ensures
        s is Constant,
        evaluates_to(t, env, plus, times, power, s->Constant_0),
{
    lemma_simplify_folds_numeric(t, plus, times, power, s);
    lemma_simplify_sound(t, env, plus, times, power, s, s->Constant_0);
}

/// Rendering the simplified form of a tree whose every leaf is a constant
/// gives the printed form of a value of the tree: bare where the value's
/// sign bit is clear, in parentheses where it is set.
pub proof fn lemma_render_of_simplified_numeric(
    t: Term,
    env: Map<Seq<char>, u64>,
    plus: Binary,
    times: Binary,
    power: Binary,
    number: Printer,
    typeset: bool,
    s: Term,
    text: Seq<char>,
)
    requires
        t.numeric(),
        simplifies_to(t, plus, times, power, s),
        renders_to(s, typeset, number, text),
    ensures
        exists|v: u64, digits: Seq<char>|
            #![trigger prints(number, v, digits)]
            {
                &&& evaluates_to(t, env, plus, times, power, v)
                &&& prints(number, v, digits)
                &&& text == number_text(v, digits)
            },
{
    lemma_simplify_numeric_is_value(t, env, plus, times, power, s);
    let v = s->Constant_0;
    let digits = choose|digits: Seq<char>|
        #![trigger prints(number, v, digits)]
        prints(number, v, digits) && text == number_text(v, digits);
    assert(prints(number, v, digits) && text == number_text(v, digits));
}

/// With a subtraction that answers each question in one way only, a term
/// has at most one derivative.
pub proof fn lemma_derivative_unique(t: Term, x: Seq<char>, minus: Binary, d1: Term, d2: Term)
    requires
        deterministic(minus),
        derivative_of(t, x, minus, d1),
        derivative_of(t, x, minus, d2),
    ensures
        d1 == d2,
    decreases t,
{
    match t {
        Term::Constant(_) => {},
        Term::Variable(_) => {},
        Term::Add(cs) => {
            let ds1 = d1->Add_0;
            let ds2 = d2->Add_0;
            assert forall|i: int| 0 <= i < cs.len() implies ds1[i] == ds2[i] by {
                lemma_derivative_unique(cs[i], x, minus, ds1[i], ds2[i]);
            }
            assert(ds1 =~= ds2);
        },
        Term::Mul(cs) => {
            let ts1 = d1->Add_0;
            let ts2 = d2->Add_0;
            assert forall|i: int| 0 <= i < cs.len() implies ts1[i] == ts2[i] by {
                assert(product_term(cs, i, x, minus, ts1[i]));
                assert(product_term(cs, i, x, minus, ts2[i]));
                let ps1 = ts1[i]->Mul_0;
                let ps2 = ts2[i]->Mul_0;
                assert forall|j: int| 0 <= j < cs.len() implies ps1[j] == ps2[j] by {
                    if j == i {
                        lemma_derivative_unique(cs[i], x, minus, ps1[i], ps2[i]);
                    } else {
                        assert(ps1[j] == cs[j]);
                        assert(ps2[j] == cs[j]);
                    }
                }
                assert(ps1 =~= ps2);
            }
            assert(ts1 =~= ts2);
        },
        Term::Pow(b, e) => {
            let c = e->Constant_0;
            let fs1 = d1->Mul_0;
            let fs2 = d2->Mul_0;
            let c1 = fs1[1]->Pow_1->Constant_0;
            let c2 = fs2[1]->Pow_1->Constant_0;
            assert(holds(minus, c, ONE, c1) && holds(minus, c, ONE, c2));
            lemma_derivative_unique(*b, x, minus, fs1[2], fs2[2]);
            assert(fs1[1] == fs2[1]);
            assert(fs1 =~= fs2);
        },
    }
}

/// With an arithmetic that answers each question in one way only, a term
/// has at most one simplified form.
pub proof fn lemma_simplified_unique(
    t: Term,
    plus: Binary,
    times: Binary,
    power: Binary,
    s1: Term,
    s2: Term,
)
    requires
        deterministic(plus),
        deterministic(times),
        deterministic(power),
        simplifies_to(t, plus, times, power, s1),
        simplifies_to(t, plus, times, power, s2),
    ensures
        s1 == s2,
    decreases t,
{
    let empty = Map::<Seq<char>, u64>::empty();
    match t {
        Term::Constant(_) => {},
        Term::Variable(_) => {},
        Term::Add(cs) => {
            let ss1 = choose|ss: Seq<Term>|
                #![trigger folded(Term::Add(ss), plus, times, power, s1)]
                {
                    &&& ss.len() == cs.len()
                    &&& forall|i: int|
                        0 <= i < cs.len() ==> simplifies_to(
                            cs[i],
                            plus,
                            times,
                            power,
                            #[trigger] ss[i],
                        )
                    &&& folded(Term::Add(ss), plus, times, power, s1)
                };
            let ss2 = choose|ss: Seq<Term>|
                #![trigger folded(Term::Add(ss), plus, times, power, s2)]
                {
                    &&& ss.len() == cs.len()
                    &&& forall|i: int|
                        0 <= i < cs.len() ==> simplifies_to(
                            cs[i],
                            plus,
                            times,
                            power,
                            #[trigger] ss[i],
                        )
                    &&& folded(Term::Add(ss), plus, times, power, s2)
                };
            assert forall|i: int| 0 <= i < cs.len() implies ss1[i] == ss2[i] by {
                lemma_simplified_unique(cs[i], plus, times, power, ss1[i], ss2[i]);
            }
            assert(ss1 =~= ss2);
            if operands_constant(Term::Add(ss1)) {
                lemma_value_unique(
                    Term::Add(ss1),
                    empty,
                    plus,
                    times,
                    power,
                    s1->Constant_0,
                    s2->Constant_0,
                );
            }
        },
        Term::Mul(cs) => {
            let ss1 = choose|ss: Seq<Term>|
                #![trigger folded(Term::Mul(ss), plus, times, power, s1)]
                {
                    &&& ss.len() == cs.len()
                    &&& forall|i: int|
                        0 <= i < cs.len() ==> simplifies_to(
                            cs[i],
                            plus,
                            times,
                            power,
                            #[trigger] ss[i],
                        )
                    &&& folded(Term::Mul(ss), plus, times, power, s1)
                };
            let ss2 = choose|ss: Seq<Term>|
                #![trigger folded(Term::Mul(ss), plus, times, power, s2)]
                {
                    &&& ss.len() == cs.len()
                    &&& forall|i: int|
                        0 <= i < cs.len() ==> simplifies_to(
                            cs[i],
                            plus,
                            times,
                            power,
                            #[trigger] ss[i],
                        )
                    &&& folded(Term::Mul(ss), plus, times, power, s2)
                };
            assert forall|i: int| 0 <= i < cs.len() implies ss1[i] == ss2[i] by {
                lemma_simplified_unique(cs[i], plus, times, power, ss1[i], ss2[i]);
            }
            assert(ss1 =~= ss2);
            if operands_constant(Term::Mul(ss1)) {
                lemma_value_unique(
                    Term::Mul(ss1),
                    empty,
                    plus,
                    times,
                    power,
                    s1->Constant_0,
                    s2->Constant_0,
                );
            }
        },
        Term::Pow(b, e) => {
            let (b1, e1) = choose|sb: Term, se: Term|
                #![trigger folded(Term::Pow(Box::new(sb), Box::new(se)), plus, times, power, s1)]
                {
                    &&& simplifies_to(*b, plus, times, power, sb)
                    &&& simplifies_to(*e, plus, times, power, se)
                    &&& folded(Term::Pow(Box::new(sb), Box::new(se)), plus, times, power, s1)
                };
            let (b2, e2) = choose|sb: Term, se: Term|
                #![trigger folded(Term::Pow(Box::new(sb), Box::new(se)), plus, times, power, s2)]
                {
                    &&& simplifies_to(*b, plus, times, power, sb)
                    &&& simplifies_to(*e, plus, times, power, se)
                    &&& folded(Term::Pow(Box::new(sb), Box::new(se)), plus, times, power, s2)
                };
            lemma_simplified_unique(*b, plus, times, power, b1, b2);
            lemma_simplified_unique(*e, plus, times, power, e1, e2);
            let node = Term::Pow(Box::new(b1), Box::new(e1));
            if operands_constant(node) {
                lemma_value_unique(node, empty, plus, times, power, s1->Constant_0, s2->Constant_0);
            }
        },
    }
}

/// With a printer that prints each number in one way only, a term has at
/// most one rendering of each kind.
pub proof fn lemma_rendering_unique(
    t: Term,
    typeset: bool,
    number: Printer,
    s1: Seq<char>,
    s2: Seq<char>,
)
    requires
        printer_deterministic(number),
        renders_to(t, typeset, number, s1),
        renders_to(t, typeset, number, s2),
    ensures
        s1 == s2,
    decreases t,
{
    match t {
        Term::Constant(c) => {
            let t1 = choose|digits: Seq<char>|
                #![trigger prints(number, c, digits)]
                prints(number, c, digits) && s1 == number_text(c, digits);
            let t2 = choose|digits: Seq<char>|
                #![trigger prints(number, c, digits)]
                prints(number, c, digits) && s2 == number_text(c, digits);
            assert(t1 == t2);
        },
        Term::Variable(_) => {},
        Term::Add(cs) => {
            let p1 = choose|parts: Seq<Seq<char>>|
                #![trigger group_text(parts, sum_sign())]
                {
                    &&& parts.len() == cs.len()
                    &&& forall|i: int|
                        0 <= i < cs.len() ==> renders_to(
                            cs[i],
                            typeset,
                            number,
                            #[trigger] parts[i],
                        )
                    &&& s1 == group_text(parts, sum_sign())
                };
            let p2 = choose|parts: Seq<Seq<char>>|
                #![trigger group_text(parts, sum_sign())]
                {
                    &&& parts.len() == cs.len()
                    &&& forall|i: int|
                        0 <= i < cs.len() ==> renders_to(
                            cs[i],
                            typeset,
                            number,
                            #[trigger] parts[i],
                        )
                    &&& s2 == group_text(parts, sum_sign())
                };
            assert forall|i: int| 0 <= i < cs.len() implies p1[i] == p2[i] by {
                lemma_rendering_unique(cs[i], typeset, number, p1[i], p2[i]);
            }
            assert(p1 =~= p2);
        },
        Term::Mul(cs) => {
            let p1 = choose|parts: Seq<Seq<char>>|
                #![trigger group_text(parts, product_sign(typeset))]
                {
                    &&& parts.len() == cs.len()
                    &&& forall|i: int|
                        0 <= i < cs.len() ==> renders_to(
                            cs[i],
                            typeset,
                            number,
                            #[trigger] parts[i],
                        )
                    &&& s1 == group_text(parts, product_sign(typeset))
                };
            let p2 = choose|parts: Seq<Seq<char>>|
                #![trigger group_text(parts, product_sign(typeset))]
                {
                    &&& parts.len() == cs.len()
                    &&& forall|i: int|
                        0 <= i < cs.len() ==> renders_to(
                            cs[i],
                            typeset,
                            number,
                            #[trigger] parts[i],
                        )
                    &&& s2 == group_text(parts, product_sign(typeset))
                };
            assert forall|i: int| 0 <= i < cs.len() implies p1[i] == p2[i] by {
                lemma_rendering_unique(cs[i], typeset, number, p1[i], p2[i]);
            }
            assert(p1 =~= p2);
        },
        Term::Pow(b, e) => {
            let (l1, r1) = choose|base: Seq<char>, exponent: Seq<char>|
                #![trigger power_text(typeset, base, exponent)]
                {
                    &&& renders_to(*b, typeset, number, base)
                    &&& renders_to(*e, typeset, number, exponent)
                    &&& s1 == power_text(typeset, base, exponent)
                };
            let (l2, r2) = choose|base: Seq<char>, exponent: Seq<char>|
                #![trigger power_text(typeset, base, exponent)]
                {
                    &&& renders_to(*b, typeset, number, base)
                    &&& renders_to(*e, typeset, number, exponent)
                    &&& s2 == power_text(typeset, base, exponent)
                };
            lemma_rendering_unique(*b, typeset, number, l1, l2);
            lemma_rendering_unique(*e, typeset, number, r1, r2);
        },
    }
}

} // verus!
