//! Rendering an expression as text, plain or typeset.
//!
//! The structure of the text is the library's; the text of each number is
//! the caller's printer's. A number whose sign bit is set is put in
//! parentheses; sums, products and powers always are.

use vstd::prelude::*;
use vstd::string::*;
use crate::algebra::bits::{is_sign_positive, sign_positive};
use crate::algebra::ops::{Add, Constant, Expr, Mul, Pow, Term, Variable, term_of, terms};
use crate::algebra::text::{join, lemma_join_push, printer_of, printer_total, prints, Printer};

verus! {

/// A number as it is rendered, given its printed form.
pub open spec fn number_text(c: u64, digits: Seq<char>) -> Seq<char> {
    if sign_positive(c) {
        digits
    } else {
        "("@ + digits + ")"@
    }
}

/// What stands between the operands of a sum.
pub open spec fn sum_sign() -> Seq<char> {
    " + "@
}

/// What stands between the operands of a product.
pub open spec fn product_sign(typeset: bool) -> Seq<char> {
    if typeset {
        " \\times "@
    } else {
        " × "@
    }
}

/// Operands as they are rendered together: joined and put in parentheses.
pub open spec fn group_text(parts: Seq<Seq<char>>, sign: Seq<char>) -> Seq<char> {
    "("@ + join(parts, sign) + ")"@
}

/// A power as it is rendered, given its rendered base and exponent.
pub open spec fn power_text(typeset: bool, base: Seq<char>, exponent: Seq<char>) -> Seq<char> {
    if typeset {
        "("@ + base + "^{"@ + exponent + "})"@
    } else {
        "("@ + base + " ^ "@ + exponent + ")"@
    }
}

/// `s` is a rendering of `t`, typeset or plain.
pub open spec fn renders_to(t: Term, typeset: bool, number: Printer, s: Seq<char>) -> bool
    decreases t,
{
    match t {
        Term::Constant(c) => exists|digits: Seq<char>|
            #![trigger prints(number, c, digits)]
            prints(number, c, digits) && s == number_text(c, digits),
        Term::Variable(x) => s == x,
        Term::Add(cs) => exists|parts: Seq<Seq<char>>|
            #![trigger group_text(parts, sum_sign())]
            {
                &&& parts.len() == cs.len()
                &&& forall|i: int|
                    0 <= i < cs.len() ==> renders_to(cs[i], typeset, number, #[trigger] parts[i])
                &&& s == group_text(parts, sum_sign())
            },
        Term::Mul(cs) => exists|parts: Seq<Seq<char>>|
            #![trigger group_text(parts, product_sign(typeset))]
            {
                &&& parts.len() == cs.len()
                &&& forall|i: int|
                    0 <= i < cs.len() ==> renders_to(cs[i], typeset, number, #[trigger] parts[i])
                &&& s == group_text(parts, product_sign(typeset))
            },
        Term::Pow(b, e) => exists|base: Seq<char>, exponent: Seq<char>|
            #![trigger power_text(typeset, base, exponent)]
            {
                &&& renders_to(*b, typeset, number, base)
                &&& renders_to(*e, typeset, number, exponent)
                &&& s == power_text(typeset, base, exponent)
            },
    }
}

/// `s` is the operands rendered, joined by `sign` and put in parentheses.
pub open spec fn grouped(
    cs: Seq<Term>,
    typeset: bool,
    number: Printer,
    sign: Seq<char>,
    s: Seq<char>,
) -> bool {
    exists|parts: Seq<Seq<char>>|
        #![trigger group_text(parts, sign)]
        {
            &&& parts.len() == cs.len()
            &&& forall|i: int|
                0 <= i < cs.len() ==> renders_to(cs[i], typeset, number, #[trigger] parts[i])
            &&& s == group_text(parts, sign)
        }
}

/// Renders the operands of a sum or a product.
fn group<F: Fn(u64) -> String>(operands: &Vec<Expr>, sign: &str, typeset: bool, number: &F) -> (r:
    String)
    requires
        printer_total(*number),
    ensures
        grouped(terms(operands@), typeset, printer_of(*number), sign@, r@),
    decreases operands,
{
    let ghost cs = terms(operands@);
    let mut out = String::from_str("(");
    let ghost mut parts: Seq<Seq<char>> = Seq::empty();
    let mut i: usize = 0;
    while i < operands.len()
        invariant
            i <= operands.len(),
            cs == terms(operands@),
            printer_total(*number),
            parts.len() == i,
            forall|j: int|
                0 <= j < i ==> renders_to(cs[j], typeset, printer_of(*number), #[trigger] parts[j]),
            out@ == "("@ + join(parts, sign@),
        decreases operands.len() - i,
    {
        let part = if typeset {
            operands[i].latex(number)
        } else {
            operands[i].string(number)
        };
        if i > 0 {
            out.append(sign);
        }
        out.append(part.as_str());
        proof {
            lemma_join_push(parts, sign@, part@);
            parts = parts.push(part@);
        }
        i += 1;
    }
    out.append(")");
    assert(out@ == group_text(parts, sign@));
    out
}

impl Constant {
    /// The number as text: bare where its sign bit is clear, in
    /// parentheses where it is set.
    fn text<F: Fn(u64) -> String>(&self, number: &F) -> (r: String)
        requires
            printer_total(*number),
        ensures
            renders_to(self@, true, printer_of(*number), r@),
            renders_to(self@, false, printer_of(*number), r@),
    {
        let digits = number(self.0);
        assert(prints(printer_of(*number), self@->Constant_0, digits@));
        if is_sign_positive(self.0) {
            digits
        } else {
            let mut out = String::from_str("(");
            out.append(digits.as_str());
            out.append(")");
            out
        }
    }

    /// The plain rendering.
    pub fn string<F: Fn(u64) -> String>(&self, number: &F) -> (r: String)
        requires
            printer_total(*number),
        ensures
            renders_to(self@, false, printer_of(*number), r@),
    {
        self.text(number)
    }

    /// The typeset rendering.
    pub fn latex<F: Fn(u64) -> String>(&self, number: &F) -> (r: String)
        requires
            printer_total(*number),
        ensures
            renders_to(self@, true, printer_of(*number), r@),
    {
        self.text(number)
    }
}

impl Variable {
    /// The plain rendering: the name.
    pub fn string<F: Fn(u64) -> String>(&self, number: &F) -> (r: String)
        ensures
            r@ == self.0@,
            renders_to(self@, false, printer_of(*number), r@),
    {
        self.0.clone()
    }

    /// The typeset rendering: the name.
    pub fn latex<F: Fn(u64) -> String>(&self, number: &F) -> (r: String)
        ensures
            r@ == self.0@,
            renders_to(self@, true, printer_of(*number), r@),
    {
        self.0.clone()
    }
}

impl Add {
    /// The plain rendering: the operands joined by plus signs, in parentheses.
    pub fn string<F: Fn(u64) -> String>(&self, number: &F) -> (r: String)
        requires
            printer_total(*number),
        ensures
            renders_to(self@, false, printer_of(*number), r@),
        decreases self,
    {
        assert(self@->Add_0 == terms(self.0@) && sum_sign() == " + "@);
        group(&self.0, " + ", false, number)
    }

    /// The typeset rendering: the operands joined by plus signs, in parentheses.
    pub fn latex<F: Fn(u64) -> String>(&self, number: &F) -> (r: String)
        requires
            printer_total(*number),
        ensures
            renders_to(self@, true, printer_of(*number), r@),
        decreases self,
    {
        assert(self@->Add_0 == terms(self.0@) && sum_sign() == " + "@);
        group(&self.0, " + ", true, number)
    }
}

impl Mul {
    /// The plain rendering: the operands joined by multiplication signs,
    /// in parentheses.
    pub fn string<F: Fn(u64) -> String>(&self, number: &F) -> (r: String)
        requires
            printer_total(*number),
        ensures
            renders_to(self@, false, printer_of(*number), r@),
        decreases self,
    {
        assert(self@->Mul_0 == terms(self.0@) && product_sign(false) == " × "@);
        group(&self.0, " × ", false, number)
    }

    /// The typeset rendering: the operands joined by the typeset
    /// multiplication command, in parentheses.
    pub fn latex<F: Fn(u64) -> String>(&self, number: &F) -> (r: String)
        requires
            printer_total(*number),
        ensures
            renders_to(self@, true, printer_of(*number), r@),
        decreases self,
    {
        assert(self@->Mul_0 == terms(self.0@) && product_sign(true) == " \\times "@);
        group(&self.0, " \\times ", true, number)
    }
}

impl Pow {
    /// The plain rendering: base, caret, exponent, in parentheses.
    pub fn string<F: Fn(u64) -> String>(&self, number: &F) -> (r: String)
        requires
            printer_total(*number),
        ensures
            renders_to(self@, false, printer_of(*number), r@),
        decreases self,
    {
        let base = self.0.string(number);
        let exponent = self.1.string(number);
        let mut out = String::from_str("(");
        out.append(base.as_str());
        out.append(" ^ ");
        out.append(exponent.as_str());
        out.append(")");
        assert(out@ == power_text(false, base@, exponent@));
        out
    }

    /// The typeset rendering: base, caret, exponent in braces, the whole
    /// in parentheses.
    pub fn latex<F: Fn(u64) -> String>(&self, number: &F) -> (r: String)
        requires
            printer_total(*number),
        ensures
            renders_to(self@, true, printer_of(*number), r@),
        decreases self,
    {
        let base = self.0.latex(number);
        let exponent = self.1.latex(number);
        let mut out = String::from_str("(");
        out.append(base.as_str());
        out.append("^{");
        out.append(exponent.as_str());
        out.append("})");
        assert(out@ == power_text(true, base@, exponent@));
        out
    }
}

impl Expr {
    /// Renders the expression as plain text, each number printed by
    /// `number`.
    pub fn string<F: Fn(u64) -> String>(&self, number: &F) -> (r: String)
        requires
            printer_total(*number),
        ensures
            renders_to(self@, false, printer_of(*number), r@),
        decreases self,
    {
        match self {
            Expr::Constant(c) => c.string(number),
            Expr::Variable(x) => x.string(number),
            Expr::Add(a) => a.string(number),
            Expr::Mul(m) => m.string(number),
            Expr::Pow(p) => p.string(number),
        }
    }

    /// Renders the expression as typeset text, each number printed by
    /// `number`.
    pub fn latex<F: Fn(u64) -> String>(&self, number: &F) -> (r: String)
        requires
            printer_total(*number),
        ensures
            renders_to(self@, true, printer_of(*number), r@),
        decreases self,
    {
        match self {
            Expr::Constant(c) => c.latex(number),
            Expr::Variable(x) => x.latex(number),
            Expr::Add(a) => a.latex(number),
            Expr::Mul(m) => m.latex(number),
            Expr::Pow(p) => p.latex(number),
        }
    }
}

} // verus!
