//! The coefficient table: a finite map from monomial signatures to
//! coefficients.
//!
//! A signature is an ordered list of (variable, exponent) pairs. Exponents
//! are compared by their bit patterns, so two exponents that are numerically
//! equal but encoded differently make two signatures. The empty signature
//! stands for the constant term.

use vstd::prelude::*;
use vstd::string::*;
use crate::algebra::assoc::{
    table, lookup, distinct_keys, lemma_table_last_match, lemma_table_no_match, lemma_table_push,
    lemma_table_update,
};
use crate::algebra::text::{
    concat, join, lemma_concat_push, lemma_join_push, printer_of, printer_total, prints, Printer,
};

verus! {

/// A value that is compared and hashed by its raw bits.
#[derive(Debug, Clone, Copy, PartialEq, Eq, Hash)]
pub struct RawHash<T>(pub T);

/// One factor of a monomial: a variable and the bit pattern of its exponent.
#[derive(Debug, PartialEq, Eq, Hash)]
pub struct VariableOrder {
    pub variable: String,
    pub order: RawHash<u64>,
}

impl Clone for VariableOrder {
    fn clone(&self) -> (r: Self)
        ensures
            r.variable@ == self.variable@,
            r.order == self.order,
    {
        VariableOrder { variable: self.variable.clone(), order: RawHash(self.order.0) }
    }
}

/// A monomial signature as the table's contracts see it.
pub type Signature = Seq<(Seq<char>, u64)>;

/// The signature that a list of factors stands for.
pub open spec fn signature(key: Seq<VariableOrder>) -> Signature {
    Seq::new(key.len(), |i: int| (key[i].variable@, key[i].order.0))
}

/// A finite map from signatures to coefficients. No signature is stored twice.
pub struct Coefficients(Vec<(Vec<VariableOrder>, u64)>);

impl View for Coefficients {
    type V = Map<Signature, u64>;

    closed spec fn view(&self) -> Map<Signature, u64> {
        table(self.entries())
    }
}

/// `text` is a factor as it is printed: the variable, a caret, the exponent.
pub open spec fn factor_text(factor: (Seq<char>, u64), number: Printer, text: Seq<char>) -> bool {
    exists|digits: Seq<char>|
        #![trigger prints(number, factor.1, digits)]
        prints(number, factor.1, digits) && text == factor.0 + "^"@ + digits
}

/// `line` is an entry as it is printed: the coefficient, then in parentheses
/// the factors of the signature joined by plus signs, then a line feed.
pub open spec fn entry_text(entry: (Signature, u64), number: Printer, line: Seq<char>) -> bool {
    exists|head: Seq<char>, factors: Seq<Seq<char>>|
        #![trigger prints(number, entry.1, head), factors.len()]
        {
            &&& prints(number, entry.1, head)
            &&& factors.len() == entry.0.len()
            &&& forall|k: int|
                0 <= k < factors.len() ==> factor_text(entry.0[k], number, #[trigger] factors[k])
            &&& line == head + "("@ + join(factors, " + "@) + ")\n"@
        }
}

/// `text` is the entries as they are printed, one line each, in order.
pub open spec fn table_text(
    entries: Seq<(Signature, u64)>,
    number: Printer,
    text: Seq<char>,
) -> bool {
    exists|lines: Seq<Seq<char>>|
        #![trigger lines.len()]
        {
            &&& lines.len() == entries.len()
            &&& forall|i: int|
                0 <= i < lines.len() ==> entry_text(entries[i], number, #[trigger] lines[i])
            &&& text == concat(lines)
        }
}

/// Whether two lists of factors stand for the same signature.
pub fn same_signature(a: &Vec<VariableOrder>, b: &Vec<VariableOrder>) -> (r: bool)
    ensures
        r == (signature(a@) == signature(b@)),
{
    if a.len() != b.len() {
        assert(signature(a@).len() != signature(b@).len());
        return false;
    }
    let mut i: usize = 0;
    while i < a.len()
        invariant
            i <= a.len(),
            a.len() == b.len(),
            forall|j: int| 0 <= j < i ==> signature(a@)[j] == signature(b@)[j],
        decreases a.len() - i,
    {
        if !(a[i].variable == b[i].variable) || a[i].order.0 != b[i].order.0 {
            assert(signature(a@)[i as int] != signature(b@)[i as int]);
            return false;
        }
        i += 1;
    }
    assert(signature(a@) =~= signature(b@));
    true
}

impl Coefficients {
    /// The stored entries in storage order, each key taken by its signature.
    pub closed spec fn entries(&self) -> Seq<(Signature, u64)> {
        Seq::new(self.0@.len(), |i: int| (signature(self.0@[i].0@), self.0@[i].1))
    }

    /// The table's invariant: no signature is stored twice.
    pub open spec fn wf(&self) -> bool {
        distinct_keys(self.entries())
    }

    /// The empty table.
    pub fn new() -> (r: Self)
        ensures
            r.wf(),
            r.entries() == Seq::<(Signature, u64)>::empty(),
            r@ == Map::<Signature, u64>::empty(),
    {
        Coefficients(Vec::new())
    }

    /// Where a signature is stored, if it is.
    fn position(&self, key: &Vec<VariableOrder>) -> (r: Option<usize>)
        ensures
            match r {
                Some(k) => k < self.entries().len() && self.entries()[k as int].0 == signature(
                    key@,
                ) && forall|j: int|
                    k < j < self.entries().len() ==> self.entries()[j].0 != signature(key@),
                None => forall|j: int|
                    0 <= j < self.entries().len() ==> self.entries()[j].0 != signature(key@),
            },
    {
        let mut i: usize = self.0.len();
        while i > 0
            invariant
                i <= self.0.len(),
                self.entries().len() == self.0.len(),
                forall|j: int| i <= j < self.0.len() ==> self.entries()[j].0 != signature(key@),
            decreases i,
        {
            i -= 1;
            if same_signature(&self.0[i].0, key) {
                return Some(i);
            }
        }
        None
    }

    /// The coefficient stored under a signature, if there is one.
    pub fn get(&self, key: &Vec<VariableOrder>) -> (r: Option<u64>)
        ensures
            r == lookup(self@, signature(key@)),
    {
        match self.position(key) {
            Some(k) => {
                proof {
                    lemma_table_last_match(self.entries(), k as int, signature(key@));
                }
                Some(self.0[k].1)
            },
            None => {
                proof {
                    lemma_table_no_match(self.entries(), signature(key@));
                }
                None
            },
        }
    }

    /// Stores `value` under the signature of `key`, in place of what was
    /// stored under it before, and returns the earlier coefficient.
    pub fn insert(&mut self, key: Vec<VariableOrder>, value: u64) -> (r: Option<u64>)
        requires
            old(self).wf(),
        ensures
            final(self).wf(),
            final(self)@ == old(self)@.insert(signature(key@), value),
            r == lookup(old(self)@, signature(key@)),
            r is None ==> final(self).entries() == old(self).entries().push(
                (signature(key@), value),
            ),
            r is Some ==> final(self).entries().len() == old(self).entries().len(),
    {
        let ghost sig = signature(key@);
        let ghost before = self.entries();
        match self.position(&key) {
            Some(k) => {
                let earlier = self.0[k].1;
                proof {
                    lemma_table_last_match(before, k as int, sig);
                    lemma_table_update(before, k as int, sig, value);
                }
                self.0.set(k, (key, value));
                assert(self.entries() =~= before.update(k as int, (sig, value)));
                Some(earlier)
            },
            None => {
                proof {
                    lemma_table_no_match(before, sig);
                    lemma_table_push(before, sig, value);
                }
                self.0.push((key, value));
                assert(self.entries() =~= before.push((sig, value)));
                None
            },
        }
    }

    /// The table as text: one line for each entry, in storage order.
    pub fn fmt<F: Fn(u64) -> String>(&self, number: &F) -> (r: String)
        requires
            printer_total(*number),
        ensures
            table_text(self.entries(), printer_of(*number), r@),
    {
        let mut out = String::new();
        let ghost mut lines: Seq<Seq<char>> = Seq::empty();
        let mut i: usize = 0;
        while i < self.0.len()
            invariant
                i <= self.0.len(),
                printer_total(*number),
                self.entries().len() == self.0.len(),
                lines.len() == i,
                forall|j: int|
                    0 <= j < i ==> entry_text(
                        self.entries()[j],
                        printer_of(*number),
                        #[trigger] lines[j],
                    ),
                out@ == concat(lines),
            decreases self.0.len() - i,
        {
            let line = Self::line(&self.0[i].0, self.0[i].1, number);
            proof {
                lemma_concat_push(lines, line@);
                lines = lines.push(line@);
            }
            out.append(line.as_str());
            i += 1;
        }
        out
    }

    /// One entry as text.
    fn line<F: Fn(u64) -> String>(key: &Vec<VariableOrder>, value: u64, number: &F) -> (r: String)
        requires
            printer_total(*number),
        ensures
            entry_text((signature(key@), value), printer_of(*number), r@),
    {
        let mut out = number(value);
        let ghost head = out@;
        out.append("(");
        let ghost mut factors: Seq<Seq<char>> = Seq::empty();
        let mut k: usize = 0;
        while k < key.len()
            invariant
                k <= key.len(),
                printer_total(*number),
                prints(printer_of(*number), value, head),
                factors.len() == k,
                forall|j: int|
                    0 <= j < k ==> factor_text(
                        signature(key@)[j],
                        printer_of(*number),
                        #[trigger] factors[j],
                    ),
                out@ == head + "("@ + join(factors, " + "@),
            decreases key.len() - k,
        {
            if k > 0 {
                out.append(" + ");
            }
            out.append(key[k].variable.as_str());
            out.append("^");
            let digits = number(key[k].order.0);
            out.append(digits.as_str());
            proof {
                let factor = signature(key@)[k as int];
                let piece = factor.0 + "^"@ + digits@;
                assert(prints(printer_of(*number), factor.1, digits@));
                lemma_join_push(factors, " + "@, piece);
                factors = factors.push(piece);
            }
            k += 1;
        }
        out.append(")\n");
        assert(prints(printer_of(*number), (signature(key@), value).1, head));
        out
    }
}

} // verus!
