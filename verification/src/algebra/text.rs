//! Text as sequences of characters: what a number printer produces and how
//! pieces are put together.

use vstd::prelude::*;

verus! {

/// The printer may be called on every number.
pub open spec fn printer_total<F: Fn(u64) -> String>(number: F) -> bool {
    forall|c: u64| call_requires(number, (c,))
}

/// A number printer, as contracts see it: which texts it may return for
/// which numbers.
pub type Printer = spec_fn(u64, Seq<char>) -> bool;

/// The relation that an executable printer stands for.
pub open spec fn printer_of<F: Fn(u64) -> String>(number: F) -> Printer {
    |c: u64, text: Seq<char>|
        exists|digits: String| #[trigger] call_ensures(number, (c,), digits) && digits@ == text
}

/// `text` is something that the printer may return for `c`.
pub open spec fn prints(number: Printer, c: u64, text: Seq<char>) -> bool {
    number(c, text)
}

/// The pieces in order, with `sep` between neighbours.
pub open spec fn join(parts: Seq<Seq<char>>, sep: Seq<char>) -> Seq<char>
    decreases parts.len(),
{
    if parts.len() == 0 {
        Seq::empty()
    } else if parts.len() == 1 {
        parts[0]
    } else {
        join(parts.drop_last(), sep) + sep + parts.last()
    }
}

/// The pieces in order, with nothing between them.
pub open spec fn concat(parts: Seq<Seq<char>>) -> Seq<char>
    decreases parts.len(),
{
    if parts.len() == 0 {
        Seq::empty()
    } else {
        concat(parts.drop_last()) + parts.last()
    }
}

/// Joining one more piece: the separator comes first unless it is the only piece.
pub proof fn lemma_join_push(parts: Seq<Seq<char>>, sep: Seq<char>, piece: Seq<char>)
    ensures
        join(parts.push(piece), sep) == if parts.len() == 0 {
            piece
        } else {
            join(parts, sep) + sep + piece
        },
{
    assert(parts.push(piece).drop_last() =~= parts);
}

/// Concatenating one more piece appends it.
pub proof fn lemma_concat_push(parts: Seq<Seq<char>>, piece: Seq<char>)
    ensures
        concat(parts.push(piece)) == concat(parts) + piece,
{
    assert(parts.push(piece).drop_last() =~= parts);
}

} // verus!
