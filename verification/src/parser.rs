//! Reading an expression from postfix text.
//!
//! The text is split into words at white space. A word that starts with a
//! digit or a minus sign is a number; `+N` and `*N` gather the last `N`
//! expressions into a sum or a product; a word that starts with `^` raises
//! the last but one expression to the last; any other word is a variable.
//! The number reader is the caller's: it turns the text of a number into
//! its bit pattern, or declines.

use vstd::prelude::*;
use vstd::string::*;
use crate::algebra::ops::{Add, Constant, Expr, Mul, Pow, Term, Variable, term_of, terms};

verus! {

/// Why a text is not an expression.
#[derive(Debug, Clone, Copy, PartialEq, Eq, Structural)]
pub enum ParseError {
    /// The number reader declined a word that starts like a number.
    InvalidNumber,
    /// What follows `+` or `*` is not a count that fits the machine.
    InvalidCount,
    /// A sum or a product of no operands was asked for.
    InvalidExpression,
    /// An operator asked for more operands than have been read.
    MissingOperand,
    /// The text holds no word.
    NoExpression,
}

/// One word of postfix text, read.
#[derive(Debug, PartialEq, Eq)]
pub enum Token {
    Number(u64),
    Name(String),
    Sum(usize),
    Product(usize),
    Power,
}

/// The mathematical value of a token.
pub enum Symbol {
    Number(u64),
    Name(Seq<char>),
    Sum(nat),
    Product(nat),
    Power,
}

impl View for Token {
    type V = Symbol;

    open spec fn view(&self) -> Symbol {
        match self {
            Token::Number(c) => Symbol::Number(*c),
            Token::Name(x) => Symbol::Name(x@),
            Token::Sum(n) => Symbol::Sum(*n as nat),
            Token::Product(n) => Symbol::Product(*n as nat),
            Token::Power => Symbol::Power,
        }
    }
}

/// The views of a list of tokens.
pub open spec fn symbols(tokens: Seq<Token>) -> Seq<Symbol> {
    Seq::new(tokens.len(), |i: int| tokens[i]@)
}

/// The views of a list of strings.
pub open spec fn texts(strings: Seq<String>) -> Seq<Seq<char>> {
    Seq::new(strings.len(), |i: int| strings[i]@)
}

/// The characters with the Unicode property White_Space.
pub open spec fn is_space(c: char) -> bool {
    let n = c as u32;
    ||| 0x09 <= n <= 0x0D
    ||| n == 0x20
    ||| n == 0x85
    ||| n == 0xA0
    ||| n == 0x1680
    ||| 0x2000 <= n <= 0x200A
    ||| n == 0x2028
    ||| n == 0x2029
    ||| n == 0x202F
    ||| n == 0x205F
    ||| n == 0x3000
}

/// The ASCII decimal digits.
pub open spec fn is_digit(c: char) -> bool {
    0x30 <= c as u32 <= 0x39
}

/// The words of a text: its maximal runs of characters that are not white
/// space, in order. Defined by what the last character adds to the words of
/// the text before it.
pub open spec fn words(s: Seq<char>) -> Seq<Seq<char>>
    decreases s.len(),
{
    if s.len() == 0 {
        Seq::empty()
    } else {
        let before = s.drop_last();
        let earlier = words(before);
        if is_space(s.last()) {
            earlier
        } else if before.len() == 0 || is_space(before.last()) {
            earlier.push(seq![s.last()])
        } else {
            earlier.drop_last().push(earlier.last().push(s.last()))
        }
    }
}

/// The number that a run of decimal digits writes.
pub open spec fn decimal(digits: Seq<char>) -> nat
    decreases digits.len(),
{
    if digits.len() == 0 {
        0
    } else {
        decimal(digits.drop_last()) * 10 + (digits.last() as u32 - 0x30) as nat
    }
}

/// A text without its leading plus sign, if it has one.
pub open spec fn unsigned(text: Seq<char>) -> Seq<char> {
    if text.len() > 0 && text[0] == '+' {
        text.skip(1)
    } else {
        text
    }
}

/// Every character is a decimal digit.
pub open spec fn all_digits(digits: Seq<char>) -> bool {
    forall|i: int| 0 <= i < digits.len() ==> is_digit(#[trigger] digits[i])
}

/// The count that a text writes: an optional plus sign, then one or more
/// decimal digits, the whole no larger than the machine's largest index.
pub open spec fn count_of(text: Seq<char>) -> Option<nat> {
    let digits = unsigned(text);
    if digits.len() > 0 && all_digits(digits) && decimal(digits) <= usize::MAX {
        Some(decimal(digits))
    } else {
        None
    }
}

/// The number reader may be called on every text.
pub open spec fn reader_total<F: Fn(&str) -> Option<u64>>(number: F) -> bool {
    forall|text: &str| call_requires(number, (text,))
}

/// A number reader, as contracts see it: what it may return for which
/// words.
pub type Reader = spec_fn(Seq<char>, Option<u64>) -> bool;

/// The relation that an executable number reader stands for.
pub open spec fn reader_of<F: Fn(&str) -> Option<u64>>(number: F) -> Reader {
    |word: Seq<char>, r: Option<u64>|
        exists|text: &str| #[trigger] call_ensures(number, (text,), r) && text@ == word
}

/// `r` is something that the number reader may return for a word.
pub open spec fn reads(number: Reader, word: Seq<char>, r: Option<u64>) -> bool {
    number(word, r)
}

/// `r` is a reading of one word. The first character decides the kind.
pub open spec fn lexes(word: Seq<char>, number: Reader, r: Result<Symbol, ParseError>) -> bool
    recommends
        word.len() > 0,
{
    let c = word[0];
    if is_digit(c) || c == '-' {
        match r {
            Ok(Symbol::Number(v)) => reads(number, word, Some(v)),
            Err(ParseError::InvalidNumber) => reads(number, word, None),
            _ => false,
        }
    } else if c == '+' {
        r == match count_of(word.skip(1)) {
            Some(n) => Ok::<Symbol, ParseError>(Symbol::Sum(n)),
            None => Err(ParseError::InvalidCount),
        }
    } else if c == '*' {
        r == match count_of(word.skip(1)) {
            Some(n) => Ok::<Symbol, ParseError>(Symbol::Product(n)),
            None => Err(ParseError::InvalidCount),
        }
    } else if c == '^' {
        r == Ok::<Symbol, ParseError>(Symbol::Power)
    } else {
        r == Ok::<Symbol, ParseError>(Symbol::Name(word))
    }
}

/// `r` is a reading of the words in order: every word read, or the error
/// of the first word that was not.
pub open spec fn tokenized(
    words: Seq<Seq<char>>,
    number: Reader,
    r: Result<Seq<Symbol>, ParseError>,
) -> bool {
    match r {
        Ok(read) => read.len() == words.len() && forall|i: int|
            0 <= i < read.len() ==> lexes(words[i], number, Ok(#[trigger] read[i])),
        Err(e) => exists|read: Seq<Symbol>|
            #![trigger read.len()]
            {
                &&& read.len() < words.len()
                &&& forall|i: int|
                    0 <= i < read.len() ==> lexes(words[i], number, Ok(#[trigger] read[i]))
                &&& lexes(words[read.len() as int], number, Err(e))
            },
    }
}

/// The stack after an operator has gathered its last `n` entries.
pub open spec fn gather(stack: Seq<Term>, n: nat, sum: bool) -> Result<Seq<Term>, ParseError> {
    if n == 0 {
        Err(ParseError::InvalidExpression)
    } else if n > stack.len() {
        Err(ParseError::MissingOperand)
    } else {
        let operands = stack.skip(stack.len() - n);
        let node = if sum {
            Term::Add(operands)
        } else {
            Term::Mul(operands)
        };
        Ok(stack.take(stack.len() - n).push(node))
    }
}

/// The stack after one symbol.
pub open spec fn step(stack: Seq<Term>, symbol: Symbol) -> Result<Seq<Term>, ParseError> {
    match symbol {
        Symbol::Number(c) => Ok(stack.push(Term::Constant(c))),
        Symbol::Name(x) => Ok(stack.push(Term::Variable(x))),
        Symbol::Sum(n) => gather(stack, n, true),
        Symbol::Product(n) => gather(stack, n, false),
        Symbol::Power => if stack.len() < 2 {
            Err(ParseError::MissingOperand)
        } else {
            Ok(
                stack.take(stack.len() - 2).push(
                    Term::Pow(
                        Box::new(stack[stack.len() - 2]),
                        Box::new(stack[stack.len() - 1]),
                    ),
                ),
            )
        },
    }
}

/// The stack after the first `n` symbols, starting from the empty stack.
pub open spec fn run(symbols: Seq<Symbol>, n: nat) -> Result<Seq<Term>, ParseError>
    decreases n,
{
    if n == 0 {
        Ok(Seq::empty())
    } else {
        match run(symbols, (n - 1) as nat) {
            Ok(stack) => step(stack, symbols[n - 1]),
            Err(e) => Err(e),
        }
    }
}

/// The expression that a list of symbols builds: the bottom of the stack
/// after all of them.
pub open spec fn built(symbols: Seq<Symbol>) -> Result<Term, ParseError> {
    match run(symbols, symbols.len()) {
        Ok(stack) => if stack.len() == 0 {
            Err(ParseError::NoExpression)
        } else {
            Ok(stack[0])
        },
        Err(e) => Err(e),
    }
}

/// `r` is a reading of the text: its words read in order, and the
/// expression built from them.
pub open spec fn parsed(text: Seq<char>, number: Reader, r: Result<Term, ParseError>) -> bool {
    exists|read: Result<Seq<Symbol>, ParseError>|
        #![trigger tokenized(words(text), number, read)]
        tokenized(words(text), number, read) && r == match read {
            Ok(symbols) => built(symbols),
            Err(e) => Err(e),
        }
}

/// The view of a tokenizing result.
pub open spec fn symbols_of(r: Result<Vec<Token>, ParseError>) -> Result<Seq<Symbol>, ParseError> {
    match r {
        Ok(tokens) => Ok(symbols(tokens@)),
        Err(e) => Err(e),
    }
}

/// The view of a parsing result.
pub open spec fn term_result(r: Result<Expr, ParseError>) -> Result<Term, ParseError> {
    match r {
        Ok(e) => Ok(e@),
        Err(e) => Err(e),
    }
}

/// No word is empty and no word holds white space; a text that ends in
/// anything but white space has a last word.
pub proof fn lemma_words_hold_no_space(s: Seq<char>)
    ensures
        forall|i: int| 0 <= i < words(s).len() ==> (#[trigger] words(s)[i]).len() > 0,
        forall|i: int, j: int|
            0 <= i < words(s).len() && 0 <= j < words(s)[i].len() ==> !is_space(
                #[trigger] words(s)[i][j],
            ),
        s.len() > 0 && !is_space(s.last()) ==> words(s).len() > 0,
    decreases s.len(),
{
    if s.len() > 0 {
        let before = s.drop_last();
        let earlier = words(before);
        let c = s.last();
        let now = words(s);
        lemma_words_hold_no_space(before);
        if !is_space(c) {
            // Every word is an earlier word, or the last character alone,
            // or the last earlier word with the last character appended.
            assert forall|i: int| 0 <= i < now.len() implies (#[trigger] now[i]).len() > 0
                && forall|j: int| 0 <= j < now[i].len() ==> !is_space(#[trigger] now[i][j]) by {
                if i == now.len() - 1 && before.len() > 0 && !is_space(before.last()) {
                    assert(now[i] == earlier.last().push(c));
                }
            }
        }
    }
}

/// The number reader reads each word in one way only.
pub open spec fn reader_deterministic(number: Reader) -> bool {
    forall|word: Seq<char>, r1: Option<u64>, r2: Option<u64>|
        #![trigger reads(number, word, r1), reads(number, word, r2)]
        reads(number, word, r1) && reads(number, word, r2) ==> r1 == r2
}

/// With such a reader a word has at most one reading.
pub proof fn lemma_lexes_unique(
    word: Seq<char>,
    number: Reader,
    r1: Result<Symbol, ParseError>,
    r2: Result<Symbol, ParseError>,
)
    requires
        reader_deterministic(number),
        lexes(word, number, r1),
        lexes(word, number, r2),
    ensures
        r1 == r2,
{
    if is_digit(word[0]) || word[0] == '-' {
        let o1 = match r1 {
            Ok(Symbol::Number(v)) => Some(v),
            _ => None,
        };
        let o2 = match r2 {
            Ok(Symbol::Number(v)) => Some(v),
            _ => None,
        };
        assert(reads(number, word, o1) && reads(number, word, o2));
    }
}

/// With such a reader a list of words has at most one reading.
pub proof fn lemma_tokenized_unique(
    words: Seq<Seq<char>>,
    number: Reader,
    r1: Result<Seq<Symbol>, ParseError>,
    r2: Result<Seq<Symbol>, ParseError>,
)
    requires
        reader_deterministic(number),
        tokenized(words, number, r1),
        tokenized(words, number, r2),
    ensures
        r1 == r2,
{
    // What was read of the words before the first failure, or of all words.
    let read1 = match r1 {
        Ok(read) => read,
        Err(e) => choose|read: Seq<Symbol>|
            #![trigger read.len()]
            {
                &&& read.len() < words.len()
                &&& forall|i: int|
                    0 <= i < read.len() ==> lexes(words[i], number, Ok(#[trigger] read[i]))
                &&& lexes(words[read.len() as int], number, Err(e))
            },
    };
    let read2 = match r2 {
        Ok(read) => read,
        Err(e) => choose|read: Seq<Symbol>|
            #![trigger read.len()]
            {
                &&& read.len() < words.len()
                &&& forall|i: int|
                    0 <= i < read.len() ==> lexes(words[i], number, Ok(#[trigger] read[i]))
                &&& lexes(words[read.len() as int], number, Err(e))
            },
    };
    let k1 = read1.len() as int;
    let k2 = read2.len() as int;
    if k1 < k2 {
        // The first reading fails at a word that the second reading read.
        lemma_lexes_unique(words[k1], number, Err(r1->Err_0), Ok(read2[k1]));
    } else if k2 < k1 {
        lemma_lexes_unique(words[k2], number, Ok(read1[k2]), Err(r2->Err_0));
    } else {
        assert forall|i: int| 0 <= i < k1 implies read1[i] == read2[i] by {
            lemma_lexes_unique(words[i], number, Ok(read1[i]), Ok(read2[i]));
        }
        assert(read1 =~= read2);
        if r1 is Err {
            lemma_lexes_unique(words[k1], number, Err(r1->Err_0), Err(r2->Err_0));
        }
    }
}

/// With such a reader a text has at most one reading.
pub proof fn lemma_parsed_unique(
    text: Seq<char>,
    number: Reader,
    r1: Result<Term, ParseError>,
    r2: Result<Term, ParseError>,
)
    requires
        reader_deterministic(number),
        parsed(text, number, r1),
        parsed(text, number, r2),
    ensures
        r1 == r2,
{
    let read1 = choose|read: Result<Seq<Symbol>, ParseError>|
        #![trigger tokenized(words(text), number, read)]
        tokenized(words(text), number, read) && r1 == match read {
            Ok(symbols) => built(symbols),
            Err(e) => Err(e),
        };
    let read2 = choose|read: Result<Seq<Symbol>, ParseError>|
        #![trigger tokenized(words(text), number, read)]
        tokenized(words(text), number, read) && r2 == match read {
            Ok(symbols) => built(symbols),
            Err(e) => Err(e),
        };
    lemma_tokenized_unique(words(text), number, read1, read2);
}

/// Whether a character is white space.
pub fn is_whitespace(c: char) -> (r: bool)
    ensures
        r == is_space(c),
{
    let n: u32 = c as u32;
    (0x09 <= n && n <= 0x0D) || n == 0x20 || n == 0x85 || n == 0xA0 || n == 0x1680 || (0x2000 <= n
        && n <= 0x200A) || n == 0x2028 || n == 0x2029 || n == 0x202F || n == 0x205F || n == 0x3000
}

/// Splits a text into its words. Each character is decoded from the start
/// of the text, so the time taken grows with the square of its length.
pub fn split_words(input: &str) -> (r: Vec<String>)
    ensures
        texts(r@) == words(input@),
        forall|i: int| 0 <= i < r.len() ==> r[i]@.len() > 0,
{
    let n = input.unicode_len();
    let mut out: Vec<String> = Vec::new();
    let mut start: usize = 0;
    let mut inside = false;
    let mut i: usize = 0;
    while i < n
        invariant
            i <= n,
            n == input@.len(),
            forall|j: int| 0 <= j < out.len() ==> out[j]@.len() > 0,
            inside ==> start < i && !is_space(input@[i - 1]) && words(input@.take(i as int))
                == texts(out@).push(input@.subrange(start as int, i as int)),
            !inside ==> (i == 0 || is_space(input@[i - 1])) && words(input@.take(i as int))
                == texts(out@),
        decreases n - i,
    {
        let c = input.get_char(i);
        assert(input@.take(i + 1).drop_last() =~= input@.take(i as int));
        if is_whitespace(c) {
            if inside {
                let word = String::from_str(input.substring_char(start, i));
                out.push(word);
                inside = false;
            }
        } else if !inside {
            assert(input@.subrange(i as int, i + 1) =~= seq![c]);
            start = i;
            inside = true;
        } else {
            let ghost whole = texts(out@).push(input@.subrange(start as int, i as int));
            assert(whole.last().push(c) =~= input@.subrange(start as int, i + 1));
        }
        i += 1;
    }
    assert(input@.take(n as int) =~= input@);
    if inside {
        let word = String::from_str(input.substring_char(start, n));
        out.push(word);
    }
    out
}

/// A number written in decimal grows with every digit appended.
proof fn lemma_decimal_grows(digits: Seq<char>, k: int)
    requires
        0 <= k <= digits.len(),
    ensures
        decimal(digits.take(k)) <= decimal(digits),
    decreases digits.len() - k,
{
    if k < digits.len() {
        lemma_decimal_grows(digits, k + 1);
        assert(digits.take(k + 1).drop_last() =~= digits.take(k));
    } else {
        assert(digits.take(k) =~= digits);
    }
}

/// Reads a count: an optional plus sign and decimal digits.
pub fn count(text: &str) -> (r: Option<usize>)
    ensures
        match r {
            Some(n) => count_of(text@) == Some(n as nat),
            None => count_of(text@) is None,
        },
{
    let n = text.unicode_len();
    let mut first: usize = 0;
    if n > 0 && text.get_char(0) == '+' {
        first = 1;
    }
    if first == n {
        return None;
    }
    let ghost digits = unsigned(text@);
    let mut acc: usize = 0;
    let mut i: usize = first;
    while i < n
        invariant
            first <= i <= n,
            n == text@.len(),
            digits == text@.skip(first as int),
            digits == unsigned(text@),
            forall|j: int| 0 <= j < i - first ==> is_digit(#[trigger] digits[j]),
            decimal(digits.take(i - first)) == acc,
        decreases n - i,
    {
        let c = text.get_char(i);
        let code: u32 = c as u32;
        if code < 0x30 || code > 0x39 {
            assert(!is_digit(digits[i - first]));
            return None;
        }
        let digit: usize = (code - 0x30) as usize;
        proof {
            assert(digits.take(i - first + 1).drop_last() =~= digits.take(i - first));
            lemma_decimal_grows(digits, i - first + 1);
        }
        match acc.checked_mul(10) {
            None => {
                return None;
            },
            Some(tens) => match tens.checked_add(digit) {
                None => {
                    return None;
                },
                Some(next) => {
                    acc = next;
                },
            },
        }
        i += 1;
    }
    assert(digits.take(n - first) =~= digits);
    Some(acc)
}

/// Reads one word.
pub fn lex<F: Fn(&str) -> Option<u64>>(word: &str, number: &F) -> (r: Result<Token, ParseError>)
    requires
        reader_total(*number),
        word@.len() > 0,
    ensures
        lexes(
            word@,
            reader_of(*number),
            match r {
                Ok(token) => Ok(token@),
                Err(e) => Err(e),
            },
        ),
{
    let c = word.get_char(0);
    let code: u32 = c as u32;
    if (0x30 <= code && code <= 0x39) || c == '-' {
        match number(word) {
            Some(v) => Ok(Token::Number(v)),
            None => Err(ParseError::InvalidNumber),
        }
    } else if c == '+' {
        let rest = word.substring_char(1, word.unicode_len());
        match count(rest) {
            Some(n) => Ok(Token::Sum(n)),
            None => Err(ParseError::InvalidCount),
        }
    } else if c == '*' {
        let rest = word.substring_char(1, word.unicode_len());
        match count(rest) {
            Some(n) => Ok(Token::Product(n)),
            None => Err(ParseError::InvalidCount),
        }
    } else if c == '^' {
        Ok(Token::Power)
    } else {
        Ok(Token::Name(String::from_str(word)))
    }
}

/// Reads the words of a text in order and stops at the first word that
/// cannot be read.
pub fn tokenize<F: Fn(&str) -> Option<u64>>(input: &str, number: &F) -> (r: Result<
    Vec<Token>,
    ParseError,
>)
    requires
        reader_total(*number),
    ensures
        tokenized(words(input@), reader_of(*number), symbols_of(r)),
{
    let pieces = split_words(input);
    let mut out: Vec<Token> = Vec::new();
    let mut i: usize = 0;
    while i < pieces.len()
        invariant
            i <= pieces.len(),
            reader_total(*number),
            texts(pieces@) == words(input@),
            forall|j: int| 0 <= j < pieces.len() ==> pieces[j]@.len() > 0,
            out.len() == i,
            forall|j: int|
                0 <= j < i ==> lexes(
                    texts(pieces@)[j],
                    reader_of(*number),
                    Ok(#[trigger] symbols(out@)[j]),
                ),
        decreases pieces.len() - i,
    {
        match lex(pieces[i].as_str(), number) {
            Ok(token) => {
                assert(symbols(out@.push(token)) =~= symbols(out@).push(token@));
                out.push(token);
            },
            Err(e) => {
                assert(lexes(
                    texts(pieces@)[symbols(out@).len() as int],
                    reader_of(*number),
                    Err(e),
                ));
                return Err(e);
            },
        }
        i += 1;
    }
    Ok(out)
}

/// Once a symbol has failed, the symbols after it change nothing.
proof fn lemma_run_error_stays(symbols: Seq<Symbol>, k: nat, n: nat)
    requires
        k <= n,
        run(symbols, k) is Err,
    ensures
        run(symbols, n) == run(symbols, k),
    decreases n,
{
    if k < n {
        lemma_run_error_stays(symbols, k, (n - 1) as nat);
    }
}

/// Gathers the last `n` entries of the stack into a sum or a product.
fn gather_operands(stack: &mut Vec<Expr>, n: usize, sum: bool) -> (r: Result<(), ParseError>)
    ensures
        match r {
            Ok(_) => gather(terms(old(stack)@), n as nat, sum) == Ok::<Seq<Term>, ParseError>(
                terms(final(stack)@),
            ),
            Err(e) => gather(terms(old(stack)@), n as nat, sum) == Err::<Seq<Term>, ParseError>(e),
        },
{
    if n == 0 {
        return Err(ParseError::InvalidExpression);
    }
    if n > stack.len() {
        return Err(ParseError::MissingOperand);
    }
    let ghost before = stack@;
    let at = stack.len() - n;
    let operands = stack.split_off(at);
    assert(terms(operands@) =~= terms(before).skip(at as int));
    let node = if sum {
        Expr::Add(Add(operands))
    } else {
        Expr::Mul(Mul(operands))
    };
    stack.push(node);
    assert(terms(stack@) =~= terms(before).take(at as int).push(term_of(node)));
    Ok(())
}

/// Builds the expression that a list of tokens writes in postfix order.
pub fn build(tokens: &Vec<Token>) -> (r: Result<Expr, ParseError>)
    ensures
        term_result(r) == built(symbols(tokens@)),
{
    let mut stack: Vec<Expr> = Vec::new();
    let mut i: usize = 0;
    assert(terms(stack@) =~= Seq::empty());
    while i < tokens.len()
        invariant
            i <= tokens.len(),
            run(symbols(tokens@), i as nat) == Ok::<Seq<Term>, ParseError>(terms(stack@)),
        decreases tokens.len() - i,
    {
        let ghost before = stack@;
        let ghost all = symbols(tokens@);
        let outcome = match &tokens[i] {
            Token::Number(c) => {
                stack.push(Expr::Constant(Constant(*c)));
                assert(terms(stack@) =~= terms(before).push(Term::Constant(*c)));
                Ok(())
            },
            Token::Name(x) => {
                stack.push(Expr::Variable(Variable(x.clone())));
                assert(terms(stack@) =~= terms(before).push(Term::Variable(x@)));
                Ok(())
            },
            Token::Sum(n) => gather_operands(&mut stack, *n, true),
            Token::Product(n) => gather_operands(&mut stack, *n, false),
            Token::Power => {
                if stack.len() < 2 {
                    Err(ParseError::MissingOperand)
                } else {
                    let exponent = stack.pop().unwrap();
                    let base = stack.pop().unwrap();
                    stack.push(Expr::Pow(Pow(Box::new(base), Box::new(exponent))));
                    assert(terms(stack@) =~= terms(before).take(before.len() - 2).push(
                        Term::Pow(
                            Box::new(terms(before)[before.len() - 2]),
                            Box::new(terms(before)[before.len() - 1]),
                        ),
                    ));
                    Ok(())
                }
            },
        };
        match outcome {
            Ok(_) => {},
            Err(e) => {
                proof {
                    lemma_run_error_stays(all, (i + 1) as nat, all.len());
                }
                return Err(e);
            },
        }
        i += 1;
    }
    if stack.len() == 0 {
        Err(ParseError::NoExpression)
    } else {
        Ok(stack[0].clone_dyn())
    }
}

/// Reads an expression from postfix text.
pub fn parse<F: Fn(&str) -> Option<u64>>(input: &str, number: &F) -> (r: Result<Expr, ParseError>)
    requires
        reader_total(*number),
    ensures
        parsed(input@, reader_of(*number), term_result(r)),
{
    let read = tokenize(input, number);
    assert(tokenized(words(input@), reader_of(*number), symbols_of(read)));
    match read {
        Ok(tokens) => build(&tokens),
        Err(e) => Err(e),
    }
}

} // verus!
