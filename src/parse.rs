//! The infix parser: text to [`Function`].
use vstd::prelude::*;

use crate::function::{BinaryOp, Function, Term, UnaryOp};
use crate::param::{is_param_name, param_name_check};
use crate::parse_laws::lemma_parse_readable;
use crate::text::{
    bracket_balance, depth, encloses, encloses_check, find_first_top, find_last_top, first_top,
    float_literal_check, has_op, has_op_check, is_float_literal, last_top, lemma_first_top_range,
    lemma_last_top_range, never_negative, normalize, normalize_text, spells_two,
    spells_two_check,
};

verus! {

/// Why a text is not a formula.
#[derive(Debug, Clone, Copy, PartialEq, Eq, Structural)]
pub enum ParseError {
    /// Opening and closing brackets differ in number.
    UnbalancedBrackets,
    /// A closing bracket comes before its opening one.
    BracketOrderViolation,
    /// A text without operators or brackets that is no literal.
    UnrecognizedLiteral,
    /// A text that no rule of the grammar reads.
    UnrecognizedExpression,
}

impl ParseError {
    /// A sentence that says what went wrong.
    pub fn message(&self) -> (r: String)
        ensures
            r@ == match self {
                ParseError::UnbalancedBrackets =>
                    "Bad brackets sequence: opening and closing brackets count doesn't match."@,
                ParseError::BracketOrderViolation =>
                    "Bad brackets sequence: closing bracket found before opening one."@,
                ParseError::UnrecognizedLiteral => "Unable to parse literal."@,
                ParseError::UnrecognizedExpression => "Unable to parse."@,
            },
    {
        match self {
            ParseError::UnbalancedBrackets => String::from_str(
                "Bad brackets sequence: opening and closing brackets count doesn't match.",
            ),
            ParseError::BracketOrderViolation => String::from_str(
                "Bad brackets sequence: closing bracket found before opening one.",
            ),
            ParseError::UnrecognizedLiteral => String::from_str("Unable to parse literal."),
            ParseError::UnrecognizedExpression => String::from_str("Unable to parse."),
        }
    }
}

/// Relies on `String::push` of the standard library: it appends the
/// character to the string.
pub assume_specification[ String::push ](s: &mut String, ch: char)
    ensures
        final(s)@ == old(s)@.push(ch),
;

/// The node of kind `op` over a parsed operand.
pub open spec fn lift1(op: UnaryOp, r: Result<Term, ParseError>) -> Result<Term, ParseError> {
    match r {
        Ok(v) => Ok(Term::unary(op, v)),
        Err(e) => Err(e),
    }
}

/// The node of kind `op` over two parsed operands; the left error first.
pub open spec fn lift2(op: BinaryOp, l: Result<Term, ParseError>, r: Result<Term, ParseError>) -> Result<Term, ParseError> {
    match l {
        Err(e) => Err(e),
        Ok(a) => match r {
            Err(e) => Err(e),
            Ok(b) => Ok(Term::binary(op, a, b)),
        },
    }
}

/// A power, read as a square where the exponent is the literal two.
pub open spec fn lift_pow(l: Result<Term, ParseError>, r: Result<Term, ParseError>) -> Result<Term, ParseError> {
    match l {
        Err(e) => Err(e),
        Ok(a) => match r {
            Err(e) => Err(e),
            Ok(b) => if b is Const && spells_two(b->Const_0) {
                Ok(Term::Sq(Box::new(a)))
            } else {
                Ok(Term::Pow(Box::new(a), Box::new(b)))
            },
        },
    }
}

/// A text without operators or brackets.
pub open spec fn parse_literal(s: Seq<char>) -> Result<Term, ParseError> {
    if s == seq!['x'] {
        Ok(Term::X)
    } else if s.len() == 1 && is_param_name(s[0]) {
        Ok(Term::Param(s[0]))
    } else if s == seq!['0'] {
        Ok(Term::Zero)
    } else if s == seq!['1'] {
        Ok(Term::One)
    } else if is_float_literal(s) {
        Ok(Term::Const(s))
    } else {
        Err(ParseError::UnrecognizedLiteral)
    }
}

/// `s` is the call of the function named by `w` (which ends in `(`).
pub open spec fn is_call(s: Seq<char>, w: Seq<char>) -> bool {
    s.len() > w.len() && s.take(w.len() as int) == w && s.last() == ')'
}

pub open spec fn word_exp() -> Seq<char> {
    seq!['e', 'x', 'p', '(']
}

pub open spec fn word_ln() -> Seq<char> {
    seq!['l', 'n', '(']
}

pub open spec fn word_sqrt() -> Seq<char> {
    seq!['s', 'q', 'r', 't', '(']
}

pub open spec fn word_sin() -> Seq<char> {
    seq!['s', 'i', 'n', '(']
}

pub open spec fn word_cos() -> Seq<char> {
    seq!['c', 'o', 's', '(']
}

pub open spec fn word_tan() -> Seq<char> {
    seq!['t', 'a', 'n', '(']
}

/// `s` ends in `^2`.
pub open spec fn ends_squared(s: Seq<char>) -> bool {
    s.len() >= 2 && s[s.len() - 2] == '^' && s[s.len() - 1] == '2'
}

/// What the parser makes of a text with spaces dropped and brackets made
/// round.
///
/// One bracket pair around the whole is dropped. A text without operators
/// or brackets is a literal. Otherwise the brackets must balance, and the
/// text splits at the first top-level `+`, else at the last top-level `-`
/// past the first character, else a leading `-` negates the rest, else it
/// splits at the first top-level `*`, then `/`, then `^`. What is left is
/// a call of a named function, or a text ending in `^2`.
pub open spec fn parse_term(s: Seq<char>) -> Result<Term, ParseError>
    decreases s.len(), 2nat,
{
    if encloses(s) {
        parse_term(s.subrange(1, s.len() - 1))
    } else if !has_op(s) {
        parse_literal(s)
    } else if depth(s) != 0 {
        Err(ParseError::UnbalancedBrackets)
    } else if !never_negative(s) {
        Err(ParseError::BracketOrderViolation)
    } else {
        parse_operators(s)
    }
}

/// The operator rules, on a text whose brackets balance.
pub open spec fn parse_operators(s: Seq<char>) -> Result<Term, ParseError>
    decreases s.len(), 1nat,
    via parse_operators_decreases
{
    let n = s.len() as int;
    if first_top(s, '+', n) is Some {
        let i = first_top(s, '+', n)->0;
        lift2(BinaryOp::Add, parse_term(s.take(i)), parse_term(s.skip(i + 1)))
    } else if last_top(s, '-', n) is Some {
        let i = last_top(s, '-', n)->0;
        lift2(BinaryOp::Sub, parse_term(s.take(i)), parse_term(s.skip(i + 1)))
    } else if n > 0 && s[0] == '-' {
        lift1(UnaryOp::Neg, parse_term(s.drop_first()))
    } else if first_top(s, '*', n) is Some {
        let i = first_top(s, '*', n)->0;
        lift2(BinaryOp::Mul, parse_term(s.take(i)), parse_term(s.skip(i + 1)))
    } else if first_top(s, '/', n) is Some {
        let i = first_top(s, '/', n)->0;
        lift2(BinaryOp::Div, parse_term(s.take(i)), parse_term(s.skip(i + 1)))
    } else if first_top(s, '^', n) is Some {
        let i = first_top(s, '^', n)->0;
        lift_pow(parse_term(s.take(i)), parse_term(s.skip(i + 1)))
    } else {
        parse_calls(s)
    }
}

/// Which call rule reads `s`: the node kind and the bounds of its operand.
pub open spec fn call_rule(s: Seq<char>) -> Option<(UnaryOp, int, int)> {
    let n = s.len() as int;
    if is_call(s, word_exp()) {
        Some((UnaryOp::Exp, 4, n - 1))
    } else if is_call(s, word_ln()) {
        Some((UnaryOp::Ln, 3, n - 1))
    } else if is_call(s, word_sqrt()) {
        Some((UnaryOp::Sqrt, 5, n - 1))
    } else if ends_squared(s) {
        Some((UnaryOp::Sq, 0, n - 2))
    } else if is_call(s, word_sin()) {
        Some((UnaryOp::Sin, 4, n - 1))
    } else if is_call(s, word_cos()) {
        Some((UnaryOp::Cos, 4, n - 1))
    } else if is_call(s, word_tan()) {
        Some((UnaryOp::Tan, 4, n - 1))
    } else {
        None
    }
}

/// The named functions and the `^2` suffix, on a text without top-level
/// operators.
pub open spec fn parse_calls(s: Seq<char>) -> Result<Term, ParseError>
    decreases s.len(), 0nat,
{
    match call_rule(s) {
        Some((op, a, b)) => if 0 <= a <= b <= s.len() && b - a < s.len() {
            lift1(op, parse_term(s.subrange(a, b)))
        } else {
            Err(ParseError::UnrecognizedExpression)
        },
        None => Err(ParseError::UnrecognizedExpression),
    }
}

#[via_fn]
proof fn parse_operators_decreases(s: Seq<char>) {
    lemma_split_points(s);
}

/// Each split point that the parser finds lies inside the text.
pub proof fn lemma_split_points(s: Seq<char>)
    ensures
        first_top(s, '+', s.len() as int) matches Some(i) ==> 0 <= i < s.len(),
        last_top(s, '-', s.len() as int) matches Some(i) ==> 1 <= i < s.len(),
        first_top(s, '*', s.len() as int) matches Some(i) ==> 0 <= i < s.len(),
        first_top(s, '/', s.len() as int) matches Some(i) ==> 0 <= i < s.len(),
        first_top(s, '^', s.len() as int) matches Some(i) ==> 0 <= i < s.len(),
{
    let n = s.len() as int;
    lemma_first_top_range(s, '+', n);
    lemma_last_top_range(s, '-', n);
    lemma_first_top_range(s, '*', n);
    lemma_first_top_range(s, '/', n);
    lemma_first_top_range(s, '^', n);
}

/// What the parser makes of a text as given.
pub open spec fn parse_text(s: Seq<char>) -> Result<Term, ParseError> {
    parse_term(normalize(s))
}

/// The model of a parse result.
pub open spec fn result_view(r: Result<Function, ParseError>) -> Result<Term, ParseError> {
    match r {
        Ok(f) => Ok(f@),
        Err(e) => Err(e),
    }
}

/// Whether `v[lo..hi]` is a call of the function named by `w`.
fn call_check(v: &Vec<char>, lo: usize, hi: usize, w: &[char]) -> (r: bool)
    requires
        lo <= hi <= v.len(),
    ensures
        r == is_call(v@.subrange(lo as int, hi as int), w@),
{
    let ghost s = v@.subrange(lo as int, hi as int);
    if hi - lo <= w.len() || v[hi - 1] != ')' {
        return false;
    }
    let mut k: usize = 0;
    while k < w.len()
        invariant
            lo <= hi <= v.len(),
            w@.len() < hi - lo,
            s == v@.subrange(lo as int, hi as int),
            k <= w@.len(),
            forall|j: int| 0 <= j < k ==> s[j] == w@[j],
        decreases w.len() - k,
    {
        if v[lo + k] != w[k] {
            assert(s.take(w@.len() as int)[k as int] != w@[k as int]);
            return false;
        }
        k += 1;
    }
    assert(s.take(w@.len() as int) =~= w@);
    true
}

/// The characters of `v[lo..hi]` as a string.
fn text_of(v: &Vec<char>, lo: usize, hi: usize) -> (r: String)
    requires
        lo <= hi <= v.len(),
    ensures
        r@ == v@.subrange(lo as int, hi as int),
{
    let mut r = String::new();
    let mut k: usize = lo;
    while k < hi
        invariant
            lo <= k <= hi <= v.len(),
            r@ == v@.subrange(lo as int, k as int),
        decreases hi - k,
    {
        r.push(v[k]);
        assert(r@ =~= v@.subrange(lo as int, k + 1));
        k += 1;
    }
    r
}

/// Reads `v[lo..hi]`, a text without operators or brackets, as a literal.
fn parse_literal_range(v: &Vec<char>, lo: usize, hi: usize) -> (r: Result<Function, ParseError>)
    requires
        lo <= hi <= v.len(),
    ensures
        result_view(r) == parse_literal(v@.subrange(lo as int, hi as int)),
{
    let ghost s = v@.subrange(lo as int, hi as int);
    if hi - lo == 1 {
        let c = v[lo];
        assert(s =~= seq![c]);
        if c == 'x' {
            return Ok(Function::X);
        }
        if param_name_check(c) {
            return Ok(Function::Param { name: c });
        }
        if c == '0' {
            return Ok(Function::Zero);
        }
        if c == '1' {
            return Ok(Function::One);
        }
    }
    assert(s.len() != 1 ==> s != seq!['x'] && s != seq!['0'] && s != seq!['1']);
    if float_literal_check(v, lo, hi) {
        Ok(Function::Const { value: text_of(v, lo, hi) })
    } else {
        Err(ParseError::UnrecognizedLiteral)
    }
}

/// Splits `v[lo..hi]` at `lo + i` into the operands of `op`.
fn parse_split(v: &Vec<char>, lo: usize, hi: usize, i: usize, op: BinaryOp) -> (r: Result<
    Function,
    ParseError,
>)
    requires
        lo + i < hi <= v.len(),
    ensures
        ({
            let s = v@.subrange(lo as int, hi as int);
            let l = parse_term(s.take(i as int));
            let rr = parse_term(s.skip(i + 1));
            result_view(r) == if op == BinaryOp::Pow {
                lift_pow(l, rr)
            } else {
                lift2(op, l, rr)
            }
        }),
    decreases hi - lo, 0nat,
{
    let ghost s = v@.subrange(lo as int, hi as int);
    assert(s.take(i as int) =~= v@.subrange(lo as int, lo + i));
    assert(s.skip(i + 1) =~= v@.subrange(lo + i + 1, hi as int));
    let lhs = match parse_range(v, lo, lo + i) {
        Ok(f) => f,
        Err(e) => return Err(e),
    };
    let rhs = match parse_range(v, lo + i + 1, hi) {
        Ok(f) => f,
        Err(e) => return Err(e),
    };
    if op == BinaryOp::Pow {
        let two = match &rhs {
            Function::Const { value } => spells_two_check(value.as_str()),
            _ => false,
        };
        if two {
            return Ok(Function::Sq { value: Box::new(lhs) });
        }
    }
    Ok(Function::binary(op, lhs, rhs))
}

/// Parses `v[lo..hi]`.
fn parse_range(v: &Vec<char>, lo: usize, hi: usize) -> (r: Result<Function, ParseError>)
    requires
        lo <= hi <= v.len(),
    ensures
        result_view(r) == parse_term(v@.subrange(lo as int, hi as int)),
    decreases hi - lo, 3nat,
{
    let ghost s = v@.subrange(lo as int, hi as int);
    if encloses_check(v, lo, hi) {
        assert(s.subrange(1, s.len() - 1) =~= v@.subrange(lo + 1, hi - 1));
        return parse_range(v, lo + 1, hi - 1);
    }
    if !has_op_check(v, lo, hi) {
        return parse_literal_range(v, lo, hi);
    }
    let (balanced, ordered) = bracket_balance(v, lo, hi);
    if !balanced {
        return Err(ParseError::UnbalancedBrackets);
    }
    if !ordered {
        return Err(ParseError::BracketOrderViolation);
    }
    parse_operators_range(v, lo, hi)
}

/// The operator rules on `v[lo..hi]`.
fn parse_operators_range(v: &Vec<char>, lo: usize, hi: usize) -> (r: Result<Function, ParseError>)
    requires
        lo <= hi <= v.len(),
    ensures
        result_view(r) == parse_operators(v@.subrange(lo as int, hi as int)),
    decreases hi - lo, 2nat,
{
    let ghost s = v@.subrange(lo as int, hi as int);
    proof {
        lemma_split_points(s);
    }
    if let Some(i) = find_first_top(v, lo, hi, '+') {
        return parse_split(v, lo, hi, i, BinaryOp::Add);
    }
    if let Some(i) = find_last_top(v, lo, hi, '-') {
        return parse_split(v, lo, hi, i, BinaryOp::Sub);
    }
    if hi > lo && v[lo] == '-' {
        assert(s.drop_first() =~= v@.subrange(lo + 1, hi as int));
        return match parse_range(v, lo + 1, hi) {
            Ok(f) => Ok(Function::Neg { value: Box::new(f) }),
            Err(e) => Err(e),
        };
    }
    if let Some(i) = find_first_top(v, lo, hi, '*') {
        return parse_split(v, lo, hi, i, BinaryOp::Mul);
    }
    if let Some(i) = find_first_top(v, lo, hi, '/') {
        return parse_split(v, lo, hi, i, BinaryOp::Div);
    }
    if let Some(i) = find_first_top(v, lo, hi, '^') {
        return parse_split(v, lo, hi, i, BinaryOp::Pow);
    }
    parse_calls_range(v, lo, hi)
}

/// Which call rule reads `v[lo..hi]`.
fn call_rule_check(v: &Vec<char>, lo: usize, hi: usize) -> (r: Option<(UnaryOp, usize, usize)>)
    requires
        lo <= hi <= v.len(),
    ensures
        ({
            let s = v@.subrange(lo as int, hi as int);
            &&& r matches Some((op, a, b)) ==> call_rule(s) == Some((op, a as int, b as int)) && a
                <= b <= s.len() && b - a < s.len()
            &&& r is None ==> call_rule(s) is None
        }),
{
    let ghost s = v@.subrange(lo as int, hi as int);
    let n = hi - lo;
    let exp = ['e', 'x', 'p', '('];
    let ln = ['l', 'n', '('];
    let sqrt = ['s', 'q', 'r', 't', '('];
    let sin = ['s', 'i', 'n', '('];
    let cos = ['c', 'o', 's', '('];
    let tan = ['t', 'a', 'n', '('];
    assert(exp@ =~= word_exp());
    assert(ln@ =~= word_ln());
    assert(sqrt@ =~= word_sqrt());
    assert(sin@ =~= word_sin());
    assert(cos@ =~= word_cos());
    assert(tan@ =~= word_tan());
    if call_check(v, lo, hi, &exp) {
        Some((UnaryOp::Exp, 4, n - 1))
    } else if call_check(v, lo, hi, &ln) {
        Some((UnaryOp::Ln, 3, n - 1))
    } else if call_check(v, lo, hi, &sqrt) {
        Some((UnaryOp::Sqrt, 5, n - 1))
    } else if n >= 2 && v[hi - 2] == '^' && v[hi - 1] == '2' {
        Some((UnaryOp::Sq, 0, n - 2))
    } else if call_check(v, lo, hi, &sin) {
        Some((UnaryOp::Sin, 4, n - 1))
    } else if call_check(v, lo, hi, &cos) {
        Some((UnaryOp::Cos, 4, n - 1))
    } else if call_check(v, lo, hi, &tan) {
        Some((UnaryOp::Tan, 4, n - 1))
    } else {
        None
    }
}

/// The named functions and the `^2` suffix on `v[lo..hi]`.
fn parse_calls_range(v: &Vec<char>, lo: usize, hi: usize) -> (r: Result<Function, ParseError>)
    requires
        lo <= hi <= v.len(),
    ensures
        result_view(r) == parse_calls(v@.subrange(lo as int, hi as int)),
    decreases hi - lo, 1nat,
{
    let ghost s = v@.subrange(lo as int, hi as int);
    match call_rule_check(v, lo, hi) {
        Some((op, a, b)) => {
            assert(s.subrange(a as int, b as int) =~= v@.subrange(lo + a, lo + b));
            match parse_range(v, lo + a, lo + b) {
                Ok(f) => Ok(Function::unary(op, f)),
                Err(e) => Err(e),
            }
        },
        None => Err(ParseError::UnrecognizedExpression),
    }
}

impl Function {
    /// Parses a formula written in infix notation.
    ///
    /// Spaces are dropped and curly and square brackets read as round ones
    /// first; the result is then exactly what [`parse_term`] says.
    pub fn from_str(string: &str) -> (r: Result<Function, ParseError>)
        ensures
            result_view(r) == parse_text(string@),
            r matches Ok(f) ==> f@.wf(),
    {
        proof {
            lemma_parse_readable(string@);
        }
        let v = normalize_text(string);
        assert(v@.subrange(0, v@.len() as int) =~= v@);
        parse_range(&v, 0, v.len())
    }
}

} // verus!
