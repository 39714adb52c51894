//! What the parser does on whole classes of texts: what it returns is
//! readable, it reads back the display form of every readable tree, it
//! reads every parameter name, and it rejects brackets that do not balance.
use vstd::prelude::*;

use crate::display::{call_name, display, infix};
use crate::function::{BinaryOp, Term};
use crate::param::{alphabet, is_param_name, name_code};
use crate::parse::{
    call_rule, lemma_split_points, ends_squared, is_call, parse_calls, parse_literal, parse_operators, parse_term,
    parse_text, word_cos, word_exp, word_ln, word_sin, word_sqrt, word_tan, ParseError,
};
use crate::text::{
    canonical_bracket, depth, encloses, first_top, has_op, is_float_literal, is_op_char,
    is_space, is_top, last_top, never_negative, normalize, spells_two,
};

verus! {

/// One of the four signs that the parser splits at before `^`.
pub open spec fn is_arith(c: char) -> bool {
    c == '+' || c == '-' || c == '*' || c == '/'
}

/// The brackets balance and no prefix closes more than it opens.
pub open spec fn balanced(s: Seq<char>) -> bool {
    depth(s) == 0 && never_negative(s)
}

/// Every `+`, `-`, `*` and `/` of `s` stands inside a bracket.
pub open spec fn no_top_arith(s: Seq<char>) -> bool {
    forall|i: int| 0 <= i < s.len() && is_arith(#[trigger] s[i]) ==> depth(s.take(i)) > 0
}

/// `s` in one more pair of brackets.
pub open spec fn wrap(s: Seq<char>) -> Seq<char> {
    seq!['('] + s + seq![')']
}

proof fn lemma_depth_concat(a: Seq<char>, b: Seq<char>)
    ensures
        depth(a + b) == depth(a) + depth(b),
    decreases b.len(),
{
    if b.len() == 0 {
        assert(a + b =~= a);
    } else {
        assert((a + b).drop_last() =~= a + b.drop_last());
        lemma_depth_concat(a, b.drop_last());
    }
}

proof fn lemma_take_concat(a: Seq<char>, b: Seq<char>, k: int)
    requires
        0 <= k <= a.len() + b.len(),
    ensures
        k <= a.len() ==> (a + b).take(k) == a.take(k),
        k > a.len() ==> (a + b).take(k) == a + b.take(k - a.len()),
{
    if k <= a.len() {
        assert((a + b).take(k) =~= a.take(k));
    } else {
        assert((a + b).take(k) =~= a + b.take(k - a.len()));
    }
}

/// Depth of a prefix of a concatenation.
proof fn lemma_prefix_depth(a: Seq<char>, b: Seq<char>, k: int)
    requires
        0 <= k <= a.len() + b.len(),
    ensures
        k <= a.len() ==> depth((a + b).take(k)) == depth(a.take(k)),
        k > a.len() ==> depth((a + b).take(k)) == depth(a) + depth(b.take(k - a.len())),
{
    lemma_take_concat(a, b, k);
    if k > a.len() {
        lemma_depth_concat(a, b.take(k - a.len()));
    }
}

proof fn lemma_concat(a: Seq<char>, b: Seq<char>)
    requires
        balanced(a),
        balanced(b),
    ensures
        balanced(a + b),
        no_top_arith(a) && no_top_arith(b) ==> no_top_arith(a + b),
{
    lemma_depth_concat(a, b);
    let s = a + b;
    assert forall|k: int| 0 <= k <= s.len() implies depth(#[trigger] s.take(k)) >= 0 by {
        lemma_prefix_depth(a, b, k);
        assert(depth(a.take(k)) >= 0 || k > a.len());
        if k > a.len() {
            assert(depth(b.take(k - a.len())) >= 0);
        }
    }
    if no_top_arith(a) && no_top_arith(b) {
        assert forall|i: int| 0 <= i < s.len() && is_arith(#[trigger] s[i]) implies depth(
            s.take(i),
        ) > 0 by {
            lemma_prefix_depth(a, b, i);
            if i < a.len() {
                assert(s[i] == a[i]);
            } else {
                assert(s[i] == b[i - a.len()]);
                if i == a.len() {
                    assert(b.take(0) =~= Seq::<char>::empty());
                    assert(depth(b.take(i - a.len())) > 0);
                }
            }
        }
    }
}

/// A text without brackets has depth zero at every prefix.
proof fn lemma_flat(s: Seq<char>)
    requires
        forall|i: int| 0 <= i < s.len() ==> #[trigger] s[i] != '(' && s[i] != ')',
    ensures
        forall|k: int| 0 <= k <= s.len() ==> depth(#[trigger] s.take(k)) == 0,
        balanced(s),
    decreases s.len(),
{
    if s.len() > 0 {
        let t = s.drop_last();
        lemma_flat(t);
        assert forall|k: int| 0 <= k <= s.len() implies depth(#[trigger] s.take(k)) == 0 by {
            if k < s.len() {
                assert(s.take(k) =~= t.take(k));
            } else {
                assert(s.take(k) =~= s);
                assert(s.drop_last() =~= t.take(t.len() as int));
            }
        }
        assert(s.take(s.len() as int) =~= s);
    } else {
        assert(s.take(0) =~= s);
    }
}

/// A bracket pair around a balanced text: inside it the depth is positive.
proof fn lemma_wrap(s: Seq<char>)
    requires
        balanced(s),
    ensures
        balanced(wrap(s)),
        no_top_arith(wrap(s)),
        encloses(wrap(s)),
        forall|k: int| 1 <= k < wrap(s).len() ==> depth(#[trigger] wrap(s).take(k)) >= 1,
        wrap(s).subrange(1, wrap(s).len() - 1) == s,
{
    let w = wrap(s);
    let o = seq!['('];
    let c = seq![')'];
    assert(w =~= (o + s) + c);
    assert(depth(Seq::<char>::empty()) == 0);
    assert(o.drop_last() =~= Seq::<char>::empty());
    assert(depth(o) == 1);
    assert(c.drop_last() =~= Seq::<char>::empty());
    assert(depth(c) == -1);
    lemma_depth_concat(o, s);
    lemma_depth_concat(o + s, c);
    assert forall|k: int| 1 <= k < w.len() implies depth(#[trigger] w.take(k)) >= 1 by {
        lemma_prefix_depth(o + s, c, k);
        lemma_prefix_depth(o, s, k);
        assert(o.take(1) =~= o);
        assert(depth(s.take(k - 1)) >= 0);
    }
    assert forall|k: int| 0 <= k <= w.len() implies depth(#[trigger] w.take(k)) >= 0 by {
        if k == 0 {
            assert(w.take(0) =~= Seq::<char>::empty());
        } else if k == w.len() {
            assert(w.take(k) =~= w);
        }
    }
    assert(w.take(w.len() as int) =~= w);
    assert forall|i: int| 0 <= i < w.len() && is_arith(#[trigger] w[i]) implies depth(w.take(i))
        > 0 by {
        assert(i != 0 && i != w.len() - 1);
    }
    assert(w.subrange(1, w.len() - 1) =~= s);
}

proof fn lemma_first_top_none(s: Seq<char>, c: char, n: int)
    requires
        forall|j: int| 0 <= j < n ==> !is_top(s, c, j),
    ensures
        first_top(s, c, n) is None,
    decreases n,
{
    if n > 0 {
        lemma_first_top_none(s, c, n - 1);
    }
}

proof fn lemma_first_top_at(s: Seq<char>, c: char, p: int)
    requires
        is_top(s, c, p),
        forall|j: int| 0 <= j < p ==> !is_top(s, c, j),
    ensures
        first_top(s, c, s.len() as int) == Some(p),
{
    lemma_first_top_none(s, c, p);
    crate::text::lemma_first_top_stays(s, c, p + 1, s.len() as int);
}

proof fn lemma_last_top_none(s: Seq<char>, c: char, n: int)
    requires
        forall|j: int| 1 <= j < n ==> !is_top(s, c, j),
    ensures
        last_top(s, c, n) is None,
    decreases n,
{
    if n > 1 {
        lemma_last_top_none(s, c, n - 1);
    }
}

proof fn lemma_last_top_at(s: Seq<char>, c: char, p: int, n: int)
    requires
        1 <= p < n <= s.len(),
        is_top(s, c, p),
        forall|j: int| p < j < n ==> !is_top(s, c, j),
    ensures
        last_top(s, c, n) == Some(p),
    decreases n,
{
    if n > p + 1 {
        lemma_last_top_at(s, c, p, n - 1);
    }
}

/// In `a op b`, with `a` and `b` balanced and their signs in brackets, the
/// one top-level sign is `op`.
proof fn lemma_split_tops(a: Seq<char>, op: char, b: Seq<char>)
    requires
        balanced(a),
        balanced(b),
        no_top_arith(a),
        no_top_arith(b),
        op != '(' && op != ')',
    ensures
        forall|c: char, j: int|
            is_arith(c) ==> (is_top(a + seq![op] + b, c, j) <==> (j == a.len() && c == op)),
        balanced(a + seq![op] + b),
{
    let m = a + seq![op];
    let s = m + b;
    lemma_flat(seq![op]);
    lemma_concat(a, seq![op]);
    lemma_concat(m, b);
    lemma_depth_concat(a, seq![op]);
    assert forall|c: char, j: int| is_arith(c) implies (is_top(s, c, j) <==> (j == a.len() && c
        == op)) by {
        if 0 <= j < s.len() {
            lemma_prefix_depth(m, b, j);
            if j < a.len() {
                lemma_prefix_depth(a, seq![op], j);
                assert(s[j] == a[j]);
            } else if j == a.len() {
                assert(m.take(j) =~= a);
                assert(s[j] == op);
            } else {
                assert(s[j] == b[j - m.len()]);
                if j == m.len() {
                    assert(b.take(0) =~= Seq::<char>::empty());
                }
            }
        }
    }
}

/// The digits and signs are no parameter names.
proof fn lemma_param_name_code(c: char)
    requires
        is_param_name(c),
    ensures
        97 <= c as u32 <= 122,
        c != 'x',
{
    let i = choose|i: int| 0 <= i < alphabet().len() && alphabet()[i] == c;
    assert(c as u32 == name_code(i));
}

/// A sign at which the parser may split.
pub open spec fn is_splitter(c: char) -> bool {
    is_arith(c) || c == '^'
}

/// Top-level positions of a concatenation whose first part balances.
proof fn lemma_concat_tops(a: Seq<char>, b: Seq<char>, c: char, j: int)
    requires
        depth(a) == 0,
        0 <= j < a.len() + b.len(),
    ensures
        is_top(a + b, c, j) == if j < a.len() {
            is_top(a, c, j)
        } else {
            is_top(b, c, j - a.len())
        },
{
    lemma_prefix_depth(a, b, j);
    if j == a.len() {
        assert(a.take(j) =~= a);
        assert(b.take(0) =~= Seq::<char>::empty());
    }
    if j < a.len() {
        assert((a + b)[j] == a[j]);
    } else {
        assert((a + b)[j] == b[j - a.len()]);
    }
}

/// Nothing but the opening bracket stands at the top level of a wrapped text.
proof fn lemma_wrapped_tops(a: Seq<char>)
    requires
        balanced(a),
    ensures
        forall|c: char, j: int| c != '(' ==> !is_top(#[trigger] wrap(a), c, j),
{
    lemma_wrap(a);
    assert forall|c: char, j: int| c != '(' implies !is_top(#[trigger] wrap(a), c, j) by {
        if 1 <= j < wrap(a).len() {
            assert(depth(wrap(a).take(j)) >= 1);
        }
    }
}

/// In a text without brackets every position is at the top level.
proof fn lemma_flat_tops(p: Seq<char>)
    requires
        forall|i: int| 0 <= i < p.len() ==> #[trigger] p[i] != '(' && p[i] != ')',
    ensures
        forall|c: char, j: int| #[trigger] is_top(p, c, j) <==> (0 <= j < p.len() && p[j] == c),
        balanced(p),
{
    lemma_flat(p);
    assert forall|c: char, j: int| #[trigger] is_top(p, c, j) <==> (0 <= j < p.len() && p[j]
        == c) by {
        if 0 <= j < p.len() {
            assert(depth(p.take(j)) == 0);
        }
    }
}

/// The infix sign of a two-child node other than a power.
pub open spec fn sign_char(t: Term) -> char {
    match t {
        Term::Add(_, _) => '+',
        Term::Sub(_, _) => '-',
        Term::Mul(_, _) => '*',
        _ => '/',
    }
}

/// The name of a one-child function, without its bracket.
pub open spec fn call_word(t: Term) -> Seq<char> {
    match t {
        Term::Exp(_) => seq!['e', 'x', 'p'],
        Term::Ln(_) => seq!['l', 'n'],
        Term::Sqrt(_) => seq!['s', 'q', 'r', 't'],
        Term::Sin(_) => seq!['s', 'i', 'n'],
        Term::Cos(_) => seq!['c', 'o', 's'],
        _ => seq!['t', 'a', 'n'],
    }
}

/// The display form with its spaces dropped.
pub open spec fn compact(t: Term) -> Seq<char>
    decreases t,
{
    match t {
        Term::X => seq!['x'],
        Term::Const(s) => s,
        Term::Zero => seq!['0'],
        Term::One => seq!['1'],
        Term::Param(c) => seq![c],
        Term::Neg(v) => wrap(seq!['-'] + compact(*v)),
        Term::Sq(v) => wrap(compact(*v)) + seq!['^', '2'],
        Term::Exp(v) | Term::Ln(v) | Term::Sqrt(v) | Term::Sin(v) | Term::Cos(v) | Term::Tan(v) =>
            call_word(t) + wrap(compact(*v)),
        Term::Pow(l, r) => wrap(compact(*l)) + seq!['^'] + wrap(compact(*r)),
        Term::Add(l, r) | Term::Sub(l, r) | Term::Mul(l, r) | Term::Div(l, r) => wrap(
            compact(*l) + seq![sign_char(t)] + compact(*r),
        ),
        Term::Polynomial(_) | Term::BtrPolynomial(_) => Seq::empty(),
    }
}

/// A constant the parser reads as the literal `2`.
pub open spec fn is_two_literal(t: Term) -> bool {
    t is Const && spells_two(t->Const_0)
}

/// The trees that the parser can produce: no polynomials, parameter names
/// from the alphabet, each constant spelled as a literal that the parser
/// reads as that constant, and no power whose exponent is the literal two
/// (the parser reads that as a square).
pub open spec fn readable(t: Term) -> bool
    decreases t,
{
    match t {
        Term::X | Term::Zero | Term::One => true,
        Term::Param(c) => is_param_name(c),
        Term::Const(s) => s.len() > 0 && !has_op(s) && normalize(s) == s && parse_literal(s)
            == Ok::<Term, ParseError>(Term::Const(s)),
        Term::Neg(v) | Term::Exp(v) | Term::Ln(v) | Term::Sqrt(v) | Term::Sq(v) | Term::Sin(v)
        | Term::Cos(v) | Term::Tan(v) => readable(*v),
        Term::Pow(l, r) => readable(*l) && readable(*r) && !is_two_literal(*r),
        Term::Add(l, r) | Term::Sub(l, r) | Term::Mul(l, r) | Term::Div(l, r) => readable(*l)
            && readable(*r),
        Term::Polynomial(_) | Term::BtrPolynomial(_) => false,
    }
}

/// Not empty, not starting with `-`, balanced, signs in brackets.
pub open spec fn shape_ok(c: Seq<char>) -> bool {
    c.len() > 0 && c[0] != '-' && balanced(c) && no_top_arith(c)
}

proof fn lemma_leaf_shape(t: Term)
    requires
        readable(t),
        t is X || t is Zero || t is One || t is Param || t is Const,
    ensures
        shape_ok(compact(t)),
{
    let c = compact(t);
    if let Term::Param(p) = t {
        lemma_param_name_code(p);
    }
    if let Term::Const(s) = t {
        assert forall|i: int| 0 <= i < s.len() implies !is_op_char(#[trigger] s[i]) by {
            if is_op_char(s[i]) {
                assert(has_op(s));
            }
        }
    }
    lemma_flat(c);
}

proof fn lemma_neg_shape(v: Seq<char>)
    requires
        shape_ok(v),
    ensures
        shape_ok(wrap(seq!['-'] + v)),
{
    lemma_flat(seq!['-']);
    lemma_concat(seq!['-'], v);
    lemma_wrap(seq!['-'] + v);
}

proof fn lemma_sq_shape(v: Seq<char>)
    requires
        shape_ok(v),
    ensures
        shape_ok(wrap(v) + seq!['^', '2']),
{
    lemma_wrap(v);
    lemma_flat(seq!['^', '2']);
    lemma_concat(wrap(v), seq!['^', '2']);
}

proof fn lemma_call_shape(w: Seq<char>, v: Seq<char>)
    requires
        shape_ok(v),
        w.len() > 0,
        forall|i: int| 0 <= i < w.len() ==> 'a' <= #[trigger] w[i] <= 'z',
    ensures
        shape_ok(w + wrap(v)),
{
    lemma_wrap(v);
    lemma_flat(w);
    lemma_concat(w, wrap(v));
}

proof fn lemma_pow_shape(l: Seq<char>, r: Seq<char>)
    requires
        shape_ok(l),
        shape_ok(r),
    ensures
        shape_ok(wrap(l) + seq!['^'] + wrap(r)),
{
    lemma_wrap(l);
    lemma_wrap(r);
    lemma_flat(seq!['^']);
    lemma_concat(wrap(l), seq!['^']);
    lemma_concat(wrap(l) + seq!['^'], wrap(r));
}

proof fn lemma_infix_shape(l: Seq<char>, op: char, r: Seq<char>)
    requires
        shape_ok(l),
        shape_ok(r),
        is_arith(op),
    ensures
        shape_ok(wrap(l + seq![op] + r)),
{
    lemma_split_tops(l, op, r);
    lemma_wrap(l + seq![op] + r);
}

/// The compact form of a readable tree has a good shape.
proof fn lemma_compact_shape(t: Term)
    requires
        readable(t),
    ensures
        shape_ok(compact(t)),
    decreases t,
{
    match t {
        Term::Neg(v) => {
            lemma_compact_shape(*v);
            lemma_neg_shape(compact(*v));
        },
        Term::Sq(v) => {
            lemma_compact_shape(*v);
            lemma_sq_shape(compact(*v));
        },
        Term::Exp(v) | Term::Ln(v) | Term::Sqrt(v) | Term::Sin(v) | Term::Cos(v) | Term::Tan(v) => {
            lemma_compact_shape(*v);
            lemma_call_shape(call_word(t), compact(*v));
        },
        Term::Pow(l, r) => {
            lemma_compact_shape(*l);
            lemma_compact_shape(*r);
            lemma_pow_shape(compact(*l), compact(*r));
        },
        Term::Add(l, r) | Term::Sub(l, r) | Term::Mul(l, r) | Term::Div(l, r) => {
            lemma_compact_shape(*l);
            lemma_compact_shape(*r);
            lemma_infix_shape(compact(*l), sign_char(t), compact(*r));
        },
        Term::Polynomial(_) | Term::BtrPolynomial(_) => {},
        _ => lemma_leaf_shape(t),
    }
}

/// The node kind of an infix sign.
pub open spec fn op_of_sign(c: char) -> BinaryOp {
    if c == '+' {
        BinaryOp::Add
    } else if c == '-' {
        BinaryOp::Sub
    } else if c == '*' {
        BinaryOp::Mul
    } else {
        BinaryOp::Div
    }
}

proof fn lemma_parse_infix(a: Seq<char>, op: char, b: Seq<char>, l: Term, r: Term)
    requires
        shape_ok(a),
        shape_ok(b),
        is_arith(op),
        parse_term(a) == Ok::<Term, ParseError>(l),
        parse_term(b) == Ok::<Term, ParseError>(r),
    ensures
        parse_term(wrap(a + seq![op] + b)) == Ok::<Term, ParseError>(
            Term::binary(op_of_sign(op), l, r),
        ),
{
    let inner = a + seq![op] + b;
    let n = inner.len() as int;
    let p = a.len() as int;
    lemma_split_tops(a, op, b);
    lemma_wrap(inner);
    assert(parse_term(wrap(inner)) == parse_term(inner));
    assert(is_top(inner, op, p));
    assert(!encloses(inner));
    assert(is_op_char(inner[p]));
    assert(has_op(inner));
    assert(parse_term(inner) == parse_operators(inner));
    assert(inner.take(p) =~= a);
    assert(inner.skip(p + 1) =~= b);
    assert(inner[0] == a[0]);
    if op == '+' {
        lemma_first_top_at(inner, '+', p);
    } else {
        lemma_first_top_none(inner, '+', n);
        if op == '-' {
            lemma_last_top_at(inner, '-', p, n);
        } else {
            lemma_last_top_none(inner, '-', n);
            if op == '*' {
                lemma_first_top_at(inner, '*', p);
            } else {
                lemma_first_top_none(inner, '*', n);
                lemma_first_top_at(inner, '/', p);
            }
        }
    }
}

/// The text in brackets parses as the text.
proof fn lemma_parse_wrap(a: Seq<char>)
    requires
        balanced(a),
    ensures
        parse_term(wrap(a)) == parse_term(a),
{
    lemma_wrap(a);
}

/// In `(a)` followed by a bracket-free tail, the top-level positions are
/// the opening bracket and those of the tail.
proof fn lemma_wrap_then_flat_tops(a: Seq<char>, q: Seq<char>)
    requires
        balanced(a),
        forall|i: int| 0 <= i < q.len() ==> #[trigger] q[i] != '(' && q[i] != ')',
    ensures
        forall|c: char, j: int|
            c != '(' ==> (#[trigger] is_top(wrap(a) + q, c, j) <==> (wrap(a).len() <= j < wrap(
                a,
            ).len() + q.len() && q[j - wrap(a).len()] == c)),
        balanced(wrap(a) + q),
{
    lemma_wrap(a);
    lemma_wrapped_tops(a);
    lemma_flat_tops(q);
    lemma_concat(wrap(a), q);
    assert forall|c: char, j: int| c != '(' implies (#[trigger] is_top(wrap(a) + q, c, j) <==> (
    wrap(a).len() <= j < wrap(a).len() + q.len() && q[j - wrap(a).len()] == c)) by {
        if 0 <= j < wrap(a).len() + q.len() {
            lemma_concat_tops(wrap(a), q, c, j);
        }
    }
}

proof fn lemma_parse_pow(a: Seq<char>, b: Seq<char>, l: Term, r: Term)
    requires
        shape_ok(a),
        shape_ok(b),
        parse_term(a) == Ok::<Term, ParseError>(l),
        parse_term(b) == Ok::<Term, ParseError>(r),
        !is_two_literal(r),
    ensures
        parse_term(wrap(a) + seq!['^'] + wrap(b)) == Ok::<Term, ParseError>(
            Term::Pow(Box::new(l), Box::new(r)),
        ),
{
    let m = wrap(a) + seq!['^'];
    let s = m + wrap(b);
    let n = s.len() as int;
    let p = wrap(a).len() as int;
    lemma_pow_shape(a, b);
    lemma_wrap_then_flat_tops(a, seq!['^']);
    lemma_wrapped_tops(b);
    assert forall|c: char, j: int| c != '(' implies (#[trigger] is_top(s, c, j) <==> (j == p && c
        == '^')) by {
        if 0 <= j < n {
            lemma_concat_tops(m, wrap(b), c, j);
        }
    }
    assert(is_top(s, '^', p));
    assert(!encloses(s));
    assert(is_op_char(s[p]));
    assert(parse_term(s) == parse_operators(s));
    lemma_first_top_none(s, '+', n);
    lemma_last_top_none(s, '-', n);
    lemma_first_top_none(s, '*', n);
    lemma_first_top_none(s, '/', n);
    lemma_first_top_at(s, '^', p);
    assert(s.take(p) =~= wrap(a));
    assert(s.skip(p + 1) =~= wrap(b));
    lemma_parse_wrap(a);
    lemma_parse_wrap(b);
}

proof fn lemma_parse_sq(a: Seq<char>, v: Term)
    requires
        shape_ok(a),
        parse_term(a) == Ok::<Term, ParseError>(v),
    ensures
        parse_term(wrap(a) + seq!['^', '2']) == Ok::<Term, ParseError>(Term::Sq(Box::new(v))),
{
    let s = wrap(a) + seq!['^', '2'];
    let n = s.len() as int;
    let p = wrap(a).len() as int;
    lemma_wrap_then_flat_tops(a, seq!['^', '2']);
    assert(is_top(s, '^', p));
    assert(!encloses(s));
    assert(is_op_char(s[p]));
    assert(parse_term(s) == parse_operators(s));
    lemma_first_top_none(s, '+', n);
    lemma_last_top_none(s, '-', n);
    lemma_first_top_none(s, '*', n);
    lemma_first_top_none(s, '/', n);
    lemma_first_top_at(s, '^', p);
    assert(s.take(p) =~= wrap(a));
    assert(s.skip(p + 1) =~= seq!['2']);
    lemma_parse_wrap(a);
    lemma_parse_two();
}

/// The text `2` parses as the constant two.
proof fn lemma_parse_two()
    ensures
        parse_term(seq!['2']) == Ok::<Term, ParseError>(Term::Const(seq!['2'])),
        is_two_literal(Term::Const(seq!['2'])),
{
    let s = seq!['2'];
    assert(!has_op(s)) by {
        assert forall|i: int| 0 <= i < s.len() implies !is_op_char(#[trigger] s[i]) by {
            assert(s[i] == '2');
        }
    }
    assert(!is_param_name('2')) by {
        if is_param_name('2') {
            lemma_param_name_code('2');
        }
    }
    assert(s != seq!['x']) by {
        assert(s[0] != seq!['x'][0]);
    }
    assert(s != seq!['0']) by {
        assert(s[0] != seq!['0'][0]);
    }
    assert(s != seq!['1']) by {
        assert(s[0] != seq!['1'][0]);
    }
    assert(crate::text::all_digits(s));
    assert(is_float_literal(s));
    assert(s[0] == '2');
    assert(spells_two(s));
}

proof fn lemma_parse_neg(a: Seq<char>, v: Term)
    requires
        shape_ok(a),
        parse_term(a) == Ok::<Term, ParseError>(v),
    ensures
        parse_term(wrap(seq!['-'] + a)) == Ok::<Term, ParseError>(Term::Neg(Box::new(v))),
{
    let inner = seq!['-'] + a;
    let n = inner.len() as int;
    lemma_flat_tops(seq!['-']);
    lemma_concat(seq!['-'], a);
    lemma_parse_wrap(inner);
    assert forall|c: char, j: int| is_arith(c) && 1 <= j implies !#[trigger] is_top(inner, c, j) by {
        if j < n {
            lemma_concat_tops(seq!['-'], a, c, j);
        }
    }
    assert(is_top(inner, '-', 0)) by {
        lemma_concat_tops(seq!['-'], a, '-', 0);
    }
    assert(!is_top(inner, '+', 0)) by {
        lemma_concat_tops(seq!['-'], a, '+', 0);
    }
    assert(is_op_char(inner[0]));
    assert(parse_term(inner) == parse_operators(inner));
    lemma_first_top_none(inner, '+', n);
    lemma_last_top_none(inner, '-', n);
    assert(inner.drop_first() =~= a);
}

proof fn lemma_call_mismatch(s: Seq<char>, w: Seq<char>, i: int)
    requires
        0 <= i < w.len(),
        i < s.len(),
        s[i] != w[i],
    ensures
        !is_call(s, w),
{
    if s.len() > w.len() && s.take(w.len() as int) == w {
        assert(s.take(w.len() as int)[i] == s[i]);
    }
}

/// A call has no top-level sign: the parser reaches the call rules.
proof fn lemma_call_reaches_calls(w: Seq<char>, a: Seq<char>)
    requires
        shape_ok(a),
        w.len() > 0,
        forall|i: int| 0 <= i < w.len() ==> 'a' <= #[trigger] w[i] <= 'z',
    ensures
        parse_term(w + wrap(a)) == parse_calls(w + wrap(a)),
{
    let s = w + wrap(a);
    let n = s.len() as int;
    lemma_call_shape(w, a);
    lemma_flat_tops(w);
    lemma_wrapped_tops(a);
    assert forall|c: char, j: int| is_splitter(c) implies !#[trigger] is_top(s, c, j) by {
        if 0 <= j < n {
            lemma_concat_tops(w, wrap(a), c, j);
        }
    }
    assert(s[w.len() as int] == '(');
    assert(is_op_char(s[w.len() as int]));
    assert(s[0] == w[0]);
    assert(!encloses(s));
    assert(parse_term(s) == parse_operators(s));
    lemma_first_top_none(s, '+', n);
    lemma_last_top_none(s, '-', n);
    lemma_first_top_none(s, '*', n);
    lemma_first_top_none(s, '/', n);
    lemma_first_top_none(s, '^', n);
}

/// The call rule that reads a call of a one-child function.
proof fn lemma_call_rule_of(t: Term, a: Seq<char>)
    requires
        t is Exp || t is Ln || t is Sqrt || t is Sin || t is Cos || t is Tan,
    ensures
        call_rule(call_word(t) + wrap(a)) == Some(
            (t.unary_op(), call_word(t).len() + 1 as int, call_word(t).len() + a.len() + 1 as int),
        ),
{
    let w = call_word(t);
    let s = w + wrap(a);
    let k = w.len() + 1 as int;
    assert(s.take(k) =~= w + seq!['(']);
    assert(s.last() == ')');
    assert(!ends_squared(s));
    if t is Exp {
        assert(w + seq!['('] =~= word_exp());
    } else {
        lemma_call_mismatch(s, word_exp(), 0);
        if t is Ln {
            assert(w + seq!['('] =~= word_ln());
        } else {
            lemma_call_mismatch(s, word_ln(), 0);
            if t is Sqrt {
                assert(w + seq!['('] =~= word_sqrt());
            } else {
                if t is Sin {
                    lemma_call_mismatch(s, word_sqrt(), 1);
                    assert(w + seq!['('] =~= word_sin());
                } else {
                    lemma_call_mismatch(s, word_sqrt(), 0);
                    lemma_call_mismatch(s, word_sin(), 0);
                    if t is Cos {
                        assert(w + seq!['('] =~= word_cos());
                    } else {
                        lemma_call_mismatch(s, word_cos(), 0);
                        assert(w + seq!['('] =~= word_tan());
                    }
                }
            }
        }
    }
}

proof fn lemma_parse_call(t: Term, a: Seq<char>, v: Term)
    requires
        t is Exp || t is Ln || t is Sqrt || t is Sin || t is Cos || t is Tan,
        shape_ok(a),
        parse_term(a) == Ok::<Term, ParseError>(v),
    ensures
        parse_term(call_word(t) + wrap(a)) == Ok::<Term, ParseError>(
            Term::unary(t.unary_op(), v),
        ),
{
    let w = call_word(t);
    let s = w + wrap(a);
    let k = w.len() + 1 as int;
    lemma_call_reaches_calls(w, a);
    lemma_call_rule_of(t, a);
    assert(s.subrange(k, k + a.len()) =~= a);
}

proof fn lemma_parse_leaf(t: Term)
    requires
        readable(t),
        t is X || t is Zero || t is One || t is Param || t is Const,
    ensures
        parse_term(compact(t)) == Ok::<Term, ParseError>(t),
{
    let c = compact(t);
    lemma_leaf_shape(t);
    assert(!has_op(c)) by {
        if !(t is Const) {
            if let Term::Param(p) = t {
                lemma_param_name_code(p);
            }
            assert forall|i: int| 0 <= i < c.len() implies !is_op_char(#[trigger] c[i]) by {
                assert(i == 0);
            }
        }
    }
    assert(!encloses(c)) by {
        if c.len() >= 2 {
            assert(!is_op_char(c[0]));
        }
    }
    assert(parse_term(c) == parse_literal(c));
    if t is Zero || t is One {
        assert(!is_param_name(c[0])) by {
            if is_param_name(c[0]) {
                lemma_param_name_code(c[0]);
            }
        }
        assert(c != seq!['x']) by {
            assert(c[0] != seq!['x'][0]);
        }
        if t is One {
            assert(c != seq!['0']) by {
                assert(c[0] != seq!['0'][0]);
            }
        }
    }
    if let Term::Param(p) = t {
        lemma_param_name_code(p);
        assert(c != seq!['x']) by {
            assert(c[0] != seq!['x'][0]);
        }
    }
}

/// The compact form of a readable tree parses back to the tree.
proof fn lemma_parse_compact(t: Term)
    requires
        readable(t),
    ensures
        parse_term(compact(t)) == Ok::<Term, ParseError>(t),
    decreases t,
{
    match t {
        Term::Neg(v) => {
            lemma_parse_compact(*v);
            lemma_compact_shape(*v);
            lemma_parse_neg(compact(*v), *v);
        },
        Term::Sq(v) => {
            lemma_parse_compact(*v);
            lemma_compact_shape(*v);
            lemma_parse_sq(compact(*v), *v);
        },
        Term::Exp(v) | Term::Ln(v) | Term::Sqrt(v) | Term::Sin(v) | Term::Cos(v) | Term::Tan(v) => {
            lemma_parse_compact(*v);
            lemma_compact_shape(*v);
            lemma_parse_call(t, compact(*v), *v);
        },
        Term::Pow(l, r) => {
            lemma_parse_compact(*l);
            lemma_parse_compact(*r);
            lemma_compact_shape(*l);
            lemma_compact_shape(*r);
            lemma_parse_pow(compact(*l), compact(*r), *l, *r);
        },
        Term::Add(l, r) | Term::Sub(l, r) | Term::Mul(l, r) | Term::Div(l, r) => {
            lemma_parse_compact(*l);
            lemma_parse_compact(*r);
            lemma_compact_shape(*l);
            lemma_compact_shape(*r);
            lemma_parse_infix(compact(*l), sign_char(t), compact(*r), *l, *r);
        },
        Term::Polynomial(_) | Term::BtrPolynomial(_) => {},
        _ => lemma_parse_leaf(t),
    }
}

proof fn lemma_normalize_concat(a: Seq<char>, b: Seq<char>)
    ensures
        normalize(a + b) == normalize(a) + normalize(b),
    decreases b.len(),
{
    if b.len() == 0 {
        assert(a + b =~= a);
        assert(normalize(a) + normalize(b) =~= normalize(a));
    } else {
        assert((a + b).drop_last() =~= a + b.drop_last());
        lemma_normalize_concat(a, b.drop_last());
        if !is_space(b.last()) {
            assert(normalize(a) + normalize(b) =~= (normalize(a) + normalize(b.drop_last())).push(
                canonical_bracket(b.last()),
            ));
        }
    }
}

/// A text without spaces and with round brackets only is already normal.
pub proof fn lemma_normalize_plain(s: Seq<char>)
    requires
        forall|i: int| 0 <= i < s.len() ==> !is_space(#[trigger] s[i]) && canonical_bracket(s[i])
            == s[i],
    ensures
        normalize(s) == s,
    decreases s.len(),
{
    if s.len() > 0 {
        lemma_normalize_plain(s.drop_last());
        assert(s.drop_last().push(s.last()) =~= s);
    }
}

/// A sign between two spaces normalizes to the sign.
proof fn lemma_normalize_spaced(c: char)
    requires
        !is_space(c),
        canonical_bracket(c) == c,
    ensures
        normalize(seq![' ', c, ' ']) == seq![c],
{
    lemma_normalize_concat(seq![' '], seq![c, ' ']);
    lemma_normalize_concat(seq![c], seq![' ']);
    assert(seq![' ', c, ' '] =~= seq![' '] + seq![c, ' ']);
    assert(seq![c, ' '] =~= seq![c] + seq![' ']);
    assert(seq![' '].drop_last() =~= Seq::<char>::empty());
    assert(seq![c].drop_last() =~= Seq::<char>::empty());
    assert(normalize(Seq::<char>::empty()) =~= Seq::<char>::empty());
    assert(normalize(seq![' ']) =~= Seq::<char>::empty());
    assert(normalize(seq![c]) =~= seq![c]);
}

proof fn lemma_normalize_leaf(t: Term)
    requires
        readable(t),
        t is X || t is Zero || t is One || t is Param || t is Const,
    ensures
        normalize(display(t)) == compact(t),
{
    reveal_strlit("x");
    reveal_strlit("0");
    reveal_strlit("1");
    if let Term::Param(c) = t {
        lemma_param_name_code(c);
        assert(!is_space(c) && canonical_bracket(c) == c);
    }
    if !(t is Const) {
        lemma_normalize_plain(compact(t));
        assert(display(t) =~= compact(t));
    }
}

proof fn lemma_normalize_neg(v: Term)
    requires
        normalize(display(v)) == compact(v),
    ensures
        normalize(display(Term::Neg(Box::new(v)))) == compact(Term::Neg(Box::new(v))),
{
    reveal_strlit("(-");
    reveal_strlit(")");
    lemma_normalize_plain(seq!['(', '-']);
    lemma_normalize_plain(seq![')']);
    assert("(-"@ =~= seq!['(', '-']);
    assert(")"@ =~= seq![')']);
    lemma_normalize_concat("(-"@, display(v));
    lemma_normalize_concat("(-"@ + display(v), ")"@);
    assert(compact(Term::Neg(Box::new(v))) =~= seq!['(', '-'] + compact(v) + seq![')']);
}

proof fn lemma_normalize_sq(v: Term)
    requires
        normalize(display(v)) == compact(v),
    ensures
        normalize(display(Term::Sq(Box::new(v)))) == compact(Term::Sq(Box::new(v))),
{
    reveal_strlit("(");
    reveal_strlit(")^2");
    lemma_normalize_plain(seq!['(']);
    lemma_normalize_plain(seq![')', '^', '2']);
    assert("("@ =~= seq!['(']);
    assert(")^2"@ =~= seq![')', '^', '2']);
    lemma_normalize_concat("("@, display(v));
    lemma_normalize_concat("("@ + display(v), ")^2"@);
    assert(compact(Term::Sq(Box::new(v))) =~= seq!['('] + compact(v) + seq![')', '^', '2']);
}

proof fn lemma_normalize_call(t: Term)
    requires
        t is Exp || t is Ln || t is Sqrt || t is Sin || t is Cos || t is Tan,
        normalize(display(t.arg())) == compact(t.arg()),
    ensures
        normalize(display(t)) == compact(t),
{
    let v = t.arg();
    reveal_strlit(")");
    reveal_strlit("exp(");
    reveal_strlit("ln(");
    reveal_strlit("sqrt(");
    reveal_strlit("sin(");
    reveal_strlit("cos(");
    reveal_strlit("tan(");
    let w = call_word(t) + seq!['('];
    assert(call_name(t) =~= w);
    lemma_normalize_plain(w);
    lemma_normalize_plain(seq![')']);
    assert(")"@ =~= seq![')']);
    lemma_normalize_concat(call_name(t), display(v));
    lemma_normalize_concat(call_name(t) + display(v), ")"@);
    assert(compact(t) =~= w + compact(v) + seq![')']);
}

proof fn lemma_normalize_pow(l: Term, r: Term)
    requires
        normalize(display(l)) == compact(l),
        normalize(display(r)) == compact(r),
    ensures
        normalize(display(Term::Pow(Box::new(l), Box::new(r)))) == compact(
            Term::Pow(Box::new(l), Box::new(r)),
        ),
{
    reveal_strlit("(");
    reveal_strlit(")^(");
    reveal_strlit(")");
    lemma_normalize_plain(seq!['(']);
    lemma_normalize_plain(seq![')', '^', '(']);
    lemma_normalize_plain(seq![')']);
    assert("("@ =~= seq!['(']);
    assert(")^("@ =~= seq![')', '^', '(']);
    assert(")"@ =~= seq![')']);
    lemma_normalize_concat("("@, display(l));
    lemma_normalize_concat("("@ + display(l), ")^("@);
    lemma_normalize_concat("("@ + display(l) + ")^("@, display(r));
    lemma_normalize_concat("("@ + display(l) + ")^("@ + display(r), ")"@);
    assert(compact(Term::Pow(Box::new(l), Box::new(r))) =~= seq!['('] + compact(l) + seq![
        ')',
        '^',
        '(',
    ] + compact(r) + seq![')']);
}

proof fn lemma_normalize_infix(t: Term)
    requires
        t is Add || t is Sub || t is Mul || t is Div,
        normalize(display(t.left())) == compact(t.left()),
        normalize(display(t.right())) == compact(t.right()),
    ensures
        normalize(display(t)) == compact(t),
{
    let l = t.left();
    let r = t.right();
    reveal_strlit("(");
    reveal_strlit(")");
    reveal_strlit(" + ");
    reveal_strlit(" - ");
    reveal_strlit(" * ");
    reveal_strlit(" / ");
    lemma_normalize_plain(seq!['(']);
    lemma_normalize_plain(seq![')']);
    assert("("@ =~= seq!['(']);
    assert(")"@ =~= seq![')']);
    assert(infix(t) =~= seq![' ', sign_char(t), ' ']);
    lemma_normalize_spaced(sign_char(t));
    lemma_normalize_concat("("@, display(l));
    lemma_normalize_concat("("@ + display(l), infix(t));
    lemma_normalize_concat("("@ + display(l) + infix(t), display(r));
    lemma_normalize_concat("("@ + display(l) + infix(t) + display(r), ")"@);
    assert(compact(t) =~= seq!['('] + compact(l) + seq![sign_char(t)] + compact(r) + seq![')']);
}

/// The display form with spaces dropped is the compact form.
proof fn lemma_normalize_display(t: Term)
    requires
        readable(t),
    ensures
        normalize(display(t)) == compact(t),
    decreases t,
{
    match t {
        Term::Neg(v) => {
            lemma_normalize_display(*v);
            lemma_normalize_neg(*v);
        },
        Term::Sq(v) => {
            lemma_normalize_display(*v);
            lemma_normalize_sq(*v);
        },
        Term::Exp(v) | Term::Ln(v) | Term::Sqrt(v) | Term::Sin(v) | Term::Cos(v) | Term::Tan(v) => {
            lemma_normalize_display(*v);
            lemma_normalize_call(t);
        },
        Term::Pow(l, r) => {
            lemma_normalize_display(*l);
            lemma_normalize_display(*r);
            lemma_normalize_pow(*l, *r);
        },
        Term::Add(l, r) | Term::Sub(l, r) | Term::Mul(l, r) | Term::Div(l, r) => {
            lemma_normalize_display(*l);
            lemma_normalize_display(*r);
            lemma_normalize_infix(t);
        },
        Term::Polynomial(_) | Term::BtrPolynomial(_) => {},
        _ => lemma_normalize_leaf(t),
    }
}

/// Round trip: the parser reads the display form of every tree that it
/// can produce back to the same tree (so both evaluate alike everywhere).
pub proof fn lemma_display_round_trip(t: Term)
    requires
        readable(t),
    ensures
        parse_text(display(t)) == Ok::<Term, ParseError>(t),
{
    lemma_normalize_display(t);
    lemma_parse_compact(t);
}

/// Every name of the alphabet, alone, parses as that parameter.
pub proof fn lemma_parse_param_name(c: char)
    requires
        is_param_name(c),
    ensures
        parse_text(seq![c]) == Ok::<Term, ParseError>(Term::Param(c)),
{
    lemma_param_name_code(c);
    lemma_normalize_plain(seq![c]);
    lemma_parse_leaf(Term::Param(c));
}

/// Dropping an enclosing bracket pair keeps the depth.
proof fn lemma_enclosed_depth(s: Seq<char>)
    requires
        encloses(s),
    ensures
        depth(s.subrange(1, s.len() - 1)) == depth(s),
{
    let inner = s.subrange(1, s.len() - 1);
    assert(s =~= seq!['('] + inner + seq![')']);
    assert(depth(Seq::<char>::empty()) == 0);
    assert(seq!['('].drop_last() =~= Seq::<char>::empty());
    assert(seq![')'].drop_last() =~= Seq::<char>::empty());
    assert(depth(seq!['(']) == 1);
    assert(depth(seq![')']) == -1);
    lemma_depth_concat(seq!['('], inner);
    lemma_depth_concat(seq!['('] + inner, seq![')']);
}

proof fn lemma_unbalanced_term(s: Seq<char>)
    requires
        depth(s) != 0,
    ensures
        parse_term(s) == Err::<Term, ParseError>(ParseError::UnbalancedBrackets),
    decreases s.len(),
{
    if encloses(s) {
        lemma_enclosed_depth(s);
        lemma_unbalanced_term(s.subrange(1, s.len() - 1));
    } else {
        assert(has_op(s)) by {
            if !has_op(s) {
                assert forall|i: int| 0 <= i < s.len() implies #[trigger] s[i] != '(' && s[i]
                    != ')' by {
                    assert(!is_op_char(s[i]));
                }
                lemma_flat(s);
            }
        }
    }
}

/// A text whose opening and closing brackets differ in number (curly and
/// square ones counted as round) is rejected for unbalanced brackets.
pub proof fn lemma_unbalanced_rejected(s: Seq<char>)
    requires
        depth(normalize(s)) != 0,
    ensures
        parse_text(s) == Err::<Term, ParseError>(ParseError::UnbalancedBrackets),
{
    lemma_unbalanced_term(normalize(s));
}

/// Inside an enclosing bracket pair the depth stays positive.
proof fn lemma_enclosed_positive(s: Seq<char>, k: int)
    requires
        encloses(s),
        1 <= k < s.len(),
    ensures
        depth(s.take(k)) > 0,
    decreases k,
{
    crate::text::lemma_depth_step(s, k - 1);
    if k == 1 {
        assert(s.take(0) =~= Seq::<char>::empty());
    } else {
        lemma_enclosed_positive(s, k - 1);
    }
}

/// A text whose brackets balance in number but where a closing bracket
/// comes before its opening one is rejected for bracket order.
pub proof fn lemma_bracket_order_rejected(s: Seq<char>)
    requires
        depth(normalize(s)) == 0,
        !never_negative(normalize(s)),
    ensures
        parse_text(s) == Err::<Term, ParseError>(ParseError::BracketOrderViolation),
{
    let t = normalize(s);
    assert(!encloses(t)) by {
        if encloses(t) {
            assert forall|k: int| 0 <= k <= t.len() implies depth(#[trigger] t.take(k)) >= 0 by {
                if k == 0 {
                    assert(t.take(0) =~= Seq::<char>::empty());
                } else if k == t.len() {
                    assert(t.take(k) =~= t);
                } else {
                    lemma_enclosed_positive(t, k);
                }
            }
        }
    }
    assert(has_op(t)) by {
        if !has_op(t) {
            assert forall|i: int| 0 <= i < t.len() implies #[trigger] t[i] != '(' && t[i] != ')' by {
                assert(!is_op_char(t[i]));
            }
            lemma_flat(t);
        }
    }
}

/// No spaces, and round brackets only: what the parser works on.
pub open spec fn is_normal(s: Seq<char>) -> bool {
    forall|i: int| 0 <= i < s.len() ==> !is_space(#[trigger] s[i]) && canonical_bracket(s[i]) == s[i]
}

proof fn lemma_normalize_is_normal(s: Seq<char>)
    ensures
        is_normal(normalize(s)),
    decreases s.len(),
{
    if s.len() > 0 {
        lemma_normalize_is_normal(s.drop_last());
        let init = normalize(s.drop_last());
        if !is_space(s.last()) {
            let c = canonical_bracket(s.last());
            assert forall|i: int| 0 <= i < init.push(c).len() implies !is_space(
                #[trigger] init.push(c)[i],
            ) && canonical_bracket(init.push(c)[i]) == init.push(c)[i] by {
                if i < init.len() {
                    assert(init.push(c)[i] == init[i]);
                }
            }
        }
    }
}

/// A readable tree is well formed.
pub proof fn lemma_readable_wf(t: Term)
    requires
        readable(t),
    ensures
        t.wf(),
    decreases t,
{
    match t {
        Term::Neg(v) | Term::Exp(v) | Term::Ln(v) | Term::Sqrt(v) | Term::Sq(v) | Term::Sin(v)
        | Term::Cos(v) | Term::Tan(v) => lemma_readable_wf(*v),
        Term::Add(l, r) | Term::Sub(l, r) | Term::Mul(l, r) | Term::Div(l, r) | Term::Pow(l, r) => {
            lemma_readable_wf(*l);
            lemma_readable_wf(*r);
        },
        _ => {},
    }
}

pub open spec fn readable_result(r: Result<Term, ParseError>) -> bool {
    r matches Ok(t) ==> readable(t)
}

proof fn lemma_literal_readable(s: Seq<char>)
    requires
        is_normal(s),
        !has_op(s),
    ensures
        readable_result(parse_literal(s)),
{
    if parse_literal(s) matches Ok(Term::Const(_)) {
        lemma_normalize_plain(s);
        assert(s.len() > 0) by {
            if s.len() == 0 {
                assert(!crate::text::is_number(s));
                assert(!crate::text::is_special(s));
            }
        }
    }
}

proof fn lemma_term_readable(s: Seq<char>)
    requires
        is_normal(s),
    ensures
        readable_result(parse_term(s)),
    decreases s.len(), 2nat,
{
    if encloses(s) {
        lemma_term_readable(s.subrange(1, s.len() - 1));
    } else if !has_op(s) {
        lemma_literal_readable(s);
    } else if depth(s) == 0 && never_negative(s) {
        lemma_operators_readable(s);
    }
}

proof fn lemma_operators_readable(s: Seq<char>)
    requires
        is_normal(s),
    ensures
        readable_result(parse_operators(s)),
    decreases s.len(), 1nat,
{
    let n = s.len() as int;
    lemma_split_points(s);
    if first_top(s, '+', n) is Some {
        let i = first_top(s, '+', n)->0;
        lemma_term_readable(s.take(i));
        lemma_term_readable(s.skip(i + 1));
    } else if last_top(s, '-', n) is Some {
        let i = last_top(s, '-', n)->0;
        lemma_term_readable(s.take(i));
        lemma_term_readable(s.skip(i + 1));
    } else if n > 0 && s[0] == '-' {
        lemma_term_readable(s.drop_first());
    } else if first_top(s, '*', n) is Some {
        let i = first_top(s, '*', n)->0;
        lemma_term_readable(s.take(i));
        lemma_term_readable(s.skip(i + 1));
    } else if first_top(s, '/', n) is Some {
        let i = first_top(s, '/', n)->0;
        lemma_term_readable(s.take(i));
        lemma_term_readable(s.skip(i + 1));
    } else if first_top(s, '^', n) is Some {
        let i = first_top(s, '^', n)->0;
        lemma_term_readable(s.take(i));
        lemma_term_readable(s.skip(i + 1));
    } else {
        lemma_calls_readable(s);
    }
}

proof fn lemma_calls_readable(s: Seq<char>)
    requires
        is_normal(s),
    ensures
        readable_result(parse_calls(s)),
    decreases s.len(), 0nat,
{
    if let Some((op, a, b)) = call_rule(s) {
        if 0 <= a <= b <= s.len() && b - a < s.len() {
            lemma_term_readable(s.subrange(a, b));
        }
    }
}

/// What the parser returns is readable: no polynomial, parameter names
/// from the alphabet, constants spelled as literals, no power of two.
pub proof fn lemma_parse_readable(s: Seq<char>)
    ensures
        parse_text(s) matches Ok(t) ==> readable(t) && t.wf(),
{
    lemma_normalize_is_normal(s);
    lemma_term_readable(normalize(s));
    if parse_text(s) is Ok {
        lemma_readable_wf(parse_text(s)->Ok_0);
    }
}

/// Round trip on texts: whatever text parses, its tree displayed and parsed
/// again is the same tree.
pub proof fn lemma_reparse_display(s: Seq<char>)
    requires
        parse_text(s) is Ok,
    ensures
        parse_text(display(parse_text(s)->Ok_0)) == parse_text(s),
{
    lemma_parse_readable(s);
    lemma_display_round_trip(parse_text(s)->Ok_0);
}

} // verus!
