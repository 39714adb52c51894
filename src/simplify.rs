//! One bottom-up pass of algebraic rewriting.
use vstd::prelude::*;

use crate::function::{Function, Term};

verus! {

/// A leaf that holds a number.
pub open spec fn is_lit(t: Term) -> bool {
    t is Const || t is Zero || t is One
}

/// `-x`.
pub open spec fn is_neg_x(t: Term) -> bool {
    t is Neg && t.arg() is X
}

/// A node whose operands are all numbers: it is folded into one constant.
pub open spec fn needs_fold(n: Term) -> bool {
    (n.is_unary() && is_lit(n.arg())) || (n.is_binary() && is_lit(n.left()) && is_lit(n.right()))
}

/// A parameter swallows what is done to it.
pub open spec fn absorbs_param(n: Term) -> bool {
    ||| n.is_unary() && n.arg() is Param
    ||| n.is_binary() && n.left() is Param && (n.right() is Param || is_lit(n.right()))
}

/// `x - x`, `x + -x`, `-x + x`, `0 * e`, `e * 0`, `0 ^ e`.
pub open spec fn is_zero_rule(n: Term) -> bool {
    ||| n is Sub && n.left() is X && n.right() is X
    ||| n is Add && n.left() is X && is_neg_x(n.right())
    ||| n is Add && is_neg_x(n.left()) && n.right() is X
    ||| n is Mul && (n.left() is Zero || n.right() is Zero)
    ||| n is Pow && n.left() is Zero
}

/// `x / x`, `x / -x`, `-x / x`, `1 ^ e`, `e ^ 0`.
pub open spec fn is_one_rule(n: Term) -> bool {
    ||| n is Div && n.left() is X && n.right() is X
    ||| n is Div && n.left() is X && is_neg_x(n.right())
    ||| n is Div && is_neg_x(n.left()) && n.right() is X
    ||| n is Pow && (n.left() is One || n.right() is Zero)
}

/// `--e`, `ln(exp(e))`, `exp(ln(e))`, `sqrt(e^2)`, `(sqrt(e))^2`.
pub open spec fn is_inverse_rule(n: Term) -> bool {
    ||| n is Neg && n.arg() is Neg
    ||| n is Ln && n.arg() is Exp
    ||| n is Exp && n.arg() is Ln
    ||| n is Sqrt && n.arg() is Sq
    ||| n is Sq && n.arg() is Sqrt
}

/// `e + 0`, `e - 0`, `e * 1`, `e / 1`, `e ^ 1`.
pub open spec fn keeps_left(n: Term) -> bool {
    ||| (n is Add || n is Sub) && n.right() is Zero
    ||| (n is Mul || n is Div || n is Pow) && n.right() is One
}

/// `0 + e`, `1 * e`.
pub open spec fn keeps_right(n: Term) -> bool {
    ||| n is Add && n.left() is Zero
    ||| n is Mul && n.left() is One
}

/// The rule table for a node whose children are already simplified and
/// which is not folded: the first rule that matches replaces it.
pub open spec fn rewrite(n: Term) -> Term {
    if absorbs_param(n) {
        if n.is_unary() {
            n.arg()
        } else {
            n.left()
        }
    } else if n is Div && n.right() is Param {
        Term::Mul(Box::new(n.left()), Box::new(n.right()))
    } else if is_zero_rule(n) {
        Term::Zero
    } else if is_one_rule(n) {
        Term::One
    } else if is_inverse_rule(n) {
        n.arg().arg()
    } else if keeps_left(n) {
        n.left()
    } else if keeps_right(n) {
        n.right()
    } else if n is Sub && n.left() is Zero {
        Term::Neg(Box::new(n.right()))
    } else if n is Sq && n.arg() is Neg {
        Term::Sq(Box::new(n.arg().arg()))
    } else {
        n
    }
}

/// `fold` may turn the constant node `n` into a constant spelled `value`.
pub open spec fn folds_to<F: Fn(&Function) -> String>(fold: F, n: Term, value: Seq<char>) -> bool {
    exists|f: Function, t: String| f@ == n && t@ == value && #[trigger] fold.ensures((&f,), t)
}

/// What becomes of a node whose children are already simplified.
pub open spec fn step<F: Fn(&Function) -> String>(n: Term, r: Term, fold: F) -> bool {
    if needs_fold(n) {
        r is Const && folds_to(fold, n, r->Const_0)
    } else {
        r == rewrite(n)
    }
}

/// `r` is what one simplification pass makes of `e`, where `fold` gives
/// the value of each constant node: the children first, then the node.
pub open spec fn simplifies_to<F: Fn(&Function) -> String>(e: Term, r: Term, fold: F) -> bool
    decreases e,
{
    match e {
        Term::Neg(v) | Term::Exp(v) | Term::Ln(v) | Term::Sqrt(v) | Term::Sq(v) | Term::Sin(v)
        | Term::Cos(v) | Term::Tan(v) => exists|v2: Term|
            simplifies_to(*v, v2, fold) && #[trigger] step(
                Term::unary(e.unary_op(), v2),
                r,
                fold,
            ),
        Term::Add(l, rr) | Term::Sub(l, rr) | Term::Mul(l, rr) | Term::Div(l, rr) | Term::Pow(
            l,
            rr,
        ) => exists|l2: Term, r2: Term|
            simplifies_to(*l, l2, fold) && simplifies_to(*rr, r2, fold) && #[trigger] step(
                Term::binary(e.binary_op(), l2, r2),
                r,
                fold,
            ),
        _ => r == e,
    }
}

fn is_lit_check(f: &Function) -> (r: bool)
    ensures
        r == is_lit(f@),
{
    matches!(f, Function::Const { .. } | Function::Zero | Function::One)
}

fn is_neg_x_check(f: &Function) -> (r: bool)
    ensures
        r == is_neg_x(f@),
{
    match f {
        Function::Neg { value } => {
            assert(f@.arg() == (**value).view());
            matches!(**value, Function::X)
        },
        _ => false,
    }
}

fn is_unary_check(f: &Function) -> (r: bool)
    ensures
        r == f@.is_unary(),
{
    matches!(
        f,
        Function::Neg { .. } | Function::Exp { .. } | Function::Ln { .. } | Function::Sqrt { .. }
            | Function::Sq { .. } | Function::Sin { .. } | Function::Cos { .. } | Function::Tan {
            ..
        }
    )
}

fn is_binary_check(f: &Function) -> (r: bool)
    ensures
        r == f@.is_binary(),
{
    matches!(
        f,
        Function::Add { .. } | Function::Sub { .. } | Function::Mul { .. } | Function::Div { .. }
            | Function::Pow { .. }
    )
}

fn is_x(f: &Function) -> (r: bool)
    ensures
        r == f@ is X,
{
    matches!(f, Function::X)
}

fn is_zero(f: &Function) -> (r: bool)
    ensures
        r == f@ is Zero,
{
    matches!(f, Function::Zero)
}

fn is_one(f: &Function) -> (r: bool)
    ensures
        r == f@ is One,
{
    matches!(f, Function::One)
}

fn is_param(f: &Function) -> (r: bool)
    ensures
        r == f@ is Param,
{
    matches!(f, Function::Param { .. })
}

fn needs_fold_check(n: &Function) -> (r: bool)
    ensures
        r == needs_fold(n@),
{
    if is_unary_check(n) {
        is_lit_check(n.arg_ref())
    } else if is_binary_check(n) {
        let (l, r) = n.children_ref();
        is_lit_check(l) && is_lit_check(r)
    } else {
        false
    }
}

fn absorbs_param_check(n: &Function) -> (r: bool)
    ensures
        r == absorbs_param(n@),
{
    if is_unary_check(n) {
        is_param(n.arg_ref())
    } else if is_binary_check(n) {
        let (l, r) = n.children_ref();
        is_param(l) && (is_param(r) || is_lit_check(r))
    } else {
        false
    }
}

fn zero_rule_check(n: &Function) -> (r: bool)
    ensures
        r == is_zero_rule(n@),
{
    if !is_binary_check(n) {
        return false;
    }
    let (l, r) = n.children_ref();
    match n {
        Function::Sub { .. } => is_x(l) && is_x(r),
        Function::Add { .. } => (is_x(l) && is_neg_x_check(r)) || (is_neg_x_check(l) && is_x(r)),
        Function::Mul { .. } => is_zero(l) || is_zero(r),
        Function::Pow { .. } => is_zero(l),
        _ => false,
    }
}

fn one_rule_check(n: &Function) -> (r: bool)
    ensures
        r == is_one_rule(n@),
{
    if !is_binary_check(n) {
        return false;
    }
    let (l, r) = n.children_ref();
    match n {
        Function::Div { .. } => (is_x(l) && is_x(r)) || (is_x(l) && is_neg_x_check(r)) || (
        is_neg_x_check(l) && is_x(r)),
        Function::Pow { .. } => is_one(l) || is_zero(r),
        _ => false,
    }
}

fn inverse_rule_check(n: &Function) -> (r: bool)
    ensures
        r == is_inverse_rule(n@),
{
    if !is_unary_check(n) {
        return false;
    }
    let v = n.arg_ref();
    match n {
        Function::Neg { .. } => matches!(v, Function::Neg { .. }),
        Function::Ln { .. } => matches!(v, Function::Exp { .. }),
        Function::Exp { .. } => matches!(v, Function::Ln { .. }),
        Function::Sqrt { .. } => matches!(v, Function::Sq { .. }),
        Function::Sq { .. } => matches!(v, Function::Sqrt { .. }),
        _ => false,
    }
}

fn keeps_left_check(n: &Function) -> (r: bool)
    ensures
        r == keeps_left(n@),
{
    if !is_binary_check(n) {
        return false;
    }
    let (_, r) = n.children_ref();
    match n {
        Function::Add { .. } | Function::Sub { .. } => is_zero(r),
        _ => is_one(r),
    }
}

fn keeps_right_check(n: &Function) -> (r: bool)
    ensures
        r == keeps_right(n@),
{
    if !is_binary_check(n) {
        return false;
    }
    let (l, _) = n.children_ref();
    match n {
        Function::Add { .. } => is_zero(l),
        Function::Mul { .. } => is_one(l),
        _ => false,
    }
}

/// Applies the rule table to a node whose children are simplified.
fn rewrite_node(n: Function) -> (r: Function)
    ensures
        r@ == rewrite(n@),
        n@.wf() ==> r@.wf(),
{
    proof {
        if n@.wf() {
            n@.lemma_wf_parts();
            if n@.is_unary() {
                n@.arg().lemma_wf_parts();
            }
        }
    }
    if absorbs_param_check(&n) {
        if is_unary_check(&n) {
            return n.into_arg();
        } else {
            return n.into_children().0;
        }
    }
    if matches!(n, Function::Div { .. }) && is_param(n.children_ref().1) {
        let (l, r) = n.into_children();
        return Function::Mul { lhs: Box::new(l), rhs: Box::new(r) };
    }
    if zero_rule_check(&n) {
        return Function::Zero;
    }
    if one_rule_check(&n) {
        return Function::One;
    }
    if inverse_rule_check(&n) {
        return n.into_arg().into_arg();
    }
    if keeps_left_check(&n) {
        return n.into_children().0;
    }
    if keeps_right_check(&n) {
        return n.into_children().1;
    }
    if matches!(n, Function::Sub { .. }) && is_zero(n.children_ref().0) {
        let (_, r) = n.into_children();
        return Function::Neg { value: Box::new(r) };
    }
    if matches!(n, Function::Sq { .. }) && matches!(n.arg_ref(), Function::Neg { .. }) {
        return Function::Sq { value: Box::new(n.into_arg().into_arg()) };
    }
    n
}

/// What becomes of a node whose children are simplified.
fn step_node<F: Fn(&Function) -> String>(n: Function, fold: &F) -> (r: Function)
    requires
        forall|f: &Function| fold.requires((f,)),
    ensures
        step(n@, r@, *fold),
        n@.wf() ==> r@.wf(),
{
    if needs_fold_check(&n) {
        let t = fold(&n);
        assert(folds_to(*fold, n@, t@));
        Function::Const { value: t }
    } else {
        rewrite_node(n)
    }
}

impl Function {
    /// One bottom-up simplification pass: every child is simplified, then
    /// the node itself goes through the rule table (see [`rewrite`]).
    ///
    /// A node whose operands are all numbers becomes the constant that
    /// `fold` returns for it: the evaluation of such a node is floating
    /// point, which the caller supplies.
    pub fn simplify<F: Fn(&Function) -> String>(self, fold: &F) -> (r: Function)
        requires
            forall|f: &Function| fold.requires((f,)),
        ensures
            simplifies_to(self@, r@, *fold),
            self@.wf() ==> r@.wf(),
        decreases self@.size(),
    {
        let ghost e = self@;
        if is_unary_check(&self) {
            let op = self.unary_op_of();
            let v = self.into_arg();
            let v2 = v.simplify(fold);
            let r = step_node(Function::unary(op, v2), fold);
            assert(simplifies_to(e.arg(), v2@, *fold) && step(Term::unary(op, v2@), r@, *fold));
            r
        } else if is_binary_check(&self) {
            let op = self.binary_op_of();
            let (l, rr) = self.into_children();
            let l2 = l.simplify(fold);
            let r2 = rr.simplify(fold);
            let r = step_node(Function::binary(op, l2, r2), fold);
            assert(simplifies_to(e.left(), l2@, *fold) && simplifies_to(e.right(), r2@, *fold)
                && step(Term::binary(op, l2@, r2@), r@, *fold));
            r
        } else {
            self
        }
    }
}

/// `n` negations around `t`.
pub open spec fn negations(n: nat, t: Term) -> Term
    decreases n,
{
    if n == 0 {
        t
    } else {
        Term::Neg(Box::new(negations((n - 1) as nat, t)))
    }
}

/// One pass takes any number of negations around `x` down to `x` or `-x`,
/// by their parity: each cancellation exposes the next to the same pass.
pub proof fn lemma_nested_negations<F: Fn(&Function) -> String>(n: nat, r: Term, fold: F)
    requires
        simplifies_to(negations(n, Term::X), r, fold),
    ensures
        r == if n % 2 == 0 {
            Term::X
        } else {
            Term::Neg(Box::new(Term::X))
        },
    decreases n,
{
    if n > 0 {
        let e = negations(n, Term::X);
        let v2 = choose|v2: Term|
            simplifies_to(negations((n - 1) as nat, Term::X), v2, fold) && #[trigger] step(
                Term::unary(e.unary_op(), v2),
                r,
                fold,
            );
        lemma_nested_negations((n - 1) as nat, v2, fold);
    }
}

} // verus!
