//! Random formulas of a given complexity.
use vstd::prelude::*;

use rand::rngs::StdRng;

use crate::function::{BinaryOp, Function, Term, UnaryOp};
use crate::param::{param_name_at, PARAMETERS_AMOUNT};

verus! {

#[verifier::external_type_specification]
#[verifier::external_body]
pub struct ExStdRng(StdRng);

/// Relies on `rand::Rng::gen_range` over an inclusive range: a value
/// between the bounds; it panics only on an empty range.
#[verifier::external_body]
fn random_in(rng: &mut StdRng, lo: u32, hi: u32) -> (r: u32)
    requires
        lo <= hi,
    ensures
        lo <= r <= hi,
{
    rand::Rng::gen_range(rng, lo..=hi)
}

impl Term {
    /// The number of operation nodes (those with children).
    pub open spec fn ops(self) -> nat
        decreases self,
    {
        match self {
            Term::Neg(v) | Term::Exp(v) | Term::Ln(v) | Term::Sqrt(v) | Term::Sq(v) | Term::Sin(v)
            | Term::Cos(v) | Term::Tan(v) => 1 + v.ops(),
            Term::Add(l, r) | Term::Sub(l, r) | Term::Mul(l, r) | Term::Div(l, r) | Term::Pow(
                l,
                r,
            ) => 1 + l.ops() + r.ops(),
            _ => 0,
        }
    }

    /// The number of nodes on the longest path from the root to a leaf.
    pub open spec fn height(self) -> nat
        decreases self,
    {
        match self {
            Term::Neg(v) | Term::Exp(v) | Term::Ln(v) | Term::Sqrt(v) | Term::Sq(v) | Term::Sin(v)
            | Term::Cos(v) | Term::Tan(v) => 1 + v.height(),
            Term::Add(l, r) | Term::Sub(l, r) | Term::Mul(l, r) | Term::Div(l, r) | Term::Pow(
                l,
                r,
            ) => 1 + if l.height() >= r.height() {
                l.height()
            } else {
                r.height()
            },
            _ => 1,
        }
    }

    /// Every leaf is the variable or a parameter.
    pub open spec fn leaves_are_inputs(self) -> bool
        decreases self,
    {
        match self {
            Term::X | Term::Param(_) => true,
            Term::Neg(v) | Term::Exp(v) | Term::Ln(v) | Term::Sqrt(v) | Term::Sq(v) | Term::Sin(v)
            | Term::Cos(v) | Term::Tan(v) => v.leaves_are_inputs(),
            Term::Add(l, r) | Term::Sub(l, r) | Term::Mul(l, r) | Term::Div(l, r) | Term::Pow(
                l,
                r,
            ) => l.leaves_are_inputs() && r.leaves_are_inputs(),
            _ => false,
        }
    }
}

/// The kind of one-child node that a drawn number in `0..=7` picks.
pub open spec fn unary_of(k: u32) -> UnaryOp {
    if k == 0 {
        UnaryOp::Neg
    } else if k == 1 {
        UnaryOp::Exp
    } else if k == 2 {
        UnaryOp::Ln
    } else if k == 3 {
        UnaryOp::Sqrt
    } else if k == 4 {
        UnaryOp::Sq
    } else if k == 5 {
        UnaryOp::Sin
    } else if k == 6 {
        UnaryOp::Cos
    } else {
        UnaryOp::Tan
    }
}

/// The kind of two-child node that a drawn number in `8..=12` picks.
pub open spec fn binary_of(k: u32) -> BinaryOp {
    if k == 8 {
        BinaryOp::Add
    } else if k == 9 {
        BinaryOp::Sub
    } else if k == 10 {
        BinaryOp::Mul
    } else if k == 11 {
        BinaryOp::Div
    } else {
        BinaryOp::Pow
    }
}

fn unary_from(k: u32) -> (r: UnaryOp)
    ensures
        r == unary_of(k),
{
    if k == 0 {
        UnaryOp::Neg
    } else if k == 1 {
        UnaryOp::Exp
    } else if k == 2 {
        UnaryOp::Ln
    } else if k == 3 {
        UnaryOp::Sqrt
    } else if k == 4 {
        UnaryOp::Sq
    } else if k == 5 {
        UnaryOp::Sin
    } else if k == 6 {
        UnaryOp::Cos
    } else {
        UnaryOp::Tan
    }
}

fn binary_from(k: u32) -> (r: BinaryOp)
    ensures
        r == binary_of(k),
{
    if k == 8 {
        BinaryOp::Add
    } else if k == 9 {
        BinaryOp::Sub
    } else if k == 10 {
        BinaryOp::Mul
    } else if k == 11 {
        BinaryOp::Div
    } else {
        BinaryOp::Pow
    }
}

impl Function {
    /// A random formula with exactly `complexity` operation nodes.
    ///
    /// At complexity zero it is the variable or a random parameter, with
    /// equal odds. Otherwise one of the thirteen node kinds is drawn: a
    /// one-child node spends the rest of the complexity on its child, a
    /// two-child node splits it at a random point between its children.
    pub fn gen(complexity: u32, rng: &mut StdRng) -> (r: Function)
        ensures
            r@.wf(),
            r@.leaves_are_inputs(),
            r@.ops() == complexity,
            r@.height() <= complexity + 1,
        decreases complexity,
    {
        if complexity == 0 {
            if random_in(rng, 0, 1) == 0 {
                Function::X
            } else {
                let i = random_in(rng, 0, (PARAMETERS_AMOUNT - 1) as u32);
                Function::Param { name: param_name_at(i as usize) }
            }
        } else {
            let complexity = complexity - 1;
            let partition = random_in(rng, 0, complexity);
            let k = random_in(rng, 0, 12);
            if k <= 7 {
                let v = Function::gen(complexity, rng);
                Function::unary(unary_from(k), v)
            } else {
                let l = Function::gen(partition, rng);
                let r = Function::gen(complexity - partition, rng);
                Function::binary(binary_from(k), l, r)
            }
        }
    }
}

} // verus!
