//! The expression tree.
use vstd::prelude::*;

use crate::param::{alphabet, is_param_name, param_name_at, PARAMETERS_AMOUNT};

verus! {

/// A formula in the free variable `x` and named scalar parameters.
///
/// A constant holds its decimal spelling (`"3.14"`); `Zero` and `One` are
/// the canonical forms of `0` and `1`. `Polynomial` and `BtrPolynomial`
/// stand for `a + bx + cx^2 + ...` and `a + bx + cx^2/2! + ...` over the
/// first `degree + 1` parameter names.
#[derive(Debug, PartialEq)]
#[allow(inconsistent_fields)]
pub enum Function {
    X,
    Const { value: String },
    Zero,
    One,
    Param { name: char },
    Neg { value: Box<Function> },
    Exp { value: Box<Function> },
    Ln { value: Box<Function> },
    Sqrt { value: Box<Function> },
    Sq { value: Box<Function> },
    Sin { value: Box<Function> },
    Cos { value: Box<Function> },
    Tan { value: Box<Function> },
    Add { lhs: Box<Function>, rhs: Box<Function> },
    Sub { lhs: Box<Function>, rhs: Box<Function> },
    Mul { lhs: Box<Function>, rhs: Box<Function> },
    Div { lhs: Box<Function>, rhs: Box<Function> },
    Pow { lhs: Box<Function>, rhs: Box<Function> },
    Polynomial { degree: usize },
    BtrPolynomial { degree: usize },
}

impl Clone for Function {
    fn clone(&self) -> (r: Self)
        ensures
            r@ == self@,
        decreases self,
    {
        match self {
            Function::X => Function::X,
            Function::Const { value } => Function::Const { value: value.clone() },
            Function::Zero => Function::Zero,
            Function::One => Function::One,
            Function::Param { name } => Function::Param { name: *name },
            Function::Neg { value } => Function::Neg { value: Box::new((**value).clone()) },
            Function::Exp { value } => Function::Exp { value: Box::new((**value).clone()) },
            Function::Ln { value } => Function::Ln { value: Box::new((**value).clone()) },
            Function::Sqrt { value } => Function::Sqrt { value: Box::new((**value).clone()) },
            Function::Sq { value } => Function::Sq { value: Box::new((**value).clone()) },
            Function::Sin { value } => Function::Sin { value: Box::new((**value).clone()) },
            Function::Cos { value } => Function::Cos { value: Box::new((**value).clone()) },
            Function::Tan { value } => Function::Tan { value: Box::new((**value).clone()) },
            Function::Add { lhs, rhs } => Function::Add {
                lhs: Box::new((**lhs).clone()),
                rhs: Box::new((**rhs).clone()),
            },
            Function::Sub { lhs, rhs } => Function::Sub {
                lhs: Box::new((**lhs).clone()),
                rhs: Box::new((**rhs).clone()),
            },
            Function::Mul { lhs, rhs } => Function::Mul {
                lhs: Box::new((**lhs).clone()),
                rhs: Box::new((**rhs).clone()),
            },
            Function::Div { lhs, rhs } => Function::Div {
                lhs: Box::new((**lhs).clone()),
                rhs: Box::new((**rhs).clone()),
            },
            Function::Pow { lhs, rhs } => Function::Pow {
                lhs: Box::new((**lhs).clone()),
                rhs: Box::new((**rhs).clone()),
            },
            Function::Polynomial { degree } => Function::Polynomial { degree: *degree },
            Function::BtrPolynomial { degree } => Function::BtrPolynomial { degree: *degree },
        }
    }
}

/// The mathematical model of a [`Function`]: the same tree, with each
/// constant's spelling as a sequence of characters.
pub enum Term {
    X,
    Const(Seq<char>),
    Zero,
    One,
    Param(char),
    Neg(Box<Term>),
    Exp(Box<Term>),
    Ln(Box<Term>),
    Sqrt(Box<Term>),
    Sq(Box<Term>),
    Sin(Box<Term>),
    Cos(Box<Term>),
    Tan(Box<Term>),
    Add(Box<Term>, Box<Term>),
    Sub(Box<Term>, Box<Term>),
    Mul(Box<Term>, Box<Term>),
    Div(Box<Term>, Box<Term>),
    Pow(Box<Term>, Box<Term>),
    Polynomial(nat),
    BtrPolynomial(nat),
}

impl Function {
    /// The model of the tree.
    pub open spec fn view(&self) -> Term
        decreases self,
    {
        match self {
            Function::X => Term::X,
            Function::Const { value } => Term::Const(value@),
            Function::Zero => Term::Zero,
            Function::One => Term::One,
            Function::Param { name } => Term::Param(*name),
            Function::Neg { value } => Term::Neg(Box::new((**value).view())),
            Function::Exp { value } => Term::Exp(Box::new((**value).view())),
            Function::Ln { value } => Term::Ln(Box::new((**value).view())),
            Function::Sqrt { value } => Term::Sqrt(Box::new((**value).view())),
            Function::Sq { value } => Term::Sq(Box::new((**value).view())),
            Function::Sin { value } => Term::Sin(Box::new((**value).view())),
            Function::Cos { value } => Term::Cos(Box::new((**value).view())),
            Function::Tan { value } => Term::Tan(Box::new((**value).view())),
            Function::Add { lhs, rhs } => Term::Add(Box::new((**lhs).view()), Box::new((**rhs).view())),
            Function::Sub { lhs, rhs } => Term::Sub(Box::new((**lhs).view()), Box::new((**rhs).view())),
            Function::Mul { lhs, rhs } => Term::Mul(Box::new((**lhs).view()), Box::new((**rhs).view())),
            Function::Div { lhs, rhs } => Term::Div(Box::new((**lhs).view()), Box::new((**rhs).view())),
            Function::Pow { lhs, rhs } => Term::Pow(Box::new((**lhs).view()), Box::new((**rhs).view())),
            Function::Polynomial { degree } => Term::Polynomial(*degree as nat),
            Function::BtrPolynomial { degree } => Term::BtrPolynomial(*degree as nat),
        }
    }
}

/// The one-argument node kinds.
#[derive(Debug, Clone, Copy, PartialEq, Eq, Structural)]
pub enum UnaryOp {
    Neg,
    Exp,
    Ln,
    Sqrt,
    Sq,
    Sin,
    Cos,
    Tan,
}

/// The two-argument node kinds.
#[derive(Debug, Clone, Copy, PartialEq, Eq, Structural)]
pub enum BinaryOp {
    Add,
    Sub,
    Mul,
    Div,
    Pow,
}

impl Term {
    /// A node with one child.
    pub open spec fn is_unary(self) -> bool {
        self is Neg || self is Exp || self is Ln || self is Sqrt || self is Sq || self is Sin
            || self is Cos || self is Tan
    }

    /// A node with two children.
    pub open spec fn is_binary(self) -> bool {
        self is Add || self is Sub || self is Mul || self is Div || self is Pow
    }

    /// The child of a one-child node.
    pub open spec fn arg(self) -> Term {
        match self {
            Term::Neg(v) | Term::Exp(v) | Term::Ln(v) | Term::Sqrt(v) | Term::Sq(v) | Term::Sin(v)
            | Term::Cos(v) | Term::Tan(v) => *v,
            _ => self,
        }
    }

    /// The left child of a two-child node.
    pub open spec fn left(self) -> Term {
        match self {
            Term::Add(l, _) | Term::Sub(l, _) | Term::Mul(l, _) | Term::Div(l, _) | Term::Pow(
                l,
                _,
            ) => *l,
            _ => self,
        }
    }

    /// The right child of a two-child node.
    pub open spec fn right(self) -> Term {
        match self {
            Term::Add(_, r) | Term::Sub(_, r) | Term::Mul(_, r) | Term::Div(_, r) | Term::Pow(
                _,
                r,
            ) => *r,
            _ => self,
        }
    }

    /// The kind of a one-child node.
    pub open spec fn unary_op(self) -> UnaryOp {
        match self {
            Term::Exp(_) => UnaryOp::Exp,
            Term::Ln(_) => UnaryOp::Ln,
            Term::Sqrt(_) => UnaryOp::Sqrt,
            Term::Sq(_) => UnaryOp::Sq,
            Term::Sin(_) => UnaryOp::Sin,
            Term::Cos(_) => UnaryOp::Cos,
            Term::Tan(_) => UnaryOp::Tan,
            _ => UnaryOp::Neg,
        }
    }

    /// The kind of a two-child node.
    pub open spec fn binary_op(self) -> BinaryOp {
        match self {
            Term::Sub(_, _) => BinaryOp::Sub,
            Term::Mul(_, _) => BinaryOp::Mul,
            Term::Div(_, _) => BinaryOp::Div,
            Term::Pow(_, _) => BinaryOp::Pow,
            _ => BinaryOp::Add,
        }
    }

    /// The children of a well-formed node are well formed.
    pub proof fn lemma_wf_parts(self)
        requires
            self.wf(),
        ensures
            self.is_unary() ==> self.arg().wf(),
            self.is_binary() ==> self.left().wf() && self.right().wf(),
    {
    }

    /// The number of nodes.
    pub open spec fn size(self) -> nat
        decreases self,
    {
        match self {
            Term::Neg(v) | Term::Exp(v) | Term::Ln(v) | Term::Sqrt(v) | Term::Sq(v) | Term::Sin(v)
            | Term::Cos(v) | Term::Tan(v) => 1 + v.size(),
            Term::Add(l, r) | Term::Sub(l, r) | Term::Mul(l, r) | Term::Div(l, r) | Term::Pow(
                l,
                r,
            ) => 1 + l.size() + r.size(),
            _ => 1,
        }
    }

    /// The node of kind `op` over `v`.
    pub open spec fn unary(op: UnaryOp, v: Term) -> Term {
        match op {
            UnaryOp::Neg => Term::Neg(Box::new(v)),
            UnaryOp::Exp => Term::Exp(Box::new(v)),
            UnaryOp::Ln => Term::Ln(Box::new(v)),
            UnaryOp::Sqrt => Term::Sqrt(Box::new(v)),
            UnaryOp::Sq => Term::Sq(Box::new(v)),
            UnaryOp::Sin => Term::Sin(Box::new(v)),
            UnaryOp::Cos => Term::Cos(Box::new(v)),
            UnaryOp::Tan => Term::Tan(Box::new(v)),
        }
    }

    /// The node of kind `op` over `l` and `r`.
    pub open spec fn binary(op: BinaryOp, l: Term, r: Term) -> Term {
        match op {
            BinaryOp::Add => Term::Add(Box::new(l), Box::new(r)),
            BinaryOp::Sub => Term::Sub(Box::new(l), Box::new(r)),
            BinaryOp::Mul => Term::Mul(Box::new(l), Box::new(r)),
            BinaryOp::Div => Term::Div(Box::new(l), Box::new(r)),
            BinaryOp::Pow => Term::Pow(Box::new(l), Box::new(r)),
        }
    }

    /// Every parameter name in the tree is in the alphabet, and every
    /// polynomial has at most as many coefficients as there are names.
    pub open spec fn wf(self) -> bool
        decreases self,
    {
        match self {
            Term::Param(name) => is_param_name(name),
            Term::Neg(v) | Term::Exp(v) | Term::Ln(v) | Term::Sqrt(v) | Term::Sq(v) | Term::Sin(v)
            | Term::Cos(v) | Term::Tan(v) => v.wf(),
            Term::Add(l, r) | Term::Sub(l, r) | Term::Mul(l, r) | Term::Div(l, r) | Term::Pow(
                l,
                r,
            ) => l.wf() && r.wf(),
            Term::Polynomial(degree) | Term::BtrPolynomial(degree) => degree < PARAMETERS_AMOUNT,
            _ => true,
        }
    }

    /// The parameter names that the tree reads, left to right, repeats kept.
    pub open spec fn param_names(self) -> Seq<char>
        decreases self,
    {
        match self {
            Term::Param(name) => seq![name],
            Term::Neg(v) | Term::Exp(v) | Term::Ln(v) | Term::Sqrt(v) | Term::Sq(v) | Term::Sin(v)
            | Term::Cos(v) | Term::Tan(v) => v.param_names(),
            Term::Add(l, r) | Term::Sub(l, r) | Term::Mul(l, r) | Term::Div(l, r) | Term::Pow(
                l,
                r,
            ) => l.param_names() + r.param_names(),
            Term::Polynomial(degree) | Term::BtrPolynomial(degree) => alphabet().take(
                degree + 1 as int,
            ),
            _ => Seq::empty(),
        }
    }
}

impl Function {
    /// The node of kind `op` over `v`.
    pub fn unary(op: UnaryOp, v: Function) -> (r: Function)
        ensures
            r@ == Term::unary(op, v@),
    {
        let b = Box::new(v);
        match op {
            UnaryOp::Neg => Function::Neg { value: b },
            UnaryOp::Exp => Function::Exp { value: b },
            UnaryOp::Ln => Function::Ln { value: b },
            UnaryOp::Sqrt => Function::Sqrt { value: b },
            UnaryOp::Sq => Function::Sq { value: b },
            UnaryOp::Sin => Function::Sin { value: b },
            UnaryOp::Cos => Function::Cos { value: b },
            UnaryOp::Tan => Function::Tan { value: b },
        }
    }

    /// The node of kind `op` over `l` and `r`.
    pub fn binary(op: BinaryOp, l: Function, r: Function) -> (f: Function)
        ensures
            f@ == Term::binary(op, l@, r@),
    {
        let lhs = Box::new(l);
        let rhs = Box::new(r);
        match op {
            BinaryOp::Add => Function::Add { lhs, rhs },
            BinaryOp::Sub => Function::Sub { lhs, rhs },
            BinaryOp::Mul => Function::Mul { lhs, rhs },
            BinaryOp::Div => Function::Div { lhs, rhs },
            BinaryOp::Pow => Function::Pow { lhs, rhs },
        }
    }

    /// The child of a one-child node.
    pub fn arg_ref(&self) -> (r: &Function)
        requires
            self@.is_unary(),
        ensures
            r@ == self@.arg(),
    {
        match self {
            Function::Neg { value }
            | Function::Exp { value }
            | Function::Ln { value }
            | Function::Sqrt { value }
            | Function::Sq { value }
            | Function::Sin { value }
            | Function::Cos { value }
            | Function::Tan { value } => value,
            _ => self,
        }
    }

    /// The children of a two-child node.
    pub fn children_ref(&self) -> (r: (&Function, &Function))
        requires
            self@.is_binary(),
        ensures
            r.0@ == self@.left(),
            r.1@ == self@.right(),
    {
        match self {
            Function::Add { lhs, rhs }
            | Function::Sub { lhs, rhs }
            | Function::Mul { lhs, rhs }
            | Function::Div { lhs, rhs }
            | Function::Pow { lhs, rhs } => (lhs, rhs),
            _ => (self, self),
        }
    }

    /// The kind of a one-child node.
    pub fn unary_op_of(&self) -> (r: UnaryOp)
        ensures
            r == self@.unary_op(),
    {
        match self {
            Function::Exp { .. } => UnaryOp::Exp,
            Function::Ln { .. } => UnaryOp::Ln,
            Function::Sqrt { .. } => UnaryOp::Sqrt,
            Function::Sq { .. } => UnaryOp::Sq,
            Function::Sin { .. } => UnaryOp::Sin,
            Function::Cos { .. } => UnaryOp::Cos,
            Function::Tan { .. } => UnaryOp::Tan,
            _ => UnaryOp::Neg,
        }
    }

    /// The kind of a two-child node.
    pub fn binary_op_of(&self) -> (r: BinaryOp)
        ensures
            r == self@.binary_op(),
    {
        match self {
            Function::Sub { .. } => BinaryOp::Sub,
            Function::Mul { .. } => BinaryOp::Mul,
            Function::Div { .. } => BinaryOp::Div,
            Function::Pow { .. } => BinaryOp::Pow,
            _ => BinaryOp::Add,
        }
    }

    /// Takes the child out of a one-child node.
    pub fn into_arg(self) -> (r: Function)
        requires
            self@.is_unary(),
        ensures
            r@ == self@.arg(),
    {
        match self {
            Function::Neg { value }
            | Function::Exp { value }
            | Function::Ln { value }
            | Function::Sqrt { value }
            | Function::Sq { value }
            | Function::Sin { value }
            | Function::Cos { value }
            | Function::Tan { value } => *value,
            _ => self,
        }
    }

    /// Takes the children out of a two-child node.
    pub fn into_children(self) -> (r: (Function, Function))
        requires
            self@.is_binary(),
        ensures
            r.0@ == self@.left(),
            r.1@ == self@.right(),
    {
        match self {
            Function::Add { lhs, rhs }
            | Function::Sub { lhs, rhs }
            | Function::Mul { lhs, rhs }
            | Function::Div { lhs, rhs }
            | Function::Pow { lhs, rhs } => (*lhs, *rhs),
            _ => (Function::X, Function::X),
        }
    }

    /// The names of the parameters that evaluating the tree looks up, in
    /// traversal order, with repeats.
    pub fn get_params_names(&self) -> (r: Vec<char>)
        requires
            self@.wf(),
        ensures
            r@ == self@.param_names(),
            forall|i: int| 0 <= i < r@.len() ==> is_param_name(#[trigger] r@[i]),
        decreases self,
    {
        match self {
            Function::Param { name } => vec![*name],
            Function::Neg { value }
            | Function::Exp { value }
            | Function::Ln { value }
            | Function::Sqrt { value }
            | Function::Sq { value }
            | Function::Sin { value }
            | Function::Cos { value }
            | Function::Tan { value } => value.get_params_names(),
            Function::Add { lhs, rhs }
            | Function::Sub { lhs, rhs }
            | Function::Mul { lhs, rhs }
            | Function::Div { lhs, rhs }
            | Function::Pow { lhs, rhs } => {
                let mut names = lhs.get_params_names();
                let mut right = rhs.get_params_names();
                names.append(&mut right);
                names
            },
            Function::Polynomial { degree } | Function::BtrPolynomial { degree } => {
                let mut names: Vec<char> = Vec::new();
                let mut i: usize = 0;
                while i <= *degree
                    invariant
                        *degree < PARAMETERS_AMOUNT,
                        i <= *degree + 1,
                        names@ == alphabet().take(i as int),
                    decreases *degree + 1 - i,
                {
                    names.push(param_name_at(i));
                    assert(names@ =~= alphabet().take(i + 1));
                    i += 1;
                }
                names
            },
            _ => Vec::new(),
        }
    }
}

} // verus!
