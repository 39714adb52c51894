//! A symbolic-expression engine for formulas in one free variable `x` and
//! named scalar parameters: expression trees, an infix parser, a one-pass
//! structural simplifier, a random generator and two text forms.
//!
//! Numeric evaluation is floating point and stays with the caller; where
//! the simplifier folds a node of numbers into one constant, the caller
//! supplies that value.
pub mod display;
pub mod function;
pub mod generate;
pub mod param;
pub mod parse;
pub mod parse_laws;
pub mod simplify;
pub mod text;

pub use function::Function;
pub use param::PARAMETERS_AMOUNT;
pub use parse::ParseError;
