//! A single-variable formula engine: a tokenizer and infix-to-postfix
//! converter (operator-precedence parsing), a structural checker for
//! postfix sequences, and a renderer for token sequences.
//!
//! The numeric evaluation of a postfix sequence is a one-pass stack
//! reduction left to the caller; everything that decides — lexing,
//! precedence resolution, parenthesis matching, operand counting and
//! function-name resolution — lives here and is verified.

use vstd::prelude::*;

pub mod convert;
pub mod eval;
pub mod laws;
pub mod render;
pub mod token;

pub use convert::{materialize_function, materialize_number, parse};
pub use eval::check_postfix;
pub use render::postfix_to_string;
pub use token::{EvalError, ParseError, Token, TokenV};

verus! {

/// The sum of two machine-sized integers.
pub fn add(left: usize, right: usize) -> (r: usize)
    requires
        left + right <= usize::MAX,
    ensures
        r == left + right,
{
    left + right
}

} // verus!
