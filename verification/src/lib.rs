//! Solving quadratic inequalities written as text.
//!
//! An inequality such as `x^2+3x-10>0` is read into monomials, each side is
//! folded into the canonical form `a·v² + b·v + c`, the right side is moved to
//! the left, and the result is classified by the sign of its discriminant.
//!
//! The library works on integers and text. The two roots are irrational in
//! general: how they are shown is left to the caller, who hands their text to
//! [`types::QuadraticInequality::get_solution`].

pub mod error;
pub mod laws;
pub mod parser;
pub mod text;
pub mod types;

use vstd::prelude::*;
use crate::error::{ErrorView, Result};
use crate::parser::{parse, spec_parse};
use crate::types::{InequalityView, QuadraticInequality, Solution};

verus! {

/// Reads the inequality that `input` begins with and classifies its
/// solution.
///
/// The inequality comes back with all its terms on the left, and with it the
/// shape of the set of numbers that satisfy it.
pub fn solve<'a>(input: &'a str) -> (result: Result<'a, (QuadraticInequality, Solution)>)
    ensures
        match result {
            Ok((inequality, solution)) => spec_parse(input@) == Ok::<_, ErrorView>(inequality@)
                && solution == inequality@.solution(),
            Err(e) => spec_parse(input@) == Err::<InequalityView, _>(e@),
        },
{
    match parse(input) {
        Ok(inequality) => {
            let solution = inequality.solution();
            Ok((inequality, solution))
        },
        Err(e) => Err(e),
    }
}

} // verus!
