//! An evaluator for spreadsheet-style formulas: a typed value model,
//! coercion and array-broadcasting rules compatible with the usual
//! spreadsheet semantics, variadic reducers, a wildcard text matcher,
//! reference resolution through a binding table, and a display layer.
//! Formula strings are parsed by this crate's own parser; every evaluation
//! step carries an explicit recursion budget, so evaluation is total even
//! over chained references.

pub mod number;
pub mod datetime;
pub mod types;
pub mod parse_formula;
pub mod calculate;
pub mod laws;

use vstd::prelude::*;

verus! {

} // verus!
