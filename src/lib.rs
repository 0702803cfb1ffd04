//! Dense two-dimensional matrices with row operations, and substitution of
//! values into a system of linear equations stored row by row.
use vstd::prelude::*;

pub mod matrix;
pub mod system;

verus! {

} // verus!
