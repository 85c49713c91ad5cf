//! Dense square matrix multiplication by the iterative triple loop, by
//! divide and conquer, and by Strassen's algorithm, each sequential and with
//! fork-join parallelism, proved to compute the exact product.
use vstd::prelude::*;

pub mod engine;
pub mod matrix;
pub mod model;
pub mod multiply;
pub mod parallel;

verus! {

} // verus!
