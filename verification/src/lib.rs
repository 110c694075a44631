//! A dense, column-major two-dimensional integer matrix library with
//! zero-copy views, strided sub-block slicing, constant-time transposition
//! and a uniform elementwise / matrix arithmetic algebra.
//!
//! Element arithmetic is two's-complement wrapping arithmetic on `i64`;
//! every operation's contract states the result exactly, as the
//! mathematical value reduced into `i64` range (see [`scalar::crop`]).

pub mod acc;
pub mod errors;
pub mod laws;
pub mod mat;
pub mod model;
pub mod ops;
pub mod rng;
pub mod scalar;
pub mod span;

use vstd::prelude::*;

verus! {

} // verus!
