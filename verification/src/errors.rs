//! Validating entry points.
//!
//! The core operations state their shape and range preconditions as
//! contracts, so an out-of-contract call cannot be written in verified
//! code.  For callers that prefer a result-propagating idiom, the
//! `try_` forms here check the same conditions at run time and surface
//! a typed error instead; they never truncate, pad, or yield a
//! wrong-shaped result.

use crate::acc::MatAcc;
use crate::mat::Mat;
use crate::model::MatModel;
use crate::ops::add_model;
use crate::scalar::crop;
use vstd::prelude::*;

verus! {

/// Why a validating entry point refused to act.
#[derive(Clone, Copy, Debug, PartialEq, Eq, Structural)]
pub enum MatError {
    /// The operands' logical shapes do not agree.
    ShapeMismatch,
    /// The operation is not defined for this operand, such as a
    /// diagonal clone of a source that is not a single column.
    InvalidOperation,
    /// An element index lies outside the logical bounds.
    OutOfRange,
}

impl Mat {
    /// Reads the element at `(r, c)`, or reports `OutOfRange`: `Ok`
    /// exactly when the index lies inside the logical shape.
    pub fn try_get(&self, r: usize, c: usize) -> (res: Result<i64, MatError>)
        requires
            self.inv(),
        ensures
            match res {
                Result::Ok(v) => r < self@.rows && c < self@.cols && v == self@.cell(
                    r as int,
                    c as int,
                ),
                Result::Err(e) => e == MatError::OutOfRange && (r >= self@.rows || c
                    >= self@.cols),
            },
    {
        let (rows, cols) = self.size();
        if r < rows && c < cols {
            Ok(self.get(r, c))
        } else {
            Err(MatError::OutOfRange)
        }
    }

    /// Copies `rhs` in, or reports `ShapeMismatch` leaving this matrix
    /// unchanged: `Ok` exactly when the logical shapes agree.
    pub fn try_assign<A: MatAcc>(&mut self, rhs: &A) -> (res: Result<(), MatError>)
        requires
            old(self).inv(),
            rhs.acc_inv(),
        ensures
            final (self).inv(),
            match res {
                Result::Ok(u) => old(self)@.rows == rhs.acc_model().rows && old(self)@.cols
                    == rhs.acc_model().cols && final (self)@ == rhs.acc_model(),
                Result::Err(e) => e == MatError::ShapeMismatch && (old(self)@.rows
                    != rhs.acc_model().rows || old(self)@.cols != rhs.acc_model().cols) && final (
                self)@ == old(self)@,
            },
    {
        let (rows, cols) = self.size();
        let (rrows, rcols) = rhs.acc_size();
        if rows == rrows && cols == rcols {
            self.assign(rhs);
            Ok(())
        } else {
            Err(MatError::ShapeMismatch)
        }
    }

    /// Adds `rhs` in, or reports `ShapeMismatch` leaving this matrix
    /// unchanged: `Ok` exactly when the logical shapes agree.
    pub fn try_add_assign<A: MatAcc>(&mut self, rhs: &A) -> (res: Result<(), MatError>)
        requires
            old(self).inv(),
            rhs.acc_inv(),
        ensures
            final (self).inv(),
            match res {
                Result::Ok(u) => old(self)@.rows == rhs.acc_model().rows && old(self)@.cols
                    == rhs.acc_model().cols && final (self)@ == add_model(
                    old(self)@,
                    rhs.acc_model(),
                ),
                Result::Err(e) => e == MatError::ShapeMismatch && (old(self)@.rows
                    != rhs.acc_model().rows || old(self)@.cols != rhs.acc_model().cols) && final (
                self)@ == old(self)@,
            },
    {
        let (rows, cols) = self.size();
        let (rrows, rcols) = rhs.acc_size();
        if rows == rrows && cols == rcols {
            self.add_assign(rhs);
            Ok(())
        } else {
            Err(MatError::ShapeMismatch)
        }
    }

    /// The inner product with `rhs`, or `ShapeMismatch`: `Ok` exactly
    /// when the logical shapes agree.
    pub fn try_prod<A: MatAcc>(&self, rhs: &A) -> (res: Result<i64, MatError>)
        requires
            self.inv(),
            rhs.acc_inv(),
        ensures
            match res {
                Result::Ok(p) => self@.rows == rhs.acc_model().rows && self@.cols
                    == rhs.acc_model().cols && p == crop(
                    crate::model::sum_prod_to(
                        self@,
                        rhs.acc_model(),
                        (self@.rows * self@.cols) as nat,
                    ),
                ),
                Result::Err(e) => e == MatError::ShapeMismatch && (self@.rows
                    != rhs.acc_model().rows || self@.cols != rhs.acc_model().cols),
            },
    {
        let (rows, cols) = self.size();
        let (rrows, rcols) = rhs.acc_size();
        if rows == rrows && cols == rcols {
            Ok(self.prod(rhs))
        } else {
            Err(MatError::ShapeMismatch)
        }
    }

    /// Clones a column vector into a diagonal matrix, or reports
    /// `InvalidOperation`: `Ok` exactly when the source is a single
    /// column whose square fits the address space.
    pub fn try_clone_diag(&self) -> (res: Result<Mat, MatError>)
        requires
            self.inv(),
            self@.rows * self@.rows <= usize::MAX,
        ensures
            match res {
                Result::Ok(m) => self@.cols == 1 && m.inv() && m@ == MatModel::of_fn(
                    self@.rows,
                    self@.rows,
                    (|r: int, c: int|
                        if r == c {
                            self@.cell(r, 0)
                        } else {
                            0i64
                        }),
                ),
                Result::Err(e) => e == MatError::InvalidOperation && self@.cols != 1,
            },
    {
        let (_, cols) = self.size();
        if cols == 1 {
            Ok(self.clone_diag())
        } else {
            Err(MatError::InvalidOperation)
        }
    }
}

} // verus!
