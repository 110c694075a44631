//! The read-only accessor capability.
//!
//! A [`MatAcc`] exposes a shape and an element getter, stated against the
//! same [`MatModel`] abstraction every handle uses.  The arithmetic
//! operators and the equality test take their right-hand operand through
//! this trait, so an owned matrix and a borrowed view are accepted by one
//! implementation.

use crate::model::MatModel;
use vstd::prelude::*;

verus! {

/// A read-only matrix: a shape and an element getter, with the handle's
/// own well-formedness condition.
pub trait MatAcc: Sized {
    /// The logical value this handle denotes.
    spec fn acc_model(&self) -> MatModel;

    /// The handle's well-formedness: every method of the trait assumes it.
    spec fn acc_inv(&self) -> bool;

    /// A well-formed handle denotes a well-formed model.
    proof fn acc_wf(&self)
        requires
            self.acc_inv(),
        ensures
            self.acc_model().wf(),
    ;

    /// The logical `(rows, cols)` shape.
    fn acc_size(&self) -> (s: (usize, usize))
        requires
            self.acc_inv(),
        ensures
            s.0 == self.acc_model().rows,
            s.1 == self.acc_model().cols,
    ;

    /// The element in logical row `row`, logical column `col`.
    fn acc_get(&self, row: usize, col: usize) -> (v: i64)
        requires
            self.acc_inv(),
            row < self.acc_model().rows,
            col < self.acc_model().cols,
        ensures
            v == self.acc_model().cell(row as int, col as int),
    ;
}

} // verus!
