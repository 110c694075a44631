//! Range arguments for slicing.
//!
//! A [`Span`] selects a contiguous run of rows or columns, mirroring the
//! shapes a range expression can take: whole axis, half-open, inclusive,
//! and the open-ended prefix and suffix forms.  A span is resolved
//! against a logical dimension into a half-open `lo..hi` pair.

use vstd::prelude::*;

verus! {

/// A selection of a contiguous run along one axis.
#[derive(Clone, Copy)]
pub enum Span {
    /// The whole axis.
    Whole,
    /// The half-open run `lo..hi`.
    Run(usize, usize),
    /// The inclusive run `lo..=hi`.
    RunInc(usize, usize),
    /// The prefix `..hi`.
    UpTo(usize),
    /// The inclusive prefix `..=hi`.
    UpToInc(usize),
    /// The suffix `lo..`.
    Starting(usize),
}

impl Span {
    /// The first selected index.
    pub open spec fn lo(self) -> int {
        match self {
            Span::Whole => 0,
            Span::Run(a, _) => a as int,
            Span::RunInc(a, _) => a as int,
            Span::UpTo(_) => 0,
            Span::UpToInc(_) => 0,
            Span::Starting(a) => a as int,
        }
    }

    /// One past the last selected index, against a dimension of `dim`.
    pub open spec fn hi(self, dim: int) -> int {
        match self {
            Span::Whole => dim,
            Span::Run(_, b) => b as int,
            Span::RunInc(_, b) => b + 1,
            Span::UpTo(b) => b as int,
            Span::UpToInc(b) => b + 1,
            Span::Starting(_) => dim,
        }
    }

    /// Whether the span selects a run inside a dimension of `dim`.
    pub open spec fn valid(self, dim: int) -> bool {
        0 <= self.lo() <= self.hi(dim) <= dim
    }

    /// Resolves the span against a dimension into its half-open bounds.
    pub fn resolve(self, dim: usize) -> (r: (usize, usize))
        requires
            self.valid(dim as int),
        ensures
            r.0 == self.lo(),
            r.1 == self.hi(dim as int),
    {
        match self {
            Span::Whole => (0, dim),
            Span::Run(a, b) => (a, b),
            Span::RunInc(a, b) => (a, b + 1),
            Span::UpTo(b) => (0, b),
            Span::UpToInc(b) => (0, b + 1),
            Span::Starting(a) => (a, dim),
        }
    }
}

} // verus!
