//! The mathematical model of a matrix.
//!
//! A handle's abstract value is a [`MatModel`]: a logical shape together
//! with the grid of its elements.  A handle's physical representation is
//! described by a [`Layout`]: physical extents, an offset into a flat
//! column-major buffer, the distance between column starts (the stride)
//! and a transposition flag.  [`Layout::read`] extracts the model a
//! layout denotes over a given buffer; every contract in the crate is
//! stated over models.

use crate::scalar::crop;
use vstd::arithmetic::mul::{
    lemma_mul_inequality, lemma_mul_is_distributive_add_other_way, lemma_mul_strict_inequality,
};
use vstd::prelude::*;

verus! {

/// The logical value of a matrix: its shape and its elements.
///
/// `grid` is row-major: `grid[r][c]` is the element in logical row `r`
/// and logical column `c`.  The shape is carried beside the grid so that
/// empty matrices of different widths stay distinguishable.
#[verifier::ext_equal]
pub struct MatModel {
    pub rows: nat,
    pub cols: nat,
    pub grid: Seq<Seq<i64>>,
}

impl MatModel {
    /// The grid has exactly the dimensions the shape announces.
    pub open spec fn wf(self) -> bool {
        &&& self.grid.len() == self.rows
        &&& forall|r: int| 0 <= r < self.rows ==> (#[trigger] self.grid[r]).len() == self.cols
    }

    /// The element in logical row `r`, logical column `c`.
    pub open spec fn cell(self, r: int, c: int) -> i64 {
        self.grid[r][c]
    }

    /// The `rows` by `cols` model whose element at `(r, c)` is `f(r, c)`.
    pub open spec fn of_fn(rows: nat, cols: nat, f: spec_fn(int, int) -> i64) -> MatModel {
        MatModel { rows, cols, grid: Seq::new(rows, |r: int| Seq::new(cols, |c: int| f(r, c))) }
    }

    /// The all-zero model of the given shape.
    pub open spec fn zero(rows: nat, cols: nat) -> MatModel {
        MatModel::of_fn(rows, cols, |r: int, c: int| 0i64)
    }

    /// The model of the given shape with every element `v`.
    pub open spec fn constant(rows: nat, cols: nat, v: i64) -> MatModel {
        MatModel::of_fn(rows, cols, |r: int, c: int| v)
    }

    /// The square identity model: one on the diagonal, zero elsewhere.
    pub open spec fn eye(n: nat) -> MatModel {
        MatModel::of_fn(n, n, (|r: int, c: int| if r == c { 1i64 } else { 0i64 }))
    }

    /// The transpose: shape swapped, element `(r, c)` taken from `(c, r)`.
    pub open spec fn transpose(self) -> MatModel {
        MatModel::of_fn(self.cols, self.rows, |r: int, c: int| self.cell(c, r))
    }

    /// The `rlen` by `clen` sub-block whose top-left corner is at
    /// `(rlo, clo)`.
    pub open spec fn window(self, rlo: int, clo: int, rlen: nat, clen: nat) -> MatModel {
        MatModel::of_fn(rlen, clen, |r: int, c: int| self.cell(rlo + r, clo + c))
    }

    /// `self` with the element at `(r, c)` replaced by `v`.
    pub open spec fn update(self, r: int, c: int, v: i64) -> MatModel {
        MatModel { grid: self.grid.update(r, self.grid[r].update(c, v)), ..self }
    }

    /// Shape-then-elementwise equality: the logical comparison the
    /// library's equality test decides.
    pub open spec fn like(self, other: MatModel) -> bool {
        &&& self.rows == other.rows
        &&& self.cols == other.cols
        &&& forall|r: int, c: int|
            0 <= r < self.rows && 0 <= c < self.cols ==> self.cell(r, c) == other.cell(r, c)
    }
}

/// The model filled row-major from `vals`: element `(r, c)` is
/// `vals[r * cols + c]`, and positions past the end of `vals` are zero.
pub open spec fn from_rows(rows: nat, cols: nat, vals: Seq<i64>) -> MatModel {
    MatModel::of_fn(
        rows,
        cols,
        (|r: int, c: int|
            if r * cols + c < vals.len() {
                vals[r * cols + c]
            } else {
                0i64
            }),
    )
}

/// The sum of the first `k` products `a[r][j] * b[j][c]` along the shared
/// dimension: the exact dot product behind one cell of a matrix product.
pub open spec fn dot_to(a: MatModel, b: MatModel, r: int, c: int, k: nat) -> int
    decreases k,
{
    if k == 0 {
        0
    } else {
        dot_to(a, b, r, c, (k - 1) as nat) + a.cell(r, k - 1) * b.cell(k - 1, c)
    }
}

/// The sum of `a[r][c] * b[r][c]` over the first `k` cells in column-major
/// order (cell `k` is row `k % rows`, column `k / rows`): the exact value
/// behind the inner product, and — with `b == a` — behind the squared norm.
pub open spec fn sum_prod_to(a: MatModel, b: MatModel, k: nat) -> int
    decreases k,
{
    if k == 0 {
        0
    } else {
        let r = (k - 1) % (a.rows as int);
        let c = (k - 1) / (a.rows as int);
        sum_prod_to(a, b, (k - 1) as nat) + a.cell(r, c) * b.cell(r, c)
    }
}

/// The sum of the squares of the first `k` cells in column-major order:
/// the exact value behind the squared Euclidean norm.
pub open spec fn sum_sq_to(m: MatModel, k: nat) -> int
    decreases k,
{
    if k == 0 {
        0
    } else {
        let r = (k - 1) % (m.rows as int);
        let c = (k - 1) / (m.rows as int);
        sum_sq_to(m, (k - 1) as nat) + m.cell(r, c) * m.cell(r, c)
    }
}

/// The squared norm is the inner product of a matrix with itself: the
/// running sum of squares coincides with the running sum of self-products.
pub proof fn lemma_sum_sq_is_self_prod(m: MatModel, k: nat)
    ensures
        sum_sq_to(m, k) == sum_prod_to(m, m, k),
    decreases k,
{
    if k > 0 {
        lemma_sum_sq_is_self_prod(m, (k - 1) as nat);
    }
}

/// The sum of the first `k` diagonal elements: the exact value behind the
/// trace.
pub open spec fn trace_to(m: MatModel, k: nat) -> int
    decreases k,
{
    if k == 0 {
        0
    } else {
        trace_to(m, (k - 1) as nat) + m.cell(k - 1, k - 1)
    }
}

/// Two well-formed models that compare `like` are equal.
pub proof fn lemma_like_is_equal(a: MatModel, b: MatModel)
    requires
        a.wf(),
        b.wf(),
        a.like(b),
    ensures
        a == b,
{
    assert forall|r: int| 0 <= r < a.rows implies a.grid[r] =~= b.grid[r] by {
        assert forall|c: int| 0 <= c < a.cols implies a.grid[r][c] == b.grid[r][c] by {
            assert(a.cell(r, c) == b.cell(r, c));
        }
    }
    assert(a =~~= b);
}

/// The physical placement of a logical window inside a flat column-major
/// buffer.
///
/// `nrows` and `ncols` are the physical extents (before transposition);
/// `offset` is the buffer index of the window's first element; `stride`
/// is the buffer distance between the starts of consecutive physical
/// columns.  When `transposed` is set, the logical shape is the physical
/// shape swapped; no data moves.
pub struct Layout {
    pub nrows: nat,
    pub ncols: nat,
    pub offset: nat,
    pub stride: nat,
    pub transposed: bool,
}

impl Layout {
    /// The logical row count.
    pub open spec fn rows(self) -> nat {
        if self.transposed {
            self.ncols
        } else {
            self.nrows
        }
    }

    /// The logical column count.
    pub open spec fn cols(self) -> nat {
        if self.transposed {
            self.nrows
        } else {
            self.ncols
        }
    }

    /// The buffer index holding logical element `(r, c)`.
    pub open spec fn lin(self, r: int, c: int) -> int {
        if self.transposed {
            self.offset + self.stride * r + c
        } else {
            self.offset + self.stride * c + r
        }
    }

    /// Well-formedness over a buffer of length `len`: columns do not
    /// overlap, and the window's far corner stays inside the buffer (the
    /// second conjunct bounds `offset + stride * (ncols - 1) + (nrows - 1)`
    /// by `len - 1` in a form that also holds for empty windows).
    pub open spec fn wf(self, len: nat) -> bool {
        &&& self.nrows <= self.stride
        &&& self.offset + self.stride * self.ncols + self.nrows <= len + self.stride
    }

    /// The model this layout denotes over the buffer `buf`.
    pub open spec fn read(self, buf: Seq<i64>) -> MatModel {
        MatModel::of_fn(self.rows(), self.cols(), |r: int, c: int| buf[self.lin(r, c)])
    }

    /// Whether buffer index `i` belongs to the window: writes through the
    /// window touch exactly these indices.
    pub open spec fn covers(self, i: int) -> bool {
        exists|a: int, b: int|
            0 <= a < self.ncols && 0 <= b < self.nrows && i == self.offset + #[trigger] (self.stride
                * a + b)
    }

    /// The layout of the logical sub-window of extent `rlen` by `clen`
    /// whose top-left corner is at logical `(rlo, clo)`: the stride and
    /// the transposition flag carry over, only the offset and the
    /// physical extents change.  An empty window keeps the parent's
    /// offset, which it never dereferences.
    pub open spec fn window_layout(self, rlo: int, clo: int, rlen: nat, clen: nat) -> Layout {
        let off = if rlen == 0 || clen == 0 {
            self.offset
        } else if self.transposed {
            (self.offset + self.stride * rlo + clo) as nat
        } else {
            (self.offset + self.stride * clo + rlo) as nat
        };
        if self.transposed {
            Layout {
                nrows: clen,
                ncols: rlen,
                offset: off,
                stride: self.stride,
                transposed: true,
            }
        } else {
            Layout {
                nrows: rlen,
                ncols: clen,
                offset: off,
                stride: self.stride,
                transposed: false,
            }
        }
    }

    /// Slicing is sound: the sub-window's layout is well-formed over the
    /// same buffer, reads the parent's sub-block, and covers only buffer
    /// indices the parent covers.
    pub proof fn lemma_window_layout(self, buf: Seq<i64>, rlo: int, clo: int, rlen: nat, clen: nat)
        requires
            self.wf(buf.len()),
            0 <= rlo,
            rlo + rlen <= self.rows(),
            0 <= clo,
            clo + clen <= self.cols(),
        ensures
            self.window_layout(rlo, clo, rlen, clen).wf(buf.len()),
            self.window_layout(rlo, clo, rlen, clen).read(buf) == self.read(buf).window(
                rlo,
                clo,
                rlen,
                clen,
            ),
            forall|i: int|
                #[trigger] self.window_layout(rlo, clo, rlen, clen).covers(i) ==> self.covers(i),
    {
        let w = self.window_layout(rlo, clo, rlen, clen);
        let (pa, pb) = if self.transposed {
            (rlo, clo)
        } else {
            (clo, rlo)
        };
        if rlen == 0 || clen == 0 {
            assert(w.offset + w.stride * w.ncols + w.nrows <= buf.len()
                + w.stride) by (nonlinear_arith)
                requires
                    w.offset == self.offset,
                    w.stride == self.stride,
                    0 <= w.nrows <= self.nrows,
                    0 <= w.ncols <= self.ncols,
                    0 <= self.stride,
                    self.offset + self.stride * self.ncols + self.nrows <= buf.len()
                        + self.stride,
            ;
        } else {
            assert(w.offset == self.offset + self.stride * pa + pb);
            assert(w.offset + w.stride * w.ncols + w.nrows <= buf.len()
                + w.stride) by (nonlinear_arith)
                requires
                    w.offset == self.offset + self.stride * pa + pb,
                    w.stride == self.stride,
                    w.nrows + pb <= self.nrows,
                    w.ncols + pa <= self.ncols,
                    0 <= pa,
                    0 <= pb,
                    0 <= self.stride,
                    self.offset + self.stride * self.ncols + self.nrows <= buf.len()
                        + self.stride,
            ;
        }
        assert forall|a: int, b: int|
            0 <= a < w.ncols && 0 <= b < w.nrows implies w.offset + #[trigger] (w.stride * a + b)
            == self.offset + (self.stride * (pa + a) + (pb + b)) by {
            assert(w.offset + w.stride * a + b == self.offset + self.stride * (pa + a) + (pb
                + b)) by (nonlinear_arith)
                requires
                    w.offset == self.offset + self.stride * pa + pb,
                    w.stride == self.stride,
            ;
        }
        assert forall|i: int| #[trigger] w.covers(i) implies self.covers(i) by {
            let (a, b) = choose|a: int, b: int|
                0 <= a < w.ncols && 0 <= b < w.nrows && i == w.offset + #[trigger] (w.stride * a
                    + b);
            assert(i == self.offset + (self.stride * (pa + a) + (pb + b)));
            assert(0 <= pa + a < self.ncols && 0 <= pb + b < self.nrows);
        }
        let left = w.read(buf);
        let right = self.read(buf).window(rlo, clo, rlen, clen);
        assert forall|r: int| 0 <= r < rlen implies left.grid[r] =~= right.grid[r] by {
            assert forall|c: int| 0 <= c < clen implies left.grid[r][c] == right.grid[r][c] by {
                let (a, b) = if self.transposed {
                    (r, c)
                } else {
                    (c, r)
                };
                assert(w.lin(r, c) == w.offset + (w.stride * a + b));
                assert(self.lin(rlo + r, clo + c) == self.offset + (self.stride * (pa + a) + (pb
                    + b))) by (nonlinear_arith)
                    requires
                        self.transposed ==> self.lin(rlo + r, clo + c) == self.offset + self.stride
                            * (rlo + r) + (clo + c) && pa + a == rlo + r && pb + b == clo + c,
                        !self.transposed ==> self.lin(rlo + r, clo + c) == self.offset + self.stride
                            * (clo + c) + (rlo + r) && pa + a == clo + c && pb + b == rlo + r,
                ;
                self.lemma_lin_in_bounds(buf.len(), rlo + r, clo + c);
            }
        }
        assert(left =~~= right);
    }

    /// Writing through a window touches the parent only inside the
    /// window's rectangle: after any buffer change confined to the
    /// window's covered indices, the parent reads its old elements
    /// outside the rectangle and the window's new elements inside it.
    pub proof fn lemma_window_write(
        self,
        buf1: Seq<i64>,
        buf2: Seq<i64>,
        rlo: int,
        clo: int,
        rlen: nat,
        clen: nat,
    )
        requires
            self.wf(buf1.len()),
            buf2.len() == buf1.len(),
            0 <= rlo,
            rlo + rlen <= self.rows(),
            0 <= clo,
            clo + clen <= self.cols(),
            forall|i: int|
                0 <= i < buf1.len() && !self.window_layout(rlo, clo, rlen, clen).covers(i)
                    ==> buf2[i] == buf1[i],
        ensures
            forall|r: int, c: int|
                0 <= r < self.rows() && 0 <= c < self.cols() && !(rlo <= r < rlo + rlen && clo <= c
                    < clo + clen) ==> #[trigger] self.read(buf2).cell(r, c) == self.read(
                    buf1,
                ).cell(r, c),
            forall|r: int, c: int|
                0 <= r < rlen && 0 <= c < clen ==> self.read(buf2).cell(rlo + r, clo + c)
                    == #[trigger] self.window_layout(rlo, clo, rlen, clen).read(buf2).cell(r, c),
    {
        self.lemma_window_layout(buf2, rlo, clo, rlen, clen);
        let w = self.window_layout(rlo, clo, rlen, clen);
        let (pa, pb) = if self.transposed {
            (rlo, clo)
        } else {
            (clo, rlo)
        };
        assert forall|r: int, c: int|
            0 <= r < self.rows() && 0 <= c < self.cols() && !(rlo <= r < rlo + rlen && clo <= c
                < clo + clen) implies #[trigger] self.read(buf2).cell(r, c) == self.read(
            buf1,
        ).cell(r, c) by {
            self.lemma_lin_in_bounds(buf1.len(), r, c);
            let idx = self.lin(r, c);
            if w.covers(idx) {
                let (a, b) = choose|a: int, b: int|
                    0 <= a < w.ncols && 0 <= b < w.nrows && idx == w.offset + #[trigger] (w.stride
                        * a + b);
                let (wr, wc) = if self.transposed {
                    (a, b)
                } else {
                    (b, a)
                };
                assert(w.offset == self.offset + self.stride * pa + pb);
                assert(idx == self.offset + (self.stride * (pa + a) + (pb + b))) by (
                nonlinear_arith)
                    requires
                        idx == w.offset + (w.stride * a + b),
                        w.offset == self.offset + self.stride * pa + pb,
                        w.stride == self.stride,
                ;
                assert(self.lin(rlo + wr, clo + wc) == self.offset + (self.stride * (pa + a) + (pb
                    + b))) by (nonlinear_arith)
                    requires
                        self.transposed ==> self.lin(rlo + wr, clo + wc) == self.offset
                            + self.stride * (rlo + wr) + (clo + wc) && pa + a == rlo + wr && pb + b
                            == clo + wc,
                        !self.transposed ==> self.lin(rlo + wr, clo + wc) == self.offset
                            + self.stride * (clo + wc) + (rlo + wr) && pa + a == clo + wc && pb + b
                            == rlo + wr,
                ;
                if r != rlo + wr || c != clo + wc {
                    self.lemma_lin_injective(buf1.len(), r, c, rlo + wr, clo + wc);
                }
                assert(false);
            }
        }
    }

    /// A well-formed window holds no more cells than its buffer: the
    /// logical cell count is bounded by the buffer length.
    pub proof fn lemma_cell_count(self, len: nat)
        requires
            self.wf(len),
        ensures
            self.rows() * self.cols() <= len,
    {
        if self.nrows == 0 || self.ncols == 0 {
            assert(self.rows() * self.cols() == 0) by (nonlinear_arith)
                requires
                    self.rows() == 0 || self.cols() == 0,
            ;
        } else {
            assert(self.nrows * self.ncols + self.stride <= self.stride * self.ncols
                + self.nrows) by (nonlinear_arith)
                requires
                    0 < self.nrows <= self.stride,
                    0 < self.ncols,
            ;
            assert(self.rows() * self.cols() == self.nrows * self.ncols) by (nonlinear_arith);
        }
    }

    /// Every cell's buffer index lies in bounds and inside the window.
    pub proof fn lemma_lin_in_bounds(self, len: nat, r: int, c: int)
        requires
            self.wf(len),
            0 <= r < self.rows(),
            0 <= c < self.cols(),
        ensures
            self.offset <= self.lin(r, c) < len,
            self.covers(self.lin(r, c)),
    {
        let (a, b) = if self.transposed {
            (r, c)
        } else {
            (c, r)
        };
        let idx = self.offset + (self.stride * a + b);
        assert(0 <= self.stride * a && self.stride * a + self.stride <= self.stride
            * self.ncols) by (nonlinear_arith)
            requires
                0 <= a < self.ncols,
                self.stride >= 0,
        ;
        assert(idx < len);
        assert(self.lin(r, c) == idx);
        assert(self.covers(idx));
    }

    /// Distinct logical cells occupy distinct buffer indices.
    pub proof fn lemma_lin_injective(self, len: nat, r1: int, c1: int, r2: int, c2: int)
        requires
            self.wf(len),
            0 <= r1 < self.rows(),
            0 <= c1 < self.cols(),
            0 <= r2 < self.rows(),
            0 <= c2 < self.cols(),
            (r1, c1) != (r2, c2),
        ensures
            self.lin(r1, c1) != self.lin(r2, c2),
    {
        let (a1, b1) = if self.transposed {
            (r1, c1)
        } else {
            (c1, r1)
        };
        let (a2, b2) = if self.transposed {
            (r2, c2)
        } else {
            (c2, r2)
        };
        if a1 != a2 {
            if a1 < a2 {
                lemma_column_order(self.stride as int, a1, b1, a2, b2);
            } else {
                lemma_column_order(self.stride as int, a2, b2, a1, b1);
            }
        }
    }

    /// Updating the buffer at one cell's index updates the model at that
    /// cell alone.
    pub proof fn lemma_read_update(self, buf: Seq<i64>, r: int, c: int, v: i64)
        requires
            self.wf(buf.len()),
            0 <= r < self.rows(),
            0 <= c < self.cols(),
        ensures
            self.read(buf.update(self.lin(r, c), v)) == self.read(buf).update(r, c, v),
    {
        self.lemma_lin_in_bounds(buf.len(), r, c);
        let left = self.read(buf.update(self.lin(r, c), v));
        let right = self.read(buf).update(r, c, v);
        assert forall|i: int| 0 <= i < self.rows() implies left.grid[i] =~= right.grid[i] by {
            assert forall|j: int| 0 <= j < self.cols() implies left.grid[i][j] == right.grid[i][j] by {
                if i != r || j != c {
                    self.lemma_lin_injective(buf.len(), i, j, r, c);
                    self.lemma_lin_in_bounds(buf.len(), i, j);
                }
            }
        }
        assert(left =~~= right);
    }

}

/// In a column-major layout, a cell in an earlier column precedes every
/// cell in a later column.
proof fn lemma_column_order(stride: int, a1: int, b1: int, a2: int, b2: int)
    requires
        0 <= b1 < stride,
        0 <= b2 < stride,
        a1 < a2,
        0 <= a1,
    ensures
        stride * a1 + b1 < stride * a2 + b2,
{
    assert(stride * a1 + stride <= stride * a2) by (nonlinear_arith)
        requires
            a1 < a2,
            stride > 0,
    ;
}

} // verus!
