//! The owned matrix handle.
//!
//! A [`Mat`] owns its flat column-major buffer and carries the physical
//! bookkeeping — extents, offset, stride, transposition flag — that maps
//! logical coordinates onto it.  An owned handle need not be packed: it
//! can itself describe a transposed or strided window of its buffer, so
//! clones of views and transposed matrices reuse one representation.

use crate::acc::MatAcc;
use crate::model::{Layout, MatModel};
use crate::model::{sum_prod_to, trace_to};
use crate::scalar::{crop, lemma_crop_add, lemma_wrapping_ops_are_crop};
use crate::span::Span;
use vstd::arithmetic::div_mod::lemma_fundamental_div_mod_converse;
use vstd::prelude::*;

verus! {

/// What one cell holds after the generator `f` was consulted for it:
/// some answer `o` of `f` at that cell either supplies the new value or,
/// when `o` is `None`, leaves the old one.
pub open spec fn generated_cell<F: Fn(usize, usize) -> Option<i64>>(
    f: F,
    r: int,
    c: int,
    was: i64,
    now: i64,
) -> bool {
    exists|o: Option<i64>|
        #[trigger] call_ensures(f, ((r as usize), (c as usize)), o) && now == (match o {
            Option::Some(v) => v,
            Option::None => was,
        })
}

/// An owned, dense, column-major matrix.
pub struct Mat {
    nrows: usize,
    ncols: usize,
    offset: usize,
    stride: usize,
    transposed: bool,
    buf: Vec<i64>,
}

impl View for Mat {
    type V = MatModel;

    closed spec fn view(&self) -> MatModel {
        self.layout().read(self.buf@)
    }
}

impl Mat {
    /// The physical placement of the logical window inside the buffer.
    pub closed spec fn layout(&self) -> Layout {
        Layout {
            nrows: self.nrows as nat,
            ncols: self.ncols as nat,
            offset: self.offset as nat,
            stride: self.stride as nat,
            transposed: self.transposed,
        }
    }

    /// The backing buffer's contents.
    pub closed spec fn buf_view(&self) -> Seq<i64> {
        self.buf@
    }

    /// Well-formedness: the layout addresses only cells inside the
    /// buffer.  Every constructor establishes it and every method
    /// preserves it.
    pub closed spec fn inv(&self) -> bool {
        self.layout().wf(self.buf@.len())
    }

    /// How the pieces fit together: the logical value is the layout read
    /// over the buffer, and a well-formed handle has a well-formed model
    /// whose shape is the layout's logical shape.
    pub proof fn lemma_decompose(&self)
        ensures
            self@ == self.layout().read(self.buf_view()),
            self.inv() ==> self.layout().wf(self.buf_view().len()),
            self@.rows == self.layout().rows(),
            self@.cols == self.layout().cols(),
            self@.wf(),
    {
    }

    /// Makes a `nrows` by `ncols` matrix with every element zero.
    pub fn new(nrows: usize, ncols: usize) -> (m: Mat)
        requires
            nrows * ncols <= usize::MAX,
        ensures
            m.inv(),
            m@ == MatModel::zero(nrows as nat, ncols as nat),
    {
        let n: usize = nrows * ncols;
        let mut buf: Vec<i64> = Vec::new();
        let mut i: usize = 0;
        while i < n
            invariant
                i <= n,
                buf@.len() == i,
                forall|k: int| 0 <= k < i ==> buf@[k] == 0i64,
            decreases n - i,
        {
            buf.push(0i64);
            i = i + 1;
        }
        let m = Mat { nrows, ncols, offset: 0, stride: nrows, transposed: false, buf };
        proof {
            let lay = m.layout();
            assert(lay.offset + lay.stride * lay.ncols + lay.nrows <= n + lay.stride);
            let z = MatModel::zero(nrows as nat, ncols as nat);
            assert forall|r: int| 0 <= r < m@.rows implies m@.grid[r] =~= z.grid[r] by {
                assert forall|c: int| 0 <= c < m@.cols implies m@.grid[r][c] == z.grid[r][c] by {
                    lay.lemma_lin_in_bounds(m.buf@.len(), r, c);
                    assert(m@.cell(r, c) == m.buf@[lay.lin(r, c)]);
                }
            }
            assert(m@ =~~= z);
        }
        m
    }

    /// Makes an all-zero matrix of the same logical shape as `other`.
    pub fn new_like<A: MatAcc>(other: &A) -> (m: Mat)
        requires
            other.acc_inv(),
            other.acc_model().rows * other.acc_model().cols <= usize::MAX,
        ensures
            m.inv(),
            m@ == MatModel::zero(other.acc_model().rows, other.acc_model().cols),
    {
        let (nrows, ncols) = other.acc_size();
        Mat::new(nrows, ncols)
    }

    /// Makes an all-zero column vector of `nrows` elements.
    pub fn new_vec(nrows: usize) -> (m: Mat)
        ensures
            m.inv(),
            m@ == MatModel::zero(nrows as nat, 1),
    {
        Mat::new(nrows, 1)
    }

    /// The logical `(rows, cols)` shape, honoring the transposition flag.
    pub fn size(&self) -> (s: (usize, usize))
        ensures
            s.0 == self@.rows,
            s.1 == self@.cols,
    {
        if !self.transposed {
            (self.nrows, self.ncols)
        } else {
            (self.ncols, self.nrows)
        }
    }

    /// The buffer index of logical element `(r, c)`.
    fn pos(&self, r: usize, c: usize) -> (i: usize)
        requires
            self.inv(),
            r < self@.rows,
            c < self@.cols,
        ensures
            i == self.layout().lin(r as int, c as int),
            i < self.buf_view().len(),
    {
        proof {
            self.layout().lemma_lin_in_bounds(self.buf@.len(), r as int, c as int);
        }
        let blen: usize = self.buf.len();
        if !self.transposed {
            self.offset + self.stride * c + r
        } else {
            self.offset + self.stride * r + c
        }
    }

    /// Reads the element in logical row `r`, logical column `c`.
    pub fn get(&self, r: usize, c: usize) -> (v: i64)
        requires
            self.inv(),
            r < self@.rows,
            c < self@.cols,
        ensures
            v == self@.cell(r as int, c as int),
    {
        let i = self.pos(r, c);
        self.buf[i]
    }

    /// Writes `v` into logical row `r`, logical column `c`; no other
    /// element changes.
    pub fn put(&mut self, r: usize, c: usize, v: i64)
        requires
            old(self).inv(),
            r < old(self)@.rows,
            c < old(self)@.cols,
        ensures
            final (self).inv(),
            final (self)@ == old(self)@.update(r as int, c as int, v),
            final (self)@.rows == old(self)@.rows,
            final (self)@.cols == old(self)@.cols,
    {
        proof {
            self.layout().lemma_read_update(self.buf@, r as int, c as int, v);
        }
        let i = self.pos(r, c);
        self.buf[i] = v;
        proof {
            assert(self@ == old(self)@.update(r as int, c as int, v));
            assert(old(self)@.update(r as int, c as int, v).rows == old(self)@.rows);
        }
    }

    /// Overwrites every element with the constant `v`.
    pub fn assign_all(&mut self, v: i64)
        requires
            old(self).inv(),
        ensures
            final (self).inv(),
            final (self)@ == MatModel::constant(old(self)@.rows, old(self)@.cols, v),
    {
        let (rows, cols) = self.size();
        let mut c: usize = 0;
        while c < cols
            invariant
                self.inv(),
                self@.rows == rows,
                self@.cols == cols,
                c <= cols,
                forall|i: int, j: int|
                    0 <= i < rows && 0 <= j < c ==> #[trigger] self@.cell(i, j) == v,
            decreases cols - c,
        {
            let mut r: usize = 0;
            while r < rows
                invariant
                    self.inv(),
                    self@.rows == rows,
                    self@.cols == cols,
                    c < cols,
                    r <= rows,
                    forall|i: int, j: int|
                        0 <= i < rows && 0 <= j < c ==> #[trigger] self@.cell(i, j) == v,
                    forall|i: int| 0 <= i < r ==> #[trigger] self@.cell(i, c as int) == v,
                decreases rows - r,
            {
                proof {
                    self.lemma_decompose();
                }
                let ghost pre = self@;
                self.put(r, c, v);
                proof {
                    assert forall|i: int, j: int|
                        0 <= i < rows && 0 <= j < cols && !(i == r && j == c) implies #[trigger] self@.cell(
                        i,
                        j,
                    ) == pre.cell(i, j) by {
                        assert(pre.grid.len() == rows);
                        assert(pre.grid[i].len() == cols);
                    }
                }
                r = r + 1;
            }
            c = c + 1;
        }
        proof {
            let t = MatModel::constant(rows as nat, cols as nat, v);
            self.lemma_decompose();
            assert forall|i: int| 0 <= i < rows implies self@.grid[i] =~= t.grid[i] by {
                assert forall|j: int| 0 <= j < cols implies self@.grid[i][j] == t.grid[i][j] by {
                    assert(self@.cell(i, j) == v);
                }
            }
            assert(self@ =~~= t);
        }
    }

    /// Overwrites every element with the identity pattern: one on the
    /// diagonal, zero elsewhere.
    pub fn assign_eye(&mut self)
        requires
            old(self).inv(),
            old(self)@.rows == old(self)@.cols,
        ensures
            final (self).inv(),
            final (self)@ == MatModel::eye(old(self)@.rows),
    {
        let (rows, cols) = self.size();
        let mut c: usize = 0;
        while c < cols
            invariant
                self.inv(),
                self@.rows == rows,
                self@.cols == cols,
                rows == cols,
                c <= cols,
                forall|i: int, j: int|
                    0 <= i < rows && 0 <= j < c ==> #[trigger] self@.cell(i, j) == (if i == j {
                        1i64
                    } else {
                        0i64
                    }),
            decreases cols - c,
        {
            let mut r: usize = 0;
            while r < rows
                invariant
                    self.inv(),
                    self@.rows == rows,
                    self@.cols == cols,
                    rows == cols,
                    c < cols,
                    r <= rows,
                    forall|i: int, j: int|
                        0 <= i < rows && 0 <= j < c ==> #[trigger] self@.cell(i, j) == (if i == j {
                            1i64
                        } else {
                            0i64
                        }),
                    forall|i: int|
                        0 <= i < r ==> #[trigger] self@.cell(i, c as int) == (if i == c {
                            1i64
                        } else {
                            0i64
                        }),
                decreases rows - r,
            {
                proof {
                    self.lemma_decompose();
                }
                let ghost pre = self@;
                self.put(r, c, if r == c { 1i64 } else { 0i64 });
                proof {
                    assert forall|i: int, j: int|
                        0 <= i < rows && 0 <= j < cols && !(i == r && j == c) implies #[trigger] self@.cell(
                        i,
                        j,
                    ) == pre.cell(i, j) by {
                        assert(pre.grid.len() == rows);
                        assert(pre.grid[i].len() == cols);
                    }
                }
                r = r + 1;
            }
            c = c + 1;
        }
        proof {
            let t = MatModel::eye(rows as nat);
            self.lemma_decompose();
            assert forall|i: int| 0 <= i < rows implies self@.grid[i] =~= t.grid[i] by {
                assert forall|j: int| 0 <= j < cols implies self@.grid[i][j] == t.grid[i][j] by {
                    assert(self@.cell(i, j) == (if i == j { 1i64 } else { 0i64 }));
                }
            }
            assert(self@ =~~= t);
        }
    }

    /// Copies every element from `rhs`, which must have the same logical
    /// shape; a shape mismatch is a caller error and is excluded.
    pub fn assign<A: MatAcc>(&mut self, rhs: &A)
        requires
            old(self).inv(),
            rhs.acc_inv(),
            old(self)@.rows == rhs.acc_model().rows,
            old(self)@.cols == rhs.acc_model().cols,
        ensures
            final (self).inv(),
            final (self)@ == rhs.acc_model(),
    {
        let (rows, cols) = self.size();
        let mut c: usize = 0;
        while c < cols
            invariant
                self.inv(),
                rhs.acc_inv(),
                self@.rows == rows,
                self@.cols == cols,
                rows == rhs.acc_model().rows,
                cols == rhs.acc_model().cols,
                c <= cols,
                forall|i: int, j: int|
                    0 <= i < rows && 0 <= j < c ==> #[trigger] self@.cell(i, j)
                        == rhs.acc_model().cell(i, j),
            decreases cols - c,
        {
            let mut r: usize = 0;
            while r < rows
                invariant
                    self.inv(),
                    rhs.acc_inv(),
                    self@.rows == rows,
                    self@.cols == cols,
                    rows == rhs.acc_model().rows,
                    cols == rhs.acc_model().cols,
                    c < cols,
                    r <= rows,
                    forall|i: int, j: int|
                        0 <= i < rows && 0 <= j < c ==> #[trigger] self@.cell(i, j)
                            == rhs.acc_model().cell(i, j),
                    forall|i: int|
                        0 <= i < r ==> #[trigger] self@.cell(i, c as int) == rhs.acc_model().cell(
                            i,
                            c as int,
                        ),
                decreases rows - r,
            {
                let v = rhs.acc_get(r, c);
                proof {
                    self.lemma_decompose();
                }
                let ghost pre = self@;
                self.put(r, c, v);
                proof {
                    assert forall|i: int, j: int|
                        0 <= i < rows && 0 <= j < cols && !(i == r && j == c) implies #[trigger] self@.cell(
                        i,
                        j,
                    ) == pre.cell(i, j) by {
                        assert(pre.grid.len() == rows);
                        assert(pre.grid[i].len() == cols);
                    }
                }
                r = r + 1;
            }
            c = c + 1;
        }
        proof {
            let t = rhs.acc_model();
            self.lemma_decompose();
            rhs.acc_wf();
            assert forall|i: int| 0 <= i < rows implies self@.grid[i] =~= t.grid[i] by {
                assert forall|j: int| 0 <= j < cols implies self@.grid[i][j] == t.grid[i][j] by {
                    assert(self@.cell(i, j) == t.cell(i, j));
                }
            }
            assert(self@ =~~= t);
        }
    }

    /// Consults the generator once per logical cell and overwrites the
    /// cell when it answers with a value; a `None` answer leaves the cell
    /// as it was.  The traversal order across cells is unspecified.
    pub fn assign_by<F: Fn(usize, usize) -> Option<i64>>(&mut self, f: F)
        requires
            old(self).inv(),
            forall|r: usize, c: usize|
                r < old(self)@.rows && c < old(self)@.cols ==> #[trigger] call_requires(f, (r, c)),
        ensures
            final (self).inv(),
            final (self)@.rows == old(self)@.rows,
            final (self)@.cols == old(self)@.cols,
            forall|i: int, j: int|
                0 <= i < old(self)@.rows && 0 <= j < old(self)@.cols ==> #[trigger] generated_cell(
                    f,
                    i,
                    j,
                    old(self)@.cell(i, j),
                    final (self)@.cell(i, j),
                ),
    {
        let (rows, cols) = self.size();
        let ghost orig = self@;
        let mut c: usize = 0;
        while c < cols
            invariant
                self.inv(),
                self@.rows == rows,
                self@.cols == cols,
                orig.rows == rows,
                orig.cols == cols,
                orig.wf(),
                c <= cols,
                forall|r2: usize, c2: usize|
                    r2 < rows && c2 < cols ==> #[trigger] call_requires(f, (r2, c2)),
                forall|i: int, j: int|
                    0 <= i < rows && 0 <= j < c ==> #[trigger] generated_cell(
                        f,
                        i,
                        j,
                        orig.cell(i, j),
                        self@.cell(i, j),
                    ),
                forall|i: int, j: int|
                    0 <= i < rows && c <= j < cols ==> #[trigger] self@.cell(i, j) == orig.cell(
                        i,
                        j,
                    ),
            decreases cols - c,
        {
            let mut r: usize = 0;
            while r < rows
                invariant
                    self.inv(),
                    self@.rows == rows,
                    self@.cols == cols,
                    orig.rows == rows,
                    orig.cols == cols,
                    orig.wf(),
                    c < cols,
                    r <= rows,
                    forall|r2: usize, c2: usize|
                        r2 < rows && c2 < cols ==> #[trigger] call_requires(f, (r2, c2)),
                    forall|i: int, j: int|
                        0 <= i < rows && 0 <= j < c ==> #[trigger] generated_cell(
                            f,
                            i,
                            j,
                            orig.cell(i, j),
                            self@.cell(i, j),
                        ),
                    forall|i: int|
                        0 <= i < r ==> #[trigger] generated_cell(
                            f,
                            i,
                            c as int,
                            orig.cell(i, c as int),
                            self@.cell(i, c as int),
                        ),
                    forall|i: int, j: int|
                        0 <= i < rows && c <= j < cols && !(j == c && i < r)
                            ==> #[trigger] self@.cell(i, j) == orig.cell(i, j),
                decreases rows - r,
            {
                let o = f(r, c);
                proof {
                    self.lemma_decompose();
                }
                let ghost pre = self@;
                match o {
                    Option::Some(v) => {
                        self.put(r, c, v);
                    },
                    Option::None => {},
                }
                proof {
                    assert forall|i: int, j: int|
                        0 <= i < rows && 0 <= j < cols && !(i == r && j == c) implies #[trigger] self@.cell(
                        i,
                        j,
                    ) == pre.cell(i, j) by {
                        assert(pre.grid.len() == rows);
                        assert(pre.grid[i].len() == cols);
                    }
                    let ri = r as int;
                    let ci = c as int;
                    assert(call_ensures(f, (((ri) as usize), ((ci) as usize)), o));
                    assert(self@.cell(ri, ci) == (match o {
                        Option::Some(v) => v,
                        Option::None => orig.cell(ri, ci),
                    }));
                    assert(generated_cell(f, ri, ci, orig.cell(ri, ci), self@.cell(ri, ci)));
                }
                r = r + 1;
            }
            c = c + 1;
        }
    }

    /// Consults the generator once per logical cell and fills every cell
    /// with its answer, returning the matrix; the chainable counterpart
    /// of [`Mat::assign_by`].  The traversal order across cells is
    /// unspecified.
    pub fn set_by<F: Fn(usize, usize) -> i64>(self, f: F) -> (m: Mat)
        requires
            self.inv(),
            forall|r: usize, c: usize|
                r < self@.rows && c < self@.cols ==> #[trigger] call_requires(f, (r, c)),
        ensures
            m.inv(),
            m@.rows == self@.rows,
            m@.cols == self@.cols,
            forall|i: int, j: int|
                0 <= i < self@.rows && 0 <= j < self@.cols ==> #[trigger] call_ensures(
                    f,
                    ((i as usize), (j as usize)),
                    m@.cell(i, j),
                ),
    {
        let (rows, cols) = self.size();
        let mut m = self;
        let mut c: usize = 0;
        while c < cols
            invariant
                m.inv(),
                m@.rows == rows,
                m@.cols == cols,
                c <= cols,
                forall|r2: usize, c2: usize|
                    r2 < rows && c2 < cols ==> #[trigger] call_requires(f, (r2, c2)),
                forall|i: int, j: int|
                    0 <= i < rows && 0 <= j < c ==> #[trigger] call_ensures(
                        f,
                        ((i as usize), (j as usize)),
                        m@.cell(i, j),
                    ),
            decreases cols - c,
        {
            let mut r: usize = 0;
            while r < rows
                invariant
                    m.inv(),
                    m@.rows == rows,
                    m@.cols == cols,
                    c < cols,
                    r <= rows,
                    forall|r2: usize, c2: usize|
                        r2 < rows && c2 < cols ==> #[trigger] call_requires(f, (r2, c2)),
                    forall|i: int, j: int|
                        0 <= i < rows && 0 <= j < c ==> #[trigger] call_ensures(
                            f,
                            ((i as usize), (j as usize)),
                            m@.cell(i, j),
                        ),
                    forall|i: int|
                        0 <= i < r ==> #[trigger] call_ensures(
                            f,
                            ((i as usize), (c as usize)),
                            m@.cell(i, c as int),
                        ),
                decreases rows - r,
            {
                let v = f(r, c);
                proof {
                    m.lemma_decompose();
                }
                let ghost pre = m@;
                m.put(r, c, v);
                proof {
                    assert forall|i: int, j: int|
                        0 <= i < rows && 0 <= j < cols && !(i == r && j == c) implies #[trigger] m@.cell(
                        i,
                        j,
                    ) == pre.cell(i, j) by {
                        assert(pre.grid.len() == rows);
                        assert(pre.grid[i].len() == cols);
                    }
                }
                r = r + 1;
            }
            c = c + 1;
        }
        m
    }

    /// Fills the matrix row-major from `vals`: row zero first, then row
    /// one, and so on.  Missing trailing values default to zero; surplus
    /// values are ignored.
    pub fn assign_iter(&mut self, vals: &Vec<i64>)
        requires
            old(self).inv(),
        ensures
            final (self).inv(),
            final (self)@ == crate::model::from_rows(old(self)@.rows, old(self)@.cols, vals@),
    {
        let (rows, cols) = self.size();
        proof {
            self.lemma_decompose();
            self.layout().lemma_cell_count(self.buf_view().len());
            assert(self.buf.len() <= usize::MAX);
        }
        let ghost tgt = crate::model::from_rows(rows as nat, cols as nat, vals@);
        let nvals = vals.len();
        let mut k: usize = 0;
        let mut r: usize = 0;
        while r < rows
            invariant
                self.inv(),
                self@.rows == rows,
                self@.cols == cols,
                r <= rows,
                k == r * cols,
                rows * cols <= usize::MAX,
                nvals == vals@.len(),
                tgt == crate::model::from_rows(rows as nat, cols as nat, vals@),
                forall|i: int, j: int|
                    0 <= i < r && 0 <= j < cols ==> #[trigger] self@.cell(i, j) == tgt.cell(i, j),
            decreases rows - r,
        {
            proof {
                assert(r * cols + cols <= rows * cols) by (nonlinear_arith)
                    requires
                        r < rows,
                        cols >= 0,
                ;
            }
            let mut c: usize = 0;
            while c < cols
                invariant
                    self.inv(),
                    self@.rows == rows,
                    self@.cols == cols,
                    r < rows,
                    c <= cols,
                    k == r * cols + c,
                    r * cols + cols <= rows * cols <= usize::MAX,
                    nvals == vals@.len(),
                    tgt == crate::model::from_rows(rows as nat, cols as nat, vals@),
                    forall|i: int, j: int|
                        0 <= i < r && 0 <= j < cols ==> #[trigger] self@.cell(i, j) == tgt.cell(
                            i,
                            j,
                        ),
                    forall|j: int|
                        0 <= j < c ==> #[trigger] self@.cell(r as int, j) == tgt.cell(r as int, j),
                decreases cols - c,
            {
                let v: i64 = if k < nvals {
                    vals[k]
                } else {
                    0i64
                };
                proof {
                    self.lemma_decompose();
                }
                let ghost pre = self@;
                self.put(r, c, v);
                proof {
                    assert forall|i: int, j: int|
                        0 <= i < rows && 0 <= j < cols && !(i == r && j == c) implies #[trigger] self@.cell(
                        i,
                        j,
                    ) == pre.cell(i, j) by {
                        assert(pre.grid.len() == rows);
                        assert(pre.grid[i].len() == cols);
                    }
                    assert(tgt.cell(r as int, c as int) == v);
                }
                k = k + 1;
                c = c + 1;
            }
            proof {
                assert((r + 1) * cols == r * cols + cols) by (nonlinear_arith);
            }
            r = r + 1;
        }
        proof {
            self.lemma_decompose();
            assert forall|i: int| 0 <= i < rows implies self@.grid[i] =~= tgt.grid[i] by {
                assert forall|j: int| 0 <= j < cols implies self@.grid[i][j] == tgt.grid[i][j] by {
                    assert(self@.cell(i, j) == tgt.cell(i, j));
                }
            }
            assert(self@ =~~= tgt);
        }
    }

    /// Fills every element with the constant `v` and returns the matrix:
    /// the chainable form of [`Mat::assign_all`].
    pub fn set_all(self, v: i64) -> (m: Mat)
        requires
            self.inv(),
        ensures
            m.inv(),
            m@ == MatModel::constant(self@.rows, self@.cols, v),
    {
        let mut m = self;
        m.assign_all(v);
        m
    }

    /// Fills the identity pattern and returns the matrix: the chainable
    /// form of [`Mat::assign_eye`].
    pub fn set_eye(self) -> (m: Mat)
        requires
            self.inv(),
            self@.rows == self@.cols,
        ensures
            m.inv(),
            m@ == MatModel::eye(self@.rows),
    {
        let mut m = self;
        m.assign_eye();
        m
    }

    /// Fills row-major from `vals` and returns the matrix: the chainable
    /// form of [`Mat::assign_iter`].
    pub fn set_iter(self, vals: &Vec<i64>) -> (m: Mat)
        requires
            self.inv(),
        ensures
            m.inv(),
            m@ == crate::model::from_rows(self@.rows, self@.cols, vals@),
    {
        let mut m = self;
        m.assign_iter(vals);
        m
    }

    /// Clones into an owned, exactly-sized matrix: when the buffer holds
    /// no slack it is copied wholesale, otherwise the logical window is
    /// copied element by element into a freshly packed buffer.
    pub fn clone_sz(&self) -> (m: Mat)
        requires
            self.inv(),
        ensures
            m.inv(),
            m@ == self@,
    {
        let (rows, cols) = self.size();
        proof {
            self.lemma_decompose();
            self.layout().lemma_cell_count(self.buf_view().len());
        }
        let sz = self.buf.len();
        if sz == rows * cols {
            let nb = self.buf.clone();
            proof {
                assert(nb@ =~= self.buf@);
            }
            let m = Mat {
                nrows: self.nrows,
                ncols: self.ncols,
                offset: self.offset,
                stride: self.stride,
                transposed: self.transposed,
                buf: nb,
            };
            proof {
                assert(m@ =~~= self@);
            }
            m
        } else {
            let mut m = Mat::new(rows, cols);
            m.assign(self);
            m
        }
    }

    /// Clones a column vector into a square diagonal matrix: the vector's
    /// elements on the diagonal, zero elsewhere.  A source that is not a
    /// single column is a caller error and is excluded.
    pub fn clone_diag(&self) -> (m: Mat)
        requires
            self.inv(),
            self@.cols == 1,
            self@.rows * self@.rows <= usize::MAX,
        ensures
            m.inv(),
            m@ == MatModel::of_fn(
                self@.rows,
                self@.rows,
                (|r: int, c: int|
                    if r == c {
                        self@.cell(r, 0)
                    } else {
                        0i64
                    }),
            ),
    {
        let (rows, _) = self.size();
        let ghost tgt = MatModel::of_fn(
            self@.rows,
            self@.rows,
            (|r: int, c: int|
                if r == c {
                    self@.cell(r, 0)
                } else {
                    0i64
                }),
        );
        let mut m = Mat::new(rows, rows);
        let mut r: usize = 0;
        while r < rows
            invariant
                m.inv(),
                self.inv(),
                m@.rows == rows,
                m@.cols == rows,
                r <= rows,
                rows == self@.rows,
                self@.cols == 1,
                tgt == MatModel::of_fn(
                    self@.rows,
                    self@.rows,
                    (|i: int, j: int|
                        if i == j {
                            self@.cell(i, 0)
                        } else {
                            0i64
                        }),
                ),
                forall|i: int, j: int|
                    0 <= i < rows && 0 <= j < rows ==> #[trigger] m@.cell(i, j) == (if i == j && i
                        < r {
                        self@.cell(i, 0)
                    } else {
                        0i64
                    }),
            decreases rows - r,
        {
            let v = self.get(r, 0);
            proof {
                m.lemma_decompose();
            }
            let ghost pre = m@;
            m.put(r, r, v);
            proof {
                assert forall|i: int, j: int|
                    0 <= i < rows && 0 <= j < rows && !(i == r && j == r) implies #[trigger] m@.cell(
                    i,
                    j,
                ) == pre.cell(i, j) by {
                    assert(pre.grid.len() == rows);
                    assert(pre.grid[i].len() == rows);
                }
            }
            r = r + 1;
        }
        proof {
            m.lemma_decompose();
            assert forall|i: int| 0 <= i < rows implies m@.grid[i] =~= tgt.grid[i] by {
                assert forall|j: int| 0 <= j < rows implies m@.grid[i][j] == tgt.grid[i][j] by {
                    assert(m@.cell(i, j) == tgt.cell(i, j));
                }
            }
            assert(m@ =~~= tgt);
        }
        m
    }

    /// The inner product with `rhs`: the sum of elementwise products,
    /// in wrapping `i64` arithmetic.  The operands must have the same
    /// logical shape; a mismatch is a caller error and is excluded.
    pub fn prod<A: MatAcc>(&self, rhs: &A) -> (p: i64)
        requires
            self.inv(),
            rhs.acc_inv(),
            self@.rows == rhs.acc_model().rows,
            self@.cols == rhs.acc_model().cols,
        ensures
            p == crop(sum_prod_to(self@, rhs.acc_model(), (self@.rows * self@.cols) as nat)),
    {
        let (rows, cols) = self.size();
        proof {
            self.lemma_decompose();
            self.layout().lemma_cell_count(self.buf_view().len());
            assert(self.buf.len() <= usize::MAX);
            crate::scalar::lemma_crop_identity(0);
        }
        let ghost a = self@;
        let ghost b = rhs.acc_model();
        let mut sum: i64 = 0;
        let mut k: usize = 0;
        let mut c: usize = 0;
        while c < cols
            invariant
                self.inv(),
                rhs.acc_inv(),
                a == self@,
                b == rhs.acc_model(),
                rows == a.rows,
                cols == a.cols,
                rows == b.rows,
                cols == b.cols,
                c <= cols,
                k == c * rows,
                rows * cols <= usize::MAX,
                sum == crop(sum_prod_to(a, b, k as nat)),
            decreases cols - c,
        {
            proof {
                assert(c * rows + rows <= rows * cols) by (nonlinear_arith)
                    requires
                        c < cols,
                        rows >= 0,
                ;
            }
            let mut r: usize = 0;
            while r < rows
                invariant
                    self.inv(),
                    rhs.acc_inv(),
                    a == self@,
                    b == rhs.acc_model(),
                    rows == a.rows,
                    cols == a.cols,
                    rows == b.rows,
                    cols == b.cols,
                    c < cols,
                    r <= rows,
                    k == c * rows + r,
                    c * rows + rows <= rows * cols <= usize::MAX,
                    sum == crop(sum_prod_to(a, b, k as nat)),
                decreases rows - r,
            {
                let x = self.get(r, c);
                let y = rhs.acc_get(r, c);
                proof {
                    lemma_fundamental_div_mod_converse(
                        k as int,
                        rows as int,
                        c as int,
                        r as int,
                    );
                    assert(sum_prod_to(a, b, (k + 1) as nat) == sum_prod_to(a, b, k as nat) + a.cell(
                        r as int,
                        c as int,
                    ) * b.cell(r as int, c as int));
                    lemma_wrapping_ops_are_crop(sum, x.wrapping_mul(y));
                    lemma_crop_add(sum_prod_to(a, b, k as nat), x * y);
                }
                sum = sum.wrapping_add(x.wrapping_mul(y));
                k = k + 1;
                r = r + 1;
            }
            proof {
                assert((c + 1) * rows == c * rows + rows) by (nonlinear_arith);
            }
            c = c + 1;
        }
        proof {
            assert(cols * rows == rows * cols) by (nonlinear_arith);
        }
        sum
    }

    /// The squared Euclidean norm: the sum of the squares of every
    /// element, in wrapping `i64` arithmetic.
    pub fn norm_p2sq(&self) -> (s: i64)
        requires
            self.inv(),
        ensures
            s == crop(crate::model::sum_sq_to(self@, (self@.rows * self@.cols) as nat)),
    {
        proof {
            crate::model::lemma_sum_sq_is_self_prod(
                self@,
                (self@.rows * self@.cols) as nat,
            );
        }
        self.prod(self)
    }

    /// The Euclidean norm rounded down to an integer: the floor of the
    /// square root of [`Mat::norm_p2sq`].  `None` exactly when the squared
    /// norm wrapped to a negative value, so that no square root exists.
    pub fn norm_p2(&self) -> (r: Option<i64>)
        requires
            self.inv(),
        ensures
            ({
                let s = crop(crate::model::sum_sq_to(self@, (self@.rows * self@.cols) as nat));
                match r {
                    Option::None => s < 0,
                    Option::Some(v) => s >= 0 && 0 <= v && v * v <= s && (v + 1) * (v + 1) > s,
                }
            }),
    {
        let s = self.norm_p2sq();
        if s < 0 {
            None
        } else {
            Some(isqrt64(s))
        }
    }

    /// The trace: the sum of the diagonal elements `self[i, i]` for `i`
    /// up to the smaller logical dimension, in wrapping `i64` arithmetic.
    pub fn tr(&self) -> (t: i64)
        requires
            self.inv(),
        ensures
            t == crop(
                trace_to(
                    self@,
                    (if self@.rows <= self@.cols {
                        self@.rows
                    } else {
                        self@.cols
                    }),
                ),
            ),
    {
        let (rows, cols) = self.size();
        let n: usize = if rows <= cols {
            rows
        } else {
            cols
        };
        proof {
            crate::scalar::lemma_crop_identity(0);
        }
        let mut sum: i64 = 0;
        let mut i: usize = 0;
        while i < n
            invariant
                self.inv(),
                rows == self@.rows,
                cols == self@.cols,
                n == (if rows <= cols {
                    rows
                } else {
                    cols
                }),
                i <= n,
                sum == crop(trace_to(self@, i as nat)),
            decreases n - i,
        {
            let x = self.get(i, i);
            proof {
                lemma_wrapping_ops_are_crop(sum, x);
                crate::scalar::lemma_crop_identity(x as int);
                lemma_crop_add(trace_to(self@, i as nat), x as int);
            }
            sum = sum.wrapping_add(x);
            i = i + 1;
        }
        sum
    }

    /// The largest element, scanning every cell; `None` exactly when the
    /// matrix has no cells.
    pub fn max(&self) -> (m: Option<i64>)
        requires
            self.inv(),
        ensures
            match m {
                Option::None => self@.rows == 0 || self@.cols == 0,
                Option::Some(v) => {
                    &&& self@.rows > 0
                    &&& self@.cols > 0
                    &&& exists|r: int, c: int|
                        0 <= r < self@.rows && 0 <= c < self@.cols && #[trigger] self@.cell(r, c)
                            == v
                    &&& forall|r: int, c: int|
                        0 <= r < self@.rows && 0 <= c < self@.cols ==> #[trigger] self@.cell(r, c)
                            <= v
                },
            },
    {
        let (rows, cols) = self.size();
        if rows == 0 || cols == 0 {
            return None;
        }
        let mut m = self.get(0, 0);
        let ghost mut mr: int = 0;
        let ghost mut mc: int = 0;
        let mut c: usize = 0;
        while c < cols
            invariant
                self.inv(),
                rows == self@.rows,
                cols == self@.cols,
                0 < rows,
                0 < cols,
                c <= cols,
                0 <= mr < rows,
                0 <= mc < cols,
                self@.cell(mr, mc) == m,
                forall|i: int, j: int|
                    0 <= i < rows && 0 <= j < c ==> #[trigger] self@.cell(i, j) <= m,
            decreases cols - c,
        {
            let mut r: usize = 0;
            while r < rows
                invariant
                    self.inv(),
                    rows == self@.rows,
                    cols == self@.cols,
                    0 < rows,
                    0 < cols,
                    c < cols,
                    r <= rows,
                    0 <= mr < rows,
                    0 <= mc < cols,
                    self@.cell(mr, mc) == m,
                    forall|i: int, j: int|
                        0 <= i < rows && 0 <= j < c ==> #[trigger] self@.cell(i, j) <= m,
                    forall|i: int| 0 <= i < r ==> #[trigger] self@.cell(i, c as int) <= m,
                decreases rows - r,
            {
                let x = self.get(r, c);
                if x > m {
                    m = x;
                    proof {
                        mr = r as int;
                        mc = c as int;
                    }
                }
                r = r + 1;
            }
            c = c + 1;
        }
        Some(m)
    }

    /// The smallest element, scanning every cell; `None` exactly when the
    /// matrix has no cells.
    pub fn min(&self) -> (m: Option<i64>)
        requires
            self.inv(),
        ensures
            match m {
                Option::None => self@.rows == 0 || self@.cols == 0,
                Option::Some(v) => {
                    &&& self@.rows > 0
                    &&& self@.cols > 0
                    &&& exists|r: int, c: int|
                        0 <= r < self@.rows && 0 <= c < self@.cols && #[trigger] self@.cell(r, c)
                            == v
                    &&& forall|r: int, c: int|
                        0 <= r < self@.rows && 0 <= c < self@.cols ==> #[trigger] self@.cell(r, c)
                            >= v
                },
            },
    {
        let (rows, cols) = self.size();
        if rows == 0 || cols == 0 {
            return None;
        }
        let mut m = self.get(0, 0);
        let ghost mut mr: int = 0;
        let ghost mut mc: int = 0;
        let mut c: usize = 0;
        while c < cols
            invariant
                self.inv(),
                rows == self@.rows,
                cols == self@.cols,
                0 < rows,
                0 < cols,
                c <= cols,
                0 <= mr < rows,
                0 <= mc < cols,
                self@.cell(mr, mc) == m,
                forall|i: int, j: int|
                    0 <= i < rows && 0 <= j < c ==> #[trigger] self@.cell(i, j) >= m,
            decreases cols - c,
        {
            let mut r: usize = 0;
            while r < rows
                invariant
                    self.inv(),
                    rows == self@.rows,
                    cols == self@.cols,
                    0 < rows,
                    0 < cols,
                    c < cols,
                    r <= rows,
                    0 <= mr < rows,
                    0 <= mc < cols,
                    self@.cell(mr, mc) == m,
                    forall|i: int, j: int|
                        0 <= i < rows && 0 <= j < c ==> #[trigger] self@.cell(i, j) >= m,
                    forall|i: int| 0 <= i < r ==> #[trigger] self@.cell(i, c as int) >= m,
                decreases rows - r,
            {
                let x = self.get(r, c);
                if x < m {
                    m = x;
                    proof {
                        mr = r as int;
                        mc = c as int;
                    }
                }
                r = r + 1;
            }
            c = c + 1;
        }
        Some(m)
    }

    /// An immutable view of the whole matrix: zero-copy.
    pub fn as_slice<'a>(&'a self) -> (s: MatSlice<'a>)
        requires
            self.inv(),
        ensures
            s.inv(),
            s@ == self@,
    {
        let s = MatSlice {
            nrows: self.nrows,
            ncols: self.ncols,
            offset: self.offset,
            stride: self.stride,
            transposed: self.transposed,
            buf: &self.buf,
        };
        proof {
            assert(s.layout() == self.layout());
        }
        s
    }

    /// A sub-block view, resolved against the logical shape: zero-copy,
    /// same stride, same buffer.
    pub fn slice<'a>(&'a self, rspan: Span, cspan: Span) -> (s: MatSlice<'a>)
        requires
            self.inv(),
            rspan.valid(self@.rows as int),
            cspan.valid(self@.cols as int),
        ensures
            s.inv(),
            s@ == self@.window(
                rspan.lo(),
                cspan.lo(),
                (rspan.hi(self@.rows as int) - rspan.lo()) as nat,
                (cspan.hi(self@.cols as int) - cspan.lo()) as nat,
            ),
    {
        self.as_slice().slice(rspan, cspan)
    }

    /// The rows selected by `rspan`, all columns: zero-copy.
    pub fn rows<'a>(&'a self, rspan: Span) -> (s: MatSlice<'a>)
        requires
            self.inv(),
            rspan.valid(self@.rows as int),
        ensures
            s.inv(),
            s@ == self@.window(
                rspan.lo(),
                0,
                (rspan.hi(self@.rows as int) - rspan.lo()) as nat,
                self@.cols,
            ),
    {
        self.as_slice().rows(rspan)
    }

    /// The columns selected by `cspan`, all rows: zero-copy.
    pub fn cols<'a>(&'a self, cspan: Span) -> (s: MatSlice<'a>)
        requires
            self.inv(),
            cspan.valid(self@.cols as int),
        ensures
            s.inv(),
            s@ == self@.window(
                0,
                cspan.lo(),
                self@.rows,
                (cspan.hi(self@.cols as int) - cspan.lo()) as nat,
            ),
    {
        self.as_slice().cols(cspan)
    }

    /// The single row `r`, as a `1` by `cols` view.
    pub fn row<'a>(&'a self, r: usize) -> (s: MatSlice<'a>)
        requires
            self.inv(),
            r < self@.rows,
        ensures
            s.inv(),
            s@ == self@.window(r as int, 0, 1, self@.cols),
    {
        self.as_slice().row(r)
    }

    /// The single column `c`, as a `rows` by `1` view.
    pub fn col<'a>(&'a self, c: usize) -> (s: MatSlice<'a>)
        requires
            self.inv(),
            c < self@.cols,
        ensures
            s.inv(),
            s@ == self@.window(0, c as int, self@.rows, 1),
    {
        self.as_slice().col(c)
    }

    /// A view of the transpose: the same buffer with the transposition
    /// flag flipped, no data moved.
    pub fn t<'a>(&'a self) -> (s: MatSlice<'a>)
        requires
            self.inv(),
        ensures
            s.inv(),
            s@ == self@.transpose(),
    {
        self.as_slice().t()
    }

    /// A mutable sub-block window, handed out together with the mutable
    /// borrow of this matrix's buffer: writes through the pair mutate
    /// this matrix at the corresponding coordinates, and nothing else,
    /// as the window handle's own contracts state.  Once the borrow
    /// ends, this matrix denotes its old value with the buffer replaced
    /// by whatever the borrow left behind.
    pub fn slice_mut<'a>(&'a mut self, rspan: Span, cspan: Span) -> (ret: (
        MatSliMu,
        &'a mut Vec<i64>,
    ))
        requires
            old(self).inv(),
            rspan.valid(old(self)@.rows as int),
            cspan.valid(old(self)@.cols as int),
        ensures
            ret.0.wf(ret.1@),
            ret.1@ == old(self).buf_view(),
            ret.0.lay() == old(self).layout().window_layout(
                rspan.lo(),
                cspan.lo(),
                (rspan.hi(old(self)@.rows as int) - rspan.lo()) as nat,
                (cspan.hi(old(self)@.cols as int) - cspan.lo()) as nat,
            ),
            ret.0.read(ret.1@) == old(self)@.window(
                rspan.lo(),
                cspan.lo(),
                (rspan.hi(old(self)@.rows as int) - rspan.lo()) as nat,
                (cspan.hi(old(self)@.cols as int) - cspan.lo()) as nat,
            ),
            final (self).layout() == old(self).layout(),
            final (self).buf_view() == final (ret.1)@,
            final (self)@ == old(self).layout().read(final (ret.1)@),
            final (self)@.rows == old(self)@.rows,
            final (self)@.cols == old(self)@.cols,
            final (ret.1)@.len() == old(self).buf_view().len() ==> final (self).inv(),
    {
        let (rows, cols) = self.size();
        let (rlo, rhi) = rspan.resolve(rows);
        let (clo, chi) = cspan.resolve(cols);
        let rlen = rhi - rlo;
        let clen = chi - clo;
        proof {
            self.lemma_decompose();
            self.layout().lemma_window_layout(
                self.buf_view(),
                rlo as int,
                clo as int,
                rlen as nat,
                clen as nat,
            );
            let w = self.layout().window_layout(rlo as int, clo as int, rlen as nat, clen as nat);
            if rlen > 0 && clen > 0 {
                lemma_window_offset_fits(w, self.buf_view().len());
            }
            assert(self.buf.len() <= usize::MAX);
        }
        let off: usize = if rlen == 0 || clen == 0 {
            self.offset
        } else if !self.transposed {
            self.offset + self.stride * clo + rlo
        } else {
            self.offset + self.stride * rlo + clo
        };
        let s = MatSliMu {
            nrows: if !self.transposed {
                rlen
            } else {
                clen
            },
            ncols: if !self.transposed {
                clen
            } else {
                rlen
            },
            offset: off,
            stride: self.stride,
            transposed: self.transposed,
        };
        proof {
            assert(s.lay() == self.layout().window_layout(
                rlo as int,
                clo as int,
                rlen as nat,
                clen as nat,
            ));
        }
        (s, &mut self.buf)
    }

    /// A mutable window over the rows selected by `rspan`, all columns.
    pub fn rows_mut<'a>(&'a mut self, rspan: Span) -> (ret: (MatSliMu, &'a mut Vec<i64>))
        requires
            old(self).inv(),
            rspan.valid(old(self)@.rows as int),
        ensures
            ret.0.wf(ret.1@),
            ret.1@ == old(self).buf_view(),
            ret.0.read(ret.1@) == old(self)@.window(
                rspan.lo(),
                0,
                (rspan.hi(old(self)@.rows as int) - rspan.lo()) as nat,
                old(self)@.cols,
            ),
            final (self).layout() == old(self).layout(),
            final (self).buf_view() == final (ret.1)@,
            final (self)@ == old(self).layout().read(final (ret.1)@),
            final (self)@.rows == old(self)@.rows,
            final (self)@.cols == old(self)@.cols,
            final (ret.1)@.len() == old(self).buf_view().len() ==> final (self).inv(),
    {
        self.slice_mut(rspan, Span::Whole)
    }

    /// A mutable window over the columns selected by `cspan`, all rows.
    pub fn cols_mut<'a>(&'a mut self, cspan: Span) -> (ret: (MatSliMu, &'a mut Vec<i64>))
        requires
            old(self).inv(),
            cspan.valid(old(self)@.cols as int),
        ensures
            ret.0.wf(ret.1@),
            ret.1@ == old(self).buf_view(),
            ret.0.read(ret.1@) == old(self)@.window(
                0,
                cspan.lo(),
                old(self)@.rows,
                (cspan.hi(old(self)@.cols as int) - cspan.lo()) as nat,
            ),
            final (self).layout() == old(self).layout(),
            final (self).buf_view() == final (ret.1)@,
            final (self)@ == old(self).layout().read(final (ret.1)@),
            final (self)@.rows == old(self)@.rows,
            final (self)@.cols == old(self)@.cols,
            final (ret.1)@.len() == old(self).buf_view().len() ==> final (self).inv(),
    {
        self.slice_mut(Span::Whole, cspan)
    }

    /// A mutable window over the single row `r`.
    pub fn row_mut<'a>(&'a mut self, r: usize) -> (ret: (MatSliMu, &'a mut Vec<i64>))
        requires
            old(self).inv(),
            r < old(self)@.rows,
        ensures
            ret.0.wf(ret.1@),
            ret.1@ == old(self).buf_view(),
            ret.0.read(ret.1@) == old(self)@.window(r as int, 0, 1, old(self)@.cols),
            final (self).layout() == old(self).layout(),
            final (self).buf_view() == final (ret.1)@,
            final (self)@ == old(self).layout().read(final (ret.1)@),
            final (self)@.rows == old(self)@.rows,
            final (self)@.cols == old(self)@.cols,
            final (ret.1)@.len() == old(self).buf_view().len() ==> final (self).inv(),
    {
        self.rows_mut(Span::RunInc(r, r))
    }

    /// A mutable window over the single column `c`.
    pub fn col_mut<'a>(&'a mut self, c: usize) -> (ret: (MatSliMu, &'a mut Vec<i64>))
        requires
            old(self).inv(),
            c < old(self)@.cols,
        ensures
            ret.0.wf(ret.1@),
            ret.1@ == old(self).buf_view(),
            ret.0.read(ret.1@) == old(self)@.window(0, c as int, old(self)@.rows, 1),
            final (self).layout() == old(self).layout(),
            final (self).buf_view() == final (ret.1)@,
            final (self)@ == old(self).layout().read(final (ret.1)@),
            final (self)@.rows == old(self)@.rows,
            final (self)@.cols == old(self)@.cols,
            final (ret.1)@.len() == old(self).buf_view().len() ==> final (self).inv(),
    {
        self.cols_mut(Span::RunInc(c, c))
    }

    /// A mutable window over the whole matrix.
    pub fn as_slice_mut<'a>(&'a mut self) -> (ret: (MatSliMu, &'a mut Vec<i64>))
        requires
            old(self).inv(),
        ensures
            ret.0.wf(ret.1@),
            ret.1@ == old(self).buf_view(),
            ret.0.read(ret.1@) == old(self)@.window(0, 0, old(self)@.rows, old(self)@.cols),
            final (self).layout() == old(self).layout(),
            final (self).buf_view() == final (ret.1)@,
            final (self)@ == old(self).layout().read(final (ret.1)@),
            final (self)@.rows == old(self)@.rows,
            final (self)@.cols == old(self)@.cols,
            final (ret.1)@.len() == old(self).buf_view().len() ==> final (self).inv(),
    {
        self.slice_mut(Span::Whole, Span::Whole)
    }

    /// A mutable window over the whole matrix, transposed: writing its
    /// `(i, j)` cell writes this matrix's `(j, i)` cell.
    pub fn t_mut<'a>(&'a mut self) -> (ret: (MatSliMu, &'a mut Vec<i64>))
        requires
            old(self).inv(),
        ensures
            ret.0.wf(ret.1@),
            ret.1@ == old(self).buf_view(),
            ret.0.read(ret.1@) == old(self)@.window(
                0,
                0,
                old(self)@.rows,
                old(self)@.cols,
            ).transpose(),
            final (self).layout() == old(self).layout(),
            final (self).buf_view() == final (ret.1)@,
            final (self)@ == old(self).layout().read(final (ret.1)@),
            final (self)@.rows == old(self)@.rows,
            final (self)@.cols == old(self)@.cols,
            final (ret.1)@.len() == old(self).buf_view().len() ==> final (self).inv(),
    {
        let (s, b) = self.slice_mut(Span::Whole, Span::Whole);
        (s.t(), b)
    }

    /// Flips the transposition flag, consuming the handle and returning
    /// it: the result denotes the transpose of what went in, without
    /// moving data.
    pub fn set_t(self) -> (m: Mat)
        requires
            self.inv(),
        ensures
            m.inv(),
            m@ == self@.transpose(),
    {
        let m = Mat { transposed: !self.transposed, ..self };
        proof {
            let t = self@.transpose();
            assert forall|r: int| 0 <= r < m@.rows implies m@.grid[r] =~= t.grid[r] by {
                assert forall|c: int| 0 <= c < m@.cols implies m@.grid[r][c] == t.grid[r][c] by {
                    assert(m@.cell(r, c) == m.buf_view()[m.layout().lin(r, c)]);
                    assert(self@.cell(c, r) == self.buf_view()[self.layout().lin(c, r)]);
                    assert(m.layout().lin(r, c) == self.layout().lin(c, r));
                }
            }
            assert(m@ =~~= t);
        }
        m
    }
}

/// An immutable zero-copy view of a matrix: the same bookkeeping as
/// [`Mat`], over a borrowed buffer.
pub struct MatSlice<'a> {
    nrows: usize,
    ncols: usize,
    offset: usize,
    stride: usize,
    transposed: bool,
    buf: &'a Vec<i64>,
}

impl<'a> View for MatSlice<'a> {
    type V = MatModel;

    closed spec fn view(&self) -> MatModel {
        self.layout().read(self.buf@)
    }
}

impl<'a> MatSlice<'a> {
    /// The physical placement of the logical window inside the shared
    /// buffer.
    pub closed spec fn layout(&self) -> Layout {
        Layout {
            nrows: self.nrows as nat,
            ncols: self.ncols as nat,
            offset: self.offset as nat,
            stride: self.stride as nat,
            transposed: self.transposed,
        }
    }

    /// The shared buffer's contents.
    pub closed spec fn buf_view(&self) -> Seq<i64> {
        self.buf@
    }

    /// Well-formedness: the layout addresses only cells inside the
    /// shared buffer.
    pub closed spec fn inv(&self) -> bool {
        self.layout().wf(self.buf@.len())
    }

    /// How the pieces fit together, as for [`Mat::lemma_decompose`].
    pub proof fn lemma_decompose(&self)
        ensures
            self@ == self.layout().read(self.buf_view()),
            self.inv() ==> self.layout().wf(self.buf_view().len()),
            self@.rows == self.layout().rows(),
            self@.cols == self.layout().cols(),
            self@.wf(),
    {
    }

    /// The logical `(rows, cols)` shape, honoring the transposition flag.
    pub fn size(&self) -> (s: (usize, usize))
        ensures
            s.0 == self@.rows,
            s.1 == self@.cols,
    {
        if !self.transposed {
            (self.nrows, self.ncols)
        } else {
            (self.ncols, self.nrows)
        }
    }

    /// The buffer index of logical element `(r, c)`.
    fn pos(&self, r: usize, c: usize) -> (i: usize)
        requires
            self.inv(),
            r < self@.rows,
            c < self@.cols,
        ensures
            i == self.layout().lin(r as int, c as int),
            i < self.buf_view().len(),
    {
        proof {
            self.layout().lemma_lin_in_bounds(self.buf@.len(), r as int, c as int);
        }
        let blen: usize = self.buf.len();
        if !self.transposed {
            self.offset + self.stride * c + r
        } else {
            self.offset + self.stride * r + c
        }
    }

    /// Reads the element in logical row `r`, logical column `c`.
    pub fn get(&self, r: usize, c: usize) -> (v: i64)
        requires
            self.inv(),
            r < self@.rows,
            c < self@.cols,
        ensures
            v == self@.cell(r as int, c as int),
    {
        let i = self.pos(r, c);
        self.buf[i]
    }

    /// Clones the viewed window into an owned, exactly-sized matrix.
    pub fn clone_sz(&self) -> (m: Mat)
        requires
            self.inv(),
        ensures
            m.inv(),
            m@ == self@,
    {
        let (rows, cols) = self.size();
        proof {
            self.lemma_decompose();
            self.layout().lemma_cell_count(self.buf_view().len());
            assert(self.buf.len() <= usize::MAX);
        }
        let sz = self.buf.len();
        if sz == rows * cols {
            let nb = (*self.buf).clone();
            proof {
                assert(nb@ =~= self.buf@);
            }
            let m = Mat {
                nrows: self.nrows,
                ncols: self.ncols,
                offset: self.offset,
                stride: self.stride,
                transposed: self.transposed,
                buf: nb,
            };
            proof {
                assert(m@ =~~= self@);
            }
            m
        } else {
            let mut m = Mat::new(rows, cols);
            m.assign(self);
            m
        }
    }

    /// A view of the transpose: the same buffer with the transposition
    /// flag flipped, no data moved.
    pub fn t(&self) -> (s: MatSlice<'a>)
        requires
            self.inv(),
        ensures
            s.inv(),
            s@ == self@.transpose(),
    {
        let s = MatSlice {
            nrows: self.nrows,
            ncols: self.ncols,
            offset: self.offset,
            stride: self.stride,
            transposed: !self.transposed,
            buf: self.buf,
        };
        proof {
            lemma_transposed_flag(self.layout(), s.layout(), self.buf@);
            s.lemma_decompose();
            self.lemma_decompose();
            crate::model::lemma_like_is_equal(s@, self@.transpose());
        }
        s
    }

    /// A sub-block view of this view, resolved against its logical
    /// shape: zero-copy, same stride, same buffer.
    pub fn slice(&self, rspan: Span, cspan: Span) -> (s: MatSlice<'a>)
        requires
            self.inv(),
            rspan.valid(self@.rows as int),
            cspan.valid(self@.cols as int),
        ensures
            s.inv(),
            s@ == self@.window(
                rspan.lo(),
                cspan.lo(),
                (rspan.hi(self@.rows as int) - rspan.lo()) as nat,
                (cspan.hi(self@.cols as int) - cspan.lo()) as nat,
            ),
    {
        let (rows, cols) = self.size();
        let (rlo, rhi) = rspan.resolve(rows);
        let (clo, chi) = cspan.resolve(cols);
        let rlen = rhi - rlo;
        let clen = chi - clo;
        proof {
            self.lemma_decompose();
            self.layout().lemma_window_layout(
                self.buf_view(),
                rlo as int,
                clo as int,
                rlen as nat,
                clen as nat,
            );
            let w = self.layout().window_layout(rlo as int, clo as int, rlen as nat, clen as nat);
            if rlen > 0 && clen > 0 {
                lemma_window_offset_fits(w, self.buf_view().len());
            }
            assert(self.buf.len() <= usize::MAX);
        }
        let off: usize = if rlen == 0 || clen == 0 {
            self.offset
        } else if !self.transposed {
            self.offset + self.stride * clo + rlo
        } else {
            self.offset + self.stride * rlo + clo
        };
        let s = MatSlice {
            nrows: if !self.transposed {
                rlen
            } else {
                clen
            },
            ncols: if !self.transposed {
                clen
            } else {
                rlen
            },
            offset: off,
            stride: self.stride,
            transposed: self.transposed,
            buf: self.buf,
        };
        proof {
            assert(s.layout() == self.layout().window_layout(
                rlo as int,
                clo as int,
                rlen as nat,
                clen as nat,
            ));
        }
        s
    }

    /// The rows selected by `rspan`, all columns: zero-copy.
    pub fn rows(&self, rspan: Span) -> (s: MatSlice<'a>)
        requires
            self.inv(),
            rspan.valid(self@.rows as int),
        ensures
            s.inv(),
            s@ == self@.window(
                rspan.lo(),
                0,
                (rspan.hi(self@.rows as int) - rspan.lo()) as nat,
                self@.cols,
            ),
    {
        self.slice(rspan, Span::Whole)
    }

    /// The columns selected by `cspan`, all rows: zero-copy.
    pub fn cols(&self, cspan: Span) -> (s: MatSlice<'a>)
        requires
            self.inv(),
            cspan.valid(self@.cols as int),
        ensures
            s.inv(),
            s@ == self@.window(
                0,
                cspan.lo(),
                self@.rows,
                (cspan.hi(self@.cols as int) - cspan.lo()) as nat,
            ),
    {
        self.slice(Span::Whole, cspan)
    }

    /// The single row `r`, as a `1` by `cols` view.
    pub fn row(&self, r: usize) -> (s: MatSlice<'a>)
        requires
            self.inv(),
            r < self@.rows,
        ensures
            s.inv(),
            s@ == self@.window(r as int, 0, 1, self@.cols),
    {
        self.rows(Span::RunInc(r, r))
    }

    /// The single column `c`, as a `rows` by `1` view.
    pub fn col(&self, c: usize) -> (s: MatSlice<'a>)
        requires
            self.inv(),
            c < self@.cols,
        ensures
            s.inv(),
            s@ == self@.window(0, c as int, self@.rows, 1),
    {
        self.cols(Span::RunInc(c, c))
    }
}

impl<'a> MatAcc for MatSlice<'a> {
    open spec fn acc_model(&self) -> MatModel {
        self@
    }

    open spec fn acc_inv(&self) -> bool {
        self.inv()
    }

    proof fn acc_wf(&self) {
        self.lemma_decompose();
    }

    fn acc_size(&self) -> (s: (usize, usize)) {
        self.size()
    }

    fn acc_get(&self, row: usize, col: usize) -> (v: i64) {
        self.get(row, col)
    }
}

/// A mutable zero-copy window handle: the bookkeeping of a sub-block,
/// used together with the mutable borrow of the parent's buffer that
/// [`Mat::slice_mut`] hands out beside it.  Writing through the handle
/// mutates the parent at the corresponding coordinates.
pub struct MatSliMu {
    nrows: usize,
    ncols: usize,
    offset: usize,
    stride: usize,
    transposed: bool,
}

impl MatSliMu {
    /// The physical placement of the window inside the parent's buffer.
    pub closed spec fn lay(&self) -> Layout {
        Layout {
            nrows: self.nrows as nat,
            ncols: self.ncols as nat,
            offset: self.offset as nat,
            stride: self.stride as nat,
            transposed: self.transposed,
        }
    }

    /// Well-formedness against the buffer contents `buf`.
    pub open spec fn wf(&self, buf: Seq<i64>) -> bool {
        self.lay().wf(buf.len())
    }

    /// The logical value of the window over the buffer contents `buf`.
    pub open spec fn read(&self, buf: Seq<i64>) -> MatModel {
        self.lay().read(buf)
    }

    /// The logical `(rows, cols)` shape of the window.
    pub fn size(&self) -> (s: (usize, usize))
        ensures
            s.0 == self.lay().rows(),
            s.1 == self.lay().cols(),
    {
        if !self.transposed {
            (self.nrows, self.ncols)
        } else {
            (self.ncols, self.nrows)
        }
    }

    /// The transposed window: the same bookkeeping with the flag
    /// flipped; writes still reach the same buffer cells.
    pub fn t(self) -> (s: MatSliMu)
        ensures
            forall|buf: Seq<i64>| #[trigger] s.wf(buf) <==> self.wf(buf),
            forall|buf: Seq<i64>| #[trigger] s.read(buf) == self.read(buf).transpose(),
            forall|i: int| #[trigger] s.lay().covers(i) <==> self.lay().covers(i),
    {
        let s = MatSliMu {
            nrows: self.nrows,
            ncols: self.ncols,
            offset: self.offset,
            stride: self.stride,
            transposed: !self.transposed,
        };
        proof {
            assert forall|buf: Seq<i64>| #[trigger] s.read(buf) == self.read(buf).transpose() by {
                lemma_transposed_flag(self.lay(), s.lay(), buf);
                crate::model::lemma_like_is_equal(s.read(buf), self.read(buf).transpose());
            }
            assert forall|i: int| #[trigger] s.lay().covers(i) <==> self.lay().covers(i) by {
                if s.lay().covers(i) {
                    let (a, b) = choose|a: int, b: int|
                        0 <= a < s.lay().ncols && 0 <= b < s.lay().nrows && i == s.lay().offset
                            + #[trigger] (s.lay().stride * a + b);
                    assert(i == self.lay().offset + (self.lay().stride * a + b));
                    assert(self.lay().covers(i));
                }
                if self.lay().covers(i) {
                    let (a, b) = choose|a: int, b: int|
                        0 <= a < self.lay().ncols && 0 <= b < self.lay().nrows && i
                            == self.lay().offset + #[trigger] (self.lay().stride * a + b);
                    assert(i == s.lay().offset + (s.lay().stride * a + b));
                    assert(s.lay().covers(i));
                }
            }
        }
        s
    }

    /// The buffer index of logical element `(r, c)`.
    fn pos(&self, buf: &Vec<i64>, r: usize, c: usize) -> (i: usize)
        requires
            self.wf(buf@),
            r < self.lay().rows(),
            c < self.lay().cols(),
        ensures
            i == self.lay().lin(r as int, c as int),
            i < buf@.len(),
    {
        proof {
            self.lay().lemma_lin_in_bounds(buf@.len(), r as int, c as int);
        }
        let blen: usize = buf.len();
        if !self.transposed {
            self.offset + self.stride * c + r
        } else {
            self.offset + self.stride * r + c
        }
    }

    /// Reads the element in logical row `r`, logical column `c`.
    pub fn get(&self, buf: &Vec<i64>, r: usize, c: usize) -> (v: i64)
        requires
            self.wf(buf@),
            r < self.lay().rows(),
            c < self.lay().cols(),
        ensures
            v == self.read(buf@).cell(r as int, c as int),
    {
        let i = self.pos(buf, r, c);
        buf[i]
    }

    /// Writes `v` into logical row `r`, logical column `c` of the
    /// window; no other buffer index changes.
    pub fn put(&self, buf: &mut Vec<i64>, r: usize, c: usize, v: i64)
        requires
            self.wf(old(buf)@),
            r < self.lay().rows(),
            c < self.lay().cols(),
        ensures
            final (buf)@.len() == old(buf)@.len(),
            self.read(final (buf)@) == self.read(old(buf)@).update(r as int, c as int, v),
            forall|i: int|
                0 <= i < old(buf)@.len() && !self.lay().covers(i) ==> final (buf)@[i] == old(
                    buf,
                )@[i],
    {
        proof {
            self.lay().lemma_read_update(old(buf)@, r as int, c as int, v);
            self.lay().lemma_lin_in_bounds(old(buf)@.len(), r as int, c as int);
        }
        let i = self.pos(buf, r, c);
        buf[i] = v;
    }

    /// Overwrites every window element with the constant `v`; the buffer
    /// outside the window is untouched.
    pub fn assign_all(&self, buf: &mut Vec<i64>, v: i64)
        requires
            self.wf(old(buf)@),
        ensures
            final (buf)@.len() == old(buf)@.len(),
            self.read(final (buf)@) == MatModel::constant(
                self.lay().rows(),
                self.lay().cols(),
                v,
            ),
            forall|i: int|
                0 <= i < old(buf)@.len() && !self.lay().covers(i) ==> final (buf)@[i] == old(
                    buf,
                )@[i],
    {
        let (rows, cols) = self.size();
        let mut c: usize = 0;
        while c < cols
            invariant
                self.wf(buf@),
                buf@.len() == old(buf)@.len(),
                rows == self.lay().rows(),
                cols == self.lay().cols(),
                c <= cols,
                forall|i: int, j: int|
                    0 <= i < rows && 0 <= j < c ==> #[trigger] self.read(buf@).cell(i, j) == v,
                forall|i: int|
                    0 <= i < old(buf)@.len() && !self.lay().covers(i) ==> #[trigger] buf@[i]
                        == old(buf)@[i],
            decreases cols - c,
        {
            let mut r: usize = 0;
            while r < rows
                invariant
                    self.wf(buf@),
                    buf@.len() == old(buf)@.len(),
                    rows == self.lay().rows(),
                    cols == self.lay().cols(),
                    c < cols,
                    r <= rows,
                    forall|i: int, j: int|
                        0 <= i < rows && 0 <= j < c ==> #[trigger] self.read(buf@).cell(i, j) == v,
                    forall|i: int|
                        0 <= i < r ==> #[trigger] self.read(buf@).cell(i, c as int) == v,
                    forall|i: int|
                        0 <= i < old(buf)@.len() && !self.lay().covers(i) ==> #[trigger] buf@[i]
                            == old(buf)@[i],
                decreases rows - r,
            {
                let ghost pre = self.read(buf@);
                self.put(buf, r, c, v);
                proof {
                    assert forall|i: int, j: int|
                        0 <= i < rows && 0 <= j < cols && !(i == r && j == c) implies #[trigger] self.read(
                        buf@,
                    ).cell(i, j) == pre.cell(i, j) by {
                        assert(pre.grid.len() == rows);
                        assert(pre.grid[i].len() == cols);
                    }
                }
                r = r + 1;
            }
            c = c + 1;
        }
        proof {
            let t = MatModel::constant(rows as nat, cols as nat, v);
            let m = self.read(buf@);
            assert forall|i: int| 0 <= i < rows implies m.grid[i] =~= t.grid[i] by {
                assert forall|j: int| 0 <= j < cols implies m.grid[i][j] == t.grid[i][j] by {
                    assert(m.cell(i, j) == v);
                }
            }
            assert(m =~~= t);
        }
    }

    /// Overwrites the window with the identity pattern; the buffer
    /// outside the window is untouched.
    pub fn assign_eye(&self, buf: &mut Vec<i64>)
        requires
            self.wf(old(buf)@),
            self.lay().rows() == self.lay().cols(),
        ensures
            final (buf)@.len() == old(buf)@.len(),
            self.read(final (buf)@) == MatModel::eye(self.lay().rows()),
            forall|i: int|
                0 <= i < old(buf)@.len() && !self.lay().covers(i) ==> final (buf)@[i] == old(
                    buf,
                )@[i],
    {
        let (rows, cols) = self.size();
        let mut c: usize = 0;
        while c < cols
            invariant
                self.wf(buf@),
                buf@.len() == old(buf)@.len(),
                rows == self.lay().rows(),
                cols == self.lay().cols(),
                rows == cols,
                c <= cols,
                forall|i: int, j: int|
                    0 <= i < rows && 0 <= j < c ==> #[trigger] self.read(buf@).cell(i, j) == (if i
                        == j {
                        1i64
                    } else {
                        0i64
                    }),
                forall|i: int|
                    0 <= i < old(buf)@.len() && !self.lay().covers(i) ==> #[trigger] buf@[i]
                        == old(buf)@[i],
            decreases cols - c,
        {
            let mut r: usize = 0;
            while r < rows
                invariant
                    self.wf(buf@),
                    buf@.len() == old(buf)@.len(),
                    rows == self.lay().rows(),
                    cols == self.lay().cols(),
                    rows == cols,
                    c < cols,
                    r <= rows,
                    forall|i: int, j: int|
                        0 <= i < rows && 0 <= j < c ==> #[trigger] self.read(buf@).cell(i, j) == (
                        if i == j {
                            1i64
                        } else {
                            0i64
                        }),
                    forall|i: int|
                        0 <= i < r ==> #[trigger] self.read(buf@).cell(i, c as int) == (if i == c {
                            1i64
                        } else {
                            0i64
                        }),
                    forall|i: int|
                        0 <= i < old(buf)@.len() && !self.lay().covers(i) ==> #[trigger] buf@[i]
                            == old(buf)@[i],
                decreases rows - r,
            {
                let ghost pre = self.read(buf@);
                self.put(buf, r, c, if r == c { 1i64 } else { 0i64 });
                proof {
                    assert forall|i: int, j: int|
                        0 <= i < rows && 0 <= j < cols && !(i == r && j == c) implies #[trigger] self.read(
                        buf@,
                    ).cell(i, j) == pre.cell(i, j) by {
                        assert(pre.grid.len() == rows);
                        assert(pre.grid[i].len() == cols);
                    }
                }
                r = r + 1;
            }
            c = c + 1;
        }
        proof {
            let t = MatModel::eye(rows as nat);
            let m = self.read(buf@);
            assert forall|i: int| 0 <= i < rows implies m.grid[i] =~= t.grid[i] by {
                assert forall|j: int| 0 <= j < cols implies m.grid[i][j] == t.grid[i][j] by {
                    assert(m.cell(i, j) == (if i == j { 1i64 } else { 0i64 }));
                }
            }
            assert(m =~~= t);
        }
    }

    /// Fills the window row-major from `vals`, as [`Mat::assign_iter`]
    /// does for a whole matrix; the buffer outside the window is
    /// untouched.
    pub fn assign_iter(&self, buf: &mut Vec<i64>, vals: &Vec<i64>)
        requires
            self.wf(old(buf)@),
        ensures
            final (buf)@.len() == old(buf)@.len(),
            self.read(final (buf)@) == crate::model::from_rows(
                self.lay().rows(),
                self.lay().cols(),
                vals@,
            ),
            forall|i: int|
                0 <= i < old(buf)@.len() && !self.lay().covers(i) ==> final (buf)@[i] == old(
                    buf,
                )@[i],
    {
        let (rows, cols) = self.size();
        proof {
            self.lay().lemma_cell_count(old(buf)@.len());
            assert(buf.len() <= usize::MAX);
        }
        let ghost tgt = crate::model::from_rows(rows as nat, cols as nat, vals@);
        let nvals = vals.len();
        let mut k: usize = 0;
        let mut r: usize = 0;
        while r < rows
            invariant
                self.wf(buf@),
                buf@.len() == old(buf)@.len(),
                rows == self.lay().rows(),
                cols == self.lay().cols(),
                r <= rows,
                k == r * cols,
                rows * cols <= usize::MAX,
                nvals == vals@.len(),
                tgt == crate::model::from_rows(rows as nat, cols as nat, vals@),
                forall|i: int, j: int|
                    0 <= i < r && 0 <= j < cols ==> #[trigger] self.read(buf@).cell(i, j)
                        == tgt.cell(i, j),
                forall|i: int|
                    0 <= i < old(buf)@.len() && !self.lay().covers(i) ==> #[trigger] buf@[i]
                        == old(buf)@[i],
            decreases rows - r,
        {
            proof {
                assert(r * cols + cols <= rows * cols) by (nonlinear_arith)
                    requires
                        r < rows,
                        cols >= 0,
                ;
            }
            let mut c: usize = 0;
            while c < cols
                invariant
                    self.wf(buf@),
                    buf@.len() == old(buf)@.len(),
                    rows == self.lay().rows(),
                    cols == self.lay().cols(),
                    r < rows,
                    c <= cols,
                    k == r * cols + c,
                    r * cols + cols <= rows * cols <= usize::MAX,
                    nvals == vals@.len(),
                    tgt == crate::model::from_rows(rows as nat, cols as nat, vals@),
                    forall|i: int, j: int|
                        0 <= i < r && 0 <= j < cols ==> #[trigger] self.read(buf@).cell(i, j)
                            == tgt.cell(i, j),
                    forall|j: int|
                        0 <= j < c ==> #[trigger] self.read(buf@).cell(r as int, j) == tgt.cell(
                            r as int,
                            j,
                        ),
                    forall|i: int|
                        0 <= i < old(buf)@.len() && !self.lay().covers(i) ==> #[trigger] buf@[i]
                            == old(buf)@[i],
                decreases cols - c,
            {
                let v: i64 = if k < nvals {
                    vals[k]
                } else {
                    0i64
                };
                let ghost pre = self.read(buf@);
                self.put(buf, r, c, v);
                proof {
                    assert forall|i: int, j: int|
                        0 <= i < rows && 0 <= j < cols && !(i == r && j == c) implies #[trigger] self.read(
                        buf@,
                    ).cell(i, j) == pre.cell(i, j) by {
                        assert(pre.grid.len() == rows);
                        assert(pre.grid[i].len() == cols);
                    }
                    assert(tgt.cell(r as int, c as int) == v);
                }
                k = k + 1;
                c = c + 1;
            }
            proof {
                assert((r + 1) * cols == r * cols + cols) by (nonlinear_arith);
            }
            r = r + 1;
        }
        proof {
            let m = self.read(buf@);
            assert forall|i: int| 0 <= i < rows implies m.grid[i] =~= tgt.grid[i] by {
                assert forall|j: int| 0 <= j < cols implies m.grid[i][j] == tgt.grid[i][j] by {
                    assert(m.cell(i, j) == tgt.cell(i, j));
                }
            }
            assert(m =~~= tgt);
        }
    }

    /// Copies every element from `rhs`, which must have the window's
    /// logical shape; the buffer outside the window is untouched.  A
    /// shape mismatch is a caller error and is excluded.
    pub fn assign<A: MatAcc>(&self, buf: &mut Vec<i64>, rhs: &A)
        requires
            self.wf(old(buf)@),
            rhs.acc_inv(),
            self.lay().rows() == rhs.acc_model().rows,
            self.lay().cols() == rhs.acc_model().cols,
        ensures
            final (buf)@.len() == old(buf)@.len(),
            self.read(final (buf)@) == rhs.acc_model(),
            forall|i: int|
                0 <= i < old(buf)@.len() && !self.lay().covers(i) ==> final (buf)@[i] == old(
                    buf,
                )@[i],
    {
        let (rows, cols) = self.size();
        let mut c: usize = 0;
        while c < cols
            invariant
                self.wf(buf@),
                rhs.acc_inv(),
                buf@.len() == old(buf)@.len(),
                rows == self.lay().rows(),
                cols == self.lay().cols(),
                rows == rhs.acc_model().rows,
                cols == rhs.acc_model().cols,
                c <= cols,
                forall|i: int, j: int|
                    0 <= i < rows && 0 <= j < c ==> #[trigger] self.read(buf@).cell(i, j)
                        == rhs.acc_model().cell(i, j),
                forall|i: int|
                    0 <= i < old(buf)@.len() && !self.lay().covers(i) ==> #[trigger] buf@[i]
                        == old(buf)@[i],
            decreases cols - c,
        {
            let mut r: usize = 0;
            while r < rows
                invariant
                    self.wf(buf@),
                    rhs.acc_inv(),
                    buf@.len() == old(buf)@.len(),
                    rows == self.lay().rows(),
                    cols == self.lay().cols(),
                    rows == rhs.acc_model().rows,
                    cols == rhs.acc_model().cols,
                    c < cols,
                    r <= rows,
                    forall|i: int, j: int|
                        0 <= i < rows && 0 <= j < c ==> #[trigger] self.read(buf@).cell(i, j)
                            == rhs.acc_model().cell(i, j),
                    forall|i: int|
                        0 <= i < r ==> #[trigger] self.read(buf@).cell(i, c as int)
                            == rhs.acc_model().cell(i, c as int),
                    forall|i: int|
                        0 <= i < old(buf)@.len() && !self.lay().covers(i) ==> #[trigger] buf@[i]
                            == old(buf)@[i],
                decreases rows - r,
            {
                let v = rhs.acc_get(r, c);
                let ghost pre = self.read(buf@);
                self.put(buf, r, c, v);
                proof {
                    assert forall|i: int, j: int|
                        0 <= i < rows && 0 <= j < cols && !(i == r && j == c) implies #[trigger] self.read(
                        buf@,
                    ).cell(i, j) == pre.cell(i, j) by {
                        assert(pre.grid.len() == rows);
                        assert(pre.grid[i].len() == cols);
                    }
                }
                r = r + 1;
            }
            c = c + 1;
        }
        proof {
            let t = rhs.acc_model();
            let m = self.read(buf@);
            rhs.acc_wf();
            assert forall|i: int| 0 <= i < rows implies m.grid[i] =~= t.grid[i] by {
                assert forall|j: int| 0 <= j < cols implies m.grid[i][j] == t.grid[i][j] by {
                    assert(m.cell(i, j) == t.cell(i, j));
                }
            }
            assert(m =~~= t);
        }
    }
}

/// Flipping the transposition flag alone transposes what a layout reads.
proof fn lemma_transposed_flag(a: Layout, b: Layout, buf: Seq<i64>)
    requires
        b.nrows == a.nrows,
        b.ncols == a.ncols,
        b.offset == a.offset,
        b.stride == a.stride,
        b.transposed == !a.transposed,
    ensures
        b.read(buf).like(a.read(buf).transpose()),
        b.read(buf).rows == a.read(buf).transpose().rows,
        b.read(buf).cols == a.read(buf).transpose().cols,
{
    assert forall|r: int, c: int|
        0 <= r < b.rows() && 0 <= c < b.cols() implies #[trigger] b.read(buf).cell(r, c) == a.read(
        buf,
    ).transpose().cell(r, c) by {
        assert(b.lin(r, c) == a.lin(c, r));
    }
}

/// A well-formed nonempty window's offset stays strictly inside the
/// buffer, so the slicing arithmetic fits in `usize`.
proof fn lemma_window_offset_fits(w: Layout, len: nat)
    requires
        w.wf(len),
        w.nrows > 0,
        w.ncols > 0,
    ensures
        w.offset < len,
{
    assert(w.stride * w.ncols >= w.stride * 1 && w.stride * 1 == w.stride) by (nonlinear_arith)
        requires
            w.ncols >= 1,
            w.stride >= 0,
    ;
}

/// The floor of the square root of a nonnegative `i64`, by binary search.
fn isqrt64(s: i64) -> (r: i64)
    requires
        s >= 0,
    ensures
        0 <= r,
        r * r <= s,
        (r + 1) * (r + 1) > s,
{
    let mut lo: i64 = 0;
    let mut hi: i64 = 3037000500;
    proof {
        assert(3037000500i64 * 3037000500i64 > i64::MAX) by (nonlinear_arith);
    }
    while lo + 1 < hi
        invariant
            0 <= lo < hi <= 3037000500,
            lo * lo <= s,
            hi * hi > s,
            s <= i64::MAX,
        decreases hi - lo,
    {
        let mid = lo + (hi - lo) / 2;
        proof {
            assert((mid as i128) * (mid as i128) < 0x7fff_ffff_ffff_ffff_i128
                * 0x7fff_ffff_ffff_ffff_i128) by (nonlinear_arith)
                requires
                    0 <= mid < 0x7fff_ffff_ffff_ffff_i128,
            ;
        }
        let sq: i128 = (mid as i128) * (mid as i128);
        if sq <= (s as i128) {
            lo = mid;
        } else {
            hi = mid;
        }
    }
    lo
}

impl MatAcc for Mat {
    open spec fn acc_model(&self) -> MatModel {
        self@
    }

    open spec fn acc_inv(&self) -> bool {
        self.inv()
    }

    proof fn acc_wf(&self) {
        self.lemma_decompose();
    }

    fn acc_size(&self) -> (s: (usize, usize)) {
        self.size()
    }

    fn acc_get(&self, row: usize, col: usize) -> (v: i64) {
        self.get(row, col)
    }
}

} // verus!
