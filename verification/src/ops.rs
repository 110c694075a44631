//! The arithmetic operator algebra.
//!
//! Every elementwise operation is two's-complement wrapping `i64`
//! arithmetic, and every contract states the result exactly through
//! [`crop`] of the mathematical value.  Operations that take a matrix
//! right-hand operand accept any [`MatAcc`], so owned matrices and
//! borrowed views go through one implementation; operations that
//! consume an owned left operand reuse its buffer, and view operands
//! are cloned first, as [`MatSlice`]'s forwarding methods show.

use crate::acc::MatAcc;
use crate::mat::{Mat, MatSlice};
use crate::model::{dot_to, MatModel};
use crate::scalar::{crop, lemma_crop_add, lemma_wrapping_ops_are_crop, tdiv};
use vstd::prelude::*;

verus! {

/// The elementwise negation of `m`.
pub open spec fn neg_model(m: MatModel) -> MatModel {
    MatModel::of_fn(m.rows, m.cols, |r: int, c: int| crop(-m.cell(r, c)))
}

/// The elementwise sum of `a` and `b`.
pub open spec fn add_model(a: MatModel, b: MatModel) -> MatModel {
    MatModel::of_fn(a.rows, a.cols, |r: int, c: int| crop(a.cell(r, c) + b.cell(r, c)))
}

/// The elementwise difference of `a` and `b`.
pub open spec fn sub_model(a: MatModel, b: MatModel) -> MatModel {
    MatModel::of_fn(a.rows, a.cols, |r: int, c: int| crop(a.cell(r, c) - b.cell(r, c)))
}

/// `m` with the scalar `v` added to every element.
pub open spec fn add_scalar_model(m: MatModel, v: i64) -> MatModel {
    MatModel::of_fn(m.rows, m.cols, |r: int, c: int| crop(m.cell(r, c) + v))
}

/// `m` with the scalar `v` subtracted from every element.
pub open spec fn sub_scalar_model(m: MatModel, v: i64) -> MatModel {
    MatModel::of_fn(m.rows, m.cols, |r: int, c: int| crop(m.cell(r, c) - v))
}

/// `m` with every element multiplied by the scalar `v`.
pub open spec fn mul_scalar_model(m: MatModel, v: i64) -> MatModel {
    MatModel::of_fn(m.rows, m.cols, |r: int, c: int| crop(m.cell(r, c) * v))
}

/// `m` with every element divided by the scalar `v`, truncating toward
/// zero.
pub open spec fn div_scalar_model(m: MatModel, v: i64) -> MatModel {
    MatModel::of_fn(m.rows, m.cols, |r: int, c: int| crop(tdiv(m.cell(r, c) as int, v as int)))
}

/// The matrix product of `a` and `b`: cell `(r, c)` is the dot product
/// of row `r` of `a` with column `c` of `b`.
pub open spec fn mul_model(a: MatModel, b: MatModel) -> MatModel {
    MatModel::of_fn(a.rows, b.cols, |r: int, c: int| crop(dot_to(a, b, r, c, a.cols)))
}

/// Decides shape-then-elementwise equality of two read-only operands:
/// unequal shapes compare unequal without an element scan, equal shapes
/// compare every element exactly.
pub fn mat_eq<A: MatAcc, B: MatAcc>(a: &A, b: &B) -> (r: bool)
    requires
        a.acc_inv(),
        b.acc_inv(),
    ensures
        r == a.acc_model().like(b.acc_model()),
{
    let (arows, acols) = a.acc_size();
    let (brows, bcols) = b.acc_size();
    if arows != brows || acols != bcols {
        return false;
    }
    let ghost am = a.acc_model();
    let ghost bm = b.acc_model();
    let mut c: usize = 0;
    while c < acols
        invariant
            a.acc_inv(),
            b.acc_inv(),
            am == a.acc_model(),
            bm == b.acc_model(),
            arows == am.rows,
            acols == am.cols,
            arows == bm.rows,
            acols == bm.cols,
            c <= acols,
            forall|i: int, j: int|
                0 <= i < arows && 0 <= j < c ==> #[trigger] am.cell(i, j) == bm.cell(i, j),
        decreases acols - c,
    {
        let mut r: usize = 0;
        while r < arows
            invariant
                a.acc_inv(),
                b.acc_inv(),
                am == a.acc_model(),
                bm == b.acc_model(),
                arows == am.rows,
                acols == am.cols,
                arows == bm.rows,
                acols == bm.cols,
                c < acols,
                r <= arows,
                forall|i: int, j: int|
                    0 <= i < arows && 0 <= j < c ==> #[trigger] am.cell(i, j) == bm.cell(i, j),
                forall|i: int| 0 <= i < r ==> #[trigger] am.cell(i, c as int) == bm.cell(i, c as int),
            decreases arows - r,
        {
            if a.acc_get(r, c) != b.acc_get(r, c) {
                return false;
            }
            r = r + 1;
        }
        c = c + 1;
    }
    true
}

impl Mat {
    /// Adds `rhs` elementwise into `self`; identical logical shapes are
    /// required, a mismatch is a caller error and is excluded.
    pub fn add_assign<A: MatAcc>(&mut self, rhs: &A)
        requires
            old(self).inv(),
            rhs.acc_inv(),
            old(self)@.rows == rhs.acc_model().rows,
            old(self)@.cols == rhs.acc_model().cols,
        ensures
            final (self).inv(),
            final (self)@ == add_model(old(self)@, rhs.acc_model()),
    {
        let (rows, cols) = self.size();
        let ghost orig = self@;
        let ghost tgt = add_model(orig, rhs.acc_model());
        proof {
            self.lemma_decompose();
        }
        let mut c: usize = 0;
        while c < cols
            invariant
                self.inv(),
                rhs.acc_inv(),
                self@.rows == rows,
                self@.cols == cols,
                orig.rows == rows,
                orig.cols == cols,
                orig.wf(),
                rhs.acc_model().rows == rows,
                rhs.acc_model().cols == cols,
                tgt == add_model(orig, rhs.acc_model()),
                c <= cols,
                forall|i: int, j: int|
                    0 <= i < rows && 0 <= j < c ==> #[trigger] self@.cell(i, j) == tgt.cell(i, j),
                forall|i: int, j: int|
                    0 <= i < rows && c <= j < cols ==> #[trigger] self@.cell(i, j) == orig.cell(
                        i,
                        j,
                    ),
            decreases cols - c,
        {
            let mut r: usize = 0;
            while r < rows
                invariant
                    self.inv(),
                    rhs.acc_inv(),
                    self@.rows == rows,
                    self@.cols == cols,
                    orig.rows == rows,
                    orig.cols == cols,
                    orig.wf(),
                    rhs.acc_model().rows == rows,
                    rhs.acc_model().cols == cols,
                    tgt == add_model(orig, rhs.acc_model()),
                    c < cols,
                    r <= rows,
                    forall|i: int, j: int|
                        0 <= i < rows && 0 <= j < c ==> #[trigger] self@.cell(i, j) == tgt.cell(
                            i,
                            j,
                        ),
                    forall|i: int, j: int|
                        0 <= i < rows && c <= j < cols && !(j == c && i < r)
                            ==> #[trigger] self@.cell(i, j) == orig.cell(i, j),
                    forall|i: int|
                        0 <= i < r ==> #[trigger] self@.cell(i, c as int) == tgt.cell(i, c as int),
                decreases rows - r,
            {
                let x = self.get(r, c);
                let y = rhs.acc_get(r, c);
                proof {
                    self.lemma_decompose();
                    lemma_wrapping_ops_are_crop(x, y);
                }
                let ghost pre = self@;
                self.put(r, c, x.wrapping_add(y));
                proof {
                    assert forall|i: int, j: int|
                        0 <= i < rows && 0 <= j < cols && !(i == r && j == c) implies #[trigger] self@.cell(
                        i,
                        j,
                    ) == pre.cell(i, j) by {
                        assert(pre.grid.len() == rows);
                        assert(pre.grid[i].len() == cols);
                    }
                }
                r = r + 1;
            }
            c = c + 1;
        }
        proof {
            self.lemma_decompose();
            assert forall|i: int| 0 <= i < rows implies self@.grid[i] =~= tgt.grid[i] by {
                assert forall|j: int| 0 <= j < cols implies self@.grid[i][j] == tgt.grid[i][j] by {
                    assert(self@.cell(i, j) == tgt.cell(i, j));
                }
            }
            assert(self@ =~~= tgt);
        }
    }

    /// Subtracts `rhs` elementwise from `self`; identical logical shapes
    /// are required, a mismatch is a caller error and is excluded.
    pub fn sub_assign<A: MatAcc>(&mut self, rhs: &A)
        requires
            old(self).inv(),
            rhs.acc_inv(),
            old(self)@.rows == rhs.acc_model().rows,
            old(self)@.cols == rhs.acc_model().cols,
        ensures
            final (self).inv(),
            final (self)@ == sub_model(old(self)@, rhs.acc_model()),
    {
        let (rows, cols) = self.size();
        let ghost orig = self@;
        let ghost tgt = sub_model(orig, rhs.acc_model());
        proof {
            self.lemma_decompose();
        }
        let mut c: usize = 0;
        while c < cols
            invariant
                self.inv(),
                rhs.acc_inv(),
                self@.rows == rows,
                self@.cols == cols,
                orig.rows == rows,
                orig.cols == cols,
                orig.wf(),
                rhs.acc_model().rows == rows,
                rhs.acc_model().cols == cols,
                tgt == sub_model(orig, rhs.acc_model()),
                c <= cols,
                forall|i: int, j: int|
                    0 <= i < rows && 0 <= j < c ==> #[trigger] self@.cell(i, j) == tgt.cell(i, j),
                forall|i: int, j: int|
                    0 <= i < rows && c <= j < cols ==> #[trigger] self@.cell(i, j) == orig.cell(
                        i,
                        j,
                    ),
            decreases cols - c,
        {
            let mut r: usize = 0;
            while r < rows
                invariant
                    self.inv(),
                    rhs.acc_inv(),
                    self@.rows == rows,
                    self@.cols == cols,
                    orig.rows == rows,
                    orig.cols == cols,
                    orig.wf(),
                    rhs.acc_model().rows == rows,
                    rhs.acc_model().cols == cols,
                    tgt == sub_model(orig, rhs.acc_model()),
                    c < cols,
                    r <= rows,
                    forall|i: int, j: int|
                        0 <= i < rows && 0 <= j < c ==> #[trigger] self@.cell(i, j) == tgt.cell(
                            i,
                            j,
                        ),
                    forall|i: int, j: int|
                        0 <= i < rows && c <= j < cols && !(j == c && i < r)
                            ==> #[trigger] self@.cell(i, j) == orig.cell(i, j),
                    forall|i: int|
                        0 <= i < r ==> #[trigger] self@.cell(i, c as int) == tgt.cell(i, c as int),
                decreases rows - r,
            {
                let x = self.get(r, c);
                let y = rhs.acc_get(r, c);
                proof {
                    self.lemma_decompose();
                    lemma_wrapping_ops_are_crop(x, y);
                }
                let ghost pre = self@;
                self.put(r, c, x.wrapping_sub(y));
                proof {
                    assert forall|i: int, j: int|
                        0 <= i < rows && 0 <= j < cols && !(i == r && j == c) implies #[trigger] self@.cell(
                        i,
                        j,
                    ) == pre.cell(i, j) by {
                        assert(pre.grid.len() == rows);
                        assert(pre.grid[i].len() == cols);
                    }
                }
                r = r + 1;
            }
            c = c + 1;
        }
        proof {
            self.lemma_decompose();
            assert forall|i: int| 0 <= i < rows implies self@.grid[i] =~= tgt.grid[i] by {
                assert forall|j: int| 0 <= j < cols implies self@.grid[i][j] == tgt.grid[i][j] by {
                    assert(self@.cell(i, j) == tgt.cell(i, j));
                }
            }
            assert(self@ =~~= tgt);
        }
    }

    /// Transforms every element by `op`, in place: the shared core of
    /// the scalar compound operators.
    fn map_cells<F: Fn(i64) -> i64>(&mut self, op: F, Ghost(g): Ghost<spec_fn(i64) -> i64>)
        requires
            old(self).inv(),
            forall|x: i64| #[trigger] call_requires(op, (x,)),
            forall|x: i64, y: i64| #[trigger] call_ensures(op, (x,), y) ==> y == g(x),
        ensures
            final (self).inv(),
            final (self)@ == MatModel::of_fn(
                old(self)@.rows,
                old(self)@.cols,
                (|r: int, c: int| g(old(self)@.cell(r, c))),
            ),
    {
        let (rows, cols) = self.size();
        let ghost orig = self@;
        let ghost tgt = MatModel::of_fn(
            orig.rows,
            orig.cols,
            (|r: int, c: int| g(orig.cell(r, c))),
        );
        proof {
            self.lemma_decompose();
        }
        let mut c: usize = 0;
        while c < cols
            invariant
                self.inv(),
                self@.rows == rows,
                self@.cols == cols,
                orig.rows == rows,
                orig.cols == cols,
                orig.wf(),
                tgt == MatModel::of_fn(orig.rows, orig.cols, (|r: int, c: int| g(orig.cell(r, c)))),
                c <= cols,
                forall|x: i64| #[trigger] call_requires(op, (x,)),
                forall|x: i64, y: i64| #[trigger] call_ensures(op, (x,), y) ==> y == g(x),
                forall|i: int, j: int|
                    0 <= i < rows && 0 <= j < c ==> #[trigger] self@.cell(i, j) == tgt.cell(i, j),
                forall|i: int, j: int|
                    0 <= i < rows && c <= j < cols ==> #[trigger] self@.cell(i, j) == orig.cell(
                        i,
                        j,
                    ),
            decreases cols - c,
        {
            let mut r: usize = 0;
            while r < rows
                invariant
                    self.inv(),
                    self@.rows == rows,
                    self@.cols == cols,
                    orig.rows == rows,
                    orig.cols == cols,
                    orig.wf(),
                    tgt == MatModel::of_fn(
                        orig.rows,
                        orig.cols,
                        (|r: int, c: int| g(orig.cell(r, c))),
                    ),
                    c < cols,
                    r <= rows,
                    forall|x: i64| #[trigger] call_requires(op, (x,)),
                    forall|x: i64, y: i64| #[trigger] call_ensures(op, (x,), y) ==> y == g(x),
                    forall|i: int, j: int|
                        0 <= i < rows && 0 <= j < c ==> #[trigger] self@.cell(i, j) == tgt.cell(
                            i,
                            j,
                        ),
                    forall|i: int, j: int|
                        0 <= i < rows && c <= j < cols && !(j == c && i < r)
                            ==> #[trigger] self@.cell(i, j) == orig.cell(i, j),
                    forall|i: int|
                        0 <= i < r ==> #[trigger] self@.cell(i, c as int) == tgt.cell(i, c as int),
                decreases rows - r,
            {
                let x = self.get(r, c);
                let y = op(x);
                proof {
                    self.lemma_decompose();
                }
                let ghost pre = self@;
                self.put(r, c, y);
                proof {
                    assert forall|i: int, j: int|
                        0 <= i < rows && 0 <= j < cols && !(i == r && j == c) implies #[trigger] self@.cell(
                        i,
                        j,
                    ) == pre.cell(i, j) by {
                        assert(pre.grid.len() == rows);
                        assert(pre.grid[i].len() == cols);
                    }
                }
                r = r + 1;
            }
            c = c + 1;
        }
        proof {
            self.lemma_decompose();
            assert forall|i: int| 0 <= i < rows implies self@.grid[i] =~= tgt.grid[i] by {
                assert forall|j: int| 0 <= j < cols implies self@.grid[i][j] == tgt.grid[i][j] by {
                    assert(self@.cell(i, j) == tgt.cell(i, j));
                }
            }
            assert(self@ =~~= tgt);
        }
    }

    /// Negates every element, reusing this matrix's buffer.
    pub fn neg(self) -> (m: Mat)
        requires
            self.inv(),
        ensures
            m.inv(),
            m@ == neg_model(self@),
    {
        let mut m = self;
        let op = |x: i64| -> (y: i64)
            ensures
                y == crop(-x),
            {
                proof {
                    lemma_wrapping_ops_are_crop(0i64, x);
                }
                0i64.wrapping_sub(x)
            };
        m.map_cells(op, Ghost(|x: i64| crop(-x)));
        proof {
            assert(m@ =~~= neg_model(self@));
        }
        m
    }

    /// Adds the scalar `v` to every element, in place.
    pub fn add_assign_scalar(&mut self, v: i64)
        requires
            old(self).inv(),
        ensures
            final (self).inv(),
            final (self)@ == add_scalar_model(old(self)@, v),
    {
        let op = |x: i64| -> (y: i64)
            ensures
                y == crop(x + v),
            {
                proof {
                    lemma_wrapping_ops_are_crop(x, v);
                }
                x.wrapping_add(v)
            };
        self.map_cells(op, Ghost(|x: i64| crop(x + v)));
        proof {
            assert(final (self)@ =~~= add_scalar_model(old(self)@, v));
        }
    }

    /// Subtracts the scalar `v` from every element, in place.
    pub fn sub_assign_scalar(&mut self, v: i64)
        requires
            old(self).inv(),
        ensures
            final (self).inv(),
            final (self)@ == sub_scalar_model(old(self)@, v),
    {
        let op = |x: i64| -> (y: i64)
            ensures
                y == crop(x - v),
            {
                proof {
                    lemma_wrapping_ops_are_crop(x, v);
                }
                x.wrapping_sub(v)
            };
        self.map_cells(op, Ghost(|x: i64| crop(x - v)));
        proof {
            assert(final (self)@ =~~= sub_scalar_model(old(self)@, v));
        }
    }

    /// Multiplies every element by the scalar `v`, in place.
    pub fn mul_assign_scalar(&mut self, v: i64)
        requires
            old(self).inv(),
        ensures
            final (self).inv(),
            final (self)@ == mul_scalar_model(old(self)@, v),
    {
        let op = |x: i64| -> (y: i64)
            ensures
                y == crop(x * v),
            {
                x.wrapping_mul(v)
            };
        self.map_cells(op, Ghost(|x: i64| crop(x * v)));
        proof {
            assert(final (self)@ =~~= mul_scalar_model(old(self)@, v));
        }
    }

    /// Divides every element by the scalar `v`, truncating toward zero,
    /// in place.  Division by zero is a caller error and is excluded.
    pub fn div_assign_scalar(&mut self, v: i64)
        requires
            old(self).inv(),
            v != 0,
        ensures
            final (self).inv(),
            final (self)@ == div_scalar_model(old(self)@, v),
    {
        let op = |x: i64| -> (y: i64)
            ensures
                y == crop(tdiv(x as int, v as int)),
            {
                match x.checked_div(v) {
                    Some(q) => {
                        proof {
                            crate::scalar::lemma_crop_identity(tdiv(x as int, v as int));
                        }
                        q
                    },
                    None => {
                        proof {
                            lemma_min_div_minus_one(x as int, v as int);
                        }
                        i64::MIN
                    },
                }
            };
        self.map_cells(op, Ghost(|x: i64| crop(tdiv(x as int, v as int))));
        proof {
            assert(final (self)@ =~~= div_scalar_model(old(self)@, v));
        }
    }

    /// The elementwise sum, reusing this matrix's buffer for the result.
    pub fn add<A: MatAcc>(self, rhs: &A) -> (m: Mat)
        requires
            self.inv(),
            rhs.acc_inv(),
            self@.rows == rhs.acc_model().rows,
            self@.cols == rhs.acc_model().cols,
        ensures
            m.inv(),
            m@ == add_model(self@, rhs.acc_model()),
    {
        let mut m = self;
        m.add_assign(rhs);
        m
    }

    /// The elementwise difference, reusing this matrix's buffer.
    pub fn sub<A: MatAcc>(self, rhs: &A) -> (m: Mat)
        requires
            self.inv(),
            rhs.acc_inv(),
            self@.rows == rhs.acc_model().rows,
            self@.cols == rhs.acc_model().cols,
        ensures
            m.inv(),
            m@ == sub_model(self@, rhs.acc_model()),
    {
        let mut m = self;
        m.sub_assign(rhs);
        m
    }

    /// The sum with a scalar broadcast to every element, reusing this
    /// matrix's buffer.
    pub fn add_scalar(self, v: i64) -> (m: Mat)
        requires
            self.inv(),
        ensures
            m.inv(),
            m@ == add_scalar_model(self@, v),
    {
        let mut m = self;
        m.add_assign_scalar(v);
        m
    }

    /// The difference with a scalar broadcast to every element, reusing
    /// this matrix's buffer.
    pub fn sub_scalar(self, v: i64) -> (m: Mat)
        requires
            self.inv(),
        ensures
            m.inv(),
            m@ == sub_scalar_model(self@, v),
    {
        let mut m = self;
        m.sub_assign_scalar(v);
        m
    }

    /// The product with a scalar broadcast to every element, reusing
    /// this matrix's buffer.
    pub fn mul_scalar(self, v: i64) -> (m: Mat)
        requires
            self.inv(),
        ensures
            m.inv(),
            m@ == mul_scalar_model(self@, v),
    {
        let mut m = self;
        m.mul_assign_scalar(v);
        m
    }

    /// The quotient by a scalar, truncating toward zero, reusing this
    /// matrix's buffer.  Division by zero is a caller error and is
    /// excluded.
    pub fn div_scalar(self, v: i64) -> (m: Mat)
        requires
            self.inv(),
            v != 0,
        ensures
            m.inv(),
            m@ == div_scalar_model(self@, v),
    {
        let mut m = self;
        m.div_assign_scalar(v);
        m
    }

    /// The matrix product: `self.cols` must equal `rhs.rows`, and the
    /// result is a freshly allocated `self.rows` by `rhs.cols` matrix;
    /// a shared-dimension mismatch is a caller error and is excluded.
    pub fn mul<A: MatAcc>(&self, rhs: &A) -> (m: Mat)
        requires
            self.inv(),
            rhs.acc_inv(),
            self@.cols == rhs.acc_model().rows,
            self@.rows * rhs.acc_model().cols <= usize::MAX,
        ensures
            m.inv(),
            m@ == mul_model(self@, rhs.acc_model()),
    {
        let (lrows, lcols) = self.size();
        let (_, rcols) = rhs.acc_size();
        let ghost a = self@;
        let ghost b = rhs.acc_model();
        let ghost tgt = mul_model(a, b);
        let mut m = Mat::new(lrows, rcols);
        let mut c: usize = 0;
        while c < rcols
            invariant
                self.inv(),
                rhs.acc_inv(),
                m.inv(),
                a == self@,
                b == rhs.acc_model(),
                tgt == mul_model(a, b),
                lrows == a.rows,
                lcols == a.cols,
                lcols == b.rows,
                rcols == b.cols,
                m@.rows == lrows,
                m@.cols == rcols,
                c <= rcols,
                forall|i: int, j: int|
                    0 <= i < lrows && 0 <= j < c ==> #[trigger] m@.cell(i, j) == tgt.cell(i, j),
            decreases rcols - c,
        {
            let mut r: usize = 0;
            while r < lrows
                invariant
                    self.inv(),
                    rhs.acc_inv(),
                    m.inv(),
                    a == self@,
                    b == rhs.acc_model(),
                    tgt == mul_model(a, b),
                    lrows == a.rows,
                    lcols == a.cols,
                    lcols == b.rows,
                    rcols == b.cols,
                    m@.rows == lrows,
                    m@.cols == rcols,
                    c < rcols,
                    r <= lrows,
                    forall|i: int, j: int|
                        0 <= i < lrows && 0 <= j < c ==> #[trigger] m@.cell(i, j) == tgt.cell(
                            i,
                            j,
                        ),
                    forall|i: int|
                        0 <= i < r ==> #[trigger] m@.cell(i, c as int) == tgt.cell(i, c as int),
                decreases lrows - r,
            {
                let mut acc: i64 = 0;
                let mut k: usize = 0;
                proof {
                    crate::scalar::lemma_crop_identity(0);
                }
                while k < lcols
                    invariant
                        self.inv(),
                        rhs.acc_inv(),
                        a == self@,
                        b == rhs.acc_model(),
                        lrows == a.rows,
                        lcols == a.cols,
                        lcols == b.rows,
                        rcols == b.cols,
                        r < lrows,
                        c < rcols,
                        k <= lcols,
                        acc == crop(dot_to(a, b, r as int, c as int, k as nat)),
                    decreases lcols - k,
                {
                    let x = self.get(r, k);
                    let y = rhs.acc_get(k, c);
                    proof {
                        lemma_wrapping_ops_are_crop(acc, x.wrapping_mul(y));
                        lemma_crop_add(dot_to(a, b, r as int, c as int, k as nat), x * y);
                    }
                    acc = acc.wrapping_add(x.wrapping_mul(y));
                    k = k + 1;
                }
                proof {
                    m.lemma_decompose();
                }
                let ghost pre = m@;
                m.put(r, c, acc);
                proof {
                    assert forall|i: int, j: int|
                        0 <= i < lrows && 0 <= j < rcols && !(i == r && j == c) implies #[trigger] m@.cell(
                        i,
                        j,
                    ) == pre.cell(i, j) by {
                        assert(pre.grid.len() == lrows);
                        assert(pre.grid[i].len() == rcols);
                    }
                }
                r = r + 1;
            }
            c = c + 1;
        }
        proof {
            m.lemma_decompose();
            assert forall|i: int| 0 <= i < lrows implies m@.grid[i] =~= tgt.grid[i] by {
                assert forall|j: int| 0 <= j < rcols implies m@.grid[i][j] == tgt.grid[i][j] by {
                    assert(m@.cell(i, j) == tgt.cell(i, j));
                }
            }
            assert(m@ =~~= tgt);
        }
        m
    }
}

impl<'a> MatSlice<'a> {
    /// Negation of the viewed window, into a fresh owned matrix.
    pub fn neg(&self) -> (m: Mat)
        requires
            self.inv(),
        ensures
            m.inv(),
            m@ == neg_model(self@),
    {
        self.clone_sz().neg()
    }

    /// The elementwise sum of the viewed window and `rhs`, into a fresh
    /// owned matrix.
    pub fn add<A: MatAcc>(&self, rhs: &A) -> (m: Mat)
        requires
            self.inv(),
            rhs.acc_inv(),
            self@.rows == rhs.acc_model().rows,
            self@.cols == rhs.acc_model().cols,
        ensures
            m.inv(),
            m@ == add_model(self@, rhs.acc_model()),
    {
        self.clone_sz().add(rhs)
    }

    /// The elementwise difference of the viewed window and `rhs`, into a
    /// fresh owned matrix.
    pub fn sub<A: MatAcc>(&self, rhs: &A) -> (m: Mat)
        requires
            self.inv(),
            rhs.acc_inv(),
            self@.rows == rhs.acc_model().rows,
            self@.cols == rhs.acc_model().cols,
        ensures
            m.inv(),
            m@ == sub_model(self@, rhs.acc_model()),
    {
        self.clone_sz().sub(rhs)
    }

    /// The viewed window plus a scalar, into a fresh owned matrix.
    pub fn add_scalar(&self, v: i64) -> (m: Mat)
        requires
            self.inv(),
        ensures
            m.inv(),
            m@ == add_scalar_model(self@, v),
    {
        self.clone_sz().add_scalar(v)
    }

    /// The viewed window minus a scalar, into a fresh owned matrix.
    pub fn sub_scalar(&self, v: i64) -> (m: Mat)
        requires
            self.inv(),
        ensures
            m.inv(),
            m@ == sub_scalar_model(self@, v),
    {
        self.clone_sz().sub_scalar(v)
    }

    /// The viewed window times a scalar, into a fresh owned matrix.
    pub fn mul_scalar(&self, v: i64) -> (m: Mat)
        requires
            self.inv(),
        ensures
            m.inv(),
            m@ == mul_scalar_model(self@, v),
    {
        self.clone_sz().mul_scalar(v)
    }

    /// The viewed window divided by a scalar, truncating toward zero,
    /// into a fresh owned matrix.  Division by zero is a caller error
    /// and is excluded.
    pub fn div_scalar(&self, v: i64) -> (m: Mat)
        requires
            self.inv(),
            v != 0,
        ensures
            m.inv(),
            m@ == div_scalar_model(self@, v),
    {
        self.clone_sz().div_scalar(v)
    }

    /// The matrix product of the viewed window and `rhs`, into a fresh
    /// owned matrix.
    pub fn mul<A: MatAcc>(&self, rhs: &A) -> (m: Mat)
        requires
            self.inv(),
            rhs.acc_inv(),
            self@.cols == rhs.acc_model().rows,
            self@.rows * rhs.acc_model().cols <= usize::MAX,
        ensures
            m.inv(),
            m@ == mul_model(self@, rhs.acc_model()),
    {
        self.clone_sz().mul(rhs)
    }
}

/// The scalar-on-the-left sum `v + m`: addition is commutative, so it
/// delegates to the matrix-first form.
pub fn scalar_add(v: i64, m: Mat) -> (r: Mat)
    requires
        m.inv(),
    ensures
        r.inv(),
        r@ == add_scalar_model(m@, v),
{
    m.add_scalar(v)
}

/// The scalar-on-the-left difference `v - m`, computed as `(-m) + v` to
/// preserve sign.
pub fn scalar_sub(v: i64, m: Mat) -> (r: Mat)
    requires
        m.inv(),
    ensures
        r.inv(),
        r@ == add_scalar_model(neg_model(m@), v),
{
    m.neg().add_scalar(v)
}

/// The scalar-on-the-left product `v * m`: multiplication by a scalar is
/// commutative, so it delegates to the matrix-first form.
pub fn scalar_mul(v: i64, m: Mat) -> (r: Mat)
    requires
        m.inv(),
    ensures
        r.inv(),
        r@ == mul_scalar_model(m@, v),
{
    m.mul_scalar(v)
}

/// Division wraps in exactly one case: the smallest value divided by
/// minus one, whose true quotient is one past `i64::MAX`.
proof fn lemma_min_div_minus_one(x: int, d: int)
    requires
        d != 0,
        i64::MIN <= x <= i64::MAX,
        i64::MIN <= d <= i64::MAX,
        !(i64::MIN <= tdiv(x, d) <= i64::MAX),
    ensures
        crop(tdiv(x, d)) == i64::MIN,
{
    lemma_tdiv_bounds(x, d);
    assert(tdiv(x, d) == 0x8000_0000_0000_0000);
    assert(crop(0x8000_0000_0000_0000) == i64::MIN) by {
        crate::scalar::lemma_crop_identity(i64::MIN as int);
        crate::scalar::lemma_congruent_crop(0x8000_0000_0000_0000, i64::MIN as int);
    }
}

/// Truncating division never grows magnitude: the quotient of in-range
/// values lies in `[MIN, MAX + 1]`.
proof fn lemma_tdiv_bounds(x: int, d: int)
    requires
        d != 0,
        i64::MIN <= x <= i64::MAX,
        i64::MIN <= d <= i64::MAX,
    ensures
        i64::MIN <= tdiv(x, d) <= i64::MAX || tdiv(x, d) == 0x8000_0000_0000_0000,
{
    if x == 0 {
    } else if x > 0 && d > 0 {
        vstd::arithmetic::div_mod::lemma_div_pos_is_pos(x, d);
        vstd::arithmetic::div_mod::lemma_div_nonincreasing(x, d);
    } else if x < 0 && d < 0 {
        vstd::arithmetic::div_mod::lemma_div_pos_is_pos(x * -1, d * -1);
        vstd::arithmetic::div_mod::lemma_div_nonincreasing(x * -1, d * -1);
    } else if x < 0 {
        vstd::arithmetic::div_mod::lemma_div_pos_is_pos(x * -1, d);
        vstd::arithmetic::div_mod::lemma_div_nonincreasing(x * -1, d);
    } else {
        vstd::arithmetic::div_mod::lemma_div_pos_is_pos(x, d * -1);
        vstd::arithmetic::div_mod::lemma_div_nonincreasing(x, d * -1);
    }
}

} // verus!
