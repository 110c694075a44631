//! The algebraic laws of the library, proved once and for all over the
//! mathematical model.
//!
//! Each law is stated over [`MatModel`] and the model-level operation
//! specs that the executable functions' contracts use, so it applies to
//! every value any handle can denote.

use crate::model::{dot_to, trace_to, MatModel};
use crate::ops::{add_model, mul_model, neg_model};
use crate::scalar::{crop, lemma_crop_cancel, lemma_crop_identity};
use vstd::prelude::*;

verus! {

/// Transposition is an involution: transposing twice gives back the
/// original shape and every element.
pub proof fn lemma_transpose_involution(m: MatModel)
    requires
        m.wf(),
    ensures
        m.transpose().transpose() == m,
{
    let t = m.transpose().transpose();
    assert forall|r: int| 0 <= r < m.rows implies t.grid[r] =~= m.grid[r] by {
        assert forall|c: int| 0 <= c < m.cols implies t.grid[r][c] == m.grid[r][c] by {
            assert(t.cell(r, c) == m.transpose().cell(c, r));
        }
    }
    assert(t =~~= m);
}

/// A transposed view reads the source's mirrored coordinates:
/// `T[i, j] == A[j, i]` for every valid index pair.
pub proof fn lemma_transpose_cells(m: MatModel)
    ensures
        m.transpose().rows == m.cols,
        m.transpose().cols == m.rows,
        forall|i: int, j: int|
            0 <= i < m.cols && 0 <= j < m.rows ==> #[trigger] m.transpose().cell(i, j) == m.cell(
                j,
                i,
            ),
{
}

/// Adding the zero matrix changes nothing: `A + zero == A`, for any
/// shape.
pub proof fn lemma_add_zero(m: MatModel)
    requires
        m.wf(),
    ensures
        add_model(m, MatModel::zero(m.rows, m.cols)) == m,
{
    let s = add_model(m, MatModel::zero(m.rows, m.cols));
    assert forall|r: int| 0 <= r < m.rows implies s.grid[r] =~= m.grid[r] by {
        assert forall|c: int| 0 <= c < m.cols implies s.grid[r][c] == m.grid[r][c] by {
            lemma_crop_identity(m.cell(r, c) as int);
            assert(s.cell(r, c) == crop(m.cell(r, c) + 0));
        }
    }
    assert(s =~~= m);
}

/// Adding the elementwise negation gives the zero matrix:
/// `A + (-A) == zero`, for any shape — exact even where the negation
/// wrapped, because wrapping addition cancels it again.
pub proof fn lemma_add_neg(m: MatModel)
    requires
        m.wf(),
    ensures
        add_model(m, neg_model(m)) == MatModel::zero(m.rows, m.cols),
{
    let s = add_model(m, neg_model(m));
    let z = MatModel::zero(m.rows, m.cols);
    assert forall|r: int| 0 <= r < m.rows implies s.grid[r] =~= z.grid[r] by {
        assert forall|c: int| 0 <= c < m.cols implies s.grid[r][c] == z.grid[r][c] by {
            let x = m.cell(r, c);
            lemma_crop_identity(x as int);
            lemma_crop_cancel(x as int);
            assert(s.cell(r, c) == crop(crop(x as int) + crop(-(x as int))));
        }
    }
    assert(s =~~= z);
}

/// A dot product against a row of the identity picks out one element:
/// summing `eye[r][k] * m[k][c]` over `k < j` gives `m[r][c]` once the
/// sum has passed `k == r`, and zero before.
proof fn lemma_eye_dot(m: MatModel, r: int, c: int, j: nat)
    requires
        0 <= r < m.rows,
        0 <= c < m.cols,
        j <= m.rows,
    ensures
        dot_to(MatModel::eye(m.rows), m, r, c, j) == (if j > r {
            m.cell(r, c) as int
        } else {
            0
        }),
    decreases j,
{
    if j > 0 {
        lemma_eye_dot(m, r, c, (j - 1) as nat);
        let e = MatModel::eye(m.rows);
        assert(e.cell(r, j - 1) == (if r == j - 1 {
            1i64
        } else {
            0i64
        }));
        if j - 1 == r {
            assert(e.cell(r, j - 1) * m.cell(j - 1, c) == m.cell(r, c));
        } else {
            assert(e.cell(r, j - 1) * m.cell(j - 1, c) == 0) by (nonlinear_arith)
                requires
                    e.cell(r, j - 1) == 0,
            ;
        }
    }
}

/// Multiplying by the identity on the left changes nothing:
/// `identity(n) * A == A` whenever `n == A.rows`.
pub proof fn lemma_eye_mul(m: MatModel)
    requires
        m.wf(),
    ensures
        mul_model(MatModel::eye(m.rows), m) == m,
{
    let p = mul_model(MatModel::eye(m.rows), m);
    assert forall|r: int| 0 <= r < m.rows implies p.grid[r] =~= m.grid[r] by {
        assert forall|c: int| 0 <= c < m.cols implies p.grid[r][c] == m.grid[r][c] by {
            lemma_eye_dot(m, r, c, m.rows);
            lemma_crop_identity(m.cell(r, c) as int);
            assert(p.cell(r, c) == crop(dot_to(MatModel::eye(m.rows), m, r, c, m.rows)));
        }
    }
    assert(p =~~= m);
}

/// The running trace of the identity counts its diagonal ones.
proof fn lemma_eye_trace_to(n: nat, k: nat)
    requires
        k <= n,
    ensures
        trace_to(MatModel::eye(n), k) == k,
    decreases k,
{
    if k > 0 {
        lemma_eye_trace_to(n, (k - 1) as nat);
    }
}

/// The trace of the identity is its dimension: `trace(identity(n)) == n`,
/// stated for every `n` an `i64` trace can hold.
pub proof fn lemma_trace_eye(n: nat)
    requires
        n <= i64::MAX,
    ensures
        crop(trace_to(MatModel::eye(n), n)) == n,
{
    lemma_eye_trace_to(n, n);
    lemma_crop_identity(n as int);
}

} // verus!
