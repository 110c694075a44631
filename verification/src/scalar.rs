//! The scalar model: exact specifications for the wrapping `i64`
//! arithmetic that every elementwise matrix operation uses.
//!
//! A matrix element is an `i64`, and element arithmetic is two's-complement
//! wrapping arithmetic.  The single spec function [`crop`] reduces an
//! unbounded mathematical integer into `i64` range; every arithmetic
//! contract in the crate states its result as `crop` of the exact
//! mathematical value, and the lemmas here let such statements compose.

use vstd::arithmetic::div_mod::{
    lemma_fundamental_div_mod, lemma_mod_bound, lemma_mod_equivalence, lemma_mod_multiples_vanish,
};
use vstd::prelude::*;

verus! {

/// The number of distinct `i64` values; one full period of
/// two's-complement wrapping.
pub open spec fn wrap_period() -> int {
    0x1_0000_0000_0000_0000
}

/// The unique value in `[i64::MIN, i64::MAX]` congruent to `x` modulo 2^64:
/// what two's-complement arithmetic leaves of the mathematical integer `x`.
pub open spec fn crop(x: int) -> i64 {
    vstd::wrapping::i64_specs::signed_crop(x)
}

/// The quotient of `x` by `d` truncated toward zero, as Rust's integer
/// division computes it (Verus's own `/` on `int` is Euclidean).
pub open spec fn tdiv(x: int, d: int) -> int
    recommends
        d != 0,
{
    if x == 0 {
        0
    } else if x > 0 && d > 0 {
        x / d
    } else if x < 0 && d < 0 {
        (x * -1) / (d * -1)
    } else if x < 0 {
        ((x * -1) / d) * -1
    } else {
        (x / (d * -1)) * -1
    }
}

/// `crop` always lands in `i64` range and is congruent to its argument
/// modulo the wrapping period.
pub proof fn lemma_crop_congruent(x: int)
    ensures
        i64::MIN <= crop(x) <= i64::MAX,
        (crop(x) - x) % wrap_period() == 0,
{
    let p = wrap_period();
    lemma_mod_bound(x, p);
    lemma_fundamental_div_mod(x, p);
    lemma_mod_equivalence(crop(x) as int, x, p);
    lemma_mod_multiples_vanish(-(x / p), x, p);
}

/// Congruent integers crop to the same value.
pub proof fn lemma_congruent_crop(a: int, b: int)
    requires
        (a - b) % wrap_period() == 0,
    ensures
        crop(a) == crop(b),
{
    let p = wrap_period();
    lemma_mod_equivalence(a, b, p);
}

/// On values already in `i64` range, `crop` is the identity.
pub proof fn lemma_crop_identity(x: int)
    requires
        i64::MIN <= x <= i64::MAX,
    ensures
        crop(x) == x,
{
    let p = wrap_period();
    if x >= 0 {
        lemma_mod_multiples_vanish(0, x, p);
    } else {
        lemma_mod_multiples_vanish(1, x, p);
    }
}

/// What the standard wrapping operations compute, in terms of `crop`:
/// wrapping addition, subtraction and multiplication of in-range values
/// are `crop` of the exact sum, difference and product.
pub proof fn lemma_wrapping_ops_are_crop(a: i64, b: i64)
    ensures
        vstd::wrapping::i64_specs::wrapping_add(a, b) == crop(a + b),
        vstd::wrapping::i64_specs::wrapping_sub(a, b) == crop(a - b),
        vstd::wrapping::i64_specs::wrapping_mul(a, b) == crop(a * b),
{
    let p = wrap_period();
    if a + b > i64::MAX {
        lemma_crop_identity(a + b - p);
        lemma_mod_multiples_vanish(-1, a + b - p, p);
        lemma_congruent_crop(a + b - p, a + b);
    } else if a + b < i64::MIN {
        lemma_crop_identity(a + b + p);
        lemma_mod_multiples_vanish(1, a + b + p, p);
        lemma_congruent_crop(a + b + p, a + b);
    } else {
        lemma_crop_identity(a + b);
    }
    if a - b > i64::MAX {
        lemma_crop_identity(a - b - p);
        lemma_mod_multiples_vanish(-1, a - b - p, p);
        lemma_congruent_crop(a - b - p, a - b);
    } else if a - b < i64::MIN {
        lemma_crop_identity(a - b + p);
        lemma_mod_multiples_vanish(1, a - b + p, p);
        lemma_congruent_crop(a - b + p, a - b);
    } else {
        lemma_crop_identity(a - b);
    }
}

/// Cropping the operands of a sum does not change the cropped sum.
pub proof fn lemma_crop_add(x: int, y: int)
    ensures
        crop(crop(x) + crop(y)) == crop(x + y),
{
    let p = wrap_period();
    lemma_crop_congruent(x);
    lemma_crop_congruent(y);
    let i = (crop(x) - x) / p;
    let j = (crop(y) - y) / p;
    lemma_fundamental_div_mod(crop(x) - x, p);
    lemma_fundamental_div_mod(crop(y) - y, p);
    assert((crop(x) + crop(y)) - (x + y) == p * (i + j)) by (nonlinear_arith)
        requires
            crop(x) - x == p * i,
            crop(y) - y == p * j,
    ;
    lemma_mod_multiples_vanish(i + j, x + y, p);
    lemma_mod_equivalence(crop(x) + crop(y), x + y, p);
    lemma_congruent_crop(crop(x) + crop(y), x + y);
}

/// Cropping the operands of a product does not change the cropped product.
pub proof fn lemma_crop_mul(x: int, y: int)
    ensures
        crop(crop(x) * crop(y)) == crop(x * y),
{
    let p = wrap_period();
    lemma_crop_congruent(x);
    lemma_crop_congruent(y);
    let i = (crop(x) - x) / p;
    let j = (crop(y) - y) / p;
    lemma_fundamental_div_mod(crop(x) - x, p);
    lemma_fundamental_div_mod(crop(y) - y, p);
    assert(crop(x) * crop(y) - x * y == p * (i * y + crop(x) * j)) by (nonlinear_arith)
        requires
            crop(x) - x == p * i,
            crop(y) - y == p * j,
    ;
    lemma_mod_multiples_vanish(i * y + crop(x) * j, x * y, p);
    lemma_mod_equivalence(crop(x) * crop(y), x * y, p);
    lemma_congruent_crop(crop(x) * crop(y), x * y);
}

/// Cropping the operand of a negation or subtraction does not change the
/// cropped result.
pub proof fn lemma_crop_neg(x: int)
    ensures
        crop(0 - crop(x)) == crop(-x),
{
    let p = wrap_period();
    lemma_crop_congruent(x);
    let i = (crop(x) - x) / p;
    lemma_fundamental_div_mod(crop(x) - x, p);
    assert((0 - crop(x)) - (-x) == p * (-i)) by (nonlinear_arith)
        requires
            crop(x) - x == p * i,
    ;
    lemma_mod_multiples_vanish(-i, -x, p);
    lemma_mod_equivalence(0 - crop(x), -x, p);
    lemma_congruent_crop(0 - crop(x), -x);
}

/// Cropping both operands of a difference does not change the cropped
/// difference.
pub proof fn lemma_crop_sub(x: int, y: int)
    ensures
        crop(crop(x) - crop(y)) == crop(x - y),
{
    let p = wrap_period();
    lemma_crop_congruent(x);
    lemma_crop_congruent(y);
    let i = (crop(x) - x) / p;
    let j = (crop(y) - y) / p;
    lemma_fundamental_div_mod(crop(x) - x, p);
    lemma_fundamental_div_mod(crop(y) - y, p);
    assert((crop(x) - crop(y)) - (x - y) == p * (i - j)) by (nonlinear_arith)
        requires
            crop(x) - x == p * i,
            crop(y) - y == p * j,
    ;
    lemma_mod_multiples_vanish(i - j, x - y, p);
    lemma_mod_equivalence(crop(x) - crop(y), x - y, p);
    lemma_congruent_crop(crop(x) - crop(y), x - y);
}

/// Wrapping addition of an element and its wrapping negation is zero:
/// the scalar heart of the `A + (-A) == zero` law.
pub proof fn lemma_crop_cancel(x: int)
    ensures
        crop(crop(x) + crop(-x)) == 0,
{
    lemma_crop_add(x, -x);
    lemma_crop_identity(0);
}

} // verus!
