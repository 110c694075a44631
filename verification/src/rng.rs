//! The deterministic pseudo-random utility: a 64-bit xorshift step.
//!
//! The generator is a pure function of an explicit 64-bit state: each
//! step replaces the state by `s ^= s << 7; s ^= s >> 9`.  Started from
//! the documented seed [`XOR64_INIT`], the state sequence is fixed
//! bit-for-bit; a caller that wants a sample in `[0, 1)` divides the
//! state by 2^64 in its own numeric type.

use vstd::prelude::*;

verus! {

/// The documented seed: conforming reimplementations started here
/// reproduce the same state sequence exactly.
pub const XOR64_INIT: u64 = 88172645463325252;

/// One xorshift step as a function of the state.
pub open spec fn xor64_step(s: u64) -> u64 {
    let a = s ^ (s << 7u64);
    a ^ (a >> 9u64)
}

/// Advances the state by one xorshift step and returns the new state.
pub fn xor64(state: &mut u64) -> (r: u64)
    ensures
        *final (state) == xor64_step(*old(state)),
        r == *final (state),
{
    let a = *state ^ (*state << 7u64);
    let b = a ^ (a >> 9u64);
    *state = b;
    b
}

} // verus!
