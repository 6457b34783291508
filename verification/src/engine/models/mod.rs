//! Pure models of the SIMD engines' block schedules and check lanes.
//!
//! Each model follows the pointer guards of one engine with plain integers:
//! which blocks the vector loops process for an input of a given length, how
//! many bytes they write before the scalar tail takes over, and which input
//! offsets the non-strict mode validates.
pub mod avx2;
pub mod avx512vbmi;
pub mod neon;
pub mod ssse3;
pub mod wasm_simd128;

use vstd::prelude::*;

verus! {

/// Number of steps a greedy schedule takes when it consumes `s` bytes at a
/// time from `r` remaining bytes for as long as more than `t` remain.
pub open spec fn greedy_steps(r: int, t: int, s: int) -> nat
    decreases r,
{
    if 0 < s <= t + 1 && r > t {
        1 + greedy_steps(r - s, t, s)
    } else {
        0
    }
}

/// After its steps the greedy schedule leaves at most `t` bytes, and it never
/// consumes more than there is: each step leaves more than `t - s` bytes.
pub proof fn lemma_greedy_steps(r: int, t: int, s: int)
    requires
        0 < s <= t + 1,
    ensures
        r - s * greedy_steps(r, t, s) <= t,
        greedy_steps(r, t, s) > 0 ==> r - s * greedy_steps(r, t, s) > t - s,
        greedy_steps(r, t, s) == 0 <==> r <= t,
    decreases r,
{
    if r > t {
        lemma_greedy_steps(r - s, t, s);
        let g = greedy_steps(r, t, s);
        let g1 = greedy_steps(r - s, t, s);
        assert(g == 1 + g1);
        assert(s * g == s + s * g1) by (nonlinear_arith)
            requires
                g == 1 + g1,
        ;
        if g1 == 0 {
            assert(r - s * g == r - s);
        } else {
            assert(r - s * g == (r - s) - s * g1);
        }
    }
}

} // verus!
