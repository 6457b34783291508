//! Feasibility of a strict check table that shares the mapping hash: for
//! each bucket, the entries `t` such that `sat_add(t, byte)` is negative
//! exactly for the bytes outside the alphabet.
use vstd::prelude::*;
use crate::engine::b64::is_b64;
use super::{is_base64_valid_strict_simd, sat_add_i8, sat_add_spec, Buckets};

verus! {

/// The check entry `t` separates bucket `h`: every alphabet byte of the
/// bucket keeps a non-negative saturating sum, every other byte a negative
/// one.
pub open spec fn separates(bk: Buckets, h: int, t: i8) -> bool {
    forall|b: u8| #[trigger] bk.has(h, b) ==> (is_b64(b) <==> sat_add_spec(t, b as i8) >= 0)
}

/// Number of bytes `b < k` of bucket `h` that are (`valid`) or are not
/// alphabet characters.
pub open spec fn count_in(bk: Buckets, h: int, valid: bool, k: int) -> nat
    decreases k,
{
    if k <= 0 {
        0
    } else {
        count_in(bk, h, valid, k - 1) + (if bk.has(h, (k - 1) as u8) && is_b64((k - 1) as u8)
            == valid {
            1nat
        } else {
            0nat
        })
    }
}

/// All check entries that separate bucket `h`, in increasing order.
pub fn feasible_t_values(bk: &Buckets, h: usize) -> (r: Vec<i8>)
    requires
        bk.holds(h as int),
    ensures
        forall|t: i8| r@.contains(t) <==> separates(*bk, h as int, t),
        forall|i: int, j: int| 0 <= i < j < r@.len() ==> r@[i] < r@[j],
{
    let mut out: Vec<i8> = Vec::new();
    let mut t: i16 = -128;
    while t <= 127
        invariant
            -128 <= t <= 128,
            bk.holds(h as int),
            forall|x: i8| out@.contains(x) <==> (x < t && separates(*bk, h as int, x)),
            forall|i: int, j: int| 0 <= i < j < out@.len() ==> out@[i] < out@[j],
            forall|i: int| 0 <= i < out@.len() ==> out@[i] < t,
        decreases 128 - t,
    {
        let ti = t as i8;
        let mut ok = true;
        let mut b: u16 = 0;
        while b < 256 && ok
            invariant
                b <= 256,
                bk.holds(h as int),
                ti as int == t,
                ok <==> forall|x: u8|
                    x < b ==> (#[trigger] bk.has(h as int, x) ==> (is_b64(x) <==> sat_add_spec(ti, x as i8) >= 0)),
            decreases 256 - b,
        {
            let byte = b as u8;
            if bk.contains(h, byte) {
                let y = sat_add_i8(ti, byte as i8);
                let invalid = !is_base64_valid_strict_simd(byte);
                if invalid {
                    if y >= 0 {
                        ok = false;
                    }
                } else if y < 0 {
                    ok = false;
                }
            }
            b = b + 1;
        }
        proof {
            if ok {
                assert forall|x: u8| #[trigger] bk.has(h as int, x) implies (is_b64(x) <==> sat_add_spec(
                    ti,
                    x as i8,
                ) >= 0) by {
                    assert(x < b);
                }
            }
        }
        let ghost prev = out@;
        if ok {
            out.push(ti);
        }
        proof {
            assert forall|x: i8| out@.contains(x) <==> (x < t + 1 && separates(*bk, h as int, x)) by {
                if x == ti {
                    if ok {
                        assert(out@[out@.len() - 1] == x);
                    } else {
                        if out@.contains(x) {
                            let i = choose|i: int| 0 <= i < out@.len() && out@[i] == x;
                            assert(prev[i] == x);
                        }
                    }
                } else {
                    if out@.contains(x) {
                        let i = choose|i: int| 0 <= i < out@.len() && out@[i] == x;
                        if ok {
                            assert(i < prev.len());
                        }
                        assert(prev[i] == x);
                        assert(prev.contains(x));
                    }
                    if x < t + 1 && separates(*bk, h as int, x) {
                        assert(prev.contains(x));
                        let i = choose|i: int| 0 <= i < prev.len() && prev[i] == x;
                        assert(out@[i] == x);
                    }
                }
            }
        }
        t = t + 1;
    }
    out
}

/// Number of alphabet bytes and of other bytes in bucket `h`.
pub fn bucket_counts(bk: &Buckets, h: usize) -> (r: (usize, usize))
    requires
        bk.holds(h as int),
    ensures
        r.0 == count_in(*bk, h as int, true, 256),
        r.1 == count_in(*bk, h as int, false, 256),
{
    let mut valid: usize = 0;
    let mut invalid: usize = 0;
    let mut b: u16 = 0;
    while b < 256
        invariant
            b <= 256,
            bk.holds(h as int),
            valid == count_in(*bk, h as int, true, b as int),
            invalid == count_in(*bk, h as int, false, b as int),
            valid + invalid <= b,
        decreases 256 - b,
    {
        let byte = b as u8;
        proof {
            assert(((b + 1) - 1) as u8 == byte);
        }
        if bk.contains(h, byte) {
            if is_base64_valid_strict_simd(byte) {
                valid = valid + 1;
            } else {
                invalid = invalid + 1;
            }
        }
        b = b + 1;
    }
    (valid, invalid)
}

} // verus!
