//! Synthesis of a poisoned mapping table: with the decoders' mapping hash
//! fixed, find for each bucket an offset that maps every alphabet character
//! of the bucket to its 6-bit value and sets a poison bit (`mask`) in the
//! mapped value of every other byte, so that the mapping itself validates.
use vstd::prelude::*;
use crate::engine::b64::{is_b64, sextet};
use crate::engine::lanes::DELTA_VALUES;
use super::{expected_sextet, is_base64_valid_strict_simd, Buckets};
use super::strict_table::count_in;

verus! {

/// Wrapping byte addition.
pub open spec fn wadd(a: u8, b: u8) -> u8 {
    ((a + b) % 256) as u8
}

/// The offset `d` suits byte `b`: an alphabet byte maps to its 6-bit value,
/// any other byte to a value with a bit of `mask` set.
pub open spec fn byte_ok(b: u8, d: u8, mask: u8) -> bool {
    if is_b64(b) {
        wadd(b, d) as int == sextet(b)
    } else {
        wadd(b, d) & mask != 0
    }
}

/// The offset `d` suits every byte of bucket `h`.
pub open spec fn delta_ok(bk: Buckets, h: int, d: u8, mask: u8) -> bool {
    forall|b: u8| #[trigger] bk.has(h, b) ==> byte_ok(b, d, mask)
}

/// No offset suits bucket `h`.
pub open spec fn infeasible(bk: Buckets, h: int, mask: u8) -> bool {
    forall|d: u8| !#[trigger] delta_ok(bk, h, d, mask)
}

/// Why a bucket has no offset.
pub enum BucketError {
    /// Two alphabet bytes of the bucket need different offsets `first` and
    /// `second`.
    Conflict { bucket: usize, first: u8, second: u8 },
    /// No offset meets the constraints of the bucket, which holds `valid`
    /// alphabet bytes and `invalid` other bytes.
    NoCandidate { bucket: usize, valid: usize, invalid: usize },
}

/// Wrapping byte addition.
pub fn wrapping_add_u8(a: u8, b: u8) -> (r: u8)
    ensures
        r == wadd(a, b),
{
    ((a as u16 + b as u16) % 256) as u8
}

/// Whether the offset `d` suits every byte of bucket `h`.
pub fn delta_fits(bk: &Buckets, h: usize, d: u8, mask: u8) -> (r: bool)
    requires
        bk.wf(),
        h < 16,
    ensures
        r == delta_ok(*bk, h as int, d, mask),
{
    let mut b: u16 = 0;
    let mut ok = true;
    while b < 256 && ok
        invariant
            b <= 256,
            bk.wf(),
            h < 16,
            ok <==> forall|x: u8| x < b ==> (#[trigger] bk.has(h as int, x) ==> byte_ok(x, d, mask)),
        decreases 256 - b,
    {
        let byte = b as u8;
        if bk.contains(h, byte) {
            let y = wrapping_add_u8(byte, d);
            match expected_sextet(byte) {
                Some(exp) => {
                    if y != exp {
                        ok = false;
                    }
                },
                None => {
                    if y & mask == 0 {
                        ok = false;
                    }
                },
            }
        }
        b = b + 1;
    }
    proof {
        if ok {
            assert forall|x: u8| #[trigger] bk.has(h as int, x) implies byte_ok(x, d, mask) by {
                assert(x < b);
            }
        }
    }
    ok
}

/// The offset an alphabet byte needs: its 6-bit value minus the byte, wrapping.
pub open spec fn needed(b: u8) -> u8 {
    ((sextet(b) - b + 256) % 256) as u8
}

/// An offset that suits an alphabet byte is the one it needs.
pub proof fn lemma_needed(b: u8, d: u8, mask: u8)
    requires
        is_b64(b),
    ensures
        byte_ok(b, d, mask) <==> d == needed(b),
{
    assert(0 <= sextet(b) < 64);
}

/// Two alphabet bytes of bucket `h` need different offsets.
pub open spec fn has_conflict(bk: Buckets, h: int) -> bool {
    exists|x: u8, y: u8| #[trigger] bk.has(h, x) && #[trigger] bk.has(h, y) && is_b64(x) && is_b64(y) && needed(x) != needed(y)
}

/// `x` is the least alphabet byte of bucket `h`.
pub open spec fn least_valid(bk: Buckets, h: int, x: u8) -> bool {
    bk.has(h, x) && is_b64(x) && forall|y: u8| y < x && #[trigger] bk.has(h, y) ==> !is_b64(y)
}

/// `x` is the least alphabet byte of bucket `h` that needs an offset other
/// than `d`.
pub open spec fn least_differing(bk: Buckets, h: int, d: u8, x: u8) -> bool {
    bk.has(h, x) && is_b64(x) && needed(x) != d && forall|y: u8|
        y < x && #[trigger] bk.has(h, y) && is_b64(y) ==> needed(y) == d
}

/// The errors of bucket `h`: for two alphabet bytes with different offsets,
/// the offsets of the first alphabet byte and of the first one that differs
/// from it, then the bucket's counts; for another bucket without an offset,
/// its counts; nothing for a bucket with an offset.
pub open spec fn bucket_errors(bk: Buckets, h: int, mask: u8) -> Seq<BucketError> {
    let counts = BucketError::NoCandidate {
        bucket: h as usize,
        valid: count_in(bk, h, true, 256) as usize,
        invalid: count_in(bk, h, false, 256) as usize,
    };
    if has_conflict(bk, h) {
        let x0 = choose|x: u8| least_valid(bk, h, x);
        let x1 = choose|x: u8| least_differing(bk, h, needed(x0), x);
        seq![BucketError::Conflict { bucket: h as usize, first: needed(x0), second: needed(x1) }, counts]
    } else if infeasible(bk, h, mask) {
        seq![counts]
    } else {
        Seq::empty()
    }
}

/// The errors of buckets `0..k`, in bucket order.
pub open spec fn errors_upto(bk: Buckets, mask: u8, k: int) -> Seq<BucketError>
    decreases k,
{
    if k <= 0 {
        Seq::empty()
    } else {
        errors_upto(bk, mask, k - 1) + bucket_errors(bk, k - 1, mask)
    }
}

/// The offset of each bucket: the one its alphabet bytes need, or, for a
/// bucket without alphabet bytes, the smallest offset that poisons all its
/// bytes. `Err` lists the buckets without a suitable offset.
pub fn synthesize_delta_values(bk: &Buckets, poison_mask: u8) -> (r: Result<[u8; 16], Vec<BucketError>>)
    requires
        bk.wf(),
    ensures
        r matches Ok(out) ==> forall|h: int|
            0 <= h < 16 ==> delta_ok(*bk, h, #[trigger] out@[h], poison_mask) && forall|d: u8|
                d < out@[h] ==> !delta_ok(*bk, h, d, poison_mask),
        r is Err ==> exists|h: int| 0 <= h < 16 && #[trigger] infeasible(*bk, h, poison_mask),
        r matches Err(e) ==> e@ == errors_upto(*bk, poison_mask, 16),
{
    let mut out: [u8; 16] = [0u8; 16];
    let mut errors: Vec<BucketError> = Vec::new();
    let mut h: usize = 0;
    let ghost mut bad_bucket: int = -1;
    while h < 16
        invariant
            h <= 16,
            bk.wf(),
            errors@.len() == 0 ==> bad_bucket == -1,
            errors@.len() > 0 ==> 0 <= bad_bucket < 16 && infeasible(*bk, bad_bucket, poison_mask),
            errors@ == errors_upto(*bk, poison_mask, h as int),
            forall|g: int|
                0 <= g < h ==> (errors@.len() == 0 ==> delta_ok(*bk, g, #[trigger] out@[g], poison_mask) && forall|d: u8|
                    d < out@[g] ==> !delta_ok(*bk, g, d, poison_mask)),
        decreases 16 - h,
    {
        let ghost e0 = errors@.len();
        // Step 1: the offset the bucket's alphabet bytes need.
        let mut required: Option<u8> = None;
        let mut conflict = false;
        let ghost mut witness: u8 = 0;
        let ghost mut dwitness: u8 = 0;
        let ghost prev_errors = errors@;
        let mut b: u16 = 0;
        while b < 256 && !conflict
            invariant
                b <= 256,
                bk.wf(),
                h < 16,
                !conflict ==> (required is None <==> forall|x: u8| x < b ==> !(#[trigger] bk.has(h as int, x) && is_b64(x))),
                !conflict && required is Some ==> bk.has(h as int, witness) && is_b64(witness) && needed(witness) == required->0,
                !conflict && required is Some ==> forall|x: u8| x < b && #[trigger] bk.has(h as int, x) && is_b64(x) ==> needed(x) == required->0,
                conflict ==> forall|d: u8| !#[trigger] delta_ok(*bk, h as int, d, poison_mask),
                conflict ==> required is None,
                errors@.len() == 0 ==> bad_bucket == -1,
                errors@.len() > 0 ==> 0 <= bad_bucket < 16 && infeasible(*bk, bad_bucket, poison_mask),
                errors@.len() >= e0,
                prev_errors == errors_upto(*bk, poison_mask, h as int),
                e0 == prev_errors.len(),
                !conflict ==> errors@ == prev_errors,
                !conflict && required is Some ==> least_valid(*bk, h as int, witness),
                conflict ==> least_valid(*bk, h as int, witness) && least_differing(*bk, h as int, needed(witness), dwitness),
                conflict ==> errors@ == prev_errors.push(
                    BucketError::Conflict { bucket: h, first: needed(witness), second: needed(dwitness) },
                ),
            decreases 256 - b,
        {
            let byte = b as u8;
            if bk.contains(h, byte) {
                if let Some(exp) = expected_sextet(byte) {
                    let d = ((exp as u16 + 256 - byte as u16) % 256) as u8;
                    match required {
                        Some(prev) => {
                            if prev != d {
                                errors.push(BucketError::Conflict { bucket: h, first: prev, second: d });
                                proof {
                                    assert forall|dd: u8| !#[trigger] delta_ok(*bk, h as int, dd, poison_mask) by {
                                        lemma_needed(witness, dd, poison_mask);
                                        lemma_needed(byte, dd, poison_mask);
                                    }
                                    bad_bucket = h as int;
                                    dwitness = byte;
                                    assert(needed(byte) == d);
                                }
                                required = None;
                                conflict = true;
                            }
                        },
                        None => {
                            required = Some(d);
                            proof {
                                witness = byte;
                            }
                        },
                    }
                }
            }
            b = b + 1;
        }
        // Step 2: the candidate offsets, filtered by the bucket's bytes.
        let mut chosen: Option<u8> = None;
        if !conflict {
            match required {
                Some(d) => {
                    proof {
                        assert forall|dd: u8| delta_ok(*bk, h as int, dd, poison_mask) implies dd == d by {
                            lemma_needed(witness, dd, poison_mask);
                        }
                    }
                    if delta_fits(bk, h, d, poison_mask) {
                        chosen = Some(d);
                        proof {
                            assert forall|x: u8| x < d implies !#[trigger] delta_ok(*bk, h as int, x, poison_mask) by {}
                        }
                    }
                },
                None => {
                    let mut d: u16 = 0;
                    while d < 256 && chosen.is_none()
                        invariant
                            d <= 256,
                            bk.wf(),
                            h < 16,
                            chosen is None ==> forall|x: u8| x < d ==> !#[trigger] delta_ok(*bk, h as int, x, poison_mask),
                            chosen matches Some(c) ==> delta_ok(*bk, h as int, c, poison_mask) && forall|x: u8| x < c ==> !#[trigger] delta_ok(*bk, h as int, x, poison_mask),
                        decreases 256 - d,
                    {
                        if delta_fits(bk, h, d as u8, poison_mask) {
                            chosen = Some(d as u8);
                        }
                        d = d + 1;
                    }
                },
            }
        }
        proof {
            if let Some(c) = chosen {
                assert(delta_ok(*bk, h as int, c, poison_mask));
                assert(forall|x: u8| x < c ==> !#[trigger] delta_ok(*bk, h as int, x, poison_mask));
            }
        }
        match chosen {
            Some(c) => {
                let ghost prev = out@;
                out[h] = c;
                proof {
                    assert forall|g: int| 0 <= g < h + 1 && errors@.len() == 0 implies delta_ok(*bk, g, #[trigger] out@[g], poison_mask) && forall|d: u8|
                        d < out@[g] ==> !delta_ok(*bk, g, d, poison_mask) by {
                        assert(e0 == 0);
                        if g < h {
                            assert(out@[g] == prev[g]);
                        }
                    }
                }
            },
            None => {
                let (valid, invalid) = super::strict_table::bucket_counts(bk, h);
                errors.push(BucketError::NoCandidate { bucket: h, valid, invalid });
                proof {
                    if !conflict {
                        assert forall|dd: u8| !#[trigger] delta_ok(*bk, h as int, dd, poison_mask) by {
                            if required is Some {
                            } else {
                                assert(dd < 256);
                            }
                        }
                    }
                    bad_bucket = h as int;
                }
            },
        }
        h = h + 1;
    }
    if errors.len() == 0 {
        Ok(out)
    } else {
        Err(errors)
    }
}

/// What [`evaluate_current_table`] counts over the (bucket, byte) pairs.
pub open spec fn pair_counts(bk: Buckets, mask: u8, k: int) -> (nat, nat, nat, nat)
    decreases k,
{
    if k <= 0 {
        (0, 0, 0, 0)
    } else {
        let prev = pair_counts(bk, mask, k - 1);
        let h = (k - 1) / 256;
        let b = ((k - 1) % 256) as u8;
        let y = wadd(b, DELTA_VALUES@[h]);
        if !bk.has(h, b) {
            prev
        } else if is_b64(b) {
            (prev.0 + 1, prev.1 + (if y as int != sextet(b) { 1nat } else { 0nat }), prev.2, prev.3)
        } else {
            (prev.0, prev.1, prev.2 + 1, prev.3 + (if y & mask == 0 { 1nat } else { 0nat }))
        }
    }
}

/// Check the decoders' current offset table against the buckets: the
/// number of alphabet bytes, of those mapped to a wrong value, of other
/// bytes, and of those left without a poison bit of `mask`.
pub fn evaluate_current_table(bk: &Buckets, poison_mask: u8) -> (r: (usize, usize, usize, usize))
    requires
        bk.wf(),
    ensures
        ({
            let c = pair_counts(*bk, poison_mask, 4096);
            r.0 == c.0 && r.1 == c.1 && r.2 == c.2 && r.3 == c.3
        }),
{
    let mut valid_total: usize = 0;
    let mut valid_bad: usize = 0;
    let mut invalid_total: usize = 0;
    let mut invalid_unpoisoned: usize = 0;
    let mut k: usize = 0;
    while k < 4096
        invariant
            k <= 4096,
            bk.wf(),
            ({
                let c = pair_counts(*bk, poison_mask, k as int);
                valid_total == c.0 && valid_bad == c.1 && invalid_total == c.2 && invalid_unpoisoned == c.3
            }),
            valid_total + invalid_total <= k,
            valid_bad <= valid_total,
            invalid_unpoisoned <= invalid_total,
        decreases 4096 - k,
    {
        let h = k / 256;
        let byte = (k % 256) as u8;
        proof {
            assert(((k + 1) - 1) / 256 == h && (((k + 1) - 1) % 256) as u8 == byte);
        }
        if bk.contains(h, byte) {
            let y = wrapping_add_u8(byte, DELTA_VALUES[h]);
            if is_base64_valid_strict_simd(byte) {
                valid_total = valid_total + 1;
                match expected_sextet(byte) {
                    Some(exp) => {
                        if y != exp {
                            valid_bad = valid_bad + 1;
                        }
                    },
                    None => {},
                }
            } else {
                invalid_total = invalid_total + 1;
                if y & poison_mask == 0 {
                    invalid_unpoisoned = invalid_unpoisoned + 1;
                }
            }
        }
        k = k + 1;
    }
    (valid_total, valid_bad, invalid_total, invalid_unpoisoned)
}

} // verus!
