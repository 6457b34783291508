//! Schedule model of the AVX2 decoder: DS128 blocks (128 input bytes -> 96
//! output bytes, four 32-byte vectors) behind a 64-byte preload, then a
//! 16-byte tail loop.
use vstd::prelude::*;
use super::greedy_steps;
use super::lemma_greedy_steps;

verus! {

pub const DS128_INPUT_BYTES: usize = 128;

pub const DS128_OUTPUT_BYTES: usize = 96;

pub const TAIL16_INPUT_BYTES: usize = 16;

pub const TAIL16_OUTPUT_BYTES: usize = 12;

pub const SIMD_PRELOAD_BYTES: usize = 64;

pub const STORE_WIDTH_BYTES: usize = 16;

pub const DS128_STORE_OFFSETS: [usize; 8] = [0, 12, 24, 36, 48, 60, 72, 84];

pub const PARTIAL_SINGLE_THRESHOLD: usize = 196;

pub const PARTIAL_DOUBLE_THRESHOLD: usize = 324;

pub const STRICT_SINGLE_THRESHOLD: usize = 196;

pub const STRICT_DOUBLE_THRESHOLD: usize = 324;

pub const STRICT_TRIPLE_THRESHOLD: usize = 452;

pub const TAIL_THRESHOLD: usize = 20;

/// Input bytes the non-strict DS128 loops process (double blocks, then at
/// most one single block) for an input of `len` bytes.
pub open spec fn partial_ds_input(len: int) -> int {
    let k = greedy_steps(len, 324, 256);
    let rest = len - 256 * k;
    256 * k + if rest > 196 { 128int } else { 0int }
}

/// Input bytes the strict DS128 loops process (triple, double, single).
pub open spec fn strict_ds_input(len: int) -> int {
    let a = greedy_steps(len, 452, 384);
    let r1 = len - 384 * a;
    let k = greedy_steps(r1, 324, 256);
    let r2 = r1 - 256 * k;
    384 * a + 256 * k + if r2 > 196 { 128int } else { 0int }
}

/// Input bytes consumed by the vector loops: the DS128 part, then 16-byte
/// steps while more than 20 bytes remain.
pub open spec fn simd_consumed(len: int, ds: int) -> int {
    ds + 16 * greedy_steps(len - ds, 20, 16)
}

/// Index of the 32-byte vector of a DS128 block that holds `byte_offset`.
pub fn lane_in_ds128(byte_offset: usize) -> (r: usize)
    ensures
        r == (byte_offset % 128) / 32,
{
    (byte_offset % DS128_INPUT_BYTES) / 32
}

/// Non-strict mode validates every 32-byte vector of a DS128 block except
/// the second one (lane 1): the first vector of the leading pair and both
/// vectors of the trailing pair are checked.
pub fn non_strict_checks_lane(lane: usize) -> (r: bool)
    ensures
        r == (lane != 1),
{
    lane != 1
}

/// Whether the non-strict decoder validates input byte `offset` of an input
/// of `input_len` bytes: inside the DS128 blocks the second 32-byte vector of
/// each block is not validated; every other byte is.
pub fn non_strict_checks_offset(input_len: usize, offset: usize) -> (r: bool)
    ensures
        r == (offset < partial_ds_input(input_len as int) ==> (offset % 128) / 32 != 1),
{
    let ghost len = input_len as int;
    let ghost k = greedy_steps(len, 324, 256);
    proof {
        lemma_greedy_steps(len, 324, 256);
    }
    let mut ip: usize = 0;
    let ghost mut i: int = 0;
    while input_len.saturating_sub(ip) > PARTIAL_DOUBLE_THRESHOLD
        invariant
            len == input_len,
            k == greedy_steps(len, 324, 256),
            0 <= i,
            ip == 256 * i,
            i + greedy_steps(len - ip, 324, 256) == k,
            ip <= input_len,
            offset >= ip,
        decreases input_len - ip,
    {
        if offset >= ip && offset < ip + DS128_INPUT_BYTES {
            proof {
                assert(offset < partial_ds_input(len)) by {
                    lemma_greedy_steps(len - ip, 324, 256);
                    assert(256 * k >= ip + 256) by (nonlinear_arith)
                        requires
                            k >= i + 1,
                            ip == 256 * i,
                    ;
                }
                assert(((offset - ip) as int % 128) == offset as int % 128) by (nonlinear_arith)
                    requires
                        ip == 256 * i,
                        0 <= offset - ip < 128,
                ;
            }
            return non_strict_checks_lane(lane_in_ds128(offset - ip));
        }
        if offset >= ip + DS128_INPUT_BYTES && offset < ip + 2 * DS128_INPUT_BYTES {
            proof {
                assert(offset < partial_ds_input(len)) by {
                    lemma_greedy_steps(len - ip, 324, 256);
                    assert(256 * k >= ip + 256) by (nonlinear_arith)
                        requires
                            k >= i + 1,
                            ip == 256 * i,
                    ;
                }
                assert(((offset - (ip + 128)) as int % 128) == offset as int % 128)
                    by (nonlinear_arith)
                    requires
                        ip == 256 * i,
                        0 <= offset - (ip + 128) < 128,
                ;
            }
            return non_strict_checks_lane(lane_in_ds128(offset - (ip + DS128_INPUT_BYTES)));
        }
        ip += 2 * DS128_INPUT_BYTES;
        proof {
            i = i + 1;
        }
    }
    proof {
        assert(i == k);
    }
    if input_len.saturating_sub(ip) > PARTIAL_SINGLE_THRESHOLD {
        if offset >= ip && offset < ip + DS128_INPUT_BYTES {
            proof {
                assert(((offset - ip) as int % 128) == offset as int % 128) by (nonlinear_arith)
                    requires
                        ip == 256 * i,
                        0 <= offset - ip < 128,
                ;
            }
            return non_strict_checks_lane(lane_in_ds128(offset - ip));
        }
        ip += DS128_INPUT_BYTES;
    }
    assert(offset >= partial_ds_input(len));
    while input_len.saturating_sub(ip) > TAIL_THRESHOLD
        invariant
            ip <= input_len,
            offset >= partial_ds_input(len),
            len == input_len,
        decreases input_len - ip,
    {
        if offset >= ip && offset < ip + TAIL16_INPUT_BYTES {
            return true;
        }
        ip += TAIL16_INPUT_BYTES;
    }
    true
}

/// Bytes the non-strict vector loops write before the scalar tail (or before
/// an error is reported) for an input of `input_len` bytes.
pub fn simd_written_prefix_before_error_partial(input_len: usize) -> (r: usize)
    ensures
        r == simd_consumed(input_len as int, partial_ds_input(input_len as int)) / 4 * 3,
        4 * (r / 3) == simd_consumed(input_len as int, partial_ds_input(input_len as int)),
        r % 12 == 0,
        4 * r <= 3 * input_len,
{
    let ghost len = input_len as int;
    let ghost k = greedy_steps(len, 324, 256);
    proof {
        lemma_greedy_steps(len, 324, 256);
    }
    let mut ip: usize = 0;
    let mut op: usize = 0;
    let ghost mut i: int = 0;
    while input_len.saturating_sub(ip) > PARTIAL_DOUBLE_THRESHOLD
        invariant
            len == input_len,
            k == greedy_steps(len, 324, 256),
            0 <= i,
            ip == 256 * i,
            op == 192 * i,
            i + greedy_steps(len - ip, 324, 256) == k,
            ip <= input_len,
        decreases input_len - ip,
    {
        ip += 2 * DS128_INPUT_BYTES;
        op += 2 * DS128_OUTPUT_BYTES;
        proof {
            i = i + 1;
        }
    }
    if input_len.saturating_sub(ip) > PARTIAL_SINGLE_THRESHOLD {
        ip += DS128_INPUT_BYTES;
        op += DS128_OUTPUT_BYTES;
    }
    let ghost ds = ip as int;
    assert(ds == partial_ds_input(len));
    let ghost t = greedy_steps(len - ds, 20, 16);
    let ghost mut j: int = 0;
    while input_len.saturating_sub(ip) > TAIL_THRESHOLD
        invariant
            len == input_len,
            ds == partial_ds_input(len),
            t == greedy_steps(len - ds, 20, 16),
            0 <= j,
            ip == ds + 16 * j,
            4 * op == 3 * ip,
            op % 12 == 0,
            j + greedy_steps(len - ip, 20, 16) == t,
            ip <= input_len,
        decreases input_len - ip,
    {
        ip += TAIL16_INPUT_BYTES;
        op += TAIL16_OUTPUT_BYTES;
        proof {
            j = j + 1;
        }
    }
    op
}

/// Bytes the strict vector loops write before the scalar tail (or before an
/// error is reported) for an input of `input_len` bytes.
#[verifier::spinoff_prover]
#[verifier::rlimit(40)]
pub fn simd_written_prefix_before_error_strict(input_len: usize) -> (r: usize)
    ensures
        r == simd_consumed(input_len as int, strict_ds_input(input_len as int)) / 4 * 3,
        4 * (r / 3) == simd_consumed(input_len as int, strict_ds_input(input_len as int)),
        r % 12 == 0,
        4 * r <= 3 * input_len,
{
    let ghost len = input_len as int;
    let ghost a = greedy_steps(len, 452, 384);
    proof {
        lemma_greedy_steps(len, 452, 384);
    }
    let mut ip: usize = 0;
    let mut op: usize = 0;
    let ghost mut i: int = 0;
    while input_len.saturating_sub(ip) > STRICT_TRIPLE_THRESHOLD
        invariant
            len == input_len,
            a == greedy_steps(len, 452, 384),
            0 <= i,
            ip == 384 * i,
            op == 288 * i,
            i + greedy_steps(len - ip, 452, 384) == a,
            ip <= input_len,
        decreases input_len - ip,
    {
        ip += 3 * DS128_INPUT_BYTES;
        op += 3 * DS128_OUTPUT_BYTES;
        proof {
            i = i + 1;
        }
    }
    let ghost r1 = len - ip;
    let ghost k = greedy_steps(r1, 324, 256);
    let ghost ip1 = ip as int;
    proof {
        lemma_greedy_steps(r1, 324, 256);
    }
    let ghost mut i2: int = 0;
    while input_len.saturating_sub(ip) > STRICT_DOUBLE_THRESHOLD
        invariant
            len == input_len,
            r1 == len - ip1,
            k == greedy_steps(r1, 324, 256),
            0 <= i2,
            ip == ip1 + 256 * i2,
            4 * op == 3 * ip,
            op % 12 == 0,
            i2 + greedy_steps(len - ip, 324, 256) == k,
            ip <= input_len,
        decreases input_len - ip,
    {
        ip += 2 * DS128_INPUT_BYTES;
        op += 2 * DS128_OUTPUT_BYTES;
        proof {
            i2 = i2 + 1;
        }
    }
    if input_len.saturating_sub(ip) > STRICT_SINGLE_THRESHOLD {
        ip += DS128_INPUT_BYTES;
        op += DS128_OUTPUT_BYTES;
    }
    let ghost ds = ip as int;
    assert(ds == strict_ds_input(len));
    let ghost t = greedy_steps(len - ds, 20, 16);
    let ghost mut j: int = 0;
    while input_len.saturating_sub(ip) > TAIL_THRESHOLD
        invariant
            len == input_len,
            ds == strict_ds_input(len),
            t == greedy_steps(len - ds, 20, 16),
            0 <= j,
            ip == ds + 16 * j,
            4 * op == 3 * ip,
            op % 12 == 0,
            j + greedy_steps(len - ip, 20, 16) == t,
            ip <= input_len,
        decreases input_len - ip,
    {
        ip += TAIL16_INPUT_BYTES;
        op += TAIL16_OUTPUT_BYTES;
        proof {
            j = j + 1;
        }
    }
    op
}

/// Output bytes the non-strict decoder may have touched before reporting an
/// error: the written prefix plus the 4-byte overhang of its last 16-byte
/// store.
pub fn simd_touched_prefix_before_error_partial(input_len: usize) -> (r: usize)
    ensures
        ({
            let w = simd_consumed(input_len as int, partial_ds_input(input_len as int)) / 4 * 3;
            r == if w == 0 { 0 } else { w + 4 }
        }),
{
    let written = simd_written_prefix_before_error_partial(input_len);
    if written == 0 {
        0
    } else {
        written + 4
    }
}

/// Output bytes the strict decoder may have touched before reporting an
/// error: the written prefix plus the 4-byte overhang of its last store.
pub fn simd_touched_prefix_before_error_strict(input_len: usize) -> (r: usize)
    ensures
        ({
            let w = simd_consumed(input_len as int, strict_ds_input(input_len as int)) / 4 * 3;
            r == if w == 0 { 0 } else { w + 4 }
        }),
{
    let written = simd_written_prefix_before_error_strict(input_len);
    if written == 0 {
        0
    } else {
        written + 4
    }
}

} // verus!
