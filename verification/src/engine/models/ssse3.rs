//! Schedule model of the SSSE3 decoder once its output cursor is aligned:
//! DS64 blocks (64 input bytes -> 48 output bytes, four 16-byte vectors)
//! behind a 32-byte preload, processed two at a time and then one at a time,
//! then a 16-byte tail loop, all within the input minus its last 4 bytes.
use vstd::prelude::*;
use super::greedy_steps;
use super::lemma_greedy_steps;

verus! {

pub const DS64_INPUT_BYTES: usize = 64;

pub const DS64_OUTPUT_BYTES: usize = 48;

pub const TAIL16_INPUT_BYTES: usize = 16;

pub const TAIL16_OUTPUT_BYTES: usize = 12;

pub const SIMD_PRELOAD_BYTES: usize = 32;

pub const STORE_WIDTH_BYTES: usize = 16;

pub const DS64_STORE_OFFSETS: [usize; 4] = [0, 12, 24, 36];

pub const DS64_DOUBLE_STORE_OFFSETS: [usize; 8] = [0, 12, 24, 36, 48, 60, 72, 84];

/// Input bytes the vector loops may read up to: all but the last 4.
pub open spec fn safe_len(len: int) -> int {
    if len >= 4 {
        len - 4
    } else {
        0
    }
}

/// Input bytes of the DS64 blocks: pairs while 160 bytes remain before the
/// safe end, then single blocks while 96 remain.
pub open spec fn ds_input(len: int) -> int {
    let safe = safe_len(len);
    let k = greedy_steps(safe, 159, 128);
    let m = greedy_steps(safe - 128 * k, 95, 64);
    128 * (k as int) + 64 * (m as int)
}

/// Input bytes consumed by the vector loops (zero when not even the 32-byte
/// preload fits): the DS64 part, then 16-byte steps.
pub open spec fn simd_consumed(len: int) -> int {
    let safe = safe_len(len);
    if safe < 32 {
        0
    } else {
        ds_input(len) + 16 * greedy_steps(safe - ds_input(len), 15, 16)
    }
}

/// Non-strict mode validates only the first 16-byte vector of a DS64 block.
pub fn non_strict_checks_lane(lane: usize) -> (r: bool)
    ensures
        r == (lane == 0),
{
    lane == 0
}

/// Index of the 16-byte vector of a DS64 block that holds `byte_offset`.
pub fn lane_in_ds64(byte_offset: usize) -> (r: usize)
    ensures
        r == (byte_offset % 64) / 16,
{
    (byte_offset % DS64_INPUT_BYTES) / TAIL16_INPUT_BYTES
}

/// Whether the non-strict decoder validates input byte `offset` of an input
/// of `input_len` bytes: inside the DS64 blocks only the first 16-byte vector
/// of each block is validated; every other byte is.
pub fn aligned_non_strict_checks_offset(input_len: usize, offset: usize) -> (r: bool)
    requires
        input_len <= usize::MAX - 256,
    ensures
        r == (safe_len(input_len as int) >= 32 && offset < ds_input(input_len as int) ==> (offset
            % 64) < 16),
{
    let ghost len = input_len as int;
    let safe_end = input_len.saturating_sub(4);
    let ghost safe = safe_end as int;
    let mut in_ptr: usize = 0;
    if in_ptr + SIMD_PRELOAD_BYTES > safe_end {
        return true;
    }
    let ghost k = greedy_steps(safe, 159, 128);
    proof {
        lemma_greedy_steps(safe, 159, 128);
    }
    let ghost mut i: int = 0;
    while in_ptr + SIMD_PRELOAD_BYTES + 2 * DS64_INPUT_BYTES <= safe_end
        invariant
            len == input_len,
            input_len <= usize::MAX - 256,
            safe == safe_end,
            safe == safe_len(len),
            safe >= 32,
            k == greedy_steps(safe, 159, 128),
            0 <= i,
            in_ptr == 128 * i,
            i + greedy_steps(safe - in_ptr, 159, 128) == k,
            in_ptr <= safe_end,
            offset >= in_ptr,
        decreases safe_end - in_ptr,
    {
        if offset >= in_ptr && offset < in_ptr + DS64_INPUT_BYTES {
            proof {
                lemma_greedy_steps(safe - in_ptr, 159, 128);
                assert(128 * k >= in_ptr + 128) by (nonlinear_arith)
                    requires
                        k >= i + 1,
                        in_ptr == 128 * i,
                ;
                assert(((offset - in_ptr) as int % 64) == offset as int % 64) by (nonlinear_arith)
                    requires
                        in_ptr == 128 * i,
                        0 <= offset - in_ptr < 64,
                ;
            }
            return non_strict_checks_lane(lane_in_ds64(offset - in_ptr));
        }
        if offset >= in_ptr + DS64_INPUT_BYTES && offset < in_ptr + 2 * DS64_INPUT_BYTES {
            proof {
                lemma_greedy_steps(safe - in_ptr, 159, 128);
                assert(128 * k >= in_ptr + 128) by (nonlinear_arith)
                    requires
                        k >= i + 1,
                        in_ptr == 128 * i,
                ;
                assert(((offset - (in_ptr + 64)) as int % 64) == offset as int % 64)
                    by (nonlinear_arith)
                    requires
                        in_ptr == 128 * i,
                        0 <= offset - (in_ptr + 64) < 64,
                ;
            }
            return non_strict_checks_lane(lane_in_ds64(offset - (in_ptr + DS64_INPUT_BYTES)));
        }
        in_ptr += 2 * DS64_INPUT_BYTES;
        proof {
            i = i + 1;
        }
    }
    let ghost p1 = in_ptr as int;
    let ghost m = greedy_steps(safe - p1, 95, 64);
    proof {
        lemma_greedy_steps(safe - p1, 95, 64);
    }
    let ghost mut i2: int = 0;
    while in_ptr + SIMD_PRELOAD_BYTES + DS64_INPUT_BYTES <= safe_end
        invariant
            len == input_len,
            input_len <= usize::MAX - 256,
            safe == safe_end,
            safe == safe_len(len),
            safe >= 32,
            k == greedy_steps(safe, 159, 128),
            p1 == 128 * k,
            m == greedy_steps(safe - p1, 95, 64),
            0 <= i2,
            in_ptr == p1 + 64 * i2,
            i2 + greedy_steps(safe - in_ptr, 95, 64) == m,
            in_ptr <= safe_end,
            offset >= in_ptr,
        decreases safe_end - in_ptr,
    {
        if offset >= in_ptr && offset < in_ptr + DS64_INPUT_BYTES {
            proof {
                lemma_greedy_steps(safe - in_ptr, 95, 64);
                assert(p1 + 64 * m >= in_ptr + 64) by (nonlinear_arith)
                    requires
                        m >= i2 + 1,
                        in_ptr == p1 + 64 * i2,
                ;
                assert(((offset - in_ptr) as int % 64) == offset as int % 64) by (nonlinear_arith)
                    requires
                        in_ptr == 128 * k + 64 * i2,
                        0 <= offset - in_ptr < 64,
                ;
            }
            return non_strict_checks_lane(lane_in_ds64(offset - in_ptr));
        }
        in_ptr += DS64_INPUT_BYTES;
        proof {
            i2 = i2 + 1;
        }
    }
    assert(offset >= ds_input(len));
    while in_ptr + TAIL16_INPUT_BYTES <= safe_end
        invariant
            in_ptr <= safe_end,
            safe_end <= input_len,
            input_len <= usize::MAX - 256,
            len == input_len,
            offset >= ds_input(len),
        decreases safe_end - in_ptr,
    {
        if offset >= in_ptr && offset < in_ptr + TAIL16_INPUT_BYTES {
            return true;
        }
        in_ptr += TAIL16_INPUT_BYTES;
    }
    true
}

/// Bytes the vector loops write before the scalar tail (or before an error is
/// reported) for an input of `input_len` bytes.
pub fn aligned_written_prefix_before_error(input_len: usize) -> (r: usize)
    requires
        input_len <= usize::MAX - 256,
    ensures
        r == simd_consumed(input_len as int) / 4 * 3,
        4 * (r / 3) == simd_consumed(input_len as int),
        r % 12 == 0,
        4 * r <= 3 * input_len,
{
    let ghost len = input_len as int;
    let safe_end = input_len.saturating_sub(4);
    let ghost safe = safe_end as int;
    let mut in_ptr: usize = 0;
    let mut out_ptr: usize = 0;
    if in_ptr + SIMD_PRELOAD_BYTES > safe_end {
        return 0;
    }
    let ghost k = greedy_steps(safe, 159, 128);
    proof {
        lemma_greedy_steps(safe, 159, 128);
    }
    let ghost mut i: int = 0;
    while in_ptr + SIMD_PRELOAD_BYTES + 2 * DS64_INPUT_BYTES <= safe_end
        invariant
            len == input_len,
            input_len <= usize::MAX - 256,
            safe == safe_end,
            safe == safe_len(len),
            k == greedy_steps(safe, 159, 128),
            0 <= i,
            in_ptr == 128 * i,
            out_ptr == 96 * i,
            i + greedy_steps(safe - in_ptr, 159, 128) == k,
            in_ptr <= safe_end,
        decreases safe_end - in_ptr,
    {
        in_ptr += 2 * DS64_INPUT_BYTES;
        out_ptr += 2 * DS64_OUTPUT_BYTES;
        proof {
            i = i + 1;
        }
    }
    let ghost p1 = in_ptr as int;
    let ghost m = greedy_steps(safe - p1, 95, 64);
    proof {
        lemma_greedy_steps(safe - p1, 95, 64);
    }
    let ghost mut i2: int = 0;
    while in_ptr + SIMD_PRELOAD_BYTES + DS64_INPUT_BYTES <= safe_end
        invariant
            len == input_len,
            input_len <= usize::MAX - 256,
            safe == safe_end,
            safe_end <= input_len,
            p1 == 128 * k,
            m == greedy_steps(safe - p1, 95, 64),
            0 <= i2,
            in_ptr == p1 + 64 * i2,
            4 * out_ptr == 3 * in_ptr,
            out_ptr % 12 == 0,
            i2 + greedy_steps(safe - in_ptr, 95, 64) == m,
            in_ptr <= safe_end,
        decreases safe_end - in_ptr,
    {
        in_ptr += DS64_INPUT_BYTES;
        out_ptr += DS64_OUTPUT_BYTES;
        proof {
            i2 = i2 + 1;
        }
    }
    let ghost ds = in_ptr as int;
    assert(ds == ds_input(len));
    let ghost t = greedy_steps(safe - ds, 15, 16);
    let ghost mut j: int = 0;
    while in_ptr + TAIL16_INPUT_BYTES <= safe_end
        invariant
            len == input_len,
            input_len <= usize::MAX - 256,
            safe == safe_end,
            safe_end <= input_len,
            ds == ds_input(len),
            t == greedy_steps(safe - ds, 15, 16),
            0 <= j,
            in_ptr == ds + 16 * j,
            4 * out_ptr == 3 * in_ptr,
            out_ptr % 12 == 0,
            j + greedy_steps(safe - in_ptr, 15, 16) == t,
            in_ptr <= safe_end,
        decreases safe_end - in_ptr,
    {
        in_ptr += TAIL16_INPUT_BYTES;
        out_ptr += TAIL16_OUTPUT_BYTES;
        proof {
            j = j + 1;
        }
    }
    out_ptr
}

/// Output bytes the decoder may have touched before reporting an error: the
/// written prefix plus the 4-byte overhang of its last 16-byte store.
pub fn aligned_touched_prefix_before_error(input_len: usize) -> (r: usize)
    requires
        input_len <= usize::MAX - 256,
    ensures
        ({
            let w = simd_consumed(input_len as int) / 4 * 3;
            r == if w == 0 { 0 } else { w + 4 }
        }),
{
    let written = aligned_written_prefix_before_error(input_len);
    if written == 0 {
        0
    } else {
        written + 4
    }
}

} // verus!
