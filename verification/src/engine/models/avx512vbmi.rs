//! Schedule model of the AVX-512 VBMI codec: ES256 encode blocks (four
//! 48-byte blocks -> 256 characters), DS256 decode blocks (256 input bytes ->
//! 192 output bytes, four 64-byte vectors) behind a 128-byte preload, then a
//! 64-byte tail loop.
use vstd::prelude::*;
use super::greedy_steps;
use super::lemma_greedy_steps;

verus! {

pub const BLOCK_IN_BYTES: usize = 48;

pub const BLOCK_OUT_BYTES: usize = 64;

pub const ES256_INPUT_BYTES: usize = 192;

pub const ES256_OUTPUT_BYTES: usize = 256;

pub const DOUBLE_ES256_INPUT_BYTES: usize = 384;

pub const DOUBLE_ES256_OUTPUT_BYTES: usize = 512;

pub const SINGLE_ES256_REQUIRED_INPUT: usize = 208;

pub const DOUBLE_ES256_REQUIRED_INPUT: usize = 496;

pub const ES256_BLOCK_STARTS: [usize; 4] = [0, 48, 96, 144];

pub const DOUBLE_ES256_BLOCK_STARTS: [usize; 8] = [0, 48, 96, 144, 192, 240, 288, 336];

pub const DOUBLE_ES256_PRELOAD_STARTS: [usize; 2] = [384, 432];

pub const DS256_INPUT_BYTES: usize = 256;

pub const DS256_OUTPUT_BYTES: usize = 192;

pub const DS256_STORE_OFFSETS: [usize; 4] = [0, 48, 96, 144];

pub const TAIL64_INPUT_BYTES: usize = 64;

pub const TAIL64_OUTPUT_BYTES: usize = 48;

pub const DECODE_STORE_WIDTH_BYTES: usize = 64;

pub const DECODE_SINGLE_THRESHOLD: usize = 388;

pub const DECODE_DOUBLE_THRESHOLD: usize = 644;

pub const DECODE_TAIL_THRESHOLD: usize = 84;

/// Input bytes the DS256 loops process (double blocks, then at most one
/// single block) for an input of `len` bytes.
pub open spec fn ds_input(len: int) -> int {
    let k = greedy_steps(len, 644, 512);
    let rest = len - 512 * k;
    512 * k + if rest > 388 { 256int } else { 0int }
}

/// Input bytes consumed by the vector loops: the DS256 part, then 64-byte
/// steps while more than 84 bytes remain.
pub open spec fn simd_consumed(len: int) -> int {
    ds_input(len) + 64 * greedy_steps(len - ds_input(len), 84, 64)
}

/// A single ES256 encode step fits in `remaining_input` bytes.
pub fn can_run_single_es256(remaining_input: usize) -> (r: bool)
    ensures
        r == (remaining_input >= 208),
{
    remaining_input >= SINGLE_ES256_REQUIRED_INPUT
}

/// A double ES256 encode step (with its preloads) fits in `remaining_input`.
pub fn can_run_double_es256(remaining_input: usize) -> (r: bool)
    ensures
        r == (remaining_input >= 496),
{
    remaining_input >= DOUBLE_ES256_REQUIRED_INPUT
}

/// Index of the 64-byte vector of a DS256 block that holds `byte_offset`.
pub fn lane_in_ds256(byte_offset: usize) -> (r: usize)
    ensures
        r == (byte_offset % 256) / 64,
{
    (byte_offset % DS256_INPUT_BYTES) / TAIL64_INPUT_BYTES
}

/// Non-strict mode validates every lane of a DS256 block except lane 1.
pub fn non_strict_checks_lane(lane: usize) -> (r: bool)
    ensures
        r == (lane != 1),
{
    lane != 1
}

/// Whether the non-strict decoder validates input byte `offset` of an input
/// of `input_len` bytes: inside the DS256 blocks the second 64-byte vector is
/// not validated; every other byte is.
pub fn non_strict_checks_offset(input_len: usize, offset: usize) -> (r: bool)
    ensures
        r == (offset < ds_input(input_len as int) ==> (offset % 256) / 64 != 1),
{
    let ghost len = input_len as int;
    let ghost k = greedy_steps(len, 644, 512);
    proof {
        lemma_greedy_steps(len, 644, 512);
    }
    let mut ip: usize = 0;
    let ghost mut i: int = 0;
    while input_len.saturating_sub(ip) > DECODE_DOUBLE_THRESHOLD
        invariant
            len == input_len,
            k == greedy_steps(len, 644, 512),
            0 <= i,
            ip == 512 * i,
            i + greedy_steps(len - ip, 644, 512) == k,
            ip <= input_len,
            offset >= ip,
        decreases input_len - ip,
    {
        if offset >= ip && offset < ip + DS256_INPUT_BYTES {
            proof {
                lemma_greedy_steps(len - ip, 644, 512);
                assert(512 * k >= ip + 512) by (nonlinear_arith)
                    requires
                        k >= i + 1,
                        ip == 512 * i,
                ;
                assert(((offset - ip) as int % 256) == offset as int % 256) by (nonlinear_arith)
                    requires
                        ip == 512 * i,
                        0 <= offset - ip < 256,
                ;
            }
            return non_strict_checks_lane(lane_in_ds256(offset - ip));
        }
        if offset >= ip + DS256_INPUT_BYTES && offset < ip + 2 * DS256_INPUT_BYTES {
            proof {
                lemma_greedy_steps(len - ip, 644, 512);
                assert(512 * k >= ip + 512) by (nonlinear_arith)
                    requires
                        k >= i + 1,
                        ip == 512 * i,
                ;
                assert(((offset - (ip + 256)) as int % 256) == offset as int % 256)
                    by (nonlinear_arith)
                    requires
                        ip == 512 * i,
                        0 <= offset - (ip + 256) < 256,
                ;
            }
            return non_strict_checks_lane(lane_in_ds256(offset - (ip + DS256_INPUT_BYTES)));
        }
        ip += 2 * DS256_INPUT_BYTES;
        proof {
            i = i + 1;
        }
    }
    if input_len.saturating_sub(ip) > DECODE_SINGLE_THRESHOLD {
        if offset >= ip && offset < ip + DS256_INPUT_BYTES {
            proof {
                assert(((offset - ip) as int % 256) == offset as int % 256) by (nonlinear_arith)
                    requires
                        ip == 512 * i,
                        0 <= offset - ip < 256,
                ;
            }
            return non_strict_checks_lane(lane_in_ds256(offset - ip));
        }
        ip += DS256_INPUT_BYTES;
    }
    assert(offset >= ds_input(len));
    while input_len.saturating_sub(ip) > DECODE_TAIL_THRESHOLD
        invariant
            ip <= input_len,
            offset >= ds_input(len),
            len == input_len,
        decreases input_len - ip,
    {
        if offset >= ip && offset < ip + TAIL64_INPUT_BYTES {
            return true;
        }
        ip += TAIL64_INPUT_BYTES;
    }
    true
}

/// Bytes the vector loops write before the scalar tail (or before an error is
/// reported) for an input of `input_len` bytes.
pub fn simd_written_prefix_before_error(input_len: usize) -> (r: usize)
    ensures
        r == simd_consumed(input_len as int) / 4 * 3,
        4 * (r / 3) == simd_consumed(input_len as int),
        r % 48 == 0,
        4 * r <= 3 * input_len,
{
    let ghost len = input_len as int;
    let ghost k = greedy_steps(len, 644, 512);
    proof {
        lemma_greedy_steps(len, 644, 512);
    }
    let mut ip: usize = 0;
    let mut op: usize = 0;
    let ghost mut i: int = 0;
    while input_len.saturating_sub(ip) > DECODE_DOUBLE_THRESHOLD
        invariant
            len == input_len,
            k == greedy_steps(len, 644, 512),
            0 <= i,
            ip == 512 * i,
            op == 384 * i,
            i + greedy_steps(len - ip, 644, 512) == k,
            ip <= input_len,
        decreases input_len - ip,
    {
        ip += 2 * DS256_INPUT_BYTES;
        op += 2 * DS256_OUTPUT_BYTES;
        proof {
            i = i + 1;
        }
    }
    if input_len.saturating_sub(ip) > DECODE_SINGLE_THRESHOLD {
        ip += DS256_INPUT_BYTES;
        op += DS256_OUTPUT_BYTES;
    }
    let ghost ds = ip as int;
    assert(ds == ds_input(len));
    let ghost t = greedy_steps(len - ds, 84, 64);
    let ghost mut j: int = 0;
    while input_len.saturating_sub(ip) > DECODE_TAIL_THRESHOLD
        invariant
            len == input_len,
            ds == ds_input(len),
            t == greedy_steps(len - ds, 84, 64),
            0 <= j,
            ip == ds + 64 * j,
            4 * op == 3 * ip,
            op % 48 == 0,
            j + greedy_steps(len - ip, 84, 64) == t,
            ip <= input_len,
        decreases input_len - ip,
    {
        ip += TAIL64_INPUT_BYTES;
        op += TAIL64_OUTPUT_BYTES;
        proof {
            j = j + 1;
        }
    }
    op
}

/// Output bytes the decoder may have touched before reporting an error: the
/// written prefix plus the 16-byte overhang of its last 64-byte store.
pub fn simd_touched_prefix_before_error(input_len: usize) -> (r: usize)
    ensures
        ({
            let w = simd_consumed(input_len as int) / 4 * 3;
            r == if w == 0 { 0 } else { w + 16 }
        }),
{
    let written = simd_written_prefix_before_error(input_len);
    if written == 0 {
        0
    } else {
        written + 16
    }
}

} // verus!
