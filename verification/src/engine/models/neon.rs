//! Schedule model of the NEON codec: decode groups of four 64-byte blocks
//! (256 input bytes -> 192 output bytes), then single 64-byte blocks; encode
//! pairs of 48-byte blocks, then single blocks.
use vstd::prelude::*;
use super::greedy_steps;
use super::lemma_greedy_steps;

verus! {

pub const DECODE_BLOCK_INPUT_BYTES: usize = 64;

pub const DECODE_BLOCK_OUTPUT_BYTES: usize = 48;

pub const DECODE_GROUP_INPUT_BYTES: usize = 256;

pub const DECODE_GROUP_OUTPUT_BYTES: usize = 192;

pub const ENCODE_BLOCK_INPUT_BYTES: usize = 48;

pub const ENCODE_BLOCK_OUTPUT_BYTES: usize = 64;

pub const ENCODE_PAIR_INPUT_BYTES: usize = 96;

pub const ENCODE_PAIR_OUTPUT_BYTES: usize = 128;

/// Input bytes of the decode groups for an input of `len` bytes.
pub open spec fn group_input(len: int) -> int {
    256 * (greedy_steps(len, 256, 256) as int)
}

/// Input bytes consumed by the vector decode loops.
pub open spec fn simd_consumed(len: int) -> int {
    group_input(len) + 64 * greedy_steps(len - group_input(len), 64, 64)
}

/// Non-strict mode validates only the last 64-byte vector of a group.
pub fn non_strict_checks_lane(lane: usize) -> (r: bool)
    ensures
        r == (lane == 3),
{
    lane == 3
}

/// Index of the 64-byte block of a decode group that holds `byte_offset`.
pub fn lane_in_dn256(byte_offset: usize) -> (r: usize)
    ensures
        r == (byte_offset % 256) / 64,
{
    (byte_offset % DECODE_GROUP_INPUT_BYTES) / DECODE_BLOCK_INPUT_BYTES
}

/// Whether the non-strict decoder validates input byte `offset` of an input
/// of `input_len` bytes: inside the 256-byte groups only the last 64-byte
/// block is validated; every other byte is.
pub fn non_strict_checks_offset(input_len: usize, offset: usize) -> (r: bool)
    ensures
        r == (offset < group_input(input_len as int) ==> (offset % 256) / 64 == 3),
{
    let ghost len = input_len as int;
    let ghost k = greedy_steps(len, 256, 256);
    proof {
        lemma_greedy_steps(len, 256, 256);
    }
    let mut ip: usize = 0;
    let ghost mut i: int = 0;
    while input_len.saturating_sub(ip) > DECODE_GROUP_INPUT_BYTES
        invariant
            len == input_len,
            k == greedy_steps(len, 256, 256),
            0 <= i,
            ip == 256 * i,
            i + greedy_steps(len - ip, 256, 256) == k,
            ip <= input_len,
            offset >= ip,
        decreases input_len - ip,
    {
        if offset >= ip && offset < ip + DECODE_GROUP_INPUT_BYTES {
            proof {
                lemma_greedy_steps(len - ip, 256, 256);
                assert(256 * k >= ip + 256) by (nonlinear_arith)
                    requires
                        k >= i + 1,
                        ip == 256 * i,
                ;
                assert(((offset - ip) as int % 256) == offset as int % 256) by (nonlinear_arith)
                    requires
                        ip == 256 * i,
                        0 <= offset - ip < 256,
                ;
            }
            return non_strict_checks_lane(lane_in_dn256(offset - ip));
        }
        ip += DECODE_GROUP_INPUT_BYTES;
        proof {
            i = i + 1;
        }
    }
    assert(offset >= group_input(len));
    while input_len.saturating_sub(ip) > DECODE_BLOCK_INPUT_BYTES
        invariant
            ip <= input_len,
            offset >= group_input(len),
            len == input_len,
        decreases input_len - ip,
    {
        if offset >= ip && offset < ip + DECODE_BLOCK_INPUT_BYTES {
            return true;
        }
        ip += DECODE_BLOCK_INPUT_BYTES;
    }
    true
}

/// Bytes the vector decode loops write before the scalar tail (or before an
/// error is reported) for an input of `input_len` bytes.
pub fn simd_written_prefix_before_error(input_len: usize) -> (r: usize)
    ensures
        r == simd_consumed(input_len as int) / 4 * 3,
        4 * (r / 3) == simd_consumed(input_len as int),
        r % 48 == 0,
        4 * r <= 3 * input_len,
{
    let ghost len = input_len as int;
    let ghost k = greedy_steps(len, 256, 256);
    proof {
        lemma_greedy_steps(len, 256, 256);
    }
    let mut ip: usize = 0;
    let mut op: usize = 0;
    let ghost mut i: int = 0;
    while input_len.saturating_sub(ip) > DECODE_GROUP_INPUT_BYTES
        invariant
            len == input_len,
            k == greedy_steps(len, 256, 256),
            0 <= i,
            ip == 256 * i,
            op == 192 * i,
            i + greedy_steps(len - ip, 256, 256) == k,
            ip <= input_len,
        decreases input_len - ip,
    {
        ip += DECODE_GROUP_INPUT_BYTES;
        op += DECODE_GROUP_OUTPUT_BYTES;
        proof {
            i = i + 1;
        }
    }
    let ghost ds = ip as int;
    assert(ds == group_input(len));
    let ghost t = greedy_steps(len - ds, 64, 64);
    let ghost mut j: int = 0;
    while input_len.saturating_sub(ip) > DECODE_BLOCK_INPUT_BYTES
        invariant
            len == input_len,
            ds == group_input(len),
            t == greedy_steps(len - ds, 64, 64),
            0 <= j,
            ip == ds + 64 * j,
            4 * op == 3 * ip,
            op % 48 == 0,
            j + greedy_steps(len - ip, 64, 64) == t,
            ip <= input_len,
        decreases input_len - ip,
    {
        ip += DECODE_BLOCK_INPUT_BYTES;
        op += DECODE_BLOCK_OUTPUT_BYTES;
        proof {
            j = j + 1;
        }
    }
    op
}

/// Output bytes the decoder may have touched before reporting an error; the
/// NEON stores are exact, so this is the written prefix.
pub fn simd_touched_prefix_before_error(input_len: usize) -> (r: usize)
    ensures
        r == simd_consumed(input_len as int) / 4 * 3,
{
    simd_written_prefix_before_error(input_len)
}

/// A pair of 48-byte encode blocks fits in `remaining_input` bytes.
pub fn can_run_encode_pair(remaining_input: usize) -> (r: bool)
    ensures
        r == (remaining_input >= 96),
{
    remaining_input >= ENCODE_PAIR_INPUT_BYTES
}

/// One 48-byte encode block fits in `remaining_input` bytes.
pub fn can_run_encode_block(remaining_input: usize) -> (r: bool)
    ensures
        r == (remaining_input >= 48),
{
    remaining_input >= ENCODE_BLOCK_INPUT_BYTES
}

/// Input bytes the vector encoder consumes: whole pairs of 48-byte blocks,
/// then at most one more whole block.
pub fn encode_prefix_input_len(input_len: usize) -> (r: usize)
    ensures
        r == (input_len / 96) * 96 + ((input_len - (input_len / 96) * 96) / 48) * 48,
        r == (input_len / 48) * 48,
{
    let pair_prefix = (input_len / ENCODE_PAIR_INPUT_BYTES) * ENCODE_PAIR_INPUT_BYTES;
    let tail = input_len - pair_prefix;
    pair_prefix + (tail / ENCODE_BLOCK_INPUT_BYTES) * ENCODE_BLOCK_INPUT_BYTES
}

/// Characters the vector encoder writes: four per three consumed bytes.
pub fn encode_prefix_output_len(input_len: usize) -> (r: usize)
    requires
        (input_len / 48) * 64 <= usize::MAX,
    ensures
        r == (input_len / 48) * 64,
{
    (encode_prefix_input_len(input_len) / 3) * 4
}

} // verus!
