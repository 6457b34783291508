//! Schedule model of the WebAssembly SIMD128 codec. The decoder follows the
//! same DS64 schedule as the SSSE3 one; the encoder consumes 96-byte main
//! steps, 48-byte drain steps and 12-byte tail steps, each only when its last
//! 16-byte load stays inside the input. The model also states the lane
//! semantics of x86 `pshufb` and WebAssembly `i8x16.swizzle`.
use vstd::prelude::*;
use super::greedy_steps;
use super::lemma_greedy_steps;
use super::ssse3::{ds_input, safe_len, simd_consumed};

verus! {

pub const DS64_INPUT_BYTES: usize = 64;

pub const DS64_OUTPUT_BYTES: usize = 48;

pub const TAIL16_INPUT_BYTES: usize = 16;

pub const TAIL16_OUTPUT_BYTES: usize = 12;

pub const SIMD_PRELOAD_BYTES: usize = 32;

pub const STORE_WIDTH_BYTES: usize = 16;

pub const STORE_OVERHANG_BYTES: usize = 4;

pub const DS64_STORE_OFFSETS: [usize; 4] = [0, 12, 24, 36];

pub const DS64_DOUBLE_STORE_OFFSETS: [usize; 8] = [0, 12, 24, 36, 48, 60, 72, 84];

pub const SINGLE_THRESHOLD: usize = 96;

pub const DOUBLE_THRESHOLD: usize = 160;

pub const TAIL_THRESHOLD: usize = 16;

pub const ENCODE_SIMD_ENTRY_THRESHOLD: usize = 52;

pub const ENCODE_MAIN_INPUT_BYTES: usize = 96;

pub const ENCODE_MAIN_OUTPUT_BYTES: usize = 128;

pub const ENCODE_MAIN_REQUIRED_INPUT: usize = 108;

pub const ENCODE_DRAIN_INPUT_BYTES: usize = 48;

pub const ENCODE_DRAIN_OUTPUT_BYTES: usize = 64;

pub const ENCODE_DRAIN_REQUIRED_INPUT: usize = 60;

pub const ENCODE_TAIL_INPUT_BYTES: usize = 12;

pub const ENCODE_TAIL_OUTPUT_BYTES: usize = 16;

pub const ENCODE_TAIL_REQUIRED_INPUT: usize = 16;

/// Number of main, drain and tail encode steps for an input of `len` bytes.
pub open spec fn encode_steps(len: int) -> (nat, nat, nat) {
    if len < 52 {
        (0, 0, 0)
    } else {
        let a = greedy_steps(len, 107, 96);
        let b = greedy_steps(len - 96 * a, 59, 48);
        let c = greedy_steps(len - 96 * a - 48 * b, 15, 12);
        (a, b, c)
    }
}

/// Input bytes the vector encoder consumes.
pub open spec fn encode_consumed(len: int) -> int {
    let (a, b, c) = encode_steps(len);
    96 * (a as int) + 48 * (b as int) + 12 * (c as int)
}

/// Characters the vector encoder writes.
pub open spec fn encode_written(len: int) -> int {
    let (a, b, c) = encode_steps(len);
    128 * (a as int) + 64 * (b as int) + 16 * (c as int)
}

/// x86 `pshufb` lane selection: a control byte with its top bit set selects
/// zero, any other selects the lane of its low nibble.
pub fn pshufb_select_index(ctrl: u8) -> (r: Option<usize>)
    ensures
        ctrl >= 128 ==> r is None,
        ctrl < 128 ==> r == Some((ctrl % 16) as usize),
{
    assert((ctrl & 0x80 != 0) == (ctrl >= 128) && (ctrl & 0x0f) == ctrl % 16) by (bit_vector);
    if ctrl & 0x80 != 0 {
        None
    } else {
        Some((ctrl & 0x0f) as usize)
    }
}

/// WebAssembly `i8x16.swizzle` lane selection: control bytes of 16 and more
/// select zero.
pub fn wasm_swizzle_select_index(ctrl: u8) -> (r: Option<usize>)
    ensures
        ctrl >= 16 ==> r is None,
        ctrl < 16 ==> r == Some(ctrl as usize),
{
    if ctrl < 16 {
        Some(ctrl as usize)
    } else {
        None
    }
}

/// Byte that `pshufb` selects from `table` for the control byte `ctrl`.
pub fn pshufb_lookup_byte(table: [u8; 16], ctrl: u8) -> (r: u8)
    ensures
        ctrl >= 128 ==> r == 0,
        ctrl < 128 ==> r == table@[(ctrl % 16) as int],
{
    match pshufb_select_index(ctrl) {
        Some(idx) => table[idx],
        None => 0,
    }
}

/// Non-strict mode validates only the first 16-byte vector of a DS64 block.
pub fn non_strict_checks_lane(lane: usize) -> (r: bool)
    ensures
        r == (lane == 0),
{
    lane == 0
}

/// Index of the 16-byte vector of a DS64 block that holds `byte_offset`.
pub fn lane_in_ds64(byte_offset: usize) -> (r: usize)
    ensures
        r == (byte_offset % 64) / 16,
{
    (byte_offset % DS64_INPUT_BYTES) / TAIL16_INPUT_BYTES
}

/// Whether the non-strict decoder validates input byte `offset` of an input
/// of `input_len` bytes (the DS64 schedule of the SSSE3 model).
pub fn non_strict_checks_offset(input_len: usize, offset: usize) -> (r: bool)
    requires
        input_len <= usize::MAX - 256,
    ensures
        r == (safe_len(input_len as int) >= 32 && offset < ds_input(input_len as int) ==> (offset
            % 64) < 16),
{
    let ghost len = input_len as int;
    let safe_end = input_len.saturating_sub(STORE_OVERHANG_BYTES);
    let ghost safe = safe_end as int;
    let mut ip: usize = 0;
    if ip + SIMD_PRELOAD_BYTES > safe_end {
        return true;
    }
    let ghost k = greedy_steps(safe, 159, 128);
    proof {
        lemma_greedy_steps(safe, 159, 128);
    }
    let ghost mut i: int = 0;
    while ip + DOUBLE_THRESHOLD <= safe_end
        invariant
            len == input_len,
            input_len <= usize::MAX - 256,
            safe == safe_end,
            safe == safe_len(len),
            safe >= 32,
            k == greedy_steps(safe, 159, 128),
            0 <= i,
            ip == 128 * i,
            i + greedy_steps(safe - ip, 159, 128) == k,
            ip <= safe_end,
            offset >= ip,
        decreases safe_end - ip,
    {
        if offset >= ip && offset < ip + DS64_INPUT_BYTES {
            proof {
                lemma_greedy_steps(safe - ip, 159, 128);
                assert(128 * k >= ip + 128) by (nonlinear_arith)
                    requires
                        k >= i + 1,
                        ip == 128 * i,
                ;
                assert(((offset - ip) as int % 64) == offset as int % 64) by (nonlinear_arith)
                    requires
                        ip == 128 * i,
                        0 <= offset - ip < 64,
                ;
            }
            return non_strict_checks_lane(lane_in_ds64(offset - ip));
        }
        if offset >= ip + DS64_INPUT_BYTES && offset < ip + 2 * DS64_INPUT_BYTES {
            proof {
                lemma_greedy_steps(safe - ip, 159, 128);
                assert(128 * k >= ip + 128) by (nonlinear_arith)
                    requires
                        k >= i + 1,
                        ip == 128 * i,
                ;
                assert(((offset - (ip + 64)) as int % 64) == offset as int % 64)
                    by (nonlinear_arith)
                    requires
                        ip == 128 * i,
                        0 <= offset - (ip + 64) < 64,
                ;
            }
            return non_strict_checks_lane(lane_in_ds64(offset - (ip + DS64_INPUT_BYTES)));
        }
        ip += 2 * DS64_INPUT_BYTES;
        proof {
            i = i + 1;
        }
    }
    let ghost p1 = ip as int;
    let ghost m = greedy_steps(safe - p1, 95, 64);
    proof {
        lemma_greedy_steps(safe - p1, 95, 64);
    }
    let ghost mut i2: int = 0;
    while ip + SINGLE_THRESHOLD <= safe_end
        invariant
            len == input_len,
            input_len <= usize::MAX - 256,
            safe == safe_end,
            safe == safe_len(len),
            safe >= 32,
            k == greedy_steps(safe, 159, 128),
            p1 == 128 * k,
            m == greedy_steps(safe - p1, 95, 64),
            0 <= i2,
            ip == p1 + 64 * i2,
            i2 + greedy_steps(safe - ip, 95, 64) == m,
            ip <= safe_end,
            offset >= ip,
        decreases safe_end - ip,
    {
        if offset >= ip && offset < ip + DS64_INPUT_BYTES {
            proof {
                lemma_greedy_steps(safe - ip, 95, 64);
                assert(p1 + 64 * m >= ip + 64) by (nonlinear_arith)
                    requires
                        m >= i2 + 1,
                        ip == p1 + 64 * i2,
                ;
                assert(((offset - ip) as int % 64) == offset as int % 64) by (nonlinear_arith)
                    requires
                        ip == 128 * k + 64 * i2,
                        0 <= offset - ip < 64,
                ;
            }
            return non_strict_checks_lane(lane_in_ds64(offset - ip));
        }
        ip += DS64_INPUT_BYTES;
        proof {
            i2 = i2 + 1;
        }
    }
    assert(offset >= ds_input(len));
    while ip + TAIL_THRESHOLD <= safe_end
        invariant
            ip <= safe_end,
            safe_end <= input_len,
            input_len <= usize::MAX - 256,
            len == input_len,
            offset >= ds_input(len),
        decreases safe_end - ip,
    {
        if offset >= ip && offset < ip + TAIL16_INPUT_BYTES {
            return true;
        }
        ip += TAIL16_INPUT_BYTES;
    }
    true
}

/// Bytes the vector decode loops write before the scalar tail (or before an
/// error is reported) for an input of `input_len` bytes.
pub fn simd_written_prefix_before_error(input_len: usize) -> (r: usize)
    requires
        input_len <= usize::MAX - 256,
    ensures
        r == simd_consumed(input_len as int) / 4 * 3,
        4 * (r / 3) == simd_consumed(input_len as int),
        r % 12 == 0,
        4 * r <= 3 * input_len,
{
    let ghost len = input_len as int;
    let safe_end = input_len.saturating_sub(STORE_OVERHANG_BYTES);
    let ghost safe = safe_end as int;
    let mut ip: usize = 0;
    let mut op: usize = 0;
    if ip + SIMD_PRELOAD_BYTES > safe_end {
        return 0;
    }
    let ghost k = greedy_steps(safe, 159, 128);
    proof {
        lemma_greedy_steps(safe, 159, 128);
    }
    let ghost mut i: int = 0;
    while ip + DOUBLE_THRESHOLD <= safe_end
        invariant
            len == input_len,
            input_len <= usize::MAX - 256,
            safe == safe_end,
            safe == safe_len(len),
            k == greedy_steps(safe, 159, 128),
            0 <= i,
            ip == 128 * i,
            op == 96 * i,
            i + greedy_steps(safe - ip, 159, 128) == k,
            ip <= safe_end,
        decreases safe_end - ip,
    {
        ip += 2 * DS64_INPUT_BYTES;
        op += 2 * DS64_OUTPUT_BYTES;
        proof {
            i = i + 1;
        }
    }
    let ghost p1 = ip as int;
    let ghost m = greedy_steps(safe - p1, 95, 64);
    proof {
        lemma_greedy_steps(safe - p1, 95, 64);
    }
    let ghost mut i2: int = 0;
    while ip + SINGLE_THRESHOLD <= safe_end
        invariant
            len == input_len,
            input_len <= usize::MAX - 256,
            safe == safe_end,
            safe_end <= input_len,
            p1 == 128 * k,
            m == greedy_steps(safe - p1, 95, 64),
            0 <= i2,
            ip == p1 + 64 * i2,
            4 * op == 3 * ip,
            op % 12 == 0,
            i2 + greedy_steps(safe - ip, 95, 64) == m,
            ip <= safe_end,
        decreases safe_end - ip,
    {
        ip += DS64_INPUT_BYTES;
        op += DS64_OUTPUT_BYTES;
        proof {
            i2 = i2 + 1;
        }
    }
    let ghost ds = ip as int;
    assert(ds == ds_input(len));
    let ghost t = greedy_steps(safe - ds, 15, 16);
    let ghost mut j: int = 0;
    while ip + TAIL_THRESHOLD <= safe_end
        invariant
            len == input_len,
            input_len <= usize::MAX - 256,
            safe == safe_end,
            safe_end <= input_len,
            ds == ds_input(len),
            t == greedy_steps(safe - ds, 15, 16),
            0 <= j,
            ip == ds + 16 * j,
            4 * op == 3 * ip,
            op % 12 == 0,
            j + greedy_steps(safe - ip, 15, 16) == t,
            ip <= safe_end,
        decreases safe_end - ip,
    {
        ip += TAIL16_INPUT_BYTES;
        op += TAIL16_OUTPUT_BYTES;
        proof {
            j = j + 1;
        }
    }
    op
}

/// Output bytes the decoder may have touched before reporting an error: the
/// written prefix plus the overhang of its last 16-byte store.
pub fn simd_touched_prefix_before_error(input_len: usize) -> (r: usize)
    requires
        input_len <= usize::MAX - 256,
    ensures
        ({
            let w = simd_consumed(input_len as int) / 4 * 3;
            r == if w == 0 { 0 } else { w + 4 }
        }),
{
    let written = simd_written_prefix_before_error(input_len);
    if written == 0 {
        0
    } else {
        written + STORE_OVERHANG_BYTES
    }
}

/// The 96-byte main encode step fits in `remaining_input` bytes.
pub fn can_run_encode_main(remaining_input: usize) -> (r: bool)
    ensures
        r == (remaining_input >= 108),
{
    remaining_input >= ENCODE_MAIN_REQUIRED_INPUT
}

/// The 48-byte drain encode step fits in `remaining_input` bytes.
pub fn can_run_encode_drain(remaining_input: usize) -> (r: bool)
    ensures
        r == (remaining_input >= 60),
{
    remaining_input >= ENCODE_DRAIN_REQUIRED_INPUT
}

/// The 12-byte tail encode step fits in `remaining_input` bytes.
pub fn can_run_encode_tail(remaining_input: usize) -> (r: bool)
    ensures
        r == (remaining_input >= 16),
{
    remaining_input >= ENCODE_TAIL_REQUIRED_INPUT
}

/// Input bytes the vector encoder consumes for an input of `input_len` bytes.
pub fn encode_prefix_input_len(input_len: usize) -> (r: usize)
    ensures
        r == encode_consumed(input_len as int),
        r <= input_len,
        r % 12 == 0,
{
    if input_len < ENCODE_SIMD_ENTRY_THRESHOLD {
        return 0;
    }
    let ghost len = input_len as int;
    let ghost a = greedy_steps(len, 107, 96);
    proof {
        lemma_greedy_steps(len, 107, 96);
    }
    let mut remaining = input_len;
    let mut consumed: usize = 0;
    let ghost mut i: int = 0;
    while can_run_encode_main(remaining)
        invariant
            len == input_len,
            a == greedy_steps(len, 107, 96),
            0 <= i,
            consumed == 96 * i,
            remaining == input_len - consumed,
            i + greedy_steps(remaining as int, 107, 96) == a,
        decreases remaining,
    {
        remaining -= ENCODE_MAIN_INPUT_BYTES;
        consumed += ENCODE_MAIN_INPUT_BYTES;
        proof {
            i = i + 1;
        }
    }
    let ghost c1 = consumed as int;
    let ghost b = greedy_steps(len - c1, 59, 48);
    proof {
        lemma_greedy_steps(len - c1, 59, 48);
    }
    let ghost mut i2: int = 0;
    while can_run_encode_drain(remaining)
        invariant
            len == input_len,
            c1 == 96 * a,
            b == greedy_steps(len - c1, 59, 48),
            0 <= i2,
            consumed == c1 + 48 * i2,
            remaining == input_len - consumed,
            i2 + greedy_steps(remaining as int, 59, 48) == b,
        decreases remaining,
    {
        remaining -= ENCODE_DRAIN_INPUT_BYTES;
        consumed += ENCODE_DRAIN_INPUT_BYTES;
        proof {
            i2 = i2 + 1;
        }
    }
    let ghost c2 = consumed as int;
    let ghost c = greedy_steps(len - c2, 15, 12);
    proof {
        lemma_greedy_steps(len - c2, 15, 12);
    }
    let ghost mut i3: int = 0;
    while can_run_encode_tail(remaining)
        invariant
            len == input_len,
            c1 == 96 * a,
            c2 == c1 + 48 * b,
            c == greedy_steps(len - c2, 15, 12),
            0 <= i3,
            consumed == c2 + 12 * i3,
            remaining == input_len - consumed,
            i3 + greedy_steps(remaining as int, 15, 12) == c,
        decreases remaining,
    {
        remaining -= ENCODE_TAIL_INPUT_BYTES;
        consumed += ENCODE_TAIL_INPUT_BYTES;
        proof {
            i3 = i3 + 1;
        }
    }
    consumed
}

/// Characters the vector encoder writes for an input of `input_len` bytes.
pub fn encode_prefix_output_len(input_len: usize) -> (r: usize)
    requires
        encode_written(input_len as int) <= usize::MAX,
    ensures
        r == encode_written(input_len as int),
        3 * r == 4 * encode_consumed(input_len as int),
{
    if input_len < ENCODE_SIMD_ENTRY_THRESHOLD {
        return 0;
    }
    let ghost len = input_len as int;
    let ghost a = greedy_steps(len, 107, 96);
    proof {
        lemma_greedy_steps(len, 107, 96);
    }
    let mut remaining = input_len;
    let mut written: usize = 0;
    let ghost mut i: int = 0;
    while can_run_encode_main(remaining)
        invariant
            len == input_len,
            encode_written(input_len as int) <= usize::MAX,
            input_len >= 52,
            a == greedy_steps(len, 107, 96),
            0 <= i,
            written == 128 * i,
            remaining == input_len - 96 * i,
            i + greedy_steps(remaining as int, 107, 96) == a,
        decreases remaining,
    {
        remaining -= ENCODE_MAIN_INPUT_BYTES;
        written += ENCODE_MAIN_OUTPUT_BYTES;
        proof {
            i = i + 1;
        }
    }
    let ghost c1 = 96 * a;
    let ghost b = greedy_steps(len - c1, 59, 48);
    proof {
        lemma_greedy_steps(len - c1, 59, 48);
    }
    let ghost mut i2: int = 0;
    while can_run_encode_drain(remaining)
        invariant
            len == input_len,
            encode_written(input_len as int) <= usize::MAX,
            input_len >= 52,
            c1 == 96 * a,
            b == greedy_steps(len - c1, 59, 48),
            encode_written(len) == 128 * a + 64 * b + 16 * greedy_steps(len - c1 - 48 * b, 15, 12),
            0 <= i2,
            written == 128 * a + 64 * i2,
            remaining == input_len - c1 - 48 * i2,
            i2 + greedy_steps(remaining as int, 59, 48) == b,
        decreases remaining,
    {
        proof {
            assert(greedy_steps(remaining as int, 59, 48) >= 1);
        }
        remaining -= ENCODE_DRAIN_INPUT_BYTES;
        written += ENCODE_DRAIN_OUTPUT_BYTES;
        proof {
            i2 = i2 + 1;
        }
    }
    let ghost c2 = c1 + 48 * b;
    let ghost c = greedy_steps(len - c2, 15, 12);
    proof {
        lemma_greedy_steps(len - c2, 15, 12);
    }
    let ghost mut i3: int = 0;
    while can_run_encode_tail(remaining)
        invariant
            len == input_len,
            encode_written(input_len as int) <= usize::MAX,
            input_len >= 52,
            c1 == 96 * a,
            c2 == c1 + 48 * b,
            c == greedy_steps(len - c2, 15, 12),
            encode_written(len) == 128 * a + 64 * b + 16 * c,
            0 <= i3,
            written == 128 * a + 64 * b + 16 * i3,
            remaining == input_len - c2 - 12 * i3,
            i3 + greedy_steps(remaining as int, 15, 12) == c,
        decreases remaining,
    {
        proof {
            assert(greedy_steps(remaining as int, 15, 12) >= 1);
        }
        remaining -= ENCODE_TAIL_INPUT_BYTES;
        written += ENCODE_TAIL_OUTPUT_BYTES;
        proof {
            i3 = i3 + 1;
        }
    }
    written
}

} // verus!
