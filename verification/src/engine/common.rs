//! Shared low-level helpers for the bounds contracts of the SIMD engines.
//!
//! Positions are byte offsets into one buffer (a cursor and the end it must
//! not cross); the guards compare the distance between them with the number of
//! bytes a kernel step reads or writes.
use vstd::prelude::*;
use super::b64::decoded_len_spec;
use super::scalar::decoded_len_strict;

verus! {

/// Unsigned distance from position `ptr` up to position `end`.
pub open spec fn gap(ptr: int, end: int) -> int {
    if end >= ptr {
        end - ptr
    } else {
        0
    }
}

/// Remaining bytes between position `ptr` and position `end`, as an unsigned
/// distance (zero once `ptr` has passed `end`).
pub fn remaining(ptr: usize, end: usize) -> (r: usize)
    ensures
        r == gap(ptr as int, end as int),
{
    end.saturating_sub(ptr)
}

/// Variant of [`remaining`] for output cursors.
pub fn remaining_mut(ptr: usize, end: usize) -> (r: usize)
    ensures
        r == gap(ptr as int, end as int),
{
    end.saturating_sub(ptr)
}

/// True when at least `n` bytes can be read from `ptr` before `end`.
pub fn can_read(ptr: usize, end: usize, n: usize) -> (r: bool)
    ensures
        r == (gap(ptr as int, end as int) >= n),
{
    remaining(ptr, end) >= n
}

/// True when at least `n` bytes can be written to `ptr` before `end`.
pub fn can_write(ptr: usize, end: usize, n: usize) -> (r: bool)
    ensures
        r == (gap(ptr as int, end as int) >= n),
{
    remaining_mut(ptr, end) >= n
}

/// Both cursors can advance by the requested byte counts without crossing
/// their respective ends.
pub fn can_advance(
    in_ptr: usize,
    in_end: usize,
    in_need: usize,
    out_ptr: usize,
    out_end: usize,
    out_need: usize,
) -> (r: bool)
    ensures
        r == (gap(in_ptr as int, in_end as int) >= in_need && gap(out_ptr as int, out_end as int)
            >= out_need),
{
    can_read(in_ptr, in_end, in_need) && can_write(out_ptr, out_end, out_need)
}

/// DS64 decode guard: room for one 64-byte block plus the 32-byte preload on
/// the input side, and 48 bytes plus the 4-byte store overhang on the output.
pub fn can_process_ds64(in_ptr: usize, safe_end: usize, out_ptr: usize, out_end: usize) -> (r: bool)
    ensures
        r == (gap(in_ptr as int, safe_end as int) >= 96 && gap(out_ptr as int, out_end as int) >= 52),
{
    can_advance(in_ptr, safe_end, 32 + 64, out_ptr, out_end, 48 + 4)
}

/// DS64 decode guard for two 64-byte blocks in one iteration.
pub fn can_process_ds64_double(in_ptr: usize, safe_end: usize, out_ptr: usize, out_end: usize) -> (r:
    bool)
    ensures
        r == (gap(in_ptr as int, safe_end as int) >= 160 && gap(out_ptr as int, out_end as int)
            >= 100),
{
    can_advance(in_ptr, safe_end, 32 + 2 * 64, out_ptr, out_end, 96 + 4)
}

/// 16-byte decode-tail guard (16 input -> 12 output with 4-byte store slack).
pub fn can_process_tail16(in_ptr: usize, safe_end: usize, out_ptr: usize, out_end: usize) -> (r:
    bool)
    ensures
        r == (gap(in_ptr as int, safe_end as int) >= 16 && gap(out_ptr as int, out_end as int) >= 16),
{
    can_advance(in_ptr, safe_end, 16, out_ptr, out_end, 12 + 4)
}

/// Shared decode preflight: strict decoded length plus output capacity check.
pub fn prepare_decode_output(input: &[u8], out: &[u8]) -> (r: Option<usize>)
    ensures
        match decoded_len_spec(input@) {
            Some(n) => if n <= out@.len() {
                r == Some(n as usize)
            } else {
                r is None
            },
            None => r is None,
        },
{
    let out_len = match decoded_len_strict(input) {
        Some(n) => n,
        None => return None,
    };
    if out.len() < out_len {
        return None;
    }
    Some(out_len)
}

/// `(consumed, written)` offsets of two cursors from their base positions.
pub fn decode_offsets(in_ptr: usize, out_ptr: usize, in_base: usize, out_base: usize) -> (r: (
    usize,
    usize,
))
    requires
        in_base <= in_ptr,
        out_base <= out_ptr,
    ensures
        r.0 == in_ptr - in_base,
        r.1 == out_ptr - out_base,
{
    (in_ptr - in_base, out_ptr - out_base)
}

/// Last position of `input` from which 4 bytes can still be read.
pub fn safe_in_end_4(input: &[u8]) -> (r: usize)
    ensures
        r == if input@.len() >= 4 { input@.len() - 4 } else { 0 },
{
    safe_in_end_for_width(input, 4)
}

/// Last position of `input` from which `width` bytes can still be read; the
/// start of `input` when it is shorter than `width`.
pub fn safe_in_end_for_width(input: &[u8], width: usize) -> (r: usize)
    ensures
        r == if input@.len() >= width { input@.len() - width } else { 0 },
{
    if input.len() >= width {
        input.len() - width
    } else {
        0
    }
}

} // verus!
