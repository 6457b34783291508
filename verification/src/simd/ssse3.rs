//! SSSE3 codec of the first SIMD API: a strict SSSE3 decode kernel without
//! preload (64-byte blocks, then 16-byte vectors, every vector validated)
//! and the SSSE3 encode kernel.
use vstd::prelude::*;
use crate::engine::b64::{decodable, decoded_bytes, decoded_len_spec, enc_len, encode_spec};
use crate::engine::common::safe_in_end_4;
use crate::engine::lanes::{range_valid, CheckMode, LaneDecoder};
use crate::engine::scalar::decoded_len_strict;
use crate::engine::vector::{
    lemma_untouched_step, loop_end, untouched_from,
    all_set, body_end, decode_block, decode_kernel_ok, encode_kernel_ok, lemma_kernel_reject,
    lemma_kernel_step, lemma_step_room, quads_decoded,
};
use super::Base64Decoder;

verus! {

/// SSSE3 codec.
pub struct Ssse3Decoder;

impl Ssse3Decoder {
    /// Encode raw bytes to Base64: the SSSE3 kernel, then the scalar tail.
    pub fn encode_to_slice(input: &[u8], out: &mut [u8]) -> (r: usize)
        requires
            enc_len(input@.len() as int) <= old(out)@.len(),
        ensures
            r == enc_len(input@.len() as int),
            final(out)@.len() == old(out)@.len(),
            final(out)@.subrange(0, r as int) == encode_spec(input@),
    {
        let (consumed, written) = encode_base64_ssse3(input, out);
        crate::engine::finish_encode(input, out, consumed, written)
    }

    /// Decode Base64 into `out`: the SSSE3 kernel, then the scalar tail.
    /// Exactly the decodable inputs whose bytes fit in `out` succeed.
    pub fn decode_to_slice(input: &[u8], out: &mut [u8]) -> (r: Option<usize>)
        ensures
            final(out)@.len() == old(out)@.len(),
            decodable(input@) && decoded_len_spec(input@)->0 <= old(out)@.len() ==> {
                &&& r == Some(decoded_len_spec(input@)->0 as usize)
                &&& final(out)@.subrange(0, decoded_len_spec(input@)->0) == decoded_bytes(input@)
            },
            r matches Some(w) ==> decodable(input@) && decoded_len_spec(input@) == Some(w as int)
                && w <= old(out)@.len(),
    {
        let kernel = decode_base64_ssse3(input, out);
        crate::engine::finish_decode(input, out, kernel, true)
    }
}

impl Base64Decoder for Ssse3Decoder {
    open spec fn validates_all(&self) -> bool {
        true
    }

    fn decode(&self, input: &[u8]) -> (r: Option<Vec<u8>>) {
        let out_len = match decoded_len_strict(input) {
            Some(n) => n,
            None => return None,
        };
        let mut out = vec![0u8; out_len];
        match Self::decode_to_slice(input, out.as_mut_slice()) {
            Some(_) => {
                proof {
                    if decodable(input@) {
                        assert(out@ =~= out@.subrange(0, out_len as int));
                    }
                }
                Some(out)
            },
            None => None,
        }
    }

    fn encode(&self, input: &[u8]) -> (r: Vec<u8>) {
        let out_len = crate::engine::scalar::encoded_len(input.len());
        let mut out = vec![0u8; out_len];
        let written = Self::encode_to_slice(input, out.as_mut_slice());
        assert(out@ =~= out@.subrange(0, written as int));
        out
    }
}

/// Input bytes the strict kernel consumes for `len` characters: nothing
/// when fewer than 32 lie before the last quad; else every whole 16-byte
/// vector before it.
pub open spec fn strict_consumed(len: int) -> int {
    if body_end(len) < 32 {
        0
    } else {
        body_end(len) / 16 * 16
    }
}

/// The output holds the bytes of all the kernel's steps, plus the 4-byte
/// store overhang.
pub open spec fn strict_roomy(len: int, out_len: int) -> bool {
    out_len >= strict_consumed(len) / 4 * 3 + 4
}

/// Where the strict kernel's loops stop for `len` characters and an output
/// of `out_len` bytes, following their guards: nothing unless 32 characters
/// lie before the last quad and 16 output bytes are free; then 64-byte blocks
/// while 64 characters and 52 output bytes remain, and 16-byte vectors while
/// 16 and 16 remain.
pub open spec fn strict_loops_end(len: int, out_len: int) -> int {
    let safe = body_end(len);
    if !(safe >= 32 && out_len >= 16) {
        0
    } else {
        loop_end(loop_end(0, safe, 63, 64, out_len, 52), safe, 15, 16, out_len, 16)
    }
}

/// Strict SSSE3 decode kernel: when 32 characters before the last quad and
/// 16 output bytes are available, 64-byte blocks while 64 characters and 52
/// output bytes remain, then 16-byte vectors while 16 characters and 16
/// output bytes remain; every vector is validated. Returns
/// `(consumed, written)`, or `None` when a vector holds a byte outside the
/// alphabet. The kernel does not align the output address first: its result
/// depends only on the input and the output length.
pub fn decode_base64_ssse3(in_data: &[u8], out_data: &mut [u8]) -> (r: Option<(usize, usize)>)
    ensures
        final(out_data)@.len() == old(out_data)@.len(),
        decode_kernel_ok(in_data@, final(out_data)@, r, true),
        r matches Some((c, w)) ==> untouched_from(final(out_data)@, old(out_data)@, w as int),
        strict_roomy(in_data@.len() as int, old(out_data)@.len() as int) ==> {
            &&& r is None <==> !range_valid(in_data@, 0, strict_consumed(in_data@.len() as int))
            &&& r matches Some((c, w)) ==> c == strict_consumed(in_data@.len() as int)
            &&& untouched_from(final(out_data)@, old(out_data)@, strict_consumed(in_data@.len() as int) / 4 * 3)
        },
        r is None <==> !range_valid(in_data@, 0, strict_loops_end(in_data@.len() as int, old(out_data)@.len() as int)),
        r matches Some((c, w)) ==> c == strict_loops_end(in_data@.len() as int, old(out_data)@.len() as int),
        untouched_from(final(out_data)@, old(out_data)@, strict_loops_end(in_data@.len() as int, old(out_data)@.len() as int) / 4 * 3),
        quads_decoded(final(out_data)@, in_data@, 0, strict_loops_end(in_data@.len() as int, old(out_data)@.len() as int) / 4),
{
    let ghost s = in_data@;
    let n = in_data.len();
    let olen = out_data.len();
    let safe_end = safe_in_end_4(in_data);
    let ghost len = n as int;
    let ghost roomy = strict_roomy(len, olen as int);
    let ghost consumed = strict_consumed(len);
    let ghost ol = olen as int;
    let ghost safe = body_end(len);
    let ghost d_s = loop_end(0, safe, 63, 64, ol, 52);
    let ghost end_s = loop_end(d_s, safe, 15, 16, ol, 16);
    proof {
        assert(quads_decoded(out_data@, s, 0, 0));
    }
    if safe_end < 32 || olen < 16 {
        proof {
            if roomy && safe_end >= 32 {
                assert(consumed >= 32) by (nonlinear_arith)
                    requires
                        safe_end >= 32,
                        consumed == safe_end / 16 * 16,
                ;
            }
        }
        return Some((0, 0));
    }
    let kind = LaneDecoder::HashMadd;
    let mode = CheckMode::Full;
    let block_checks: [bool; 4] = [true, true, true, true];
    let tail_checks: [bool; 1] = [true];
    proof {
        assert(all_set(block_checks@));
        assert(all_set(tail_checks@));
    }
    let mut ip: usize = 0;
    let mut op: usize = 0;
    let mut bad = false;
    while safe_end - ip >= 64 && olen - op >= 48 + 4
        invariant
            s == in_data@,
            kind == LaneDecoder::HashMadd,
            mode == CheckMode::Full,
            n == s.len(),
            safe_end == body_end(n as int),
            olen == out_data@.len(),
            out_data@.len() == old(out_data)@.len(),
            ip % 4 == 0,
            op == ip / 4 * 3,
            untouched_from(out_data@, old(out_data)@, op as int),
            ip <= safe_end,
            op <= olen,
            block_checks@.len() == 4,
            all_set(block_checks@),
            quads_decoded(out_data@, s, 0, (ip / 4) as int),
            range_valid(s, 0, ip as int) ==> !bad,
            !bad ==> range_valid(s, 0, ip as int),
            len == n,
            ip % 16 == 0,
            safe_end >= 32,
            roomy == strict_roomy(len, olen as int),
            consumed == strict_consumed(len),
            ol == olen,
            safe == safe_end,
            loop_end(ip as int, safe, 63, 64, ol, 52) == d_s,
        decreases safe_end - ip,
    {
        let ghost p0 = out_data@;
        let b1 = decode_block(in_data, ip / 4, 4, block_checks.as_slice(), out_data, &kind, &mode);
        proof {
            lemma_kernel_step(s, p0, out_data@, ip as int, 64, bad, b1, true);
                lemma_untouched_step(old(out_data)@, p0, out_data@, 3 * ((ip) as int / 4), 3 * ((ip + 64) as int / 4));
        }
        bad = bad || b1;
        ip = ip + 64;
        op = op + 48;
    }
    proof {
        if roomy && safe_end - ip >= 64 {
            assert(ip + 64 <= consumed) by (nonlinear_arith)
                requires
                    ip % 16 == 0,
                    ip + 64 <= safe_end,
                    consumed == safe_end / 16 * 16,
            ;
            lemma_step_room(consumed, ip as int, 64, olen as int, 4);
        }
    }
    while safe_end - ip >= 16 && olen - op >= 12 + 4
        invariant
            s == in_data@,
            kind == LaneDecoder::HashMadd,
            mode == CheckMode::Full,
            n == s.len(),
            safe_end == body_end(n as int),
            olen == out_data@.len(),
            out_data@.len() == old(out_data)@.len(),
            ip % 4 == 0,
            op == ip / 4 * 3,
            untouched_from(out_data@, old(out_data)@, op as int),
            ip <= safe_end,
            op <= olen,
            tail_checks@.len() == 1,
            all_set(tail_checks@),
            quads_decoded(out_data@, s, 0, (ip / 4) as int),
            range_valid(s, 0, ip as int) ==> !bad,
            !bad ==> range_valid(s, 0, ip as int),
            len == n,
            ip % 16 == 0,
            safe_end >= 32,
            roomy == strict_roomy(len, olen as int),
            consumed == strict_consumed(len),
            ol == olen,
            safe == safe_end,
            loop_end(ip as int, safe, 15, 16, ol, 16) == end_s,
            ip >= d_s,
        decreases safe_end - ip,
    {
        let ghost p0 = out_data@;
        let b1 = decode_block(in_data, ip / 4, 4, tail_checks.as_slice(), out_data, &kind, &mode);
        proof {
            lemma_kernel_step(s, p0, out_data@, ip as int, 16, bad, b1, true);
                lemma_untouched_step(old(out_data)@, p0, out_data@, 3 * ((ip) as int / 4), 3 * ((ip + 16) as int / 4));
        }
        bad = bad || b1;
        ip = ip + 16;
        op = op + 12;
    }
    proof {
        if roomy {
            if safe_end - ip >= 16 {
                assert(ip + 16 <= consumed) by (nonlinear_arith)
                    requires
                        ip % 16 == 0,
                        ip + 16 <= safe_end,
                        consumed == safe_end / 16 * 16,
                ;
                lemma_step_room(consumed, ip as int, 16, olen as int, 4);
            }
            assert(ip == consumed) by (nonlinear_arith)
                requires
                    ip % 16 == 0,
                    ip <= safe_end,
                    safe_end - ip < 16,
                    consumed == safe_end / 16 * 16,
            ;
        }
    }
    proof {
        assert(ip == end_s);
    }
    if bad {
        proof {
            lemma_kernel_reject(s, ip as int, bad);
        }
        None
    } else {
        Some((ip, op))
    }
}

/// The SSSE3 encode kernel (see
/// [`crate::engine::ssse3::encode_base64_ssse3`]).
pub fn encode_base64_ssse3(in_data: &[u8], out_data: &mut [u8]) -> (r: (usize, usize))
    requires
        enc_len(in_data@.len() as int) <= old(out_data)@.len(),
    ensures
        final(out_data)@.len() == old(out_data)@.len(),
        encode_kernel_ok(in_data@, final(out_data)@, r),
        crate::engine::vector::untouched_from(final(out_data)@, old(out_data)@, r.1 as int),
        r.0 == crate::engine::ssse3::ssse3_encode_consumed(in_data@.len() as int),
{
    crate::engine::ssse3::encode_base64_ssse3(in_data, out_data)
}

} // verus!
