//! SSSE3 codecs of the first SIMD API that follow the C library's decode
//! loop: the DS64 schedule with its 32-byte preload, non-strict (first vector
//! of each block validated) or strict (every vector validated). Both encode
//! with the SSSE3 codec.
use vstd::prelude::*;
use crate::engine::b64::{decodable, decoded_bytes, decoded_len_spec, enc_len, encode_spec};
use crate::engine::lanes::LaneDecoder;
use crate::engine::models::ssse3::simd_consumed;
use crate::engine::ssse3::{decode_ds64_kernel, ds64_checks, ds64_roomy};
use crate::engine::vector::{untouched_from, decode_kernel_ok, flagged_in};

verus! {

/// SSSE3 codec with the C library's non-strict decode loop.
pub struct Ssse3CStyleDecoder;

/// SSSE3 codec with the C library's strict decode loop.
pub struct Ssse3CStyleStrictDecoder;

impl Ssse3CStyleDecoder {
    /// Encode raw bytes to Base64 with the SSSE3 codec.
    pub fn encode_to_slice(input: &[u8], out: &mut [u8]) -> (r: usize)
        requires
            enc_len(input@.len() as int) <= old(out)@.len(),
        ensures
            r == enc_len(input@.len() as int),
            final(out)@.len() == old(out)@.len(),
            final(out)@.subrange(0, r as int) == encode_spec(input@),
    {
        super::ssse3::Ssse3Decoder::encode_to_slice(input, out)
    }

    /// Decode Base64 into `out`: the non-strict kernel, then the scalar tail.
    /// Decodable inputs whose bytes fit always succeed; success reports the
    /// length the padding announces.
    pub fn decode_to_slice(input: &[u8], out: &mut [u8]) -> (r: Option<usize>)
        ensures
            final(out)@.len() == old(out)@.len(),
            decodable(input@) && decoded_len_spec(input@)->0 <= old(out)@.len() ==> {
                &&& r == Some(decoded_len_spec(input@)->0 as usize)
                &&& final(out)@.subrange(0, decoded_len_spec(input@)->0) == decoded_bytes(input@)
            },
            r matches Some(w) ==> decoded_len_spec(input@) == Some(w as int) && w <= old(out)@.len(),
    {
        let kernel = decode_base64_ssse3_cstyle(input, out);
        crate::engine::finish_decode(input, out, kernel, false)
    }
}

impl Ssse3CStyleStrictDecoder {
    /// Encode raw bytes to Base64 with the SSSE3 codec.
    pub fn encode_to_slice(input: &[u8], out: &mut [u8]) -> (r: usize)
        requires
            enc_len(input@.len() as int) <= old(out)@.len(),
        ensures
            r == enc_len(input@.len() as int),
            final(out)@.len() == old(out)@.len(),
            final(out)@.subrange(0, r as int) == encode_spec(input@),
    {
        super::ssse3::Ssse3Decoder::encode_to_slice(input, out)
    }

    /// Decode Base64 into `out`: the strict kernel, then the scalar tail.
    /// Exactly the decodable inputs whose bytes fit in `out` succeed.
    pub fn decode_to_slice(input: &[u8], out: &mut [u8]) -> (r: Option<usize>)
        ensures
            final(out)@.len() == old(out)@.len(),
            decodable(input@) && decoded_len_spec(input@)->0 <= old(out)@.len() ==> {
                &&& r == Some(decoded_len_spec(input@)->0 as usize)
                &&& final(out)@.subrange(0, decoded_len_spec(input@)->0) == decoded_bytes(input@)
            },
            r matches Some(w) ==> decodable(input@) && decoded_len_spec(input@) == Some(w as int)
                && w <= old(out)@.len(),
    {
        let kernel = decode_base64_ssse3_cstyle_strict(input, out);
        crate::engine::finish_decode(input, out, kernel, true)
    }
}

/// Non-strict C-style SSSE3 decode kernel: only the first 16-byte vector of
/// each DS64 block is validated.
pub fn decode_base64_ssse3_cstyle(in_data: &[u8], out_data: &mut [u8]) -> (r: Option<(usize, usize)>)
    ensures
        final(out_data)@.len() == old(out_data)@.len(),
        decode_kernel_ok(in_data@, final(out_data)@, r, false),
        r matches Some((c, w)) ==> untouched_from(final(out_data)@, old(out_data)@, w as int),
        ds64_roomy(in_data@.len() as int, old(out_data)@.len() as int) ==> {
            &&& r is None <==> flagged_in(
                in_data@,
                0,
                simd_consumed(in_data@.len() as int),
                |k: int| ds64_checks(in_data@.len() as int, k, false),
            )
            &&& r matches Some((c, w)) ==> c == simd_consumed(in_data@.len() as int)
            &&& untouched_from(final(out_data)@, old(out_data)@, simd_consumed(in_data@.len() as int) / 4 * 3)
        },
        r is None <==> flagged_in(
            in_data@,
            0,
            crate::engine::ssse3::ds64_loops_end(in_data@.len() as int, old(out_data)@.len() as int, false),
            |k: int| crate::engine::ssse3::ds64_checks_at(in_data@.len() as int, old(out_data)@.len() as int, k, false),
        ),
        r matches Some((c, w)) ==> c == crate::engine::ssse3::ds64_loops_end(in_data@.len() as int, old(out_data)@.len() as int, false),
        untouched_from(final(out_data)@, old(out_data)@, crate::engine::ssse3::ds64_loops_end(in_data@.len() as int, old(out_data)@.len() as int, false) / 4 * 3),
        crate::engine::vector::quads_decoded(final(out_data)@, in_data@, 0, crate::engine::ssse3::ds64_loops_end(in_data@.len() as int, old(out_data)@.len() as int, false) / 4),
{
    decode_ds64_kernel(in_data, out_data, &LaneDecoder::HashMadd, false)
}

/// Strict C-style SSSE3 decode kernel: every vector is validated.
pub fn decode_base64_ssse3_cstyle_strict(in_data: &[u8], out_data: &mut [u8]) -> (r: Option<(usize, usize)>)
    ensures
        final(out_data)@.len() == old(out_data)@.len(),
        decode_kernel_ok(in_data@, final(out_data)@, r, true),
        r matches Some((c, w)) ==> untouched_from(final(out_data)@, old(out_data)@, w as int),
        ds64_roomy(in_data@.len() as int, old(out_data)@.len() as int) ==> {
            &&& r is None <==> flagged_in(
                in_data@,
                0,
                simd_consumed(in_data@.len() as int),
                |k: int| ds64_checks(in_data@.len() as int, k, true),
            )
            &&& r matches Some((c, w)) ==> c == simd_consumed(in_data@.len() as int)
            &&& untouched_from(final(out_data)@, old(out_data)@, simd_consumed(in_data@.len() as int) / 4 * 3)
        },
        r is None <==> flagged_in(
            in_data@,
            0,
            crate::engine::ssse3::ds64_loops_end(in_data@.len() as int, old(out_data)@.len() as int, false),
            |k: int| crate::engine::ssse3::ds64_checks_at(in_data@.len() as int, old(out_data)@.len() as int, k, true),
        ),
        r matches Some((c, w)) ==> c == crate::engine::ssse3::ds64_loops_end(in_data@.len() as int, old(out_data)@.len() as int, false),
        untouched_from(final(out_data)@, old(out_data)@, crate::engine::ssse3::ds64_loops_end(in_data@.len() as int, old(out_data)@.len() as int, false) / 4 * 3),
        crate::engine::vector::quads_decoded(final(out_data)@, in_data@, 0, crate::engine::ssse3::ds64_loops_end(in_data@.len() as int, old(out_data)@.len() as int, false) / 4),
{
    decode_ds64_kernel(in_data, out_data, &LaneDecoder::HashMadd, true)
}

} // verus!
