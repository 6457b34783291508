//! AVX2 codec of the first SIMD API: the AVX2 encode kernel and the scalar
//! decoder.
use vstd::prelude::*;
use crate::engine::b64::{decodable, decoded_bytes, decoded_len_spec, enc_len, encode_spec};
use crate::engine::scalar::{decode_base64_fast, decoded_len_strict};
use super::Base64Decoder;

verus! {

/// AVX2 codec.
pub struct Avx2Decoder;

impl Avx2Decoder {
    /// Encode raw bytes to Base64: the AVX2 kernel, then the scalar tail.
    pub fn encode_to_slice(input: &[u8], out: &mut [u8]) -> (r: usize)
        requires
            enc_len(input@.len() as int) <= old(out)@.len(),
        ensures
            r == enc_len(input@.len() as int),
            final(out)@.len() == old(out)@.len(),
            final(out)@.subrange(0, r as int) == encode_spec(input@),
    {
        let (consumed, written) = encode_base64_avx2(input, out);
        crate::engine::finish_encode(input, out, consumed, written)
    }
}

impl Base64Decoder for Avx2Decoder {
    open spec fn validates_all(&self) -> bool {
        true
    }

    fn decode(&self, input: &[u8]) -> (r: Option<Vec<u8>>) {
        let out_len = match decoded_len_strict(input) {
            Some(n) => n,
            None => return None,
        };
        let mut out = vec![0u8; out_len];
        match decode_base64_fast(input, out.as_mut_slice()) {
            Some(_) => {
                proof {
                    assert(out@ =~= out@.subrange(0, out_len as int));
                }
                Some(out)
            },
            None => None,
        }
    }

    fn encode(&self, input: &[u8]) -> (r: Vec<u8>) {
        let out_len = crate::engine::scalar::encoded_len(input.len());
        let mut out = vec![0u8; out_len];
        let written = Self::encode_to_slice(input, out.as_mut_slice());
        assert(out@ =~= out@.subrange(0, written as int));
        out
    }
}

/// The AVX2 encode kernel (see [`crate::engine::avx2::encode_base64_avx2`]).
pub fn encode_base64_avx2(in_data: &[u8], out_data: &mut [u8]) -> (r: (usize, usize))
    requires
        enc_len(in_data@.len() as int) <= old(out_data)@.len(),
    ensures
        final(out_data)@.len() == old(out_data)@.len(),
        crate::engine::vector::encode_kernel_ok(in_data@, final(out_data)@, r),
        crate::engine::vector::untouched_from(final(out_data)@, old(out_data)@, r.1 as int),
        r.0 == crate::engine::avx2::avx2_encode_consumed(in_data@.len() as int),
{
    crate::engine::avx2::encode_base64_avx2(in_data, out_data)
}

} // verus!
