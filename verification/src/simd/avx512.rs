//! AVX-512 codec of the first SIMD API: the scalar engine in both
//! directions.
use vstd::prelude::*;
use crate::engine::b64::{decodable, decoded_bytes, decoded_len_spec, enc_len, encode_spec};
use crate::engine::scalar::{decode_base64_fast, decoded_len_strict, encode_base64_fast};
use super::Base64Decoder;

verus! {

/// AVX-512 codec.
pub struct Avx512Decoder;

impl Base64Decoder for Avx512Decoder {
    open spec fn validates_all(&self) -> bool {
        true
    }

    fn decode(&self, input: &[u8]) -> (r: Option<Vec<u8>>) {
        let out_len = match decoded_len_strict(input) {
            Some(n) => n,
            None => return None,
        };
        let mut out = vec![0u8; out_len];
        match decode_base64_fast(input, out.as_mut_slice()) {
            Some(_) => {
                proof {
                    assert(out@ =~= out@.subrange(0, out_len as int));
                }
                Some(out)
            },
            None => None,
        }
    }

    fn encode(&self, input: &[u8]) -> (r: Vec<u8>) {
        let out_len = crate::engine::scalar::encoded_len(input.len());
        let mut out = vec![0u8; out_len];
        let written = encode_base64_fast(input, out.as_mut_slice());
        assert(out@ =~= out@.subrange(0, written as int));
        out
    }
}

} // verus!
