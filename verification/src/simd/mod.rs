//! The first SIMD API: unit-struct codecs behind an allocating
//! [`Base64Decoder`] trait, and the [`Decoder`] enum that dispatches to them.
//!
//! The SSSE3 codecs ([`ssse3`], [`ssse3_cstyle`]) decode with vector kernels;
//! the others decode with the scalar engine and encode with their kernels.
pub mod avx2;
pub mod avx512;
pub mod sse42;
pub mod ssse3;
pub mod ssse3_cstyle;

use vstd::prelude::*;
use crate::engine::b64::{decodable, decoded_bytes, decoded_len_spec, enc_len, encode_spec};
use crate::engine::neon::NeonDecoder;
use crate::engine::scalar::ScalarDecoder;
use self::avx2::Avx2Decoder;
use self::avx512::Avx512Decoder;
use self::sse42::Sse42Decoder;

verus! {

/// Allocating Base64 codec.
pub trait Base64Decoder {
    /// The codec validates every input character, so that it accepts exactly
    /// the decodable texts.
    spec fn validates_all(&self) -> bool;

    /// Decode Base64 input into a new `Vec`: a decodable input always
    /// decodes; success reports the length the padding announces, and a
    /// validating codec succeeds only on decodable input.
    fn decode(&self, input: &[u8]) -> (r: Option<Vec<u8>>)
        ensures
            decodable(input@) ==> (r matches Some(v) && v@ == decoded_bytes(input@)),
            r matches Some(v) ==> decoded_len_spec(input@) == Some(v@.len() as int),
            self.validates_all() && r is Some ==> decodable(input@),
    ;

    /// Encode raw bytes into a new `Vec`.
    fn encode(&self, input: &[u8]) -> (r: Vec<u8>)
        requires
            enc_len(input@.len() as int) <= usize::MAX,
        ensures
            r@ == encode_spec(input@),
    ;
}

/// One of the codecs of this API.
pub enum Decoder {
    /// Scalar codec.
    ScalarDecoder(ScalarDecoder),
    /// SSE4.2 codec (SSSE3 encoder).
    Sse42Decoder(Sse42Decoder),
    /// NEON codec.
    NeonDecoder(NeonDecoder),
    /// AVX2 codec.
    Avx2Decoder(Avx2Decoder),
    /// AVX-512 codec.
    Avx512Decoder(Avx512Decoder),
}

impl Base64Decoder for ScalarDecoder {
    open spec fn validates_all(&self) -> bool {
        true
    }

    fn decode(&self, input: &[u8]) -> (r: Option<Vec<u8>>) {
        crate::engine::Base64Decoder::decode(self, input)
    }

    fn encode(&self, input: &[u8]) -> (r: Vec<u8>) {
        crate::engine::Base64Decoder::encode(self, input)
    }
}

impl Base64Decoder for NeonDecoder {
    open spec fn validates_all(&self) -> bool {
        self.is_strict()
    }

    fn decode(&self, input: &[u8]) -> (r: Option<Vec<u8>>) {
        crate::engine::Base64Decoder::decode(self, input)
    }

    fn encode(&self, input: &[u8]) -> (r: Vec<u8>) {
        crate::engine::Base64Decoder::encode(self, input)
    }
}

impl Base64Decoder for Decoder {
    open spec fn validates_all(&self) -> bool {
        match self {
            Decoder::NeonDecoder(d) => d.is_strict(),
            _ => true,
        }
    }

    fn decode(&self, input: &[u8]) -> (r: Option<Vec<u8>>) {
        match self {
            Decoder::ScalarDecoder(d) => Base64Decoder::decode(d, input),
            Decoder::Sse42Decoder(d) => d.decode(input),
            Decoder::NeonDecoder(d) => Base64Decoder::decode(d, input),
            Decoder::Avx2Decoder(d) => d.decode(input),
            Decoder::Avx512Decoder(d) => d.decode(input),
        }
    }

    fn encode(&self, input: &[u8]) -> (r: Vec<u8>) {
        match self {
            Decoder::ScalarDecoder(d) => Base64Decoder::encode(d, input),
            Decoder::Sse42Decoder(d) => d.encode(input),
            Decoder::NeonDecoder(d) => Base64Decoder::encode(d, input),
            Decoder::Avx2Decoder(d) => d.encode(input),
            Decoder::Avx512Decoder(d) => d.encode(input),
        }
    }
}

/// The best codec of this API for the given CPU features: AVX-512 (with
/// F, BW and VL) > AVX2 > SSE4.2 > NEON > scalar.
pub fn select_best_decoder(avx512: bool, avx2: bool, sse42: bool, neon: bool) -> (r: Decoder)
    ensures
        avx512 ==> r is Avx512Decoder,
        !avx512 && avx2 ==> r is Avx2Decoder,
        !avx512 && !avx2 && sse42 ==> r is Sse42Decoder,
        !avx512 && !avx2 && !sse42 && neon ==> r is NeonDecoder,
        !avx512 && !avx2 && !sse42 && !neon ==> r is ScalarDecoder,
{
    if avx512 {
        Decoder::Avx512Decoder(Avx512Decoder)
    } else if avx2 {
        Decoder::Avx2Decoder(Avx2Decoder)
    } else if sse42 {
        Decoder::Sse42Decoder(Sse42Decoder)
    } else if neon {
        Decoder::NeonDecoder(NeonDecoder::new())
    } else {
        Decoder::ScalarDecoder(ScalarDecoder)
    }
}

} // verus!
