//! High-performance Base64 codec with SIMD-style engines.
//!
//! `oxid64` encodes and decodes standard Base64 (RFC 4648, padded) with the
//! block schedules of hand-tuned SIMD kernels for x86-64 (SSSE3, AVX2,
//! AVX-512 VBMI), AArch64 (NEON) and WebAssembly (SIMD128), and a fast scalar
//! engine. Every engine is written in portable safe code whose lane operations
//! are proved against the Base64 model in [`engine::b64`].
//!
//! [`engine::Decoder::select`] picks an engine from a set of CPU features;
//! [`Base64Decoder::decode`] and [`Base64Decoder::encode`] allocate, and
//! [`Base64Decoder::decode_to_slice`] and [`Base64Decoder::encode_to_slice`]
//! work on caller-provided buffers sized with [`encoded_len`] and
//! [`decoded_len`].
//!
//! SIMD engines take an [`engine::DecodeOpts`]: the default (`strict: true`)
//! validates every input byte; `strict: false` validates fewer vectors and is
//! meant for trusted input. [`engine::laws`] states what holds of all the
//! engines together, the round trip first.
//!
//! Besides the engines: [`simd`] and [`scalar`] keep the codecs of the first
//! API, [`cpu`] names a processor's instruction set from its feature bits,
//! [`synth`] holds the analyses that choose the decoders' lookup tables, and
//! [`perf`] the pure parts of the benchmark harnesses.
pub mod cpu;
pub mod engine;
pub mod perf;
pub mod scalar;
pub mod simd;
pub mod synth;

pub use engine::{Base64Decoder, Decoder};

use vstd::prelude::*;
use engine::b64::{decoded_len_spec, enc_len};

verus! {

/// Base64-encoded length (with padding) of `n` raw input bytes.
pub fn encoded_len(n: usize) -> (r: usize)
    requires
        enc_len(n as int) <= usize::MAX,
    ensures
        r as int == enc_len(n as int),
{
    engine::scalar::encoded_len(n)
}

/// Decoded byte length of a Base64 input (strict, with padding): `None` when
/// the length is not a multiple of 4 or the input ends in `x===`.
pub fn decoded_len(b64: &[u8]) -> (r: Option<usize>)
    ensures
        match r {
            Some(n) => decoded_len_spec(b64@) == Some(n as int),
            None => decoded_len_spec(b64@) is None,
        },
{
    engine::scalar::decoded_len_strict(b64)
}

} // verus!
