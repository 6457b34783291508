//! Base64 codec engine selection and dispatch.
//!
//! This module contains the [`Base64Decoder`] trait, the [`Decoder`] dispatch
//! enum and the engine implementations. Every engine is written in portable
//! safe code: the vector kernels run the lane operations of their instruction
//! set on byte arrays, following the block schedules of [`models`].
pub mod avx2;
pub mod avx512vbmi;
pub mod b64;
pub mod common;
pub mod lanes;
pub mod laws;
pub mod models;
pub mod neon;
pub mod scalar;
pub mod ssse3;
pub mod vector;
pub mod wasm_simd128;

use vstd::prelude::*;
use self::b64::{dec_byte, decodable, decoded_bytes, decoded_len_spec, enc_char, enc_len, encode_spec};
use self::lanes::range_valid;
use self::vector::{
    body_end, decode_kernel_ok, flagged_in, lemma_decode_split, lemma_flagged_same, lemma_range_valid_sub, quads_decoded, untouched_from,
};

verus! {

// ---------------------------------------------------------------------------
// Byte-to-signed helpers
// ---------------------------------------------------------------------------

/// Reinterpret a `u8` bit pattern as `i8`.
pub fn b2i(v: u8) -> (r: i8)
    ensures
        r == v as i8,
{
    v as i8
}

/// Reinterpret a `u32` bit pattern as `i32`.
pub fn w2i(v: u32) -> (r: i32)
    ensures
        r == v as i32,
{
    v as i32
}

/// Reinterpret a `u64` bit pattern as `i64`.
pub fn d2i(v: u64) -> (r: i64)
    ensures
        r == v as i64,
{
    v as i64
}

/// `(consumed, written)` byte offsets of a pair of cursors from their bases.
pub fn offsets(in_ptr: usize, out_ptr: usize, in_base: usize, out_base: usize) -> (r: (usize, usize))
    requires
        in_base <= in_ptr,
        out_base <= out_ptr,
    ensures
        r == ((in_ptr - in_base) as usize, (out_ptr - out_base) as usize),
{
    (in_ptr - in_base, out_ptr - out_base)
}


// ---------------------------------------------------------------------------
// Shared SIMD decode and encode helpers
// ---------------------------------------------------------------------------

/// The vector engines.
pub enum SimdEngine {
    /// SSSE3 (x86/x86-64).
    Ssse3,
    /// AVX2 (x86/x86-64).
    Avx2,
    /// AVX-512 VBMI (x86/x86-64).
    Avx512Vbmi,
    /// NEON (AArch64).
    Neon,
    /// WebAssembly SIMD128 (wasm32).
    WasmSimd128,
}

/// Input bytes the vector loops of `engine` consume for `len` characters and
/// an output of `out_len` bytes (see each engine's schedule and guards).
pub open spec fn engine_consumed(engine: SimdEngine, strict: bool, len: int, out_len: int) -> int {
    match engine {
        SimdEngine::Ssse3 => ssse3::ds64_loops_end(len, out_len, false),
        SimdEngine::WasmSimd128 => ssse3::ds64_loops_end(len, out_len, false),
        SimdEngine::Avx2 => avx2::avx2_loops_end(len, out_len, false),
        SimdEngine::Avx512Vbmi => avx512vbmi::avx512_loops_end(len, out_len, false),
        SimdEngine::Neon => neon::neon_loops_end(len, out_len, strict, false),
    }
}

/// Whether the kernel of `engine` validates byte `k` of `len` characters
/// with an output of `out_len` bytes.
pub open spec fn engine_checks(engine: SimdEngine, strict: bool, len: int, out_len: int, k: int) -> bool {
    match engine {
        SimdEngine::Ssse3 => ssse3::ds64_checks_at(len, out_len, k, strict),
        SimdEngine::WasmSimd128 => ssse3::ds64_checks_at(len, out_len, k, strict),
        SimdEngine::Avx2 => avx2::avx2_checks_at(len, out_len, k, strict),
        SimdEngine::Avx512Vbmi => avx512vbmi::avx512_checks_at(len, out_len, k, strict),
        SimdEngine::Neon => neon::neon_checks_at(len, out_len, k, strict),
    }
}

/// The kernel of `engine`, with an output of `out_len` bytes, finds a bad
/// byte among those it validates in `s`.
pub open spec fn engine_flags(engine: SimdEngine, strict: bool, s: Seq<u8>, out_len: int) -> bool {
    flagged_in(
        s,
        0,
        engine_consumed(engine, strict, s.len() as int, out_len),
        |k: int| engine_checks(engine, strict, s.len() as int, out_len, k),
    )
}

/// What the vector loops of `engine` leave of `s`, with an output of
/// `out_len` bytes, decodes on its own.
pub open spec fn engine_tail_decodes(engine: SimdEngine, strict: bool, s: Seq<u8>, out_len: int) -> bool {
    decodable(s.subrange(engine_consumed(engine, strict, s.len() as int, out_len), s.len() as int))
}

/// Run the decode kernel of `engine` in the given validation mode. For a
/// length that is a multiple of four the kernel takes the steps its guards
/// allow for the output's length, rejects exactly the inputs with a bad byte
/// among those it validates, decodes the quads of its steps, and writes only
/// their bytes.
pub fn run_decode_kernel(engine: &SimdEngine, strict: bool, input: &[u8], out: &mut [u8]) -> (r:
    Option<(usize, usize)>)
    ensures
        final(out)@.len() == old(out)@.len(),
        decode_kernel_ok(input@, final(out)@, r, strict),
        r matches Some((c, w)) ==> untouched_from(final(out)@, old(out)@, w as int),
        input@.len() % 4 == 0 ==> {
            &&& r is None <==> engine_flags(*engine, strict, input@, old(out)@.len() as int)
            &&& r matches Some((c, w)) ==> c == engine_consumed(*engine, strict, input@.len() as int, old(out)@.len() as int)
            &&& untouched_from(
                final(out)@,
                old(out)@,
                engine_consumed(*engine, strict, input@.len() as int, old(out)@.len() as int) / 4 * 3,
            )
            &&& quads_decoded(
                final(out)@,
                input@,
                0,
                engine_consumed(*engine, strict, input@.len() as int, old(out)@.len() as int) / 4,
            )
        },
        input@.len() % 4 == 0 ==> untouched_from(final(out)@, old(out)@, body_end(input@.len() as int) / 4 * 3),
{
    let ghost len = input@.len() as int;
    let ghost ol = out@.len() as int;
    let ghost s = input@;
    let ghost p = |k: int| engine_checks(*engine, strict, len, ol, k);
    let ghost c = engine_consumed(*engine, strict, len, ol);
    let r = match engine {
        SimdEngine::Ssse3 => if strict {
            ssse3::decode_ssse3_strict(input, out)
        } else {
            ssse3::decode_ssse3(input, out)
        },
        SimdEngine::Avx2 => if strict {
            avx2::decode_avx2_strict(input, out)
        } else {
            avx2::decode_avx2(input, out)
        },
        SimdEngine::Avx512Vbmi => if strict {
            avx512vbmi::decode_avx512_strict(input, out)
        } else {
            avx512vbmi::decode_avx512(input, out)
        },
        SimdEngine::Neon => if strict {
            neon::decode_neon_strict(input, out)
        } else {
            neon::decode_neon(input, out)
        },
        SimdEngine::WasmSimd128 => if strict {
            wasm_simd128::decode_wasm_strict(input, out)
        } else {
            wasm_simd128::decode_wasm(input, out)
        },
    };
    proof {
        let q = match *engine {
            SimdEngine::Ssse3 => |k: int| ssse3::ds64_checks_at(len, ol, k, strict),
            SimdEngine::WasmSimd128 => |k: int| ssse3::ds64_checks_at(len, ol, k, strict),
            SimdEngine::Avx2 => |k: int| avx2::avx2_checks_at(len, ol, k, strict),
            SimdEngine::Avx512Vbmi => |k: int| avx512vbmi::avx512_checks_at(len, ol, k, strict),
            SimdEngine::Neon => |k: int| neon::neon_checks_at(len, ol, k, strict),
        };
        lemma_flagged_same(s, 0, c, p, q);
    }
    r
}

/// Run a vector decode kernel, then decode the rest of the input with the
/// scalar engine behind the bytes the kernel wrote.
///
/// A decodable input whose decoded bytes fit in `out` is decoded in full.
/// Success always reports the length the padding announces, and in strict
/// mode only decodable input succeeds.
pub fn dispatch_decode(input: &[u8], out: &mut [u8], engine: &SimdEngine, strict: bool) -> (r:
    Option<usize>)
    ensures
        final(out)@.len() == old(out)@.len(),
        decodable(input@) && decoded_len_spec(input@)->0 <= old(out)@.len() ==> {
            &&& r == Some(decoded_len_spec(input@)->0 as usize)
            &&& final(out)@.subrange(0, decoded_len_spec(input@)->0) == decoded_bytes(input@)
        },
        r matches Some(w) ==> decoded_len_spec(input@) == Some(w as int) && w <= old(out)@.len(),
        strict && r is Some ==> decodable(input@),
        decoded_len_spec(input@) is Some ==> forall|i: int|
            decoded_len_spec(input@)->0 <= i < old(out)@.len() ==> #[trigger] final(out)@[i] == old(out)@[i],
        decoded_len_spec(input@) is Some && decoded_len_spec(input@)->0 <= old(out)@.len() ==> {
            &&& r is Some <==> !engine_flags(*engine, strict, input@, old(out)@.len() as int) && engine_tail_decodes(
                *engine,
                strict,
                input@,
                old(out)@.len() as int,
            )
            &&& engine_flags(*engine, strict, input@, old(out)@.len() as int) ==> {
                &&& untouched_from(
                    final(out)@,
                    old(out)@,
                    engine_consumed(*engine, strict, input@.len() as int, old(out)@.len() as int) / 4 * 3,
                )
                &&& quads_decoded(
                    final(out)@,
                    input@,
                    0,
                    engine_consumed(*engine, strict, input@.len() as int, old(out)@.len() as int) / 4,
                )
            }
        },
{
    let ghost orig = out@;
    let kernel = run_decode_kernel(engine, strict, input, out);
    let r = finish_decode(input, out, kernel, strict);
    proof {
        let s = input@;
        let n = s.len() as int;
        if decoded_len_spec(s) is Some {
            let m = decoded_len_spec(s)->0;
            assert(n % 4 == 0);
            assert(body_end(n) / 4 * 3 <= m);
            if let Some((c, w)) = kernel {
                assert(c <= body_end(n));
                assert(w <= body_end(n) / 4 * 3);
            }
        }
    }
    r
}

/// Finish a decode after a vector kernel returned `kernel` for `input`: stop
/// on a rejection, otherwise decode the characters the kernel left with the
/// scalar engine behind the bytes it wrote. Returns the total length.
pub fn finish_decode(input: &[u8], out: &mut [u8], kernel: Option<(usize, usize)>, strict: bool) -> (r:
    Option<usize>)
    requires
        decode_kernel_ok(input@, old(out)@, kernel, strict),
    ensures
        final(out)@.len() == old(out)@.len(),
        decodable(input@) && decoded_len_spec(input@)->0 <= old(out)@.len() ==> {
            &&& r == Some(decoded_len_spec(input@)->0 as usize)
            &&& final(out)@.subrange(0, decoded_len_spec(input@)->0) == decoded_bytes(input@)
        },
        r matches Some(w) ==> decoded_len_spec(input@) == Some(w as int) && w <= old(out)@.len(),
        strict && r is Some ==> decodable(input@),
        kernel is None ==> r is None && final(out)@ == old(out)@,
        kernel is Some && decoded_len_spec(input@) is Some && decoded_len_spec(input@)->0 <= old(out)@.len() ==> {
            &&& r is Some <==> decodable(input@.subrange((kernel->0).0 as int, input@.len() as int))
            &&& forall|i: int|
                decoded_len_spec(input@)->0 <= i < old(out)@.len() ==> #[trigger] final(out)@[i] == old(out)@[i]
        },
{
    let ghost s = input@;
    let n = input.len();
    proof {
        if decodable(s) {
            lemma_decodable_body(s);
        }
    }
    let (consumed, written) = match kernel {
        Some(cw) => cw,
        None => return None,
    };
    let ghost kout = out@;
    if consumed >= n {
        proof {
            assert(n == 0);
            assert(decodable(s));
            assert(out@.subrange(0, 0) =~= decoded_bytes(s));
        }
        return Some(written);
    }
    let tail = vstd::slice::slice_subrange(input, consumed, n);
    let ghost t = tail@;
    proof {
        assert(t =~= s.subrange(consumed as int, n as int));
        if consumed == 0 {
            assert(t =~= s);
        } else if n % 4 == 0 {
            lemma_decode_split(s, consumed as int);
        } else {
            assert(t.len() % 4 != 0);
        }
    }
    let tail_written = match scalar::decode_into(tail, out, written) {
        Some(w) => w,
        None => {
            return None;
        },
    };
    proof {
        assert(decodable(t));
        if decodable(s) {
            let d = decoded_bytes(s);
            let dt = decoded_bytes(t);
            assert forall|k: int| 0 <= k < written + tail_written implies #[trigger] out@[k]
                == d[k] by {
                if k < written {
                    assert(out@[k] == kout[k]);
                    lemma_range_valid_sub(s, 0, consumed as int, 4 * (k / 3), 4 * (k / 3) + 4);
                    assert(kout[k] == dec_byte(s, k / 3, k % 3) as u8);
                } else {
                    let k2 = k - written;
                    assert(out@[written + k2] == dt[k2]);
                    assert(k / 3 == consumed / 4 + k2 / 3);
                    assert(k % 3 == k2 % 3);
                    assert(dec_byte(t, k2 / 3, k2 % 3) == dec_byte(s, consumed / 4 + k2 / 3, k2 % 3));
                }
            }
            assert(out@.subrange(0, written + tail_written) =~= d);
        }
    }
    Some(written + tail_written)
}

/// A decodable text holds only alphabet characters before its last quad.
pub proof fn lemma_decodable_body(s: Seq<u8>)
    requires
        decodable(s),
    ensures
        range_valid(s, 0, body_end(s.len() as int)),
{
    assert forall|k: int| 0 <= k < body_end(s.len() as int) implies #[trigger] b64::is_b64(s[k]) by {
        assert(b64::is_b64(s[k]));
    }
}

/// Finish an encoding after a vector kernel encoded the first `consumed`
/// bytes into the first `written` characters: the scalar encoder writes the
/// rest, padding included. Returns the total number of characters.
pub fn finish_encode(input: &[u8], out: &mut [u8], consumed: usize, written: usize) -> (r: usize)
    requires
        consumed % 3 == 0,
        consumed <= input@.len(),
        written == consumed / 3 * 4,
        enc_len(input@.len() as int) <= old(out)@.len(),
        forall|i: int| 0 <= i < written ==> #[trigger] old(out)@[i] == enc_char(input@, i),
    ensures
        r == enc_len(input@.len() as int),
        final(out)@.len() == old(out)@.len(),
        final(out)@.subrange(0, r as int) == encode_spec(input@),
{
    let ghost prev = out@;
    let _olen = out.len();
    let tail = scalar::encode_from(input, consumed, out, written);
    proof {
        assert forall|i: int| 0 <= i < written implies #[trigger] out@[i] == enc_char(input@, i) by {
            assert(out@[i] == prev[i]);
        }
        assert(out@.subrange(0, (written + tail) as int) =~= encode_spec(input@));
    }
    written + tail
}

// ---------------------------------------------------------------------------
// Shared decoder configuration
// ---------------------------------------------------------------------------

/// Decoder configuration options.
///
/// Controls the strictness of input validation during SIMD Base64 decoding.
/// The default configuration enables strict mode (`strict: true`), which
/// validates every input byte: the safe choice for untrusted input.
pub struct DecodeOpts {
    /// When `true`, every input vector is validated.
    /// When `false`, only some vectors of each block are validated.
    pub strict: bool,
}

impl Default for DecodeOpts {
    fn default() -> (r: Self)
        ensures
            r.strict,
    {
        Self { strict: true }
    }
}

// ---------------------------------------------------------------------------
// Trait
// ---------------------------------------------------------------------------

/// Trait implemented by all Base64 codec engines.
///
/// The two `_to_slice` methods are the required primitives; `decode` and
/// `encode` are allocating wrappers with default implementations.
pub trait Base64Decoder {
    /// The engine validates every input character, so that it accepts exactly
    /// the decodable texts.
    spec fn validates_all(&self) -> bool;

    /// Decode Base64 `input` into `out`, returning the number of bytes written.
    ///
    /// A decodable input whose decoded bytes fit in `out` always succeeds,
    /// with the decoded bytes at the front of `out`. Success always reports
    /// the length the padding announces; a validating engine succeeds only on
    /// decodable input. No byte past the decoded length is ever written, and
    /// `out` is left as it was when the length or padding is malformed or the
    /// decoded bytes do not fit.
    fn decode_to_slice(&self, input: &[u8], out: &mut [u8]) -> (r: Option<usize>)
        ensures
            final(out)@.len() == old(out)@.len(),
            decodable(input@) && decoded_len_spec(input@)->0 <= old(out)@.len() ==> {
                &&& r == Some(decoded_len_spec(input@)->0 as usize)
                &&& final(out)@.subrange(0, decoded_len_spec(input@)->0) == decoded_bytes(input@)
            },
            r matches Some(w) ==> decoded_len_spec(input@) == Some(w as int) && w <= old(out)@.len(),
            self.validates_all() && r is Some ==> decodable(input@),
            decoded_len_spec(input@) is Some ==> forall|i: int|
                decoded_len_spec(input@)->0 <= i < old(out)@.len() ==> #[trigger] final(out)@[i] == old(out)@[i],
            decoded_len_spec(input@) is None || decoded_len_spec(input@)->0 > old(out)@.len() ==> final(out)@
                == old(out)@,
    ;

    /// Encode raw bytes `input` into Base64 `out`, returning the number of
    /// bytes written.
    fn encode_to_slice(&self, input: &[u8], out: &mut [u8]) -> (r: usize)
        requires
            enc_len(input@.len() as int) <= old(out)@.len(),
        ensures
            r == enc_len(input@.len() as int),
            final(out)@.len() == old(out)@.len(),
            final(out)@.subrange(0, r as int) == encode_spec(input@),
    ;

    /// Decode Base64 input into a newly allocated `Vec`.
    fn decode(&self, input: &[u8]) -> (r: Option<Vec<u8>>)
        ensures
            decodable(input@) ==> (r matches Some(v) && v@ == decoded_bytes(input@)),
            r matches Some(v) ==> decoded_len_spec(input@) == Some(v@.len() as int),
            self.validates_all() && r is Some ==> decodable(input@),
    {
        let out_len = match scalar::decoded_len_strict(input) {
            Some(n) => n,
            None => return None,
        };
        let mut out = vec![0u8; out_len];
        match self.decode_to_slice(input, out.as_mut_slice()) {
            Some(_) => {
                proof {
                    if decodable(input@) {
                        assert(out@ =~= out@.subrange(0, out_len as int));
                    }
                }
                Some(out)
            },
            None => None,
        }
    }

    /// Encode raw bytes into a newly allocated `Vec`.
    fn encode(&self, input: &[u8]) -> (r: Vec<u8>)
        requires
            enc_len(input@.len() as int) <= usize::MAX,
        ensures
            r@ == encode_spec(input@),
    {
        let out_len = scalar::encoded_len(input.len());
        let mut out = vec![0u8; out_len];
        let written = self.encode_to_slice(input, out.as_mut_slice());
        assert(out@ =~= out@.subrange(0, written as int));
        out
    }
}

// ---------------------------------------------------------------------------
// Dispatch enum
// ---------------------------------------------------------------------------

/// Runtime-dispatched Base64 codec: one of the engines.
pub enum Decoder {
    /// Pure-scalar engine.
    Scalar(scalar::ScalarDecoder),
    /// SSSE3 engine.
    Ssse3(ssse3::Ssse3Decoder),
    /// AVX2 engine.
    Avx2(avx2::Avx2Decoder),
    /// AVX-512 VBMI engine.
    Avx512Vbmi(avx512vbmi::Avx512VbmiDecoder),
    /// NEON engine.
    Neon(neon::NeonDecoder),
    /// WebAssembly SIMD128 engine.
    WasmSimd128(wasm_simd128::WasmSimd128Decoder),
}

impl Base64Decoder for Decoder {
    open spec fn validates_all(&self) -> bool {
        match self {
            Decoder::Scalar(d) => d.validates_all(),
            Decoder::Ssse3(d) => d.validates_all(),
            Decoder::Avx2(d) => d.validates_all(),
            Decoder::Avx512Vbmi(d) => d.validates_all(),
            Decoder::Neon(d) => d.validates_all(),
            Decoder::WasmSimd128(d) => d.validates_all(),
        }
    }

    fn decode_to_slice(&self, input: &[u8], out: &mut [u8]) -> (r: Option<usize>) {
        match self {
            Decoder::Scalar(d) => d.decode_to_slice(input, out),
            Decoder::Ssse3(d) => d.decode_to_slice(input, out),
            Decoder::Avx2(d) => d.decode_to_slice(input, out),
            Decoder::Avx512Vbmi(d) => d.decode_to_slice(input, out),
            Decoder::Neon(d) => d.decode_to_slice(input, out),
            Decoder::WasmSimd128(d) => d.decode_to_slice(input, out),
        }
    }

    fn encode_to_slice(&self, input: &[u8], out: &mut [u8]) -> (r: usize) {
        match self {
            Decoder::Scalar(d) => d.encode_to_slice(input, out),
            Decoder::Ssse3(d) => d.encode_to_slice(input, out),
            Decoder::Avx2(d) => d.encode_to_slice(input, out),
            Decoder::Avx512Vbmi(d) => d.encode_to_slice(input, out),
            Decoder::Neon(d) => d.encode_to_slice(input, out),
            Decoder::WasmSimd128(d) => d.encode_to_slice(input, out),
        }
    }
}

/// The CPU features that decide which engine runs.
pub struct CpuFeatures {
    /// AVX-512 VBMI (x86/x86-64).
    pub avx512vbmi: bool,
    /// AVX2 (x86/x86-64).
    pub avx2: bool,
    /// SSSE3 (x86/x86-64).
    pub ssse3: bool,
    /// NEON (AArch64).
    pub neon: bool,
    /// SIMD128 (wasm32).
    pub simd128: bool,
}

impl Decoder {
    /// The best engine for the given CPU features, in strict mode.
    ///
    /// Priority: AVX-512 VBMI > AVX2 > SSSE3 > NEON > SIMD128 > Scalar.
    pub fn select(f: &CpuFeatures) -> (r: Decoder)
        ensures
            r.validates_all(),
            f.avx512vbmi ==> r is Avx512Vbmi,
            !f.avx512vbmi && f.avx2 ==> r is Avx2,
            !f.avx512vbmi && !f.avx2 && f.ssse3 ==> r is Ssse3,
            !f.avx512vbmi && !f.avx2 && !f.ssse3 && f.neon ==> r is Neon,
            !f.avx512vbmi && !f.avx2 && !f.ssse3 && !f.neon && f.simd128 ==> r is WasmSimd128,
            !f.avx512vbmi && !f.avx2 && !f.ssse3 && !f.neon && !f.simd128 ==> r is Scalar,
    {
        if f.avx512vbmi {
            Decoder::Avx512Vbmi(avx512vbmi::Avx512VbmiDecoder::new())
        } else if f.avx2 {
            Decoder::Avx2(avx2::Avx2Decoder::new())
        } else if f.ssse3 {
            Decoder::Ssse3(ssse3::Ssse3Decoder::new())
        } else if f.neon {
            Decoder::Neon(neon::NeonDecoder::new())
        } else if f.simd128 {
            Decoder::WasmSimd128(wasm_simd128::WasmSimd128Decoder::new())
        } else {
            Decoder::Scalar(scalar::ScalarDecoder)
        }
    }
}

} // verus!
