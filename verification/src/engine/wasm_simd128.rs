//! WebAssembly SIMD128 Base64 codec: the SSSE3 schedule on WASM lanes.
//!
//! WASM has no `pshufb`; its `i8x16.swizzle` zeroes lanes for control bytes
//! of 16 and up, so the decoder emulates `pshufb` by masking the control to
//! its low nibble and clearing the lanes whose control has the top bit set
//! (see [`super::models::wasm_simd128::pshufb_lookup_byte`]). With that, the
//! mapping and validity hashes are those of SSSE3; four 6-bit values are
//! packed into three bytes with byte shifts. The decoder follows the SSSE3
//! DS64 schedule and validation modes. The encoder emulates the unsigned
//! high multiply with widening multiplies and follows the SSSE3 steps: 96
//! bytes while 108 remain, 48 while 60 remain, 12 while 16 remain, from 52
//! input bytes on.
use vstd::prelude::*;
use super::b64::{decoded_len_spec, enc_len};
use super::lanes::{EncodeLane, LaneDecoder};
use super::models::wasm_simd128 as verify_model;
use super::models::ssse3::simd_consumed;
use super::models::greedy_steps;
use super::ssse3::{decode_ds64_kernel, ds64_checks, ds64_roomy};
use super::vector::{body_end, lemma_untouched_step, untouched_from, 
    decode_kernel_ok, flagged_in, encode_group_run, encode_kernel_ok, groups_encoded, lemma_encode_step,
};
use super::{Base64Decoder, DecodeOpts};

verus! {

/// WebAssembly SIMD128 Base64 decoder and encoder.
///
/// `WasmSimd128Decoder::new()` is strict; `WasmSimd128Decoder::with_opts(opts)` takes a
/// custom configuration.
pub struct WasmSimd128Decoder {
    opts: DecodeOpts,
}

impl WasmSimd128Decoder {
    /// Whether this decoder validates every input vector.
    pub closed spec fn is_strict(&self) -> bool {
        self.opts.strict
    }

    /// Create a new decoder with default options (strict mode).
    pub fn new() -> (r: Self)
        ensures
            r.is_strict(),
    {
        Self { opts: DecodeOpts::default() }
    }

    /// Create a new decoder with the given options.
    pub fn with_opts(opts: DecodeOpts) -> (r: Self)
        ensures
            r.is_strict() == opts.strict,
    {
        Self { opts }
    }
}

/// A decoder is its validation mode: two decoders in the same mode are the
/// same value, so `WasmSimd128Decoder::new()` is `WasmSimd128Decoder::with_opts(DecodeOpts { strict: true })`
/// and `default()` is the same decoder again.
pub proof fn law_decoder_is_its_mode(a: WasmSimd128Decoder, b: WasmSimd128Decoder)
    requires
        a.is_strict() == b.is_strict(),
    ensures
        a == b,
{
}

impl Default for WasmSimd128Decoder {
    fn default() -> (r: Self)
        ensures
            r.is_strict(),
    {
        Self::new()
    }
}

impl Base64Decoder for WasmSimd128Decoder {
    open spec fn validates_all(&self) -> bool {
        self.is_strict()
    }

    /// Decode Base64 `input` into `out`: the SIMD128 kernel, then the scalar
    /// tail.
    fn decode_to_slice(&self, input: &[u8], out: &mut [u8]) -> (r: Option<usize>)
        ensures
            decoded_len_spec(input@) is Some && decoded_len_spec(input@)->0 <= old(out)@.len() ==> {
                &&& r is Some <==> !super::engine_flags(super::SimdEngine::WasmSimd128, self.is_strict(), input@, old(out)@.len() as int)
                    && super::engine_tail_decodes(super::SimdEngine::WasmSimd128, self.is_strict(), input@, old(out)@.len() as int)
                &&& super::engine_flags(super::SimdEngine::WasmSimd128, self.is_strict(), input@, old(out)@.len() as int) ==> {
                    &&& untouched_from(
                        final(out)@,
                        old(out)@,
                        super::engine_consumed(super::SimdEngine::WasmSimd128, self.is_strict(), input@.len() as int, old(out)@.len() as int) / 4 * 3,
                    )
                    &&& super::vector::quads_decoded(
                        final(out)@,
                        input@,
                        0,
                        super::engine_consumed(super::SimdEngine::WasmSimd128, self.is_strict(), input@.len() as int, old(out)@.len() as int) / 4,
                    )
                }
            },
    {
        let _out_len = match super::common::prepare_decode_output(input, out) {
            Some(n) => n,
            None => return None,
        };
        super::dispatch_decode(input, out, &super::SimdEngine::WasmSimd128, self.opts.strict)
    }

    /// Encode raw bytes to Base64: the SIMD128 kernel, then the scalar tail.
    fn encode_to_slice(&self, input: &[u8], out: &mut [u8]) -> (r: usize) {
        let (consumed, written) = encode_base64_wasm(input, out);
        super::finish_encode(input, out, consumed, written)
    }
}

/// Non-strict SIMD128 decode: only the first 16-byte vector of each DS64
/// block is validated. Returns `(consumed, written)` for the scalar tail, or
/// `None` when a validated vector holds a byte outside the alphabet.
pub fn decode_wasm(in_data: &[u8], out_data: &mut [u8]) -> (r: Option<(usize, usize)>)
    ensures
        final(out_data)@.len() == old(out_data)@.len(),
        decode_kernel_ok(in_data@, final(out_data)@, r, false),
        r matches Some((c, w)) ==> untouched_from(final(out_data)@, old(out_data)@, w as int),
        in_data@.len() % 4 == 0 ==> untouched_from(final(out_data)@, old(out_data)@, body_end(in_data@.len() as int) / 4 * 3),
        ds64_roomy(in_data@.len() as int, old(out_data)@.len() as int) ==> {
            &&& r is None <==> flagged_in(
                in_data@,
                0,
                simd_consumed(in_data@.len() as int),
                |k: int| ds64_checks(in_data@.len() as int, k, false),
            )
            &&& r matches Some((c, w)) ==> c == simd_consumed(in_data@.len() as int)
            &&& untouched_from(final(out_data)@, old(out_data)@, simd_consumed(in_data@.len() as int) / 4 * 3)
        },
        r is None <==> flagged_in(
            in_data@,
            0,
            super::ssse3::ds64_loops_end(in_data@.len() as int, old(out_data)@.len() as int, false),
            |k: int| super::ssse3::ds64_checks_at(in_data@.len() as int, old(out_data)@.len() as int, k, false),
        ),
        r matches Some((c, w)) ==> c == super::ssse3::ds64_loops_end(in_data@.len() as int, old(out_data)@.len() as int, false),
        untouched_from(final(out_data)@, old(out_data)@, super::ssse3::ds64_loops_end(in_data@.len() as int, old(out_data)@.len() as int, false) / 4 * 3),
        super::vector::quads_decoded(final(out_data)@, in_data@, 0, super::ssse3::ds64_loops_end(in_data@.len() as int, old(out_data)@.len() as int, false) / 4),
{
    decode_ds64_kernel(in_data, out_data, &LaneDecoder::HashShift, false)
}

/// Strict SIMD128 decode: every vector is validated.
pub fn decode_wasm_strict(in_data: &[u8], out_data: &mut [u8]) -> (r: Option<(usize, usize)>)
    ensures
        final(out_data)@.len() == old(out_data)@.len(),
        decode_kernel_ok(in_data@, final(out_data)@, r, true),
        r matches Some((c, w)) ==> untouched_from(final(out_data)@, old(out_data)@, w as int),
        in_data@.len() % 4 == 0 ==> untouched_from(final(out_data)@, old(out_data)@, body_end(in_data@.len() as int) / 4 * 3),
        ds64_roomy(in_data@.len() as int, old(out_data)@.len() as int) ==> {
            &&& r is None <==> flagged_in(
                in_data@,
                0,
                simd_consumed(in_data@.len() as int),
                |k: int| ds64_checks(in_data@.len() as int, k, true),
            )
            &&& r matches Some((c, w)) ==> c == simd_consumed(in_data@.len() as int)
            &&& untouched_from(final(out_data)@, old(out_data)@, simd_consumed(in_data@.len() as int) / 4 * 3)
        },
        r is None <==> flagged_in(
            in_data@,
            0,
            super::ssse3::ds64_loops_end(in_data@.len() as int, old(out_data)@.len() as int, false),
            |k: int| super::ssse3::ds64_checks_at(in_data@.len() as int, old(out_data)@.len() as int, k, true),
        ),
        r matches Some((c, w)) ==> c == super::ssse3::ds64_loops_end(in_data@.len() as int, old(out_data)@.len() as int, false),
        untouched_from(final(out_data)@, old(out_data)@, super::ssse3::ds64_loops_end(in_data@.len() as int, old(out_data)@.len() as int, false) / 4 * 3),
        super::vector::quads_decoded(final(out_data)@, in_data@, 0, super::ssse3::ds64_loops_end(in_data@.len() as int, old(out_data)@.len() as int, false) / 4),
{
    decode_ds64_kernel(in_data, out_data, &LaneDecoder::HashShift, true)
}

/// SIMD128 Base64 encoder: inputs under 52 bytes are left to the scalar
/// encoder; then main, drain and tail steps as the schedule model's guards
/// allow. Returns `(consumed, written)`.
pub fn encode_base64_wasm(in_data: &[u8], out_data: &mut [u8]) -> (r: (usize, usize))
    requires
        enc_len(in_data@.len() as int) <= old(out_data)@.len(),
    ensures
        final(out_data)@.len() == old(out_data)@.len(),
        encode_kernel_ok(in_data@, final(out_data)@, r),
        untouched_from(final(out_data)@, old(out_data)@, r.1 as int),
        r.0 == verify_model::encode_consumed(in_data@.len() as int),
{
    let ghost d = in_data@;
    let n = in_data.len();
    let olen = out_data.len();
    let kind = EncodeLane::Pmul;
    proof {
        assert(groups_encoded(out_data@, d, 0, 0));
    }
    if n < verify_model::ENCODE_SIMD_ENTRY_THRESHOLD {
        return (0, 0);
    }
    let ghost len = n as int;
    let ghost a = greedy_steps(len, 107, 96);
    let mut ip: usize = 0;
    let mut op: usize = 0;
    while verify_model::can_run_encode_main(n - ip)
        invariant
            len == n,
            a == greedy_steps(len, 107, 96),
            ip + 96 * greedy_steps(len - ip, 107, 96) == 96 * a,
            d == in_data@,
            n == d.len(),
            enc_len(n as int) <= out_data@.len(),
            olen == out_data@.len(),
            out_data@.len() == old(out_data)@.len(),
            ip % 3 == 0,
            ip <= n,
            op == ip / 3 * 4,
            untouched_from(out_data@, old(out_data)@, op as int),
            groups_encoded(out_data@, d, 0, (ip / 3) as int),
        decreases n - ip,
    {
        let ghost prev = out_data@;
        encode_group_run(in_data, ip / 3, 32, out_data, &kind);
        proof {
            lemma_encode_step(d, prev, out_data@, (ip / 3) as int, 32);
            lemma_untouched_step(old(out_data)@, prev, out_data@, 4 * ((ip / 3) as int), 4 * ((ip / 3) as int + 32));
            assert(greedy_steps(len - ip, 107, 96) == 1 + greedy_steps(len - (ip + 96), 107, 96));
        }
        ip = ip + verify_model::ENCODE_MAIN_INPUT_BYTES;
        op = op + verify_model::ENCODE_MAIN_OUTPUT_BYTES;
    }
    let ghost ia = ip as int;
    let ghost b = greedy_steps(len - ia, 59, 48);
    proof {
        assert(ia == 96 * a);
    }
    while verify_model::can_run_encode_drain(n - ip)
        invariant
            len == n,
            ia == 96 * a,
            b == greedy_steps(len - ia, 59, 48),
            ip + 48 * greedy_steps(len - ip, 59, 48) == ia + 48 * b,
            d == in_data@,
            n == d.len(),
            enc_len(n as int) <= out_data@.len(),
            olen == out_data@.len(),
            out_data@.len() == old(out_data)@.len(),
            ip % 3 == 0,
            ip <= n,
            op == ip / 3 * 4,
            untouched_from(out_data@, old(out_data)@, op as int),
            groups_encoded(out_data@, d, 0, (ip / 3) as int),
        decreases n - ip,
    {
        let ghost prev = out_data@;
        encode_group_run(in_data, ip / 3, 16, out_data, &kind);
        proof {
            lemma_encode_step(d, prev, out_data@, (ip / 3) as int, 16);
            lemma_untouched_step(old(out_data)@, prev, out_data@, 4 * ((ip / 3) as int), 4 * ((ip / 3) as int + 16));
            assert(greedy_steps(len - ip, 59, 48) == 1 + greedy_steps(len - (ip + 48), 59, 48));
        }
        ip = ip + verify_model::ENCODE_DRAIN_INPUT_BYTES;
        op = op + verify_model::ENCODE_DRAIN_OUTPUT_BYTES;
    }
    let ghost ib = ip as int;
    let ghost c = greedy_steps(len - ib, 15, 12);
    proof {
        assert(ib == ia + 48 * b);
    }
    while verify_model::can_run_encode_tail(n - ip)
        invariant
            len == n,
            ib == ia + 48 * b,
            c == greedy_steps(len - ib, 15, 12),
            ip + 12 * greedy_steps(len - ip, 15, 12) == ib + 12 * c,
            d == in_data@,
            n == d.len(),
            enc_len(n as int) <= out_data@.len(),
            olen == out_data@.len(),
            out_data@.len() == old(out_data)@.len(),
            ip % 3 == 0,
            ip <= n,
            op == ip / 3 * 4,
            untouched_from(out_data@, old(out_data)@, op as int),
            groups_encoded(out_data@, d, 0, (ip / 3) as int),
        decreases n - ip,
    {
        let ghost prev = out_data@;
        encode_group_run(in_data, ip / 3, 4, out_data, &kind);
        proof {
            lemma_encode_step(d, prev, out_data@, (ip / 3) as int, 4);
            lemma_untouched_step(old(out_data)@, prev, out_data@, 4 * ((ip / 3) as int), 4 * ((ip / 3) as int + 4));
            assert(greedy_steps(len - ip, 15, 12) == 1 + greedy_steps(len - (ip + 12), 15, 12));
        }
        ip = ip + verify_model::ENCODE_TAIL_INPUT_BYTES;
        op = op + verify_model::ENCODE_TAIL_OUTPUT_BYTES;
    }
    proof {
        assert(ip == ib + 12 * c);
    }
    (ip, op)
}

} // verus!
