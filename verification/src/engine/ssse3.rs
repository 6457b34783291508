//! SSSE3 Base64 codec: Turbo-Base64's SSSE3 schedule on portable lanes.
//!
//! # Decoder
//!
//! [`Ssse3Decoder`] supports two validation modes controlled by
//! [`DecodeOpts`]:
//!
//! - **Non-strict** (`strict: false`). Validates only the first of every four
//!   16-byte vectors per DS64 block. Intended for trusted input: it is not a
//!   full validator.
//! - **Strict** (`strict: true`, default). Validates all four vectors.
//!
//! Each 16-byte vector is decoded in three stages: the mapping hash turns
//! every character into its 6-bit value, two multiply-adds and a cross-pack
//! shuffle pack four values into three bytes per 32-bit lane, and the
//! validity hash flags the bytes outside the alphabet (see [`super::lanes`]).
//! The input is processed in DS64 blocks (64 characters, four vectors), two
//! at a time and then one at a time, then in single vectors; the last quad
//! and anything the guards leave is decoded by the scalar engine.
//!
//! # Encoder
//!
//! The encoder spreads each 3-byte group over a 32-bit lane, extracts the
//! four 6-bit fields with two lane multiplies and translates them to ASCII
//! with an offset lookup, in 96-, 48- and 12-byte steps; the scalar encoder
//! finishes the tail.
use vstd::prelude::*;
use super::b64::{decodable, decoded_bytes, decoded_len_spec, enc_len, encode_spec, is_b64};
use super::common::{
    can_advance, can_process_ds64, can_process_ds64_double, can_process_tail16, gap,
    prepare_decode_output, safe_in_end_4,
};
use super::lanes::{range_valid, CheckMode, EncodeLane, LaneDecoder};
use super::models::ssse3 as verify_model;
use super::models::ssse3::simd_consumed;
use super::models::{greedy_steps, lemma_greedy_steps};
use super::vector::{
    lemma_untouched_step, loop_end, untouched_from,
    all_set, block_flagged, body_end, flagged_in, lemma_flagged_same, lemma_flagged_split, lemma_flagged_vector, lemma_step_room, decode_block, decode_kernel_ok, encode_group_run, encode_kernel_ok,
    groups_encoded, lemma_encode_step, lemma_kernel_reject, lemma_kernel_step, quads_decoded,
};
use super::{Base64Decoder, DecodeOpts};

verus! {

/// SSSE3 Base64 decoder and encoder.
///
/// `Ssse3Decoder::new()` is strict (every vector validated);
/// `Ssse3Decoder::with_opts(opts)` takes a custom configuration. The encoder
/// does not depend on the options.
pub struct Ssse3Decoder {
    opts: DecodeOpts,
}

impl Ssse3Decoder {
    /// Whether this decoder validates every input vector.
    pub closed spec fn is_strict(&self) -> bool {
        self.opts.strict
    }

    /// Create a new decoder with default options (strict mode).
    pub fn new() -> (r: Self)
        ensures
            r.is_strict(),
    {
        Self { opts: DecodeOpts::default() }
    }

    /// Create a new decoder with the given options.
    pub fn with_opts(opts: DecodeOpts) -> (r: Self)
        ensures
            r.is_strict() == opts.strict,
    {
        Self { opts }
    }
}

/// A decoder is its validation mode: two decoders in the same mode are the
/// same value, so `Ssse3Decoder::new()` is `Ssse3Decoder::with_opts(DecodeOpts { strict: true })`
/// and `default()` is the same decoder again.
pub proof fn law_decoder_is_its_mode(a: Ssse3Decoder, b: Ssse3Decoder)
    requires
        a.is_strict() == b.is_strict(),
    ensures
        a == b,
{
}

impl Default for Ssse3Decoder {
    fn default() -> (r: Self)
        ensures
            r.is_strict(),
    {
        Self::new()
    }
}

impl Base64Decoder for Ssse3Decoder {
    open spec fn validates_all(&self) -> bool {
        self.is_strict()
    }

    /// Decode Base64 `input` into `out`: the SSSE3 kernel (strict or not, as
    /// configured) followed by the scalar tail.
    fn decode_to_slice(&self, input: &[u8], out: &mut [u8]) -> (r: Option<usize>)
        ensures
            decoded_len_spec(input@) is Some && decoded_len_spec(input@)->0 <= old(out)@.len() ==> {
                &&& r is Some <==> !super::engine_flags(super::SimdEngine::Ssse3, self.is_strict(), input@, old(out)@.len() as int)
                    && super::engine_tail_decodes(super::SimdEngine::Ssse3, self.is_strict(), input@, old(out)@.len() as int)
                &&& super::engine_flags(super::SimdEngine::Ssse3, self.is_strict(), input@, old(out)@.len() as int) ==> {
                    &&& untouched_from(
                        final(out)@,
                        old(out)@,
                        super::engine_consumed(super::SimdEngine::Ssse3, self.is_strict(), input@.len() as int, old(out)@.len() as int) / 4 * 3,
                    )
                    &&& super::vector::quads_decoded(
                        final(out)@,
                        input@,
                        0,
                        super::engine_consumed(super::SimdEngine::Ssse3, self.is_strict(), input@.len() as int, old(out)@.len() as int) / 4,
                    )
                }
            },
    {
        let _out_len = match prepare_decode_output(input, out) {
            Some(n) => n,
            None => return None,
        };
        super::dispatch_decode(input, out, &super::SimdEngine::Ssse3, self.opts.strict)
    }

    /// Encode raw bytes to Base64: the SSSE3 kernel, then the scalar tail.
    fn encode_to_slice(&self, input: &[u8], out: &mut [u8]) -> (r: usize) {
        let (consumed, written) = encode_base64_ssse3(input, out);
        super::finish_encode(input, out, consumed, written)
    }
}

// ---------------------------------------------------------------------------
// Decode kernels
// ---------------------------------------------------------------------------

/// Whether the 16-byte kernels validate byte `k` of an input of `len` bytes:
/// every byte in strict mode; in non-strict mode, inside the DS64 blocks
/// (the first `ds_input(len)` bytes) only the first 16-byte vector of each
/// block, and every byte after them.
pub open spec fn ds64_checks(len: int, k: int, strict: bool) -> bool {
    strict || k >= verify_model::ds_input(len) || k % 64 < 16
}

/// The output holds the bytes the model's schedule writes, plus the 4-byte
/// store overhang: no output guard stops a vector loop early.
pub open spec fn ds64_roomy(len: int, out_len: int) -> bool {
    out_len >= verify_model::simd_consumed(len) / 4 * 3 + 4
}

/// A DS64 block at `ip` (a multiple of 64) is flagged by its validated
/// vectors exactly when a byte that the schedule validates is bad.
proof fn lemma_ds64_block_flags(s: Seq<u8>, ip: int, checks: Seq<bool>, strict: bool)
    requires
        0 <= ip,
        ip % 64 == 0,
        checks.len() == 4,
        checks == (if strict { seq![true, true, true, true] } else { seq![true, false, false, false] }),
    ensures
        block_flagged(s, ip / 4, 4, checks, 4) == flagged_in(s, ip, ip + 64, |k: int| strict || k % 64 < 16),
{
    let p = |k: int| strict || k % 64 < 16;
    let q0 = ip / 4;
    assert forall|k: int| ip <= k < ip + 64 implies #[trigger] (k % 64) == k - ip by {
        assert(k % 64 == k - ip) by (nonlinear_arith)
            requires
                ip % 64 == 0,
                ip <= k < ip + 64,
        ;
    }
    assert(4 * q0 == ip);
    if block_flagged(s, q0, 4, checks, 4) {
        let w = choose|w: int| 0 <= w < 4 && #[trigger] checks[w] && !range_valid(s, 4 * (q0 + 4 * w), 4 * (q0 + 4 * (w + 1)));
        let k = choose|k: int| ip + 16 * w <= k < ip + 16 * w + 16 && !#[trigger] is_b64(s[k]);
        assert(p(k));
        assert(flagged_in(s, ip, ip + 64, p));
    }
    if flagged_in(s, ip, ip + 64, p) {
        let k = choose|k: int| ip <= k < ip + 64 && p(k) && !#[trigger] is_b64(s[k]);
        let w = (k - ip) / 16;
        assert(0 <= w < 4);
        assert(checks[w]);
        assert(ip + 16 * w <= k < ip + 16 * w + 16);
        assert(!range_valid(s, 4 * (q0 + 4 * w), 4 * (q0 + 4 * (w + 1))));
    }
}

/// Where the vector loops of the 16-byte engines stop for `len` characters
/// and an output of `out_len` bytes, following their guards: nothing unless
/// 32 characters lie before the last quad and 16 output bytes are free; then
/// pairs of DS64 blocks while 160 characters and 100 output bytes remain,
/// single blocks while 96 and 52 remain, and 16-byte vectors while 16 and 16
/// remain (`ds` selects the end of the block loops).
pub open spec fn ds64_loops_end(len: int, out_len: int, ds: bool) -> int {
    let safe = verify_model::safe_len(len);
    if !(safe >= 32 && out_len >= 16) {
        0
    } else {
        let d1 = loop_end(0, safe, 159, 128, out_len, 100);
        let de = loop_end(d1, safe, 95, 64, out_len, 52);
        if ds {
            de
        } else {
            loop_end(de, safe, 15, 16, out_len, 16)
        }
    }
}

/// Whether the 16-byte engines validate byte `k` for `len` characters and an
/// output of `out_len` bytes: every byte in strict mode; in non-strict mode
/// the first vector of each DS64 block, and every byte after the blocks.
pub open spec fn ds64_checks_at(len: int, out_len: int, k: int, strict: bool) -> bool {
    strict || k >= ds64_loops_end(len, out_len, true) || k % 64 < 16
}

/// The decode schedule of the 16-byte engines (SSSE3, WebAssembly) with the
/// hash lane decoder `lane`: DS64 blocks in pairs, then single DS64 blocks,
/// then 16-byte vectors, all before the last quad and within the output
/// guards. In non-strict mode only the first vector of a DS64 block is
/// validated. Returns `(consumed, written)`, or `None` when a validated vector
/// holds a byte outside the alphabet. When the output has room for all the
/// model's steps, the kernel takes exactly those steps and rejects exactly
/// the inputs with a bad byte among those it validates.
///
/// The kernel does not first decode scalar quads until the output address is
/// aligned: it starts its vector steps at the first character whatever the
/// output's address, so its result depends only on the input and the output
/// length.
#[verifier::rlimit(40)]
pub fn decode_ds64_kernel(in_data: &[u8], out_data: &mut [u8], lane: &LaneDecoder, strict: bool) -> (r:
    Option<(usize, usize)>)
    ensures
        final(out_data)@.len() == old(out_data)@.len(),
        decode_kernel_ok(in_data@, final(out_data)@, r, strict),
        r matches Some((c, w)) ==> untouched_from(final(out_data)@, old(out_data)@, w as int),
        in_data@.len() % 4 == 0 ==> untouched_from(final(out_data)@, old(out_data)@, body_end(in_data@.len() as int) / 4 * 3),
        ds64_roomy(in_data@.len() as int, old(out_data)@.len() as int) ==> {
            &&& r is None <==> flagged_in(
                in_data@,
                0,
                verify_model::simd_consumed(in_data@.len() as int),
                |k: int| ds64_checks(in_data@.len() as int, k, strict),
            )
            &&& r matches Some((c, w)) ==> c == verify_model::simd_consumed(in_data@.len() as int)
            &&& untouched_from(final(out_data)@, old(out_data)@, verify_model::simd_consumed(in_data@.len() as int) / 4 * 3)
        },
        r is None <==> flagged_in(
            in_data@,
            0,
            ds64_loops_end(in_data@.len() as int, old(out_data)@.len() as int, false),
            |k: int| ds64_checks_at(in_data@.len() as int, old(out_data)@.len() as int, k, strict),
        ),
        r matches Some((c, w)) ==> c == ds64_loops_end(in_data@.len() as int, old(out_data)@.len() as int, false),
        untouched_from(final(out_data)@, old(out_data)@, ds64_loops_end(in_data@.len() as int, old(out_data)@.len() as int, false) / 4 * 3),
        quads_decoded(final(out_data)@, in_data@, 0, ds64_loops_end(in_data@.len() as int, old(out_data)@.len() as int, false) / 4),
{
    let ghost s = in_data@;
    let n = in_data.len();
    let ghost len = n as int;
    let out_end = out_data.len();
    let safe_end = safe_in_end_4(in_data);
    let ghost safe = safe_end as int;
    let ghost roomy = ds64_roomy(len, out_end as int);
    let ghost consumed = verify_model::simd_consumed(len);
    let ghost k2 = greedy_steps(safe, 159, 128);
    let ghost p_ds = |k: int| strict || k % 64 < 16;
    let ghost ol = out_end as int;
    let ghost d1 = loop_end(0, safe, 159, 128, ol, 100);
    let ghost de_s = loop_end(d1, safe, 95, 64, ol, 52);
    let ghost end_s = loop_end(de_s, safe, 15, 16, ol, 16);
    proof {
        assert(safe == verify_model::safe_len(len));
        lemma_greedy_steps(safe, 159, 128);
    }
    if !can_advance(0, safe_end, verify_model::SIMD_PRELOAD_BYTES, 0, out_end, verify_model::STORE_WIDTH_BYTES) {
        proof {
            assert(quads_decoded(out_data@, s, 0, 0));
            if roomy && safe >= 32 {
                let ds = verify_model::ds_input(len);
                lemma_greedy_steps(safe - ds, 15, 16);
                if ds == 0 {
                    assert(greedy_steps(safe - ds, 15, 16) >= 1);
                }
                assert(consumed >= 16);
                lemma_step_room(consumed, 0, 16, out_end as int, 4);
            }
            assert(!flagged_in(s, 0, 0, |k: int| ds64_checks(len, k, strict)));
        }
        return Some((0, 0));
    }
    let kind = lane;
    let mode = CheckMode::Full;
    let block_checks: [bool; 4] = if strict {
        [true, true, true, true]
    } else {
        [true, false, false, false]
    };
    let tail_checks: [bool; 1] = [true];
    proof {
        assert(strict ==> all_set(block_checks@));
        assert(all_set(tail_checks@));
        assert(block_checks@ == (if strict { seq![true, true, true, true] } else { seq![true, false, false, false] }));
        assert(!flagged_in(s, 0, 0, p_ds));
    }
    let mut ip: usize = 0;
    let mut op: usize = 0;
    let mut bad = false;
    proof {
        assert(quads_decoded(out_data@, s, 0, 0));
    }
    if can_process_ds64(ip, safe_end, op, out_end) {
        while can_process_ds64_double(ip, safe_end, op, out_end)
            invariant
                s == in_data@,
                kind == lane,
                mode == CheckMode::Full,
                n == s.len(),
                len == n,
                safe_end == body_end(n as int),
                safe == safe_end,
                safe >= 32,
                out_end == out_data@.len(),
                out_data@.len() == old(out_data)@.len(),
                ip % 4 == 0,
                op == ip / 4 * 3,
                untouched_from(out_data@, old(out_data)@, op as int),
                ip <= safe_end,
                op <= out_end,
                block_checks@.len() == 4,
                block_checks@ == (if strict { seq![true, true, true, true] } else { seq![true, false, false, false] }),
                strict ==> all_set(block_checks@),
                quads_decoded(out_data@, s, 0, (ip / 4) as int),
                range_valid(s, 0, ip as int) ==> !bad,
                strict && !bad ==> range_valid(s, 0, ip as int),
                p_ds == (|k: int| strict || k % 64 < 16),
                bad == flagged_in(s, 0, ip as int, p_ds),
                ip % 128 == 0,
                ol == out_end,
                loop_end(ip as int, safe, 159, 128, ol, 100) == d1,
                roomy == ds64_roomy(len, out_end as int),
                consumed == verify_model::simd_consumed(len),
                k2 == greedy_steps(safe, 159, 128),
                roomy ==> ip + 128 * greedy_steps(safe - ip, 159, 128) == 128 * k2,
            decreases safe_end - ip,
        {
            let ghost p0 = out_data@;
            let b1 = decode_block(in_data, ip / 4, 4, block_checks.as_slice(), out_data, kind, &mode);
            let ghost p1 = out_data@;
            let b2 = decode_block(in_data, ip / 4 + 16, 4, block_checks.as_slice(), out_data, kind, &mode);
            proof {
                lemma_kernel_step(s, p0, p1, ip as int, 64, bad, b1, strict);
                lemma_untouched_step(old(out_data)@, p0, p1, 3 * ((ip) as int / 4), 3 * ((ip + 64) as int / 4));
                lemma_kernel_step(s, p1, out_data@, ip + 64, 64, bad || b1, b2, strict);
                lemma_untouched_step(old(out_data)@, p1, out_data@, 3 * ((ip + 64) as int / 4), 3 * ((ip + 64 + 64) as int / 4));
                lemma_ds64_block_flags(s, ip as int, block_checks@, strict);
                assert((ip + 64) / 4 == ip / 4 + 16);
                lemma_ds64_block_flags(s, ip + 64, block_checks@, strict);
                lemma_flagged_split(s, 0, ip as int, ip + 64, p_ds);
                lemma_flagged_split(s, 0, ip + 64, ip + 128, p_ds);
                if roomy {
                    lemma_greedy_steps(safe - ip, 159, 128);
                    lemma_greedy_steps(safe - ip - 128, 159, 128);
                }
            }
            bad = bad || b1 || b2;
            ip = ip + 2 * verify_model::DS64_INPUT_BYTES;
            op = op + 2 * verify_model::DS64_OUTPUT_BYTES;
        }
        proof {
            if roomy {
                lemma_greedy_steps(safe - ip, 159, 128);
                if safe - ip >= 160 {
                    let ds = verify_model::ds_input(len);
                    assert(ds >= 128 * k2);
                    assert(consumed >= ds);
                    lemma_step_room(consumed, ip as int, 128, out_end as int, 4);
                }
                assert(ip == 128 * k2);
            }
        }
        let ghost p1 = ip as int;
        let ghost m = greedy_steps(safe - p1, 95, 64);
        proof {
            lemma_greedy_steps(safe - p1, 95, 64);
        }
        while can_process_ds64(ip, safe_end, op, out_end)
            invariant
                s == in_data@,
                kind == lane,
                mode == CheckMode::Full,
                n == s.len(),
                len == n,
                safe_end == body_end(n as int),
                safe == safe_end,
                safe >= 32,
                out_end == out_data@.len(),
                out_data@.len() == old(out_data)@.len(),
                ip % 4 == 0,
                op == ip / 4 * 3,
                untouched_from(out_data@, old(out_data)@, op as int),
                ip <= safe_end,
                op <= out_end,
                block_checks@.len() == 4,
                block_checks@ == (if strict { seq![true, true, true, true] } else { seq![true, false, false, false] }),
                strict ==> all_set(block_checks@),
                quads_decoded(out_data@, s, 0, (ip / 4) as int),
                range_valid(s, 0, ip as int) ==> !bad,
                strict && !bad ==> range_valid(s, 0, ip as int),
                p_ds == (|k: int| strict || k % 64 < 16),
                bad == flagged_in(s, 0, ip as int, p_ds),
                ip % 64 == 0,
                ip >= p1,
                ol == out_end,
                d1 == p1,
                loop_end(ip as int, safe, 95, 64, ol, 52) == de_s,
                roomy == ds64_roomy(len, out_end as int),
                consumed == verify_model::simd_consumed(len),
                k2 == greedy_steps(safe, 159, 128),
                m == greedy_steps(safe - p1, 95, 64),
                roomy ==> p1 == 128 * k2,
                roomy ==> ip + 64 * greedy_steps(safe - ip, 95, 64) == p1 + 64 * m,
            decreases safe_end - ip,
        {
            let ghost p0 = out_data@;
            let b1 = decode_block(in_data, ip / 4, 4, block_checks.as_slice(), out_data, kind, &mode);
            proof {
                lemma_kernel_step(s, p0, out_data@, ip as int, 64, bad, b1, strict);
                lemma_untouched_step(old(out_data)@, p0, out_data@, 3 * ((ip) as int / 4), 3 * ((ip + 64) as int / 4));
                lemma_ds64_block_flags(s, ip as int, block_checks@, strict);
                lemma_flagged_split(s, 0, ip as int, ip + 64, p_ds);
                if roomy {
                    lemma_greedy_steps(safe - ip, 95, 64);
                }
            }
            bad = bad || b1;
            ip = ip + verify_model::DS64_INPUT_BYTES;
            op = op + verify_model::DS64_OUTPUT_BYTES;
        }
        proof {
            if roomy {
                lemma_greedy_steps(safe - ip, 95, 64);
                if safe - ip >= 96 {
                    let ds = verify_model::ds_input(len);
                    assert(ds >= ip + 64);
                    assert(consumed >= ds);
                    lemma_step_room(consumed, ip as int, 64, out_end as int, 4);
                }
                assert(ip == verify_model::ds_input(len));
            }
        }
    } else {
        proof {
            if roomy && safe >= 96 {
                lemma_greedy_steps(safe - 128 * k2, 95, 64);
                let ds = verify_model::ds_input(len);
                assert(ds >= 64);
                assert(consumed >= ds);
                lemma_step_room(consumed, 0, 64, out_end as int, 4);
            }
            if roomy {
                assert(k2 == 0);
                assert(verify_model::ds_input(len) == 0);
            }
        }
    }
    let ghost de = ip as int;
    let ghost p_all = |k: int| ds64_checks(len, k, strict);
    let ghost p_tail = |k: int| strict || k >= de || k % 64 < 16;
    let ghost t = greedy_steps(safe - de, 15, 16);
    proof {
        lemma_flagged_same(s, 0, de, p_ds, p_tail);
        lemma_greedy_steps(safe - de, 15, 16);
    }
    while can_process_tail16(ip, safe_end, op, out_end)
        invariant
            s == in_data@,
            kind == lane,
            mode == CheckMode::Full,
            n == s.len(),
            len == n,
            safe_end == body_end(n as int),
            safe == safe_end,
            safe >= 32,
            out_end == out_data@.len(),
            out_data@.len() == old(out_data)@.len(),
            ip % 4 == 0,
            op == ip / 4 * 3,
            untouched_from(out_data@, old(out_data)@, op as int),
            ip <= safe_end,
            op <= out_end,
            tail_checks@.len() == 1,
            all_set(tail_checks@),
            quads_decoded(out_data@, s, 0, (ip / 4) as int),
            range_valid(s, 0, ip as int) ==> !bad,
            strict && !bad ==> range_valid(s, 0, ip as int),
            ip >= de,
            ol == out_end,
            de == de_s,
            loop_end(ip as int, safe, 15, 16, ol, 16) == end_s,
            p_tail == (|k: int| strict || k >= de || k % 64 < 16),
            bad == flagged_in(s, 0, ip as int, p_tail),
            roomy == ds64_roomy(len, out_end as int),
            consumed == verify_model::simd_consumed(len),
            t == greedy_steps(safe - de, 15, 16),
            roomy ==> de == verify_model::ds_input(len),
            roomy ==> ip + 16 * greedy_steps(safe - ip, 15, 16) == de + 16 * t,
        decreases safe_end - ip,
    {
        let ghost p0 = out_data@;
        let b1 = decode_block(in_data, ip / 4, 4, tail_checks.as_slice(), out_data, kind, &mode);
        proof {
            lemma_kernel_step(s, p0, out_data@, ip as int, 16, bad, b1, strict);
                lemma_untouched_step(old(out_data)@, p0, out_data@, 3 * ((ip) as int / 4), 3 * ((ip + 16) as int / 4));
            assert(tail_checks@[0]);
            assert(block_flagged(s, (ip / 4) as int, 4, tail_checks@, 1) == !range_valid(s, ip as int, ip + 16)) by {
                assert(4 * (ip / 4 + 4 * 0) == ip && 4 * (ip / 4 + 4 * (0 + 1)) == ip + 16);
            }
            lemma_flagged_vector(s, ip as int, ip + 16, p_tail);
            lemma_flagged_split(s, 0, ip as int, ip + 16, p_tail);
            if roomy {
                lemma_greedy_steps(safe - ip, 15, 16);
            }
        }
        bad = bad || b1;
        ip = ip + verify_model::TAIL16_INPUT_BYTES;
        op = op + verify_model::TAIL16_OUTPUT_BYTES;
    }
    proof {
        if roomy {
            lemma_greedy_steps(safe - ip, 15, 16);
            if safe - ip >= 16 {
                assert(consumed == de + 16 * t);
                lemma_step_room(consumed, ip as int, 16, out_end as int, 4);
            }
            assert(ip == consumed);
            lemma_flagged_same(s, 0, ip as int, p_tail, p_all);
        }
        assert(ip == ds64_loops_end(len, ol, false));
        lemma_flagged_same(s, 0, ip as int, p_tail, |k: int| ds64_checks_at(len, ol, k, strict));
    }
    if bad {
        proof {
            lemma_kernel_reject(s, ip as int, bad);
        }
        None
    } else {
        Some((ip, op))
    }
}

/// Non-strict SSSE3 decode: in each DS64 block only the first 16-byte vector
/// is validated. Returns `(consumed, written)` for the scalar tail, or `None`
/// when a validated vector holds a byte outside the alphabet.
pub fn decode_ssse3(in_data: &[u8], out_data: &mut [u8]) -> (r: Option<(usize, usize)>)
    ensures
        final(out_data)@.len() == old(out_data)@.len(),
        decode_kernel_ok(in_data@, final(out_data)@, r, false),
        r matches Some((c, w)) ==> untouched_from(final(out_data)@, old(out_data)@, w as int),
        in_data@.len() % 4 == 0 ==> untouched_from(final(out_data)@, old(out_data)@, body_end(in_data@.len() as int) / 4 * 3),
        ds64_roomy(in_data@.len() as int, old(out_data)@.len() as int) ==> {
            &&& r is None <==> flagged_in(
                in_data@,
                0,
                simd_consumed(in_data@.len() as int),
                |k: int| ds64_checks(in_data@.len() as int, k, false),
            )
            &&& r matches Some((c, w)) ==> c == simd_consumed(in_data@.len() as int)
            &&& untouched_from(final(out_data)@, old(out_data)@, simd_consumed(in_data@.len() as int) / 4 * 3)
        },
        r is None <==> flagged_in(
            in_data@,
            0,
            ds64_loops_end(in_data@.len() as int, old(out_data)@.len() as int, false),
            |k: int| ds64_checks_at(in_data@.len() as int, old(out_data)@.len() as int, k, false),
        ),
        r matches Some((c, w)) ==> c == ds64_loops_end(in_data@.len() as int, old(out_data)@.len() as int, false),
        untouched_from(final(out_data)@, old(out_data)@, ds64_loops_end(in_data@.len() as int, old(out_data)@.len() as int, false) / 4 * 3),
        super::vector::quads_decoded(final(out_data)@, in_data@, 0, ds64_loops_end(in_data@.len() as int, old(out_data)@.len() as int, false) / 4),
{
    decode_ds64_kernel(in_data, out_data, &LaneDecoder::HashMadd, false)
}

/// Strict SSSE3 decode: every vector is validated, so success means the
/// consumed prefix holds only alphabet characters.
pub fn decode_ssse3_strict(in_data: &[u8], out_data: &mut [u8]) -> (r: Option<(usize, usize)>)
    ensures
        final(out_data)@.len() == old(out_data)@.len(),
        decode_kernel_ok(in_data@, final(out_data)@, r, true),
        r matches Some((c, w)) ==> untouched_from(final(out_data)@, old(out_data)@, w as int),
        in_data@.len() % 4 == 0 ==> untouched_from(final(out_data)@, old(out_data)@, body_end(in_data@.len() as int) / 4 * 3),
        ds64_roomy(in_data@.len() as int, old(out_data)@.len() as int) ==> {
            &&& r is None <==> flagged_in(
                in_data@,
                0,
                simd_consumed(in_data@.len() as int),
                |k: int| ds64_checks(in_data@.len() as int, k, true),
            )
            &&& r matches Some((c, w)) ==> c == simd_consumed(in_data@.len() as int)
            &&& untouched_from(final(out_data)@, old(out_data)@, simd_consumed(in_data@.len() as int) / 4 * 3)
        },
        r is None <==> flagged_in(
            in_data@,
            0,
            ds64_loops_end(in_data@.len() as int, old(out_data)@.len() as int, false),
            |k: int| ds64_checks_at(in_data@.len() as int, old(out_data)@.len() as int, k, true),
        ),
        r matches Some((c, w)) ==> c == ds64_loops_end(in_data@.len() as int, old(out_data)@.len() as int, false),
        untouched_from(final(out_data)@, old(out_data)@, ds64_loops_end(in_data@.len() as int, old(out_data)@.len() as int, false) / 4 * 3),
        super::vector::quads_decoded(final(out_data)@, in_data@, 0, ds64_loops_end(in_data@.len() as int, old(out_data)@.len() as int, false) / 4),
{
    decode_ds64_kernel(in_data, out_data, &LaneDecoder::HashMadd, true)
}

// ---------------------------------------------------------------------------
// Encode kernel
// ---------------------------------------------------------------------------

/// Input bytes the SSSE3 vector encoder consumes for `len` input bytes:
/// nothing under 52 bytes; else 96-byte steps while 108 bytes remain,
/// 48-byte steps while 60 remain, then 12-byte steps while 16 remain.
pub open spec fn ssse3_encode_consumed(len: int) -> int {
    if len < 52 {
        0
    } else {
        let a = greedy_steps(len, 107, 96);
        let b = greedy_steps(len - 96 * a, 59, 48);
        let c = greedy_steps(len - 96 * a - 48 * b, 15, 12);
        96 * (a as int) + 48 * (b as int) + 12 * (c as int)
    }
}

/// SSSE3 Base64 encoder: 96-byte steps (eight 12-byte vectors, 128
/// characters) while 108 input bytes remain, then 48-byte steps while 60
/// remain, then 12-byte steps while 16 remain (each vector load reads 16
/// bytes). Inputs under 52 bytes are left to the scalar encoder. Returns
/// `(consumed, written)`.
///
/// The encoder does not depend on the output's address: it takes its vector
/// steps on any output, aligned or not.
pub fn encode_base64_ssse3(in_data: &[u8], out_data: &mut [u8]) -> (r: (usize, usize))
    requires
        enc_len(in_data@.len() as int) <= old(out_data)@.len(),
    ensures
        final(out_data)@.len() == old(out_data)@.len(),
        encode_kernel_ok(in_data@, final(out_data)@, r),
        untouched_from(final(out_data)@, old(out_data)@, r.1 as int),
        r.0 == ssse3_encode_consumed(in_data@.len() as int),
{
    let ghost d = in_data@;
    let n = in_data.len();
    let olen = out_data.len();
    let kind = EncodeLane::Pmul;
    proof {
        assert(groups_encoded(out_data@, d, 0, 0));
    }
    if n < 52 {
        return (0, 0);
    }
    let ghost len = n as int;
    let ghost a = greedy_steps(len, 107, 96);
    let mut ip: usize = 0;
    let mut op: usize = 0;
    while ip + 108 <= n
        invariant
            len == n,
            a == greedy_steps(len, 107, 96),
            ip + 96 * greedy_steps(len - ip, 107, 96) == 96 * a,
            d == in_data@,
            n == d.len(),
            enc_len(n as int) <= out_data@.len(),
            olen == out_data@.len(),
            out_data@.len() == old(out_data)@.len(),
            ip % 3 == 0,
            ip <= n,
            op == ip / 3 * 4,
            untouched_from(out_data@, old(out_data)@, op as int),
            groups_encoded(out_data@, d, 0, (ip / 3) as int),
        decreases n - ip,
    {
        let ghost prev = out_data@;
        encode_group_run(in_data, ip / 3, 32, out_data, &kind);
        proof {
            lemma_encode_step(d, prev, out_data@, (ip / 3) as int, 32);
            lemma_untouched_step(old(out_data)@, prev, out_data@, 4 * ((ip / 3) as int), 4 * ((ip / 3) as int + 32));
            assert(greedy_steps(len - ip, 107, 96) == 1 + greedy_steps(len - (ip + 96), 107, 96));
        }
        ip = ip + 96;
        op = op + 128;
    }
    let ghost ia = ip as int;
    let ghost b = greedy_steps(len - ia, 59, 48);
    proof {
        assert(ia == 96 * a);
    }
    while ip + 60 <= n
        invariant
            len == n,
            ia == 96 * a,
            b == greedy_steps(len - ia, 59, 48),
            ip + 48 * greedy_steps(len - ip, 59, 48) == ia + 48 * b,
            d == in_data@,
            n == d.len(),
            enc_len(n as int) <= out_data@.len(),
            olen == out_data@.len(),
            out_data@.len() == old(out_data)@.len(),
            ip % 3 == 0,
            ip <= n,
            op == ip / 3 * 4,
            untouched_from(out_data@, old(out_data)@, op as int),
            groups_encoded(out_data@, d, 0, (ip / 3) as int),
        decreases n - ip,
    {
        let ghost prev = out_data@;
        encode_group_run(in_data, ip / 3, 16, out_data, &kind);
        proof {
            lemma_encode_step(d, prev, out_data@, (ip / 3) as int, 16);
            lemma_untouched_step(old(out_data)@, prev, out_data@, 4 * ((ip / 3) as int), 4 * ((ip / 3) as int + 16));
            assert(greedy_steps(len - ip, 59, 48) == 1 + greedy_steps(len - (ip + 48), 59, 48));
        }
        ip = ip + 48;
        op = op + 64;
    }
    let ghost ib = ip as int;
    let ghost c = greedy_steps(len - ib, 15, 12);
    proof {
        assert(ib == ia + 48 * b);
    }
    while ip + 16 <= n
        invariant
            len == n,
            ib == ia + 48 * b,
            c == greedy_steps(len - ib, 15, 12),
            ip + 12 * greedy_steps(len - ip, 15, 12) == ib + 12 * c,
            d == in_data@,
            n == d.len(),
            enc_len(n as int) <= out_data@.len(),
            olen == out_data@.len(),
            out_data@.len() == old(out_data)@.len(),
            ip % 3 == 0,
            ip <= n,
            op == ip / 3 * 4,
            untouched_from(out_data@, old(out_data)@, op as int),
            groups_encoded(out_data@, d, 0, (ip / 3) as int),
        decreases n - ip,
    {
        let ghost prev = out_data@;
        encode_group_run(in_data, ip / 3, 4, out_data, &kind);
        proof {
            lemma_encode_step(d, prev, out_data@, (ip / 3) as int, 4);
            lemma_untouched_step(old(out_data)@, prev, out_data@, 4 * ((ip / 3) as int), 4 * ((ip / 3) as int + 4));
            assert(greedy_steps(len - ip, 15, 12) == 1 + greedy_steps(len - (ip + 12), 15, 12));
        }
        ip = ip + 12;
        op = op + 16;
    }
    proof {
        assert(ip == ib + 12 * c);
    }
    (ip, op)
}

} // verus!
