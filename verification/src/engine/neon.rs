//! NEON Base64 codec: Turbo-Base64's AArch64 schedule on portable lanes.
//!
//! Each 64-byte chunk is de-interleaved (`vld4q_u8`) into the four positions
//! of sixteen quads. A two-pass lookup in a 128-byte table (`vqtbl4q_u8` on
//! the upper half, `vqtbx4q_u8` on the lower) turns every character into its
//! 6-bit value, `0xFF` outside the alphabet; shifts pack four values into
//! three bytes (`vst3q_u8`). A character is flagged when its value or the
//! character itself has the top bit set.
//!
//! - **Non-strict**: DN256 groups (four 64-byte chunks) of which only the
//!   last chunk is validated, while more than 256 characters remain.
//! - **Strict**: pairs of chunks, all validated, while more than 128 remain.
//!
//! Both then decode validated 64-byte chunks while more than 64 characters
//! remain. The encoder loads 48 bytes as three de-interleaved registers
//! (`vld3q_u8`), extracts the fields with shifts and maps them through the
//! 64-byte alphabet (`vqtbl4q_u8`), in pairs of blocks while 96 bytes remain
//! and single blocks while 48 remain.
//!
//! The vector loops also stop when the output has no room for the bytes of a
//! step; when the output holds the decoded length this never happens.
use vstd::prelude::*;
use super::b64::{decoded_len_spec, enc_len, is_b64};
use super::lanes::{range_valid, CheckMode, EncodeLane, LaneDecoder};
use super::models::neon as verify_model;
use super::models::{greedy_steps, lemma_greedy_steps};
use super::vector::{
    loop_end,
    lemma_untouched_step, untouched_from,
    all_set, block_flagged, body_end, decode_block, decode_kernel_ok, encode_group_run, encode_kernel_ok, flagged_in,
    lemma_flagged_same, lemma_flagged_split, lemma_flagged_vector, lemma_step_room,
    groups_encoded, lemma_encode_step, lemma_kernel_reject, lemma_kernel_step, quads_decoded,
};
use super::{Base64Decoder, DecodeOpts};

verus! {

/// NEON Base64 decoder and encoder.
///
/// `NeonDecoder::new()` is strict (every chunk validated);
/// `NeonDecoder::with_opts(opts)` takes a custom configuration.
pub struct NeonDecoder {
    opts: DecodeOpts,
}

impl NeonDecoder {
    /// Whether this decoder validates every input vector.
    pub closed spec fn is_strict(&self) -> bool {
        self.opts.strict
    }

    /// Create a new decoder with default options (strict mode).
    pub fn new() -> (r: Self)
        ensures
            r.is_strict(),
    {
        Self { opts: DecodeOpts::default() }
    }

    /// Create a new decoder with the given options.
    pub fn with_opts(opts: DecodeOpts) -> (r: Self)
        ensures
            r.is_strict() == opts.strict,
    {
        Self { opts }
    }
}

/// A decoder is its validation mode: two decoders in the same mode are the
/// same value, so `NeonDecoder::new()` is `NeonDecoder::with_opts(DecodeOpts { strict: true })`
/// and `default()` is the same decoder again.
pub proof fn law_decoder_is_its_mode(a: NeonDecoder, b: NeonDecoder)
    requires
        a.is_strict() == b.is_strict(),
    ensures
        a == b,
{
}

impl Default for NeonDecoder {
    fn default() -> (r: Self)
        ensures
            r.is_strict(),
    {
        Self::new()
    }
}

impl Base64Decoder for NeonDecoder {
    open spec fn validates_all(&self) -> bool {
        self.is_strict()
    }

    /// Decode Base64 `input` into `out`: the NEON kernel, then the scalar
    /// tail.
    fn decode_to_slice(&self, input: &[u8], out: &mut [u8]) -> (r: Option<usize>)
        ensures
            decoded_len_spec(input@) is Some && decoded_len_spec(input@)->0 <= old(out)@.len() ==> {
                &&& r is Some <==> !super::engine_flags(super::SimdEngine::Neon, self.is_strict(), input@, old(out)@.len() as int)
                    && super::engine_tail_decodes(super::SimdEngine::Neon, self.is_strict(), input@, old(out)@.len() as int)
                &&& super::engine_flags(super::SimdEngine::Neon, self.is_strict(), input@, old(out)@.len() as int) ==> {
                    &&& untouched_from(
                        final(out)@,
                        old(out)@,
                        super::engine_consumed(super::SimdEngine::Neon, self.is_strict(), input@.len() as int, old(out)@.len() as int) / 4 * 3,
                    )
                    &&& super::vector::quads_decoded(
                        final(out)@,
                        input@,
                        0,
                        super::engine_consumed(super::SimdEngine::Neon, self.is_strict(), input@.len() as int, old(out)@.len() as int) / 4,
                    )
                }
            },
    {
        let _out_len = match super::common::prepare_decode_output(input, out) {
            Some(n) => n,
            None => return None,
        };
        super::dispatch_decode(input, out, &super::SimdEngine::Neon, self.opts.strict)
    }

    /// Encode raw bytes to Base64: the NEON kernel, then the scalar tail.
    fn encode_to_slice(&self, input: &[u8], out: &mut [u8]) -> (r: usize) {
        let (consumed, written) = encode_base64_neon(input, out);
        super::finish_encode(input, out, consumed, written)
    }
}

/// Input bytes of one decode group: two chunks in strict mode, four in
/// non-strict mode.
pub open spec fn neon_group(strict: bool) -> int {
    if strict { 128 } else { 256 }
}

/// Input bytes the NEON vector loops consume for an input of `len` bytes:
/// groups while more than a group remains, then 64-byte chunks while more
/// than 64 remain.
pub open spec fn neon_consumed(len: int, strict: bool) -> int {
    let g = neon_group(strict);
    let gi = g * greedy_steps(len, g, g);
    gi + 64 * greedy_steps(len - gi, 64, 64)
}

/// Whether the NEON kernel validates byte `k` of an input of `len` bytes:
/// every byte in strict mode; in non-strict mode only the last chunk of each
/// group, and every byte after the groups.
pub open spec fn neon_checks(len: int, k: int, strict: bool) -> bool {
    strict || k >= neon_group(false) * greedy_steps(len, 256, 256) || (k % 256) / 64 == 3
}

/// The output holds the bytes of all the schedule's steps.
pub open spec fn neon_roomy(len: int, strict: bool, out_len: int) -> bool {
    out_len >= neon_consumed(len, strict) / 4 * 3
}

/// Where the NEON vector loops stop for `len` characters and an output of
/// `out_len` bytes, following their guards: groups while more characters
/// remain than a group holds and the output has room for the group, then
/// 64-byte chunks while more than 64 characters and 48 output bytes remain
/// (`ds` selects the end of the group loop).
pub open spec fn neon_loops_end(len: int, out_len: int, strict: bool, ds: bool) -> int {
    let g = neon_group(strict);
    let gi = loop_end(0, len, g, g, out_len, if strict { 96 } else { 192 });
    if ds {
        gi
    } else {
        loop_end(gi, len, 64, 64, out_len, 48)
    }
}

/// Whether the NEON kernel validates byte `k` for `len` characters and an
/// output of `out_len` bytes: every byte in strict mode; in non-strict mode
/// only the last chunk of each group, and every byte after the groups.
pub open spec fn neon_checks_at(len: int, out_len: int, k: int, strict: bool) -> bool {
    strict || k >= neon_loops_end(len, out_len, false, true) || (k % 256) / 64 == 3
}

/// A group at `ip` is flagged by its validated chunks exactly when a byte
/// that the schedule validates is bad.
proof fn lemma_group_flags(s: Seq<u8>, ip: int, checks: Seq<bool>, strict: bool)
    requires
        0 <= ip,
        ip % 4 == 0,
        !strict ==> ip % 256 == 0,
        checks == (if strict { seq![true, true] } else { seq![false, false, false, true] }),
    ensures
        block_flagged(s, ip / 4, 16, checks, checks.len() as int) == flagged_in(
            s,
            ip,
            ip + 64 * checks.len(),
            |k: int| strict || (k % 256) / 64 == 3,
        ),
{
    let p = |k: int| strict || (k % 256) / 64 == 3;
    let q0 = ip / 4;
    let n = checks.len() as int;
    assert(4 * q0 == ip);
    if block_flagged(s, q0, 16, checks, n) {
        let w = choose|w: int| 0 <= w < n && #[trigger] checks[w] && !range_valid(s, 4 * (q0 + 16 * w), 4 * (q0 + 16 * (w + 1)));
        let k = choose|k: int| ip + 64 * w <= k < ip + 64 * w + 64 && !#[trigger] is_b64(s[k]);
        if !strict {
            assert(w == 3);
            assert((k % 256) / 64 == 3) by (nonlinear_arith)
                requires
                    ip % 256 == 0,
                    ip + 192 <= k < ip + 256,
            ;
        }
        assert(p(k));
        assert(flagged_in(s, ip, ip + 64 * n, p));
    }
    if flagged_in(s, ip, ip + 64 * n, p) {
        let k = choose|k: int| ip <= k < ip + 64 * n && p(k) && !#[trigger] is_b64(s[k]);
        let w = (k - ip) / 64;
        assert(0 <= w < n && ip + 64 * w <= k < ip + 64 * w + 64) by (nonlinear_arith)
            requires
                ip <= k < ip + 64 * n,
                w == (k - ip) / 64,
        ;
        if !strict {
            assert((k % 256) / 64 == w) by (nonlinear_arith)
                requires
                    ip % 256 == 0,
                    ip + 64 * w <= k < ip + 64 * w + 64,
                    0 <= w < 4,
            ;
        }
        assert(checks[w]);
        assert(!range_valid(s, 4 * (q0 + 16 * w), 4 * (q0 + 16 * (w + 1))));
    }
}

/// The NEON decode schedule in one validation mode: groups of 64-byte chunks
/// (four, of which the last is validated; or two, both validated) while more
/// characters remain than a group holds and the output has room, then
/// validated single chunks while more than 64 characters remain. When the
/// output has room for all the schedule's steps, the kernel takes exactly
/// those steps and rejects exactly the inputs with a bad byte among those it
/// validates.
#[verifier::rlimit(40)]
fn decode_neon_kernel(in_data: &[u8], out_data: &mut [u8], strict: bool) -> (r: Option<(usize, usize)>)
    ensures
        final(out_data)@.len() == old(out_data)@.len(),
        decode_kernel_ok(in_data@, final(out_data)@, r, strict),
        r matches Some((c, w)) ==> untouched_from(final(out_data)@, old(out_data)@, w as int),
        in_data@.len() % 4 == 0 ==> untouched_from(final(out_data)@, old(out_data)@, body_end(in_data@.len() as int) / 4 * 3),
        neon_roomy(in_data@.len() as int, strict, old(out_data)@.len() as int) ==> {
            &&& r is None <==> flagged_in(
                in_data@,
                0,
                neon_consumed(in_data@.len() as int, strict),
                |k: int| neon_checks(in_data@.len() as int, k, strict),
            )
            &&& r matches Some((c, w)) ==> c == neon_consumed(in_data@.len() as int, strict)
            &&& untouched_from(final(out_data)@, old(out_data)@, neon_consumed(in_data@.len() as int, strict) / 4 * 3)
        },
        r is None <==> flagged_in(
            in_data@,
            0,
            neon_loops_end(in_data@.len() as int, old(out_data)@.len() as int, strict, false),
            |k: int| neon_checks_at(in_data@.len() as int, old(out_data)@.len() as int, k, strict),
        ),
        r matches Some((c, w)) ==> c == neon_loops_end(in_data@.len() as int, old(out_data)@.len() as int, strict, false),
        untouched_from(final(out_data)@, old(out_data)@, neon_loops_end(in_data@.len() as int, old(out_data)@.len() as int, strict, false) / 4 * 3),
        quads_decoded(final(out_data)@, in_data@, 0, neon_loops_end(in_data@.len() as int, old(out_data)@.len() as int, strict, false) / 4),
{
    let ghost s = in_data@;
    let n = in_data.len();
    let ghost len = n as int;
    let olen = out_data.len();
    proof {
        assert(quads_decoded(out_data@, s, 0, 0));
    }
    let kind = LaneDecoder::Neon;
    let mode = CheckMode::Full;
    let group_checks: [bool; 4] = [false, false, false, true];
    let pair_checks: [bool; 2] = [true, true];
    let tail_checks: [bool; 1] = [true];
    proof {
        assert(all_set(pair_checks@));
        assert(all_set(tail_checks@));
    }
    let (checks, threshold): (&[bool], usize) = if strict {
        (pair_checks.as_slice(), 128)
    } else {
        (group_checks.as_slice(), verify_model::DECODE_GROUP_INPUT_BYTES)
    };
    let nvec = checks.len();
    let ghost g = neon_group(strict);
    let ghost roomy = neon_roomy(len, strict, olen as int);
    let ghost consumed = neon_consumed(len, strict);
    let ghost k2 = greedy_steps(len, g, g);
    let ghost p_g = |k: int| strict || (k % 256) / 64 == 3;
    let ghost ol = olen as int;
    let ghost gi_s = neon_loops_end(len, ol, strict, true);
    let ghost end_s = neon_loops_end(len, ol, strict, false);
    proof {
        assert(checks@ == (if strict { seq![true, true] } else { seq![false, false, false, true] }));
        assert(strict ==> all_set(checks@));
        assert(nvec * 64 == threshold);
        assert(threshold == g);
        lemma_greedy_steps(len, g, g);
        assert(!flagged_in(s, 0, 0, p_g));
    }
    let mut ip: usize = 0;
    let mut op: usize = 0;
    let mut bad = false;
    while n - ip > threshold && olen - op >= 48 * nvec
        invariant
            s == in_data@,
            kind == LaneDecoder::Neon,
            mode == CheckMode::Full,
            n == s.len(),
            len == n,
            olen == out_data@.len(),
            out_data@.len() == old(out_data)@.len(),
            nvec == checks@.len(),
            nvec * 64 == threshold,
            threshold == g,
            g == neon_group(strict),
            checks@ == (if strict { seq![true, true] } else { seq![false, false, false, true] }),
            1 <= nvec <= 4,
            ip % 4 == 0,
            !strict ==> ip % 256 == 0,
            op == ip / 4 * 3,
            untouched_from(out_data@, old(out_data)@, op as int),
            ip <= n,
            n % 4 == 0 ==> ip <= body_end(n as int),
            op <= olen,
            strict ==> all_set(checks@),
            quads_decoded(out_data@, s, 0, (ip / 4) as int),
            range_valid(s, 0, ip as int) ==> !bad,
            strict && !bad ==> range_valid(s, 0, ip as int),
            p_g == (|k: int| strict || (k % 256) / 64 == 3),
            bad == flagged_in(s, 0, ip as int, p_g),
            roomy == neon_roomy(len, strict, olen as int),
            consumed == neon_consumed(len, strict),
            k2 == greedy_steps(len, g, g),
            ol == olen,
            loop_end(ip as int, len, g, g, ol, if strict { 96 } else { 192 }) == gi_s,
            roomy ==> ip + g * greedy_steps(len - ip, g, g) == g * k2,
        decreases n - ip,
    {
        let ghost p0 = out_data@;
        let b1 = decode_block(in_data, ip / 4, 16, checks, out_data, &kind, &mode);
        proof {
            lemma_kernel_step(s, p0, out_data@, ip as int, threshold as int, bad, b1, strict);
                lemma_untouched_step(old(out_data)@, p0, out_data@, 3 * ((ip) as int / 4), 3 * ((ip + threshold) as int / 4));
            lemma_group_flags(s, ip as int, checks@, strict);
            lemma_flagged_split(s, 0, ip as int, ip + g, p_g);
            if roomy {
                lemma_greedy_steps(len - ip, g, g);
            }
        }
        bad = bad || b1;
        ip = ip + threshold;
        op = op + 48 * nvec;
    }
    proof {
        if roomy {
            lemma_greedy_steps(len - ip, g, g);
            if n - ip > threshold {
                let gi = g * k2;
                assert(consumed >= gi);
                lemma_step_room(consumed, ip as int, g, olen as int, 0);
            }
            assert(ip == g * k2);
        }
    }
    let ghost de = ip as int;
    let ghost p_all = |k: int| neon_checks(len, k, strict);
    let ghost p_tail = |k: int| strict || k >= de || (k % 256) / 64 == 3;
    let ghost t = greedy_steps(len - de, 64, 64);
    proof {
        lemma_flagged_same(s, 0, de, p_g, p_tail);
        lemma_greedy_steps(len - de, 64, 64);
    }
    while n - ip > verify_model::DECODE_BLOCK_INPUT_BYTES && olen - op
        >= verify_model::DECODE_BLOCK_OUTPUT_BYTES
        invariant
            s == in_data@,
            kind == LaneDecoder::Neon,
            mode == CheckMode::Full,
            n == s.len(),
            len == n,
            olen == out_data@.len(),
            out_data@.len() == old(out_data)@.len(),
            ip % 4 == 0,
            op == ip / 4 * 3,
            untouched_from(out_data@, old(out_data)@, op as int),
            ip <= n,
            n % 4 == 0 ==> ip <= body_end(n as int),
            op <= olen,
            tail_checks@.len() == 1,
            all_set(tail_checks@),
            quads_decoded(out_data@, s, 0, (ip / 4) as int),
            range_valid(s, 0, ip as int) ==> !bad,
            strict && !bad ==> range_valid(s, 0, ip as int),
            ip >= de,
            ol == olen,
            de == gi_s,
            loop_end(ip as int, len, 64, 64, ol, 48) == end_s,
            p_tail == (|k: int| strict || k >= de || (k % 256) / 64 == 3),
            bad == flagged_in(s, 0, ip as int, p_tail),
            roomy == neon_roomy(len, strict, olen as int),
            consumed == neon_consumed(len, strict),
            t == greedy_steps(len - de, 64, 64),
            roomy ==> de == g * k2,
            roomy ==> ip + 64 * greedy_steps(len - ip, 64, 64) == de + 64 * t,
        decreases n - ip,
    {
        let ghost p0 = out_data@;
        let b1 = decode_block(in_data, ip / 4, 16, tail_checks.as_slice(), out_data, &kind, &mode);
        proof {
            lemma_kernel_step(s, p0, out_data@, ip as int, 64, bad, b1, strict);
                lemma_untouched_step(old(out_data)@, p0, out_data@, 3 * ((ip) as int / 4), 3 * ((ip + 64) as int / 4));
            assert(tail_checks@[0]);
            assert(block_flagged(s, (ip / 4) as int, 16, tail_checks@, 1) == !range_valid(s, ip as int, ip + 64)) by {
                assert(4 * (ip / 4 + 16 * 0) == ip && 4 * (ip / 4 + 16 * (0 + 1)) == ip + 64);
            }
            lemma_flagged_vector(s, ip as int, ip + 64, p_tail);
            lemma_flagged_split(s, 0, ip as int, ip + 64, p_tail);
            if roomy {
                lemma_greedy_steps(len - ip, 64, 64);
            }
        }
        bad = bad || b1;
        ip = ip + verify_model::DECODE_BLOCK_INPUT_BYTES;
        op = op + verify_model::DECODE_BLOCK_OUTPUT_BYTES;
    }
    proof {
        if roomy {
            lemma_greedy_steps(len - ip, 64, 64);
            if n - ip > 64 {
                assert(consumed == de + 64 * t);
                lemma_step_room(consumed, ip as int, 64, olen as int, 0);
            }
            assert(ip == consumed);
            if !strict {
                assert(g * k2 == neon_group(false) * greedy_steps(len, 256, 256));
            }
            lemma_flagged_same(s, 0, ip as int, p_tail, p_all);
        }
        assert(ip == end_s);
        if !strict {
            assert(gi_s == neon_loops_end(len, ol, false, true));
        }
        lemma_flagged_same(s, 0, ip as int, p_tail, |k: int| neon_checks_at(len, ol, k, strict));
    }
    if bad {
        proof {
            if n % 4 == 0 {
                lemma_kernel_reject(s, ip as int, bad);
            }
        }
        None
    } else {
        Some((ip, op))
    }
}

/// Non-strict NEON decode: in each DN256 group only the last 64-byte chunk
/// is validated. Returns `(consumed, written)` for the scalar tail, or
/// `None` when a validated chunk holds a byte outside the alphabet.
pub fn decode_neon(in_data: &[u8], out_data: &mut [u8]) -> (r: Option<(usize, usize)>)
    ensures
        final(out_data)@.len() == old(out_data)@.len(),
        decode_kernel_ok(in_data@, final(out_data)@, r, false),
        r matches Some((c, w)) ==> untouched_from(final(out_data)@, old(out_data)@, w as int),
        in_data@.len() % 4 == 0 ==> untouched_from(final(out_data)@, old(out_data)@, body_end(in_data@.len() as int) / 4 * 3),
        neon_roomy(in_data@.len() as int, false, old(out_data)@.len() as int) ==> {
            &&& r is None <==> flagged_in(
                in_data@,
                0,
                neon_consumed(in_data@.len() as int, false),
                |k: int| neon_checks(in_data@.len() as int, k, false),
            )
            &&& r matches Some((c, w)) ==> c == neon_consumed(in_data@.len() as int, false)
            &&& untouched_from(final(out_data)@, old(out_data)@, neon_consumed(in_data@.len() as int, false) / 4 * 3)
        },
        r is None <==> flagged_in(
            in_data@,
            0,
            neon_loops_end(in_data@.len() as int, old(out_data)@.len() as int, false, false),
            |k: int| neon_checks_at(in_data@.len() as int, old(out_data)@.len() as int, k, false),
        ),
        r matches Some((c, w)) ==> c == neon_loops_end(in_data@.len() as int, old(out_data)@.len() as int, false, false),
        untouched_from(final(out_data)@, old(out_data)@, neon_loops_end(in_data@.len() as int, old(out_data)@.len() as int, false, false) / 4 * 3),
        quads_decoded(final(out_data)@, in_data@, 0, neon_loops_end(in_data@.len() as int, old(out_data)@.len() as int, false, false) / 4),
{
    decode_neon_kernel(in_data, out_data, false)
}

/// Strict NEON decode: every chunk is validated.
pub fn decode_neon_strict(in_data: &[u8], out_data: &mut [u8]) -> (r: Option<(usize, usize)>)
    ensures
        final(out_data)@.len() == old(out_data)@.len(),
        decode_kernel_ok(in_data@, final(out_data)@, r, true),
        r matches Some((c, w)) ==> untouched_from(final(out_data)@, old(out_data)@, w as int),
        in_data@.len() % 4 == 0 ==> untouched_from(final(out_data)@, old(out_data)@, body_end(in_data@.len() as int) / 4 * 3),
        neon_roomy(in_data@.len() as int, true, old(out_data)@.len() as int) ==> {
            &&& r is None <==> flagged_in(
                in_data@,
                0,
                neon_consumed(in_data@.len() as int, true),
                |k: int| neon_checks(in_data@.len() as int, k, true),
            )
            &&& r matches Some((c, w)) ==> c == neon_consumed(in_data@.len() as int, true)
            &&& untouched_from(final(out_data)@, old(out_data)@, neon_consumed(in_data@.len() as int, true) / 4 * 3)
        },
        r is None <==> flagged_in(
            in_data@,
            0,
            neon_loops_end(in_data@.len() as int, old(out_data)@.len() as int, true, false),
            |k: int| neon_checks_at(in_data@.len() as int, old(out_data)@.len() as int, k, true),
        ),
        r matches Some((c, w)) ==> c == neon_loops_end(in_data@.len() as int, old(out_data)@.len() as int, true, false),
        untouched_from(final(out_data)@, old(out_data)@, neon_loops_end(in_data@.len() as int, old(out_data)@.len() as int, true, false) / 4 * 3),
        quads_decoded(final(out_data)@, in_data@, 0, neon_loops_end(in_data@.len() as int, old(out_data)@.len() as int, true, false) / 4),
{
    decode_neon_kernel(in_data, out_data, true)
}

/// The non-strict NEON decode kernel.
pub fn decode_neon_kernel_partial(input: &[u8], out: &mut [u8]) -> (r: Option<(usize, usize)>)
    ensures
        final(out)@.len() == old(out)@.len(),
        decode_kernel_ok(input@, final(out)@, r, false),
        r matches Some((c, w)) ==> untouched_from(final(out)@, old(out)@, w as int),
        input@.len() % 4 == 0 ==> untouched_from(final(out)@, old(out)@, body_end(input@.len() as int) / 4 * 3),
        neon_roomy(input@.len() as int, false, old(out)@.len() as int) ==> {
            &&& r is None <==> flagged_in(
                input@,
                0,
                neon_consumed(input@.len() as int, false),
                |k: int| neon_checks(input@.len() as int, k, false),
            )
            &&& r matches Some((c, w)) ==> c == neon_consumed(input@.len() as int, false)
            &&& untouched_from(final(out)@, old(out)@, neon_consumed(input@.len() as int, false) / 4 * 3)
        },
        r is None <==> flagged_in(
            input@,
            0,
            neon_loops_end(input@.len() as int, old(out)@.len() as int, false, false),
            |k: int| neon_checks_at(input@.len() as int, old(out)@.len() as int, k, false),
        ),
        r matches Some((c, w)) ==> c == neon_loops_end(input@.len() as int, old(out)@.len() as int, false, false),
        untouched_from(final(out)@, old(out)@, neon_loops_end(input@.len() as int, old(out)@.len() as int, false, false) / 4 * 3),
        quads_decoded(final(out)@, input@, 0, neon_loops_end(input@.len() as int, old(out)@.len() as int, false, false) / 4),
{
    decode_neon(input, out)
}

/// The strict NEON decode kernel.
pub fn decode_neon_kernel_strict(input: &[u8], out: &mut [u8]) -> (r: Option<(usize, usize)>)
    ensures
        final(out)@.len() == old(out)@.len(),
        decode_kernel_ok(input@, final(out)@, r, true),
        r matches Some((c, w)) ==> untouched_from(final(out)@, old(out)@, w as int),
        input@.len() % 4 == 0 ==> untouched_from(final(out)@, old(out)@, body_end(input@.len() as int) / 4 * 3),
        neon_roomy(input@.len() as int, true, old(out)@.len() as int) ==> {
            &&& r is None <==> flagged_in(
                input@,
                0,
                neon_consumed(input@.len() as int, true),
                |k: int| neon_checks(input@.len() as int, k, true),
            )
            &&& r matches Some((c, w)) ==> c == neon_consumed(input@.len() as int, true)
            &&& untouched_from(final(out)@, old(out)@, neon_consumed(input@.len() as int, true) / 4 * 3)
        },
        r is None <==> flagged_in(
            input@,
            0,
            neon_loops_end(input@.len() as int, old(out)@.len() as int, true, false),
            |k: int| neon_checks_at(input@.len() as int, old(out)@.len() as int, k, true),
        ),
        r matches Some((c, w)) ==> c == neon_loops_end(input@.len() as int, old(out)@.len() as int, true, false),
        untouched_from(final(out)@, old(out)@, neon_loops_end(input@.len() as int, old(out)@.len() as int, true, false) / 4 * 3),
        quads_decoded(final(out)@, input@, 0, neon_loops_end(input@.len() as int, old(out)@.len() as int, true, false) / 4),
{
    decode_neon_strict(input, out)
}

/// The NEON encode kernel.
pub fn encode_neon_kernel(input: &[u8], out: &mut [u8]) -> (r: (usize, usize))
    requires
        enc_len(input@.len() as int) <= old(out)@.len(),
    ensures
        final(out)@.len() == old(out)@.len(),
        encode_kernel_ok(input@, final(out)@, r),
        untouched_from(final(out)@, old(out)@, r.1 as int),
        r.0 == input@.len() / 48 * 48,
{
    encode_base64_neon(input, out)
}

/// NEON Base64 encoder: pairs of 48-byte blocks while 96 bytes remain, then
/// single blocks while 48 remain. Returns `(consumed, written)`.
pub fn encode_base64_neon(in_data: &[u8], out_data: &mut [u8]) -> (r: (usize, usize))
    requires
        enc_len(in_data@.len() as int) <= old(out_data)@.len(),
    ensures
        final(out_data)@.len() == old(out_data)@.len(),
        encode_kernel_ok(in_data@, final(out_data)@, r),
        untouched_from(final(out_data)@, old(out_data)@, r.1 as int),
        r.0 == in_data@.len() / 48 * 48,
{
    let ghost d = in_data@;
    let n = in_data.len();
    let olen = out_data.len();
    let kind = EncodeLane::Shift;
    proof {
        assert(groups_encoded(out_data@, d, 0, 0));
    }
    let mut ip: usize = 0;
    let mut op: usize = 0;
    let ghost mut m: int = 0;
    while verify_model::can_run_encode_pair(n - ip)
        invariant
            d == in_data@,
            n == d.len(),
            enc_len(n as int) <= out_data@.len(),
            olen == out_data@.len(),
            out_data@.len() == old(out_data)@.len(),
            ip % 3 == 0,
            0 <= m,
            ip == 48 * m,
            ip <= n,
            op == ip / 3 * 4,
            untouched_from(out_data@, old(out_data)@, op as int),
            groups_encoded(out_data@, d, 0, (ip / 3) as int),
        decreases n - ip,
    {
        let ghost prev = out_data@;
        encode_group_run(in_data, ip / 3, 32, out_data, &kind);
        proof {
            lemma_encode_step(d, prev, out_data@, (ip / 3) as int, 32);
            lemma_untouched_step(old(out_data)@, prev, out_data@, 4 * ((ip / 3) as int), 4 * ((ip / 3) as int + 32));
        }
        ip = ip + verify_model::ENCODE_PAIR_INPUT_BYTES;
        proof {
            m = m + 2;
        }
        op = op + verify_model::ENCODE_PAIR_OUTPUT_BYTES;
    }
    while verify_model::can_run_encode_block(n - ip)
        invariant
            d == in_data@,
            n == d.len(),
            enc_len(n as int) <= out_data@.len(),
            olen == out_data@.len(),
            out_data@.len() == old(out_data)@.len(),
            ip % 3 == 0,
            0 <= m,
            ip == 48 * m,
            ip <= n,
            op == ip / 3 * 4,
            untouched_from(out_data@, old(out_data)@, op as int),
            groups_encoded(out_data@, d, 0, (ip / 3) as int),
        decreases n - ip,
    {
        let ghost prev = out_data@;
        encode_group_run(in_data, ip / 3, 16, out_data, &kind);
        proof {
            lemma_encode_step(d, prev, out_data@, (ip / 3) as int, 16);
            lemma_untouched_step(old(out_data)@, prev, out_data@, 4 * ((ip / 3) as int), 4 * ((ip / 3) as int + 16));
        }
        ip = ip + verify_model::ENCODE_BLOCK_INPUT_BYTES;
        proof {
            m = m + 1;
        }
        op = op + verify_model::ENCODE_BLOCK_OUTPUT_BYTES;
    }
    proof {
        assert(ip == n / 48 * 48) by (nonlinear_arith)
            requires
                0 <= m,
            ip == 48 * m,
                ip <= n,
                n - ip < 48,
        ;
    }
    (ip, op)
}

} // verus!
