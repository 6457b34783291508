//! AVX-512 VBMI Base64 codec: Turbo-Base64's `tb64v512` schedule on portable
//! lanes.
//!
//! The decoder maps every character through a 128-byte table (`vpermi2b` on
//! its low 7 bits) and flags a byte when its value or the character itself
//! has the top bit set. It runs DS256 blocks (256 characters: four 64-byte
//! vectors of sixteen quads), two at a time while more than 644 characters
//! remain and once more while more than 388 remain, then 64-byte vectors
//! while more than 84 remain. In non-strict mode the second vector of each
//! block is not validated. The encoder spreads each group over a 32-bit lane,
//! selects the four 6-bit windows with `vpmultishiftqb` and maps them through
//! the alphabet (`vpermb`), in double and single ES256 steps (384 and 192
//! bytes).
//!
//! The vector loops also stop when the output has no room for the bytes of a
//! step; when the output holds the decoded length this never happens.
use vstd::prelude::*;
use super::b64::{decoded_len_spec, enc_len, is_b64};
use super::lanes::{range_valid, CheckMode, EncodeLane, LaneDecoder};
use super::models::avx512vbmi as verify_model;
use super::models::{greedy_steps, lemma_greedy_steps};
use super::vector::{
    lemma_untouched_step, loop_end, untouched_from,
    all_set, block_flagged, body_end, decode_block, decode_kernel_ok, encode_group_run, encode_kernel_ok, flagged_in,
    lemma_flagged_same, lemma_flagged_split, lemma_flagged_vector, lemma_step_room,
    groups_encoded, lemma_encode_step, lemma_kernel_reject, lemma_kernel_step, quads_decoded,
};
use super::{Base64Decoder, DecodeOpts};

verus! {

/// AVX-512 VBMI Base64 decoder and encoder.
///
/// `Avx512VbmiDecoder::new()` is strict; `Avx512VbmiDecoder::with_opts(opts)` takes a
/// custom configuration.
pub struct Avx512VbmiDecoder {
    opts: DecodeOpts,
}

impl Avx512VbmiDecoder {
    /// Whether this decoder validates every input vector.
    pub closed spec fn is_strict(&self) -> bool {
        self.opts.strict
    }

    /// Create a new decoder with default options (strict mode).
    pub fn new() -> (r: Self)
        ensures
            r.is_strict(),
    {
        Self { opts: DecodeOpts::default() }
    }

    /// Create a new decoder with the given options.
    pub fn with_opts(opts: DecodeOpts) -> (r: Self)
        ensures
            r.is_strict() == opts.strict,
    {
        Self { opts }
    }
}

/// A decoder is its validation mode: two decoders in the same mode are the
/// same value, so `Avx512VbmiDecoder::new()` is `Avx512VbmiDecoder::with_opts(DecodeOpts { strict: true })`
/// and `default()` is the same decoder again.
pub proof fn law_decoder_is_its_mode(a: Avx512VbmiDecoder, b: Avx512VbmiDecoder)
    requires
        a.is_strict() == b.is_strict(),
    ensures
        a == b,
{
}

impl Default for Avx512VbmiDecoder {
    fn default() -> (r: Self)
        ensures
            r.is_strict(),
    {
        Self::new()
    }
}

impl Base64Decoder for Avx512VbmiDecoder {
    open spec fn validates_all(&self) -> bool {
        self.is_strict()
    }

    /// Decode Base64 `input` into `out`: the AVX-512 VBMI kernel, then the scalar
    /// tail.
    fn decode_to_slice(&self, input: &[u8], out: &mut [u8]) -> (r: Option<usize>)
        ensures
            decoded_len_spec(input@) is Some && decoded_len_spec(input@)->0 <= old(out)@.len() ==> {
                &&& r is Some <==> !super::engine_flags(super::SimdEngine::Avx512Vbmi, self.is_strict(), input@, old(out)@.len() as int)
                    && super::engine_tail_decodes(super::SimdEngine::Avx512Vbmi, self.is_strict(), input@, old(out)@.len() as int)
                &&& super::engine_flags(super::SimdEngine::Avx512Vbmi, self.is_strict(), input@, old(out)@.len() as int) ==> {
                    &&& untouched_from(
                        final(out)@,
                        old(out)@,
                        super::engine_consumed(super::SimdEngine::Avx512Vbmi, self.is_strict(), input@.len() as int, old(out)@.len() as int) / 4 * 3,
                    )
                    &&& super::vector::quads_decoded(
                        final(out)@,
                        input@,
                        0,
                        super::engine_consumed(super::SimdEngine::Avx512Vbmi, self.is_strict(), input@.len() as int, old(out)@.len() as int) / 4,
                    )
                }
            },
    {
        let _out_len = match super::common::prepare_decode_output(input, out) {
            Some(n) => n,
            None => return None,
        };
        super::dispatch_decode(input, out, &super::SimdEngine::Avx512Vbmi, self.opts.strict)
    }

    /// Encode raw bytes to Base64: the AVX-512 VBMI kernel, then the scalar tail.
    fn encode_to_slice(&self, input: &[u8], out: &mut [u8]) -> (r: usize) {
        let (consumed, written) = encode_base64_avx512(input, out);
        super::finish_encode(input, out, consumed, written)
    }
}

/// Input bytes the AVX-512 VBMI vector loops consume for an input of `len`
/// bytes: DS256 blocks in pairs and at most one single block, then 64-byte vectors.
pub open spec fn avx512_consumed(len: int) -> int {
    verify_model::simd_consumed(len)
}

/// Whether the AVX-512 VBMI kernel validates byte `k` of an input of `len`
/// bytes: every byte in strict mode; in non-strict mode, inside the DS256 blocks
/// every 64-byte vector but the second of each block, and every byte after
/// them.
pub open spec fn avx512_checks(len: int, k: int, strict: bool) -> bool {
    strict || k >= verify_model::ds_input(len) || (k % 256) / 64 != 1
}

/// The output holds the bytes of all the schedule's steps.
pub open spec fn avx512_roomy(len: int, out_len: int) -> bool {
    out_len >= avx512_consumed(len) / 4 * 3
}

/// A DS256 block at `ip` (a multiple of 256) is flagged by its validated
/// vectors exactly when a byte that the schedule validates is bad.
proof fn lemma_ds256_block_flags(s: Seq<u8>, ip: int, checks: Seq<bool>, strict: bool)
    requires
        0 <= ip,
        ip % 256 == 0,
        checks == (if strict { seq![true, true, true, true] } else { seq![true, false, true, true] }),
    ensures
        block_flagged(s, ip / 4, 16, checks, 4) == flagged_in(s, ip, ip + 256, |k: int| strict || (k % 256) / 64 != 1),
{
    let p = |k: int| strict || (k % 256) / 64 != 1;
    let q0 = ip / 4;
    assert(4 * q0 == ip);
    if block_flagged(s, q0, 16, checks, 4) {
        let w = choose|w: int| 0 <= w < 4 && #[trigger] checks[w] && !range_valid(s, 4 * (q0 + 16 * w), 4 * (q0 + 16 * (w + 1)));
        let k = choose|k: int| ip + 64 * w <= k < ip + 64 * w + 64 && !#[trigger] is_b64(s[k]);
        assert((k % 256) / 64 == w) by (nonlinear_arith)
            requires
                ip % 256 == 0,
                ip + 64 * w <= k < ip + 64 * w + 64,
                0 <= w < 4,
        ;
        assert(p(k));
        assert(flagged_in(s, ip, ip + 256, p));
    }
    if flagged_in(s, ip, ip + 256, p) {
        let k = choose|k: int| ip <= k < ip + 256 && p(k) && !#[trigger] is_b64(s[k]);
        let w = (k - ip) / 64;
        assert((k % 256) / 64 == w && 0 <= w < 4 && ip + 64 * w <= k < ip + 64 * w + 64) by (nonlinear_arith)
            requires
                ip % 256 == 0,
                ip <= k < ip + 256,
                w == (k - ip) / 64,
        ;
        assert(checks[w]);
        assert(!range_valid(s, 4 * (q0 + 16 * w), 4 * (q0 + 16 * (w + 1))));
    }
}

/// Where the AVX-512 VBMI vector loops stop for `len` characters and an
/// output of `out_len` bytes, following their guards: pairs of DS256 blocks
/// while more than 644 characters and 384 output bytes remain, one more
/// block if more than 388 and 192 remain, then 64-byte vectors while more
/// than 84 and 48 remain (`ds` selects the end of the block steps).
pub open spec fn avx512_loops_end(len: int, out_len: int, ds: bool) -> int {
    let d1 = loop_end(0, len, 644, 512, out_len, 384);
    let de = if len - d1 > 388 && out_len - d1 / 4 * 3 >= 192 { d1 + 256 } else { d1 };
    if ds {
        de
    } else {
        loop_end(de, len, 84, 64, out_len, 48)
    }
}

/// Whether the AVX-512 VBMI kernel validates byte `k` for `len` characters
/// and an output of `out_len` bytes: every byte in strict mode; in non-strict
/// mode, inside the DS256 blocks every 64-byte vector but the second of each
/// block, and every byte after them.
pub open spec fn avx512_checks_at(len: int, out_len: int, k: int, strict: bool) -> bool {
    strict || k >= avx512_loops_end(len, out_len, true) || (k % 256) / 64 != 1
}

/// The AVX-512 VBMI decode schedule in one validation mode. When the output has room
/// for all the schedule's steps and the length is a multiple of four, the
/// kernel takes exactly those steps and rejects exactly the inputs with a
/// bad byte among those it validates.
#[verifier::rlimit(40)]
fn decode_avx512_kernel(in_data: &[u8], out_data: &mut [u8], strict: bool) -> (r: Option<(usize, usize)>)
    ensures
        final(out_data)@.len() == old(out_data)@.len(),
        decode_kernel_ok(in_data@, final(out_data)@, r, strict),
        r matches Some((c, w)) ==> untouched_from(final(out_data)@, old(out_data)@, w as int),
        in_data@.len() % 4 == 0 ==> untouched_from(final(out_data)@, old(out_data)@, body_end(in_data@.len() as int) / 4 * 3),
        in_data@.len() % 4 == 0 && avx512_roomy(in_data@.len() as int, old(out_data)@.len() as int) ==> {
            &&& r is None <==> flagged_in(
                in_data@,
                0,
                avx512_consumed(in_data@.len() as int),
                |k: int| avx512_checks(in_data@.len() as int, k, strict),
            )
            &&& r matches Some((c, w)) ==> c == avx512_consumed(in_data@.len() as int)
            &&& untouched_from(final(out_data)@, old(out_data)@, avx512_consumed(in_data@.len() as int) / 4 * 3)
        },
        in_data@.len() % 4 != 0 ==> r is None,
        in_data@.len() % 4 == 0 ==> {
            &&& r is None <==> flagged_in(
                in_data@,
                0,
                avx512_loops_end(in_data@.len() as int, old(out_data)@.len() as int, false),
                |k: int| avx512_checks_at(in_data@.len() as int, old(out_data)@.len() as int, k, strict),
            )
            &&& r matches Some((c, w)) ==> c == avx512_loops_end(in_data@.len() as int, old(out_data)@.len() as int, false)
            &&& untouched_from(final(out_data)@, old(out_data)@, avx512_loops_end(in_data@.len() as int, old(out_data)@.len() as int, false) / 4 * 3)
            &&& quads_decoded(final(out_data)@, in_data@, 0, avx512_loops_end(in_data@.len() as int, old(out_data)@.len() as int, false) / 4)
        },
{
    let ghost s = in_data@;
    let n = in_data.len();
    let ghost len = n as int;
    let olen = out_data.len();
    if n % 4 != 0 {
        return None;
    }
    let ghost roomy = avx512_roomy(len, olen as int);
    let ghost consumed = avx512_consumed(len);
    let ghost k2 = greedy_steps(len, 644, 512);
    let ghost p_ds = |k: int| strict || (k % 256) / 64 != 1;
    let ghost ol = olen as int;
    let ghost d1 = loop_end(0, len, 644, 512, ol, 384);
    let ghost de_s = avx512_loops_end(len, ol, true);
    let ghost end_s = avx512_loops_end(len, ol, false);
    proof {
        assert(quads_decoded(out_data@, s, 0, 0));
        lemma_greedy_steps(len, 644, 512);
        assert(!flagged_in(s, 0, 0, p_ds));
    }
    let kind = LaneDecoder::Vbmi;
    let mode = CheckMode::Full;
    let block_checks: [bool; 4] = if strict {
        [true, true, true, true]
    } else {
        [true, false, true, true]
    };
    let tail_checks: [bool; 1] = [true];
    proof {
        assert(strict ==> all_set(block_checks@));
        assert(all_set(tail_checks@));
        assert(block_checks@ == (if strict { seq![true, true, true, true] } else { seq![true, false, true, true] }));
    }
    let mut ip: usize = 0;
    let mut op: usize = 0;
    let mut bad = false;
    if n >= verify_model::DECODE_SINGLE_THRESHOLD {
        while n - ip > verify_model::DECODE_DOUBLE_THRESHOLD && olen - op >= 2
            * verify_model::DS256_OUTPUT_BYTES
            invariant
                s == in_data@,
                kind == LaneDecoder::Vbmi,
                mode == CheckMode::Full,
                n == s.len(),
                len == n,
                n % 4 == 0,
                olen == out_data@.len(),
                out_data@.len() == old(out_data)@.len(),
                ip % 4 == 0,
                op == ip / 4 * 3,
                untouched_from(out_data@, old(out_data)@, op as int),
                ip <= body_end(n as int),
                op <= olen,
                block_checks@.len() == 4,
                block_checks@ == (if strict { seq![true, true, true, true] } else { seq![true, false, true, true] }),
                strict ==> all_set(block_checks@),
                quads_decoded(out_data@, s, 0, (ip / 4) as int),
                range_valid(s, 0, ip as int) ==> !bad,
                strict && !bad ==> range_valid(s, 0, ip as int),
                p_ds == (|k: int| strict || (k % 256) / 64 != 1),
                bad == flagged_in(s, 0, ip as int, p_ds),
                ip % 256 == 0,
                ol == olen,
                loop_end(ip as int, len, 644, 512, ol, 384) == d1,
                roomy == avx512_roomy(len, olen as int),
                consumed == avx512_consumed(len),
                k2 == greedy_steps(len, 644, 512),
                roomy ==> ip + 512 * greedy_steps(len - ip, 644, 512) == 512 * k2,
            decreases n - ip,
        {
            let ghost p0 = out_data@;
            let b1 = decode_block(in_data, ip / 4, 16, block_checks.as_slice(), out_data, &kind, &mode);
            let ghost p1 = out_data@;
            let b2 = decode_block(in_data, ip / 4 + 64, 16, block_checks.as_slice(), out_data, &kind, &mode);
            proof {
                lemma_kernel_step(s, p0, p1, ip as int, 256, bad, b1, strict);
                lemma_untouched_step(old(out_data)@, p0, p1, 3 * ((ip) as int / 4), 3 * ((ip + 256) as int / 4));
                lemma_kernel_step(s, p1, out_data@, ip + 256, 256, bad || b1, b2, strict);
                lemma_untouched_step(old(out_data)@, p1, out_data@, 3 * ((ip + 256) as int / 4), 3 * ((ip + 256 + 256) as int / 4));
                lemma_ds256_block_flags(s, ip as int, block_checks@, strict);
                assert((ip + 256) / 4 == ip / 4 + 64);
                lemma_ds256_block_flags(s, ip + 256, block_checks@, strict);
                lemma_flagged_split(s, 0, ip as int, ip + 256, p_ds);
                lemma_flagged_split(s, 0, ip + 256, ip + 512, p_ds);
                if roomy {
                    lemma_greedy_steps(len - ip, 644, 512);
                }
            }
            bad = bad || b1 || b2;
            ip = ip + 2 * verify_model::DS256_INPUT_BYTES;
            op = op + 2 * verify_model::DS256_OUTPUT_BYTES;
        }
        proof {
            if roomy {
                lemma_greedy_steps(len - ip, 644, 512);
                if n - ip > 644 {
                    let ds = verify_model::ds_input(len);
                    assert(ds >= 512 * k2);
                    assert(consumed >= ds);
                    lemma_step_room(consumed, ip as int, 512, olen as int, 0);
                }
                assert(ip == 512 * k2);
            }
        }
        if n - ip > verify_model::DECODE_SINGLE_THRESHOLD && olen - op
            >= verify_model::DS256_OUTPUT_BYTES {
            let ghost p0 = out_data@;
            let b1 = decode_block(in_data, ip / 4, 16, block_checks.as_slice(), out_data, &kind, &mode);
            proof {
                lemma_kernel_step(s, p0, out_data@, ip as int, 256, bad, b1, strict);
                lemma_untouched_step(old(out_data)@, p0, out_data@, 3 * ((ip) as int / 4), 3 * ((ip + 256) as int / 4));
                lemma_ds256_block_flags(s, ip as int, block_checks@, strict);
                lemma_flagged_split(s, 0, ip as int, ip + 256, p_ds);
            }
            bad = bad || b1;
            ip = ip + verify_model::DS256_INPUT_BYTES;
            op = op + verify_model::DS256_OUTPUT_BYTES;
        } else {
            proof {
                if roomy && n - ip > 388 {
                    let ds = verify_model::ds_input(len);
                    assert(ds == ip + 256);
                    assert(consumed >= ds);
                    lemma_step_room(consumed, ip as int, 256, olen as int, 0);
                }
            }
        }
        proof {
            if roomy {
                assert(ip == verify_model::ds_input(len));
            }
        }
    } else if n == 0 {
        proof {
            assert(consumed == 0);
        }
        return Some((0, 0));
    } else {
        proof {
            if roomy {
                assert(k2 == 0);
                assert(verify_model::ds_input(len) == 0);
            }
        }
    }
    let ghost de = ip as int;
    let ghost p_all = |k: int| avx512_checks(len, k, strict);
    let ghost p_tail = |k: int| strict || k >= de || (k % 256) / 64 != 1;
    let ghost t = greedy_steps(len - de, 84, 64);
    proof {
        lemma_flagged_same(s, 0, de, p_ds, p_tail);
        lemma_greedy_steps(len - de, 84, 64);
    }
    while n - ip > verify_model::DECODE_TAIL_THRESHOLD && olen - op >= verify_model::TAIL64_OUTPUT_BYTES
        invariant
            s == in_data@,
            kind == LaneDecoder::Vbmi,
            mode == CheckMode::Full,
            n == s.len(),
            len == n,
            n % 4 == 0,
            olen == out_data@.len(),
            out_data@.len() == old(out_data)@.len(),
            ip % 4 == 0,
            op == ip / 4 * 3,
            untouched_from(out_data@, old(out_data)@, op as int),
            ip <= body_end(n as int),
            op <= olen,
            tail_checks@.len() == 1,
            all_set(tail_checks@),
            quads_decoded(out_data@, s, 0, (ip / 4) as int),
            range_valid(s, 0, ip as int) ==> !bad,
            strict && !bad ==> range_valid(s, 0, ip as int),
            ip >= de,
            ol == olen,
            de == de_s,
            loop_end(ip as int, len, 84, 64, ol, 48) == end_s,
            p_tail == (|k: int| strict || k >= de || (k % 256) / 64 != 1),
            bad == flagged_in(s, 0, ip as int, p_tail),
            roomy == avx512_roomy(len, olen as int),
            consumed == avx512_consumed(len),
            t == greedy_steps(len - de, 84, 64),
            roomy ==> de == verify_model::ds_input(len),
            roomy ==> ip + 64 * greedy_steps(len - ip, 84, 64) == de + 64 * t,
        decreases n - ip,
    {
        let ghost p0 = out_data@;
        let b1 = decode_block(in_data, ip / 4, 16, tail_checks.as_slice(), out_data, &kind, &mode);
        proof {
            lemma_kernel_step(s, p0, out_data@, ip as int, 64, bad, b1, strict);
                lemma_untouched_step(old(out_data)@, p0, out_data@, 3 * ((ip) as int / 4), 3 * ((ip + 64) as int / 4));
            assert(tail_checks@[0]);
            assert(block_flagged(s, (ip / 4) as int, 16, tail_checks@, 1) == !range_valid(s, ip as int, ip + 64)) by {
                assert(4 * (ip / 4 + 16 * 0) == ip && 4 * (ip / 4 + 16 * (0 + 1)) == ip + 64);
            }
            lemma_flagged_vector(s, ip as int, ip + 64, p_tail);
            lemma_flagged_split(s, 0, ip as int, ip + 64, p_tail);
            if roomy {
                lemma_greedy_steps(len - ip, 84, 64);
            }
        }
        bad = bad || b1;
        ip = ip + verify_model::TAIL64_INPUT_BYTES;
        op = op + verify_model::TAIL64_OUTPUT_BYTES;
    }
    proof {
        if roomy {
            lemma_greedy_steps(len - ip, 84, 64);
            if n - ip > 84 {
                assert(consumed == de + 64 * t);
                lemma_step_room(consumed, ip as int, 64, olen as int, 0);
            }
            assert(ip == consumed);
            lemma_flagged_same(s, 0, ip as int, p_tail, p_all);
        }
        assert(ip == end_s);
        lemma_flagged_same(s, 0, ip as int, p_tail, |k: int| avx512_checks_at(len, ol, k, strict));
    }
    if bad {
        proof {
            lemma_kernel_reject(s, ip as int, bad);
        }
        None
    } else {
        Some((ip, op))
    }
}

/// Non-strict AVX-512 VBMI decode: the second 64-byte vector of each DS256
/// block is not validated. Returns `(consumed, written)` for the scalar
/// tail; `None` for a length that is not a multiple of four or a flagged
/// vector.
pub fn decode_avx512(in_data: &[u8], out_data: &mut [u8]) -> (r: Option<(usize, usize)>)
    ensures
        final(out_data)@.len() == old(out_data)@.len(),
        decode_kernel_ok(in_data@, final(out_data)@, r, false),
        r matches Some((c, w)) ==> untouched_from(final(out_data)@, old(out_data)@, w as int),
        in_data@.len() % 4 == 0 ==> untouched_from(final(out_data)@, old(out_data)@, body_end(in_data@.len() as int) / 4 * 3),
        in_data@.len() % 4 == 0 && avx512_roomy(in_data@.len() as int, old(out_data)@.len() as int) ==> {
            &&& r is None <==> flagged_in(
                in_data@,
                0,
                avx512_consumed(in_data@.len() as int),
                |k: int| avx512_checks(in_data@.len() as int, k, false),
            )
            &&& r matches Some((c, w)) ==> c == avx512_consumed(in_data@.len() as int)
            &&& untouched_from(final(out_data)@, old(out_data)@, avx512_consumed(in_data@.len() as int) / 4 * 3)
        },
        in_data@.len() % 4 != 0 ==> r is None,
        in_data@.len() % 4 == 0 ==> {
            &&& r is None <==> flagged_in(
                in_data@,
                0,
                avx512_loops_end(in_data@.len() as int, old(out_data)@.len() as int, false),
                |k: int| avx512_checks_at(in_data@.len() as int, old(out_data)@.len() as int, k, false),
            )
            &&& r matches Some((c, w)) ==> c == avx512_loops_end(in_data@.len() as int, old(out_data)@.len() as int, false)
            &&& untouched_from(final(out_data)@, old(out_data)@, avx512_loops_end(in_data@.len() as int, old(out_data)@.len() as int, false) / 4 * 3)
            &&& quads_decoded(final(out_data)@, in_data@, 0, avx512_loops_end(in_data@.len() as int, old(out_data)@.len() as int, false) / 4)
        },
{
    decode_avx512_kernel(in_data, out_data, false)
}

/// Strict AVX-512 VBMI decode: every vector is validated.
pub fn decode_avx512_strict(in_data: &[u8], out_data: &mut [u8]) -> (r: Option<(usize, usize)>)
    ensures
        final(out_data)@.len() == old(out_data)@.len(),
        decode_kernel_ok(in_data@, final(out_data)@, r, true),
        r matches Some((c, w)) ==> untouched_from(final(out_data)@, old(out_data)@, w as int),
        in_data@.len() % 4 == 0 ==> untouched_from(final(out_data)@, old(out_data)@, body_end(in_data@.len() as int) / 4 * 3),
        in_data@.len() % 4 == 0 && avx512_roomy(in_data@.len() as int, old(out_data)@.len() as int) ==> {
            &&& r is None <==> flagged_in(
                in_data@,
                0,
                avx512_consumed(in_data@.len() as int),
                |k: int| avx512_checks(in_data@.len() as int, k, true),
            )
            &&& r matches Some((c, w)) ==> c == avx512_consumed(in_data@.len() as int)
            &&& untouched_from(final(out_data)@, old(out_data)@, avx512_consumed(in_data@.len() as int) / 4 * 3)
        },
        in_data@.len() % 4 != 0 ==> r is None,
        in_data@.len() % 4 == 0 ==> {
            &&& r is None <==> flagged_in(
                in_data@,
                0,
                avx512_loops_end(in_data@.len() as int, old(out_data)@.len() as int, false),
                |k: int| avx512_checks_at(in_data@.len() as int, old(out_data)@.len() as int, k, true),
            )
            &&& r matches Some((c, w)) ==> c == avx512_loops_end(in_data@.len() as int, old(out_data)@.len() as int, false)
            &&& untouched_from(final(out_data)@, old(out_data)@, avx512_loops_end(in_data@.len() as int, old(out_data)@.len() as int, false) / 4 * 3)
            &&& quads_decoded(final(out_data)@, in_data@, 0, avx512_loops_end(in_data@.len() as int, old(out_data)@.len() as int, false) / 4)
        },
{
    decode_avx512_kernel(in_data, out_data, true)
}

/// Input bytes the AVX-512 VBMI vector encoder consumes for `len` input
/// bytes: 384-byte steps while 496 bytes remain, then one 192-byte step if
/// 208 remain.
pub open spec fn avx512_encode_consumed(len: int) -> int {
    let a = greedy_steps(len, 495, 384);
    384 * (a as int) + if len - 384 * a >= 208 { 192int } else { 0int }
}

/// AVX-512 VBMI Base64 encoder: from 208 input bytes on, double ES256
/// steps (384 bytes, eight 48-byte blocks) while 496 bytes remain, then one
/// ES256 step (192 bytes) if 208 remain. Returns `(consumed, written)`.
pub fn encode_base64_avx512(in_data: &[u8], out_data: &mut [u8]) -> (r: (usize, usize))
    requires
        enc_len(in_data@.len() as int) <= old(out_data)@.len(),
    ensures
        final(out_data)@.len() == old(out_data)@.len(),
        encode_kernel_ok(in_data@, final(out_data)@, r),
        untouched_from(final(out_data)@, old(out_data)@, r.1 as int),
        r.0 == avx512_encode_consumed(in_data@.len() as int),
{
    let ghost d = in_data@;
    let n = in_data.len();
    let olen = out_data.len();
    let kind = EncodeLane::Multishift;
    proof {
        assert(groups_encoded(out_data@, d, 0, 0));
    }
    let ghost len = n as int;
    let ghost a = greedy_steps(len, 495, 384);
    let mut ip: usize = 0;
    let mut op: usize = 0;
    proof {
        lemma_greedy_steps(len, 495, 384);
    }
    if n >= verify_model::SINGLE_ES256_REQUIRED_INPUT {
        while verify_model::can_run_double_es256(n - ip)
            invariant
                d == in_data@,
                n == d.len(),
                enc_len(n as int) <= out_data@.len(),
                olen == out_data@.len(),
                out_data@.len() == old(out_data)@.len(),
                ip % 3 == 0,
                ip <= n,
                op == ip / 3 * 4,
                untouched_from(out_data@, old(out_data)@, op as int),
                groups_encoded(out_data@, d, 0, (ip / 3) as int),
                len == n,
                a == greedy_steps(len, 495, 384),
                ip + 384 * greedy_steps(len - ip, 495, 384) == 384 * a,
            decreases n - ip,
        {
            let ghost prev = out_data@;
            encode_group_run(in_data, ip / 3, 128, out_data, &kind);
            proof {
                lemma_encode_step(d, prev, out_data@, (ip / 3) as int, 128);
                lemma_untouched_step(old(out_data)@, prev, out_data@, 4 * ((ip / 3) as int), 4 * ((ip / 3) as int + 128));
                assert(greedy_steps(len - ip, 495, 384) == 1 + greedy_steps(len - (ip + 384), 495, 384));
            }
            ip = ip + verify_model::DOUBLE_ES256_INPUT_BYTES;
            op = op + verify_model::DOUBLE_ES256_OUTPUT_BYTES;
        }
        proof {
            assert(ip == 384 * a);
        }
        if verify_model::can_run_single_es256(n - ip) {
            let ghost prev = out_data@;
            encode_group_run(in_data, ip / 3, 64, out_data, &kind);
            proof {
                lemma_encode_step(d, prev, out_data@, (ip / 3) as int, 64);
                lemma_untouched_step(old(out_data)@, prev, out_data@, 4 * ((ip / 3) as int), 4 * ((ip / 3) as int + 64));
            }
            ip = ip + verify_model::ES256_INPUT_BYTES;
            op = op + verify_model::ES256_OUTPUT_BYTES;
        }
    }
    (ip, op)
}

} // verus!
