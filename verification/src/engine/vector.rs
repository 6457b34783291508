//! Vector loops shared by the SIMD engines.
//!
//! A decode vector is a run of quads (4 characters, one 32-bit lane each)
//! decoded by one lane decoder into 3 bytes per quad; a block is a run of
//! vectors of which some are validated. An encode vector is a run of 3-byte
//! groups, each turned into 4 characters. The engine kernels are schedules of
//! such blocks over the input; this module proves what one run does, and how
//! a decoded prefix joins the scalar decoding of the rest.
use vstd::prelude::*;
use super::b64::{
    chars_valid, dec_byte, decodable, decoded_len_spec, enc_char, is_b64, pad_count, sextet,
    sextet_at,
};
use super::lanes::{decode_lane, encode_lane, quad_ok, range_valid, CheckMode, EncodeLane, LaneDecoder};
use super::scalar::lemma_enc_char_group;

verus! {

// ---------------------------------------------------------------------------
// Specifications
// ---------------------------------------------------------------------------

/// End of the input region the vector loops may read: all but the last quad
/// (whose padding only the scalar tail handles).
pub open spec fn body_end(n: int) -> int {
    if n >= 4 {
        n - 4
    } else {
        0
    }
}

/// Every byte `i` of `o` in quads `q0..q1` whose quad of `s` holds only
/// alphabet characters is the decoded byte of that quad.
pub open spec fn quads_decoded(o: Seq<u8>, s: Seq<u8>, q0: int, q1: int) -> bool {
    forall|i: int|
        3 * q0 <= i < 3 * q1 && range_valid(s, 4 * (i / 3), 4 * (i / 3) + 4) ==> #[trigger] o[i]
            == dec_byte(s, i / 3, i % 3) as u8
}

/// `o` and `p` have the same length and agree outside `a..b`.
pub open spec fn unchanged_outside(o: Seq<u8>, p: Seq<u8>, a: int, b: int) -> bool {
    &&& o.len() == p.len()
    &&& forall|i: int| 0 <= i < o.len() && !(a <= i < b) ==> #[trigger] o[i] == p[i]
}

/// Where a decode loop started at input offset `ip` stops: it takes `step`
/// characters at a time while more than `t` of the `n` remain and the output,
/// of `out_len` bytes, has `need` bytes of room after the `ip / 4 * 3`
/// already written.
pub open spec fn loop_end(ip: int, n: int, t: int, step: int, out_len: int, need: int) -> int
    decreases n - ip,
{
    if 0 < step <= t + 1 && n - ip > t && out_len - ip / 4 * 3 >= need {
        loop_end(ip + step, n, t, step, out_len, need)
    } else {
        ip
    }
}

/// No byte of `o` from `a` on differs from `p`.
pub open spec fn untouched_from(o: Seq<u8>, p: Seq<u8>, a: int) -> bool {
    &&& o.len() == p.len()
    &&& forall|i: int| a <= i < o.len() ==> #[trigger] o[i] == p[i]
}

/// A step that writes only `a..b` of an output untouched from `a` leaves it
/// untouched from `b`.
pub proof fn lemma_untouched_step(orig: Seq<u8>, prev: Seq<u8>, o: Seq<u8>, a: int, b: int)
    requires
        untouched_from(prev, orig, a),
        unchanged_outside(o, prev, a, b),
        0 <= a <= b,
    ensures
        untouched_from(o, orig, b),
{
    assert forall|i: int| b <= i < o.len() implies #[trigger] o[i] == orig[i] by {
        assert(o[i] == prev[i]);
    }
}

/// The flag `bad` of the quads `q0..q1` of `s` reports them as `mode` promises.
pub open spec fn run_check_ok(mode: CheckMode, bad: bool, s: Seq<u8>, q0: int, q1: int) -> bool {
    let all = range_valid(s, 4 * q0, 4 * q1);
    match mode {
        CheckMode::Skip => !bad,
        CheckMode::Full => bad == !all,
    }
}

/// Every entry of `c` is set.
pub open spec fn all_set(c: Seq<bool>) -> bool {
    forall|v: int| 0 <= v < c.len() ==> #[trigger] c[v]
}

// ---------------------------------------------------------------------------
// Facts about ranges of valid characters
// ---------------------------------------------------------------------------

/// A range of alphabet characters splits at any inner point.
pub proof fn lemma_range_valid_split(s: Seq<u8>, a: int, b: int, c: int)
    requires
        a <= b <= c,
    ensures
        range_valid(s, a, c) <==> (range_valid(s, a, b) && range_valid(s, b, c)),
{
    if range_valid(s, a, b) && range_valid(s, b, c) {
        assert forall|k: int| a <= k < c implies #[trigger] is_b64(s[k]) by {
            if k < b {
                assert(is_b64(s[k]));
            } else {
                assert(is_b64(s[k]));
            }
        }
    }
}

/// A quad is valid exactly when its four characters are.
pub proof fn lemma_quad_valid(s: Seq<u8>, q: int)
    ensures
        range_valid(s, 4 * q, 4 * q + 4) <==> (is_b64(s[4 * q]) && is_b64(s[4 * q + 1]) && is_b64(
            s[4 * q + 2],
        ) && is_b64(s[4 * q + 3])),
{
    if is_b64(s[4 * q]) && is_b64(s[4 * q + 1]) && is_b64(s[4 * q + 2]) && is_b64(s[4 * q + 3]) {
        assert forall|k: int| 4 * q <= k < 4 * q + 4 implies #[trigger] is_b64(s[k]) by {
            assert(k == 4 * q || k == 4 * q + 1 || k == 4 * q + 2 || k == 4 * q + 3);
        }
    }
    if range_valid(s, 4 * q, 4 * q + 4) {
        assert(is_b64(s[4 * q]));
        assert(is_b64(s[4 * q + 1]));
        assert(is_b64(s[4 * q + 2]));
        assert(is_b64(s[4 * q + 3]));
    }
}

/// A sub-range of a valid range is valid.
pub proof fn lemma_range_valid_sub(s: Seq<u8>, a: int, b: int, c: int, d: int)
    requires
        a <= c <= d <= b,
        range_valid(s, a, b),
    ensures
        range_valid(s, c, d),
{
    assert forall|k: int| c <= k < d implies #[trigger] is_b64(s[k]) by {
        assert(is_b64(s[k]));
    }
}

// ---------------------------------------------------------------------------
// Decode runs
// ---------------------------------------------------------------------------

/// Decode the `nq` quads of `inp` starting at quad `q0` into their places in
/// `out` (3 bytes per quad) with the lane decoder `kind`, validating them
/// under `mode`. Returns whether a quad was flagged.
pub fn decode_quad_run(
    inp: &[u8],
    q0: usize,
    nq: usize,
    out: &mut [u8],
    kind: &LaneDecoder,
    mode: &CheckMode,
) -> (bad: bool)
    requires
        4 * (q0 + nq) <= inp@.len(),
        3 * (q0 + nq) <= old(out)@.len(),
    ensures
        unchanged_outside(final(out)@, old(out)@, 3 * q0, 3 * (q0 + nq)),
        quads_decoded(final(out)@, inp@, q0 as int, (q0 + nq) as int),
        run_check_ok(*mode, bad, inp@, q0 as int, (q0 + nq) as int),
{
    let ghost s = inp@;
    let ilen = inp.len();
    let mut k: usize = 0;
    let mut bad = false;
    while k < nq
        invariant
            k <= nq,
            s == inp@,
            ilen == s.len(),
            4 * (q0 + nq) <= s.len(),
            3 * (q0 + nq) <= out@.len(),
            unchanged_outside(out@, old(out)@, 3 * q0, 3 * (q0 + k)),
            quads_decoded(out@, s, q0 as int, (q0 + k) as int),
            run_check_ok(*mode, bad, s, q0 as int, (q0 + k) as int),
        decreases nq - k,
    {
        let q = q0 + k;
        let i = 4 * q;
        let b0 = inp[i];
        let b1 = inp[i + 1];
        let b2 = inp[i + 2];
        let b3 = inp[i + 3];
        let (o0, o1, o2, qbad) = decode_lane(kind, b0, b1, b2, b3, mode);
        let ghost prev = out@;
        out[3 * q] = o0;
        out[3 * q + 1] = o1;
        out[3 * q + 2] = o2;
        let ghost prev_bad = bad;
        bad = bad || qbad;
        proof {
            lemma_quad_valid(s, q as int);
            lemma_range_valid_split(s, 4 * q0, 4 * q as int, 4 * q + 4);
            assert forall|x: int|
                3 * q0 <= x < 3 * (q0 + k + 1) && range_valid(
                    s,
                    4 * (x / 3),
                    4 * (x / 3) + 4,
                ) implies #[trigger] out@[x] == dec_byte(s, x / 3, x % 3) as u8 by {
                if x < 3 * q {
                    assert(out@[x] == prev[x]);
                } else {
                    assert(x / 3 == q);
                    let v0 = sextet_at(s, 4 * q);
                    assert(v0 == sextet(b0));
                    assert(sextet_at(s, 4 * q + 1) == sextet(b1));
                    assert(sextet_at(s, 4 * q + 2) == sextet(b2));
                    assert(sextet_at(s, 4 * q + 3) == sextet(b3));
                    assert(quad_ok(b0, b1, b2, b3, o0, o1, o2));
                }
            }
        }
        k = k + 1;
    }
    bad
}

/// Some validated vector among the first `n` of a block holds a byte outside
/// the alphabet; vector `w` covers the quads `q0 + vq * w .. q0 + vq * (w + 1)`.
pub open spec fn block_flagged(s: Seq<u8>, q0: int, vq: int, checks: Seq<bool>, n: int) -> bool {
    exists|w: int| 0 <= w < n && #[trigger] checks[w] && !range_valid(s, 4 * (q0 + vq * w), 4 * (q0 + vq * (w + 1)))
}

/// Some byte `k` of `s` in `a..b` with `p(k)` is outside the alphabet.
pub open spec fn flagged_in(s: Seq<u8>, a: int, b: int, p: spec_fn(int) -> bool) -> bool {
    exists|k: int| a <= k < b && p(k) && !#[trigger] is_b64(s[k])
}

/// A step of `step` input bytes at `ip` that ends within the `c` bytes the
/// schedule consumes finds room for its output when the output holds the
/// bytes of all `c`, plus `slack`.
pub proof fn lemma_step_room(c: int, ip: int, step: int, out_len: int, slack: int)
    requires
        0 <= ip,
        ip % 4 == 0,
        step % 4 == 0,
        ip + step <= c,
        out_len >= c / 4 * 3 + slack,
    ensures
        out_len - ip / 4 * 3 >= step / 4 * 3 + slack,
{
    assert(c / 4 >= (ip + step) / 4) by (nonlinear_arith)
        requires
            ip + step <= c,
    ;
    assert((ip + step) / 4 == ip / 4 + step / 4) by (nonlinear_arith)
        requires
            ip % 4 == 0,
            step % 4 == 0,
    ;
}

/// Flags over consecutive ranges combine.
pub proof fn lemma_flagged_split(s: Seq<u8>, a: int, b: int, c: int, p: spec_fn(int) -> bool)
    requires
        a <= b <= c,
    ensures
        flagged_in(s, a, c, p) == (flagged_in(s, a, b, p) || flagged_in(s, b, c, p)),
{
    if flagged_in(s, a, c, p) {
        let k = choose|k: int| a <= k < c && p(k) && !#[trigger] is_b64(s[k]);
        if k < b {
            assert(flagged_in(s, a, b, p));
        } else {
            assert(flagged_in(s, b, c, p));
        }
    }
    if flagged_in(s, a, b, p) {
        let k = choose|k: int| a <= k < b && p(k) && !#[trigger] is_b64(s[k]);
        assert(a <= k < c);
    }
    if flagged_in(s, b, c, p) {
        let k = choose|k: int| b <= k < c && p(k) && !#[trigger] is_b64(s[k]);
        assert(a <= k < c);
    }
}

/// Predicates that agree on a range flag it alike.
pub proof fn lemma_flagged_same(s: Seq<u8>, a: int, b: int, p: spec_fn(int) -> bool, q: spec_fn(int) -> bool)
    requires
        forall|k: int| a <= k < b ==> #[trigger] p(k) == q(k),
    ensures
        flagged_in(s, a, b, p) == flagged_in(s, a, b, q),
{
    if flagged_in(s, a, b, p) {
        let k = choose|k: int| a <= k < b && p(k) && !#[trigger] is_b64(s[k]);
        assert(q(k));
    }
    if flagged_in(s, a, b, q) {
        let k = choose|k: int| a <= k < b && q(k) && !#[trigger] is_b64(s[k]);
        assert(p(k));
    }
}

/// A vector `a..b` holding a byte outside the alphabet is flagged.
pub proof fn lemma_flagged_vector(s: Seq<u8>, a: int, b: int, p: spec_fn(int) -> bool)
    requires
        forall|k: int| a <= k < b ==> #[trigger] p(k),
    ensures
        flagged_in(s, a, b, p) == !range_valid(s, a, b),
{
    if !range_valid(s, a, b) {
        let k = choose|k: int| a <= k < b && !#[trigger] is_b64(s[k]);
        assert(p(k));
    }
}

/// Decode a block of `checks.len()` vectors of `vq` quads each, starting at
/// quad `q0`; vector `v` is validated under `mode` when `checks[v]` is set.
/// Returns whether a validated vector was flagged.
pub fn decode_block(
    inp: &[u8],
    q0: usize,
    vq: usize,
    checks: &[bool],
    out: &mut [u8],
    kind: &LaneDecoder,
    mode: &CheckMode,
) -> (bad: bool)
    requires
        4 * (q0 + vq * checks@.len()) <= inp@.len(),
        3 * (q0 + vq * checks@.len()) <= old(out)@.len(),
    ensures
        unchanged_outside(final(out)@, old(out)@, 3 * q0, 3 * (q0 + vq * checks@.len())),
        quads_decoded(final(out)@, inp@, q0 as int, q0 + vq * checks@.len()),
        range_valid(inp@, 4 * q0, 4 * (q0 + vq * checks@.len())) ==> !bad,
        (*mode is Full && all_set(checks@) && !bad) ==> range_valid(
            inp@,
            4 * q0,
            4 * (q0 + vq * checks@.len()),
        ),
        *mode is Full ==> bad == block_flagged(inp@, q0 as int, vq as int, checks@, checks@.len() as int),
{
    let ghost s = inp@;
    let n = checks.len();
    let mut v: usize = 0;
    let mut bad = false;
    let mut q = q0;
    let ilen = inp.len();
    while v < n
        invariant
            v <= n,
            ilen == s.len(),
            n == checks@.len(),
            s == inp@,
            q == q0 + vq * v,
            4 * (q0 + vq * n) <= s.len(),
            3 * (q0 + vq * n) <= out@.len(),
            unchanged_outside(out@, old(out)@, 3 * q0, 3 * q),
            quads_decoded(out@, s, q0 as int, q as int),
            range_valid(s, 4 * q0, 4 * q) ==> !bad,
            (*mode is Full && all_set(checks@) && !bad) ==> range_valid(s, 4 * q0, 4 * q),
            *mode is Full ==> bad == block_flagged(s, q0 as int, vq as int, checks@, v as int),
        decreases n - v,
    {
        proof {
            assert(vq * (v + 1) == vq * v + vq) by (nonlinear_arith);
            assert(vq * (v + 1) <= vq * n) by (nonlinear_arith)
                requires
                    v + 1 <= n,
            ;
        }
        let m = if checks[v] {
            mode
        } else {
            &CheckMode::Skip
        };
        let ghost prev = out@;
        let vbad = decode_quad_run(inp, q, vq, out, kind, m);
        proof {
            lemma_range_valid_split(s, 4 * q0, 4 * q as int, 4 * (q + vq));
            assert forall|x: int|
                3 * q0 <= x < 3 * (q + vq) && range_valid(
                    s,
                    4 * (x / 3),
                    4 * (x / 3) + 4,
                ) implies #[trigger] out@[x] == dec_byte(s, x / 3, x % 3) as u8 by {
                if x < 3 * q {
                    assert(out@[x] == prev[x]);
                }
            }
            if *mode is Full && all_set(checks@) {
                assert(checks@[v as int]);
            }
        }
        proof {
            if *mode is Full {
                let this = checks@[v as int] && !range_valid(s, 4 * q, 4 * (q + vq));
                assert(vbad == this);
                assert(q + vq == q0 + vq * (v + 1));
                if block_flagged(s, q0 as int, vq as int, checks@, v + 1) {
                    let w = choose|w: int|
                        0 <= w < v + 1 && #[trigger] checks@[w] && !range_valid(s, 4 * (q0 + vq * w), 4 * (q0 + vq * (w + 1)));
                    if w < v {
                        assert(block_flagged(s, q0 as int, vq as int, checks@, v as int));
                    }
                }
                if block_flagged(s, q0 as int, vq as int, checks@, v as int) {
                    let w = choose|w: int|
                        0 <= w < v && #[trigger] checks@[w] && !range_valid(s, 4 * (q0 + vq * w), 4 * (q0 + vq * (w + 1)));
                    assert(0 <= w < v + 1 && checks@[w]);
                }
                if this {
                    assert(checks@[v as int] && !range_valid(s, 4 * (q0 + vq * v), 4 * (q0 + vq * (v + 1))));
                }
            }
        }
        bad = bad || vbad;
        q = q + vq;
        v = v + 1;
    }
    bad
}

// ---------------------------------------------------------------------------
// Encode runs
// ---------------------------------------------------------------------------

/// Characters `4 * g0 .. 4 * g1` of `o` are those of the encoding of `d`.
pub open spec fn groups_encoded(o: Seq<u8>, d: Seq<u8>, g0: int, g1: int) -> bool {
    forall|i: int| 4 * g0 <= i < 4 * g1 ==> #[trigger] o[i] == enc_char(d, i)
}

/// What an encode kernel promises for the input `d`, its output `o` and its
/// result `(consumed, written)`: whole groups were consumed, and their
/// characters are the first `written = consumed / 3 * 4` of `o`.
pub open spec fn encode_kernel_ok(d: Seq<u8>, o: Seq<u8>, r: (usize, usize)) -> bool {
    &&& r.0 % 3 == 0
    &&& r.0 <= d.len()
    &&& r.1 == r.0 / 3 * 4
    &&& r.1 <= o.len()
    &&& groups_encoded(o, d, 0, (r.0 / 3) as int)
}

/// Encode the `ng` full 3-byte groups of `inp` starting at group `g0` into
/// their four characters each, at their places in `out`.
pub fn encode_group_run(inp: &[u8], g0: usize, ng: usize, out: &mut [u8], kind: &EncodeLane)
    requires
        3 * (g0 + ng) <= inp@.len(),
        4 * (g0 + ng) <= old(out)@.len(),
    ensures
        unchanged_outside(final(out)@, old(out)@, 4 * g0, 4 * (g0 + ng)),
        groups_encoded(final(out)@, inp@, g0 as int, (g0 + ng) as int),
{
    let ghost d = inp@;
    let ilen = inp.len();
    let olen = out.len();
    let mut k: usize = 0;
    while k < ng
        invariant
            k <= ng,
            d == inp@,
            ilen == d.len(),
            olen == out@.len(),
            3 * (g0 + ng) <= d.len(),
            4 * (g0 + ng) <= out@.len(),
            unchanged_outside(out@, old(out)@, 4 * g0, 4 * (g0 + k)),
            groups_encoded(out@, d, g0 as int, (g0 + k) as int),
        decreases ng - k,
    {
        let g = g0 + k;
        let (c0, c1, c2, c3) = encode_lane(kind, inp[3 * g], inp[3 * g + 1], inp[3 * g + 2]);
        let ghost prev = out@;
        out[4 * g] = c0;
        out[4 * g + 1] = c1;
        out[4 * g + 2] = c2;
        out[4 * g + 3] = c3;
        proof {
            lemma_enc_char_group(d, g as int, 0);
            lemma_enc_char_group(d, g as int, 1);
            lemma_enc_char_group(d, g as int, 2);
            lemma_enc_char_group(d, g as int, 3);
            assert forall|i: int| 4 * g0 <= i < 4 * (g0 + k + 1) implies #[trigger] out@[i]
                == enc_char(d, i) by {
                if i < 4 * g {
                    assert(out@[i] == prev[i]);
                } else {
                    assert(i == 4 * g || i == 4 * g + 1 || i == 4 * g + 2 || i == 4 * g + 3);
                }
            }
        }
        k = k + 1;
    }
}

/// One step of an encode kernel: the groups `g..g + ng` join the encoded
/// prefix `0..g`.
pub proof fn lemma_encode_step(d: Seq<u8>, prev: Seq<u8>, o: Seq<u8>, g: int, ng: int)
    requires
        0 <= g,
        0 <= ng,
        4 * (g + ng) <= prev.len(),
        groups_encoded(prev, d, 0, g),
        unchanged_outside(o, prev, 4 * g, 4 * (g + ng)),
        groups_encoded(o, d, g, g + ng),
    ensures
        groups_encoded(o, d, 0, g + ng),
{
    assert forall|i: int| 0 <= i < 4 * (g + ng) implies #[trigger] o[i] == enc_char(d, i) by {
        if i < 4 * g {
            assert(o[i] == prev[i]);
        }
    }
}

// ---------------------------------------------------------------------------
// Decode kernels
// ---------------------------------------------------------------------------

/// What a decode kernel promises for the input `s`, its output `o` and its
/// result `r`. `None`: the length is not a multiple of four, or some character
/// before the last quad is outside the alphabet. `Some((c, w))`: the first `c`
/// characters (whole quads, before the last quad when the length is a
/// multiple of four) were decoded into the first `w = c / 4 * 3` bytes, correctly
/// for every quad of alphabet characters; a strict kernel has validated all
/// of them.
pub open spec fn decode_kernel_ok(s: Seq<u8>, o: Seq<u8>, r: Option<(usize, usize)>, strict: bool) -> bool {
    match r {
        None => s.len() % 4 != 0 || !range_valid(s, 0, body_end(s.len() as int)),
        Some((c, w)) => {
            &&& c % 4 == 0
            &&& c <= s.len()
            &&& s.len() % 4 == 0 ==> c <= body_end(s.len() as int)
            &&& w == c / 4 * 3
            &&& w <= o.len()
            &&& quads_decoded(o, s, 0, (c / 4) as int)
            &&& strict ==> range_valid(s, 0, c as int)
        },
    }
}

/// One block step of a decode kernel: the block `ip..ip + len` joins the
/// decoded and validated prefix `0..ip`.
pub proof fn lemma_kernel_step(
    s: Seq<u8>,
    prev: Seq<u8>,
    o: Seq<u8>,
    ip: int,
    len: int,
    bad: bool,
    b: bool,
    strict: bool,
)
    requires
        0 <= ip,
        0 <= len,
        ip % 4 == 0,
        len % 4 == 0,
        3 * ((ip + len) / 4) <= prev.len(),
        quads_decoded(prev, s, 0, ip / 4),
        unchanged_outside(o, prev, 3 * (ip / 4), 3 * ((ip + len) / 4)),
        quads_decoded(o, s, ip / 4, (ip + len) / 4),
        range_valid(s, 0, ip) ==> !bad,
        range_valid(s, ip, ip + len) ==> !b,
        strict && !bad ==> range_valid(s, 0, ip),
        strict && !b ==> range_valid(s, ip, ip + len),
    ensures
        quads_decoded(o, s, 0, (ip + len) / 4),
        range_valid(s, 0, ip + len) ==> !(bad || b),
        strict && !(bad || b) ==> range_valid(s, 0, ip + len),
{
    lemma_range_valid_split(s, 0, ip, ip + len);
    assert forall|i: int|
        0 <= i < 3 * ((ip + len) / 4) && range_valid(
            s,
            4 * (i / 3),
            4 * (i / 3) + 4,
        ) implies #[trigger] o[i] == dec_byte(s, i / 3, i % 3) as u8 by {
        if i < 3 * (ip / 4) {
            assert(o[i] == prev[i]);
        }
    }
}

/// A kernel that found a flagged vector before `ip` rejects its input: some
/// character before the last quad is outside the alphabet.
pub proof fn lemma_kernel_reject(s: Seq<u8>, ip: int, bad: bool)
    requires
        bad,
        0 <= ip <= body_end(s.len() as int),
        range_valid(s, 0, ip) ==> !bad,
    ensures
        !range_valid(s, 0, body_end(s.len() as int)),
{
    if range_valid(s, 0, body_end(s.len() as int)) {
        lemma_range_valid_sub(s, 0, body_end(s.len() as int), 0, ip);
    }
}

// ---------------------------------------------------------------------------
// Joining a decoded prefix with the decoding of the rest
// ---------------------------------------------------------------------------

/// A text splits after a prefix of `c` characters (whole quads, the last
/// quad left in the rest): its length and padding are those of the rest plus
/// `c / 4 * 3` bytes, and its quads after the prefix are those of the rest.
/// When the prefix holds only alphabet characters, the text is decodable
/// exactly when the rest is; a decodable text always has such a prefix.
pub proof fn lemma_decode_split(s: Seq<u8>, c: int)
    requires
        0 <= c,
        c % 4 == 0,
        c + 4 <= s.len(),
    ensures
        ({
            let t = s.subrange(c, s.len() as int);
            &&& (decoded_len_spec(s) is Some <==> decoded_len_spec(t) is Some)
            &&& decoded_len_spec(s) is Some ==> decoded_len_spec(s)->0 == c / 4 * 3
                + decoded_len_spec(t)->0
            &&& range_valid(s, 0, c) ==> (decodable(s) <==> decodable(t))
            &&& decodable(s) ==> range_valid(s, 0, c)
            &&& forall|q: int, j: int|
                0 <= q ==> #[trigger] dec_byte(t, q, j) == dec_byte(s, c / 4 + q, j)
        }),
{
    let t = s.subrange(c, s.len() as int);
    let n = s.len() as int;
    let m = t.len() as int;
    assert(m == n - c);
    assert(n % 4 == m % 4);
    assert(n / 4 == c / 4 + m / 4);
    assert(t[m - 1] == s[n - 1]);
    assert(t[m - 2] == s[n - 2]);
    assert(t[m - 3] == s[n - 3]);
    assert(pad_count(t) == pad_count(s));
    let p = pad_count(s);
    assert(0 <= p <= 2);
    if decodable(s) {
        assert forall|k: int| 0 <= k < c implies #[trigger] is_b64(s[k]) by {
            assert(is_b64(s[k]));
        }
    }
    if range_valid(s, 0, c) {
        if decodable(t) {
            assert forall|i: int| 0 <= i < n - p implies #[trigger] is_b64(s[i]) by {
                if i < c {
                    assert(is_b64(s[i]));
                } else {
                    assert(t[i - c] == s[i]);
                    assert(is_b64(t[i - c]));
                }
            }
            assert(chars_valid(s));
        }
        if decodable(s) {
            assert forall|i: int| 0 <= i < m - p implies #[trigger] is_b64(t[i]) by {
                assert(t[i] == s[c + i]);
                assert(is_b64(s[c + i]));
            }
            assert(chars_valid(t));
        }
    }
    assert forall|q: int, j: int| 0 <= q implies #[trigger] dec_byte(t, q, j) == dec_byte(
        s,
        c / 4 + q,
        j,
    ) by {
        assert(4 * (c / 4 + q) == c + 4 * q);
        if 4 * q < m {
            assert(t[4 * q] == s[c + 4 * q]);
        }
        if 4 * q + 1 < m {
            assert(t[4 * q + 1] == s[c + 4 * q + 1]);
        }
        if 4 * q + 2 < m {
            assert(t[4 * q + 2] == s[c + 4 * q + 2]);
        }
        if 4 * q + 3 < m {
            assert(t[4 * q + 3] == s[c + 4 * q + 3]);
        }
        assert(sextet_at(t, 4 * q) == sextet_at(s, 4 * (c / 4 + q)));
        assert(sextet_at(t, 4 * q + 1) == sextet_at(s, 4 * (c / 4 + q) + 1));
        assert(sextet_at(t, 4 * q + 2) == sextet_at(s, 4 * (c / 4 + q) + 2));
        assert(sextet_at(t, 4 * q + 3) == sextet_at(s, 4 * (c / 4 + q) + 3));
    }
}

} // verus!
