//! Scalar Base64 encoder and decoder (Turbo-Base64 layout).
//!
//! This module provides the pure-scalar codec. It is used as:
//!
//! - the standalone scalar engine ([`ScalarDecoder`]) for platforms without
//!   SIMD support;
//! - the tail fallback of every SIMD engine: after the vectorised hot loop has
//!   processed full blocks, this module finishes the remaining bytes.
//!
//! # Encoder
//!
//! [`encode_base64_fast`] maps every pair of 6-bit indices to two ASCII
//! characters through a 4096-entry lookup (`tb64lut`), so one lookup yields two
//! output characters. The main loop processes 48-byte blocks (64 characters);
//! a tail handles the remainder and the padding.
//!
//! # Decoder
//!
//! [`decode_base64_fast`] uses a 4x256-entry decode lookup (`dec_lut`) in which
//! each of the four character positions of a quad has its own sub-table,
//! pre-shifted so that ORing the four entries yields the three output bytes
//! packed in a `u32`. Invalid characters map to `INVALID_U32`, which survives
//! the OR chain and is checked once after all quads are processed.
use vstd::prelude::*;
use super::Base64Decoder;
use super::b64::{
    b64_char, byte_or_zero, chars_valid, dec_byte, decodable, decode_spec, decoded_bytes,
    decoded_len_spec, enc_char, enc_field, enc_len, encode_spec, group_field, is_b64, pad_count,
    quad_byte, sextet, sextet_at, PAD,
};


verus! {

/// Sentinel of the decode sub-tables for characters outside the alphabet.
pub const INVALID_U32: u32 = 0xFFFF_FFFFu32;

/// Byte `k` (`0 <= k < 4`) of `x` in little-endian order.
pub open spec fn le_byte(x: u32, k: int) -> u8 {
    if k == 0 {
        (x & 0xff) as u8
    } else if k == 1 {
        ((x >> 8u32) & 0xff) as u8
    } else if k == 2 {
        ((x >> 16u32) & 0xff) as u8
    } else {
        ((x >> 24u32) & 0xff) as u8
    }
}

// ===========================================================================
// Alphabet lookups
// ===========================================================================

/// The standard alphabet: ASCII character of the 6-bit value `s`.
pub fn alphabet(s: u32) -> (c: u8)
    requires
        s < 64,
    ensures
        c == b64_char(s as int),
{
    if s < 26 {
        (s + 65) as u8
    } else if s < 52 {
        (s + 71) as u8
    } else if s < 62 {
        (s - 4) as u8
    } else if s == 62 {
        43
    } else {
        47
    }
}

/// Reverse alphabet: 6-bit value of `c`, or `0xFF` when `c` is not a Base64
/// character.
pub fn rev64(c: u8) -> (v: u8)
    ensures
        is_b64(c) ==> v as int == sextet(c),
        !is_b64(c) ==> v == 0xFF,
{
    if 65 <= c && c <= 90 {
        c - 65
    } else if 97 <= c && c <= 122 {
        c - 71
    } else if 48 <= c && c <= 57 {
        c + 4
    } else if c == 43 {
        62
    } else if c == 47 {
        63
    } else {
        0xFF
    }
}

// ===========================================================================
// Encode helpers
// ===========================================================================

/// Compute the Base64-encoded length (with padding) for `n` raw bytes.
pub fn encoded_len(n: usize) -> (r: usize)
    requires
        enc_len(n as int) <= usize::MAX,
    ensures
        r as int == enc_len(n as int),
{
    let q = n / 3 + if n % 3 != 0 { 1usize } else { 0usize };
    assert(q == (n + 2) / 3);
    q * 4
}

/// Entry `idx` (`< 4096`) of the encode lookup table: the two characters of
/// the 6-bit pair `idx >> 6`, `idx & 63`, packed little-endian in a `u32`.
pub fn tb64lut(idx: u32) -> (e: u32)
    requires
        idx < 4096,
    ensures
        le_byte(e, 0) == b64_char((idx / 64) as int),
        le_byte(e, 1) == b64_char((idx % 64) as int),
        e < 0x10000,
{
    assert(idx >> 6u32 == idx / 64 && idx & 0x3F == idx % 64) by (bit_vector);
    let c0 = alphabet(idx >> 6u32) as u32;
    let c1 = alphabet(idx & 0x3F) as u32;
    let e = c0 | (c1 << 8u32);
    assert(c0 < 256 && c1 < 256 ==> (e & 0xff == c0 && (e >> 8u32) & 0xff == c1 && e < 0x10000))
        by (bit_vector)
        requires
            e == c0 | (c1 << 8u32),
    ;
    e
}

/// Pack two lookup entries (characters 0-1 and 2-3) into a single `u32`.
pub fn lut_pack(idx1: u32, idx2: u32) -> (x: u32)
    requires
        idx1 < 4096,
        idx2 < 4096,
    ensures
        le_byte(x, 0) == b64_char((idx1 / 64) as int),
        le_byte(x, 1) == b64_char((idx1 % 64) as int),
        le_byte(x, 2) == b64_char((idx2 / 64) as int),
        le_byte(x, 3) == b64_char((idx2 % 64) as int),
{
    let v1 = tb64lut(idx1);
    let v2 = tb64lut(idx2);
    let x = v1 | (v2 << 16u32);
    assert(v1 < 0x10000 && v2 < 0x10000 ==> (x & 0xff == v1 & 0xff && (x >> 8u32) & 0xff == (v1
        >> 8u32) & 0xff && (x >> 16u32) & 0xff == v2 & 0xff && (x >> 24u32) & 0xff == (v2 >> 8u32)
        & 0xff)) by (bit_vector)
        requires
            x == v1 | (v2 << 16u32),
    ;
    x
}

/// Lookup index 1 from input bytes `(a, b)`: the first two 6-bit values.
pub fn idx1_from_abc(a: u8, b: u8) -> (i: u32)
    ensures
        i < 4096,
        i / 64 == group_field(a as int, b as int, 0, 0),
        i % 64 == group_field(a as int, b as int, 0, 1),
{
    let i = ((a as u32) << 4u32) | ((b as u32) >> 4u32);
    let a32 = a as u32;
    let b32 = b as u32;
    assert(a32 < 256 && b32 < 256 ==> (i < 4096 && i / 64 == a32 / 4 && i % 64 == (a32 % 4) * 16
        + b32 / 16)) by (bit_vector)
        requires
            i == (a32 << 4u32) | (b32 >> 4u32),
    ;
    i
}

/// Lookup index 2 from input bytes `(b, c)`: the last two 6-bit values.
pub fn idx2_from_abc(b: u8, c: u8) -> (i: u32)
    ensures
        i < 4096,
        i / 64 == group_field(0, b as int, c as int, 2),
        i % 64 == group_field(0, b as int, c as int, 3),
{
    let b32 = b as u32;
    let c32 = c as u32;
    let i = ((b32 & 0x0F) << 8u32) | c32;
    assert(b32 < 256 && c32 < 256 ==> (i < 4096 && i / 64 == (b32 % 16) * 4 + c32 / 64 && i % 64
        == c32 % 64)) by (bit_vector)
        requires
            i == ((b32 & 0x0F) << 8u32) | c32,
    ;
    i
}

/// Encode a 3-byte group `(a, b, c)` into a packed `u32` of 4 Base64 chars.
pub fn enc3_lut(a: u8, b: u8, c: u8) -> (x: u32)
    ensures
        forall|k: int|
            0 <= k < 4 ==> #[trigger] le_byte(x, k) == b64_char(
                group_field(a as int, b as int, c as int, k),
            ),
{
    lut_pack(idx1_from_abc(a, b), idx2_from_abc(b, c))
}

/// Encode a 3-byte group loaded as a big-endian `u32` (low byte unused): the
/// group is `(u >> 24, u >> 16, u >> 8)`.
pub fn enc3_lut_u32_be(u: u32) -> (x: u32)
    ensures
        forall|k: int|
            0 <= k < 4 ==> #[trigger] le_byte(x, k) == b64_char(
                group_field((u >> 24u32) as int, ((u >> 16u32) & 0xff) as int, ((u >> 8u32) & 0xff) as int, k),
            ),
{
    let idx1 = u >> 20u32;
    let idx2 = (u >> 8u32) & 0x0FFF;
    let a = u >> 24u32;
    let b = (u >> 16u32) & 0xff;
    let c = (u >> 8u32) & 0xff;
    assert(idx1 < 4096 && idx2 < 4096 && a < 256 && b < 256 && c < 256 && idx1 / 64 == a / 4
        && idx1 % 64 == (a % 4) * 16 + b / 16 && idx2 / 64 == (b % 16) * 4 + c / 64 && idx2 % 64
        == c % 64) by (bit_vector)
        requires
            idx1 == u >> 20u32,
            idx2 == (u >> 8u32) & 0x0FFF,
            a == u >> 24u32,
            b == (u >> 16u32) & 0xff,
            c == (u >> 8u32) & 0xff,
    ;
    lut_pack(idx1, idx2)
}

/// Load bytes `inp[i..i+4]` as a big-endian `u32`.
pub fn load_u32_be_unaligned(inp: &[u8], i: usize) -> (u: u32)
    requires
        i + 4 <= inp@.len(),
    ensures
        (u >> 24u32) == inp@[i as int],
        (u >> 16u32) & 0xff == inp@[i + 1],
        (u >> 8u32) & 0xff == inp@[i + 2],
        u & 0xff == inp@[i + 3],
{
    let b0 = inp[i] as u32;
    let b1 = inp[i + 1] as u32;
    let b2 = inp[i + 2] as u32;
    let b3 = inp[i + 3] as u32;
    let u = (b0 << 24u32) | (b1 << 16u32) | (b2 << 8u32) | b3;
    assert(b0 < 256 && b1 < 256 && b2 < 256 && b3 < 256 ==> ((u >> 24u32) == b0 && (u >> 16u32)
        & 0xff == b1 && (u >> 8u32) & 0xff == b2 && u & 0xff == b3)) by (bit_vector)
        requires
            u == (b0 << 24u32) | (b1 << 16u32) | (b2 << 8u32) | b3,
    ;
    u
}

/// Store `x` as 4 little-endian bytes at `out[o..o+4]`.
pub fn store_u32_le(out: &mut [u8], o: usize, x: u32)
    requires
        o + 4 <= old(out)@.len(),
    ensures
        final(out)@.len() == old(out)@.len(),
        forall|i: int| o <= i < o + 4 ==> #[trigger] final(out)@[i] == le_byte(x, i - o),
        forall|i: int|
            0 <= i < old(out)@.len() && !(o <= i < o + 4) ==> final(out)@[i] == old(out)@[i],
{
    out[o] = (x & 0xff) as u8;
    out[o + 1] = ((x >> 8u32) & 0xff) as u8;
    out[o + 2] = ((x >> 16u32) & 0xff) as u8;
    out[o + 3] = ((x >> 24u32) & 0xff) as u8;
}


/// Character `4q + j` of the encoding of `d`, for a full group `q`.
pub proof fn lemma_enc_char_group(d: Seq<u8>, q: int, j: int)
    requires
        0 <= q,
        3 * q + 3 <= d.len(),
        0 <= j < 4,
    ensures
        enc_char(d, 4 * q + j) == b64_char(
            group_field(d[3 * q] as int, d[3 * q + 1] as int, d[3 * q + 2] as int, j),
        ),
{
    assert((4 * q + j) / 4 == q);
    assert((4 * q + j) % 4 == j);
}

// ===========================================================================
// Encode - block and tail functions
// ===========================================================================

/// Encode the 48-byte block `inp[ioff..ioff+48]` into the 64 characters
/// `out[ooff..ooff+64]`: sixteen 3-byte groups, each loaded as a big-endian
/// word. The last group is loaded one byte early and shifted so that the
/// load stays inside the block.
pub fn encode_block_48_to_64(inp: &[u8], ioff: usize, out: &mut [u8], ooff: usize)
    requires
        ioff % 3 == 0,
        ooff == ioff / 3 * 4,
        ioff + 48 <= inp@.len(),
        ooff + 64 <= old(out)@.len(),
    ensures
        final(out)@.len() == old(out)@.len(),
        forall|i: int| ooff <= i < ooff + 64 ==> #[trigger] final(out)@[i] == enc_char(inp@, i),
        forall|i: int|
            0 <= i < old(out)@.len() && !(ooff <= i < ooff + 64) ==> final(out)@[i]
                == old(out)@[i],
{
    let ghost d = inp@;
    let ghost q0 = ioff as int / 3;
    let mut k: usize = 0;
    while k < 15
        invariant
            k <= 15,
            ioff % 3 == 0,
            q0 == ioff / 3,
            ooff == q0 * 4,
            ioff + 48 <= d.len(),
            ooff + 64 <= out.len(),
            d == inp@,
            out@.len() == old(out)@.len(),
            forall|i: int| ooff <= i < ooff + 4 * k ==> #[trigger] out@[i] == enc_char(d, i),
            forall|i: int|
                0 <= i < old(out)@.len() && !(ooff <= i < ooff + 4 * k) ==> out@[i]
                    == old(out)@[i],
        decreases 15 - k,
    {
        let u = load_u32_be_unaligned(inp, ioff + 3 * k);
        let x = enc3_lut_u32_be(u);
        store_u32_le(out, ooff + 4 * k, x);
        proof {
            let q = q0 + k;
            assert forall|i: int| ooff + 4 * k <= i < ooff + 4 * k + 4 implies #[trigger] out@[i]
                == enc_char(d, i) by {
                let j = i - (ooff + 4 * k);
                assert(le_byte(x, j) == out@[i]);
                lemma_enc_char_group(d, q, j);
                assert(3 * q == ioff + 3 * k);
                assert(4 * q + j == i);
            }
        }
        k = k + 1;
    }
    let w = load_u32_be_unaligned(inp, ioff + 44);
    let u = w << 8u32;
    assert((u >> 24u32) == (w >> 16u32) & 0xff && (u >> 16u32) & 0xff == (w >> 8u32) & 0xff && (u
        >> 8u32) & 0xff == w & 0xff) by (bit_vector)
        requires
            u == w << 8u32,
    ;
    let x = enc3_lut_u32_be(u);
    store_u32_le(out, ooff + 60, x);
    proof {
        let q = q0 + 15;
        assert forall|i: int| ooff + 60 <= i < ooff + 64 implies #[trigger] out@[i] == enc_char(d, i) by {
            let j = i - (ooff + 60);
            assert(le_byte(x, j) == out@[i]);
            lemma_enc_char_group(d, q, j);
            assert(4 * q + j == i);
        }
    }
}


/// Character `4q + j` of the encoding of `d`, for any group `q`.
pub proof fn lemma_enc_char_at(d: Seq<u8>, q: int, j: int)
    requires
        0 <= q,
        0 <= j < 4,
    ensures
        enc_char(d, 4 * q + j) == (if 3 * q + j <= d.len() {
            b64_char(enc_field(d, q, j))
        } else {
            PAD
        }),
{
    assert((4 * q + j) / 4 == q);
    assert((4 * q + j) % 4 == j);
}

/// Encode a 1-byte remainder with `==` padding.
pub fn encode_tail_rem1(rem0: u8, out: &mut [u8], o: usize)
    requires
        o + 4 <= old(out)@.len(),
    ensures
        final(out)@.len() == old(out)@.len(),
        final(out)@[o as int] == b64_char(group_field(rem0 as int, 0, 0, 0)),
        final(out)@[o + 1] == b64_char(group_field(rem0 as int, 0, 0, 1)),
        final(out)@[o + 2] == PAD,
        final(out)@[o + 3] == PAD,
        forall|i: int|
            0 <= i < old(out)@.len() && !(o <= i < o + 4) ==> final(out)@[i] == old(out)@[i],
{
    let idx = idx1_from_abc(rem0, 0);
    let p = tb64lut(idx);
    out[o] = (p & 0xff) as u8;
    out[o + 1] = ((p >> 8u32) & 0xff) as u8;
    out[o + 2] = PAD;
    out[o + 3] = PAD;
}

/// Encode a 2-byte remainder with `=` padding.
pub fn encode_tail_rem2(rem0: u8, rem1: u8, out: &mut [u8], o: usize)
    requires
        o + 4 <= old(out)@.len(),
    ensures
        final(out)@.len() == old(out)@.len(),
        final(out)@[o as int] == b64_char(group_field(rem0 as int, rem1 as int, 0, 0)),
        final(out)@[o + 1] == b64_char(group_field(rem0 as int, rem1 as int, 0, 1)),
        final(out)@[o + 2] == b64_char(group_field(rem0 as int, rem1 as int, 0, 2)),
        final(out)@[o + 3] == PAD,
        forall|i: int|
            0 <= i < old(out)@.len() && !(o <= i < o + 4) ==> final(out)@[i] == old(out)@[i],
{
    let idx1 = idx1_from_abc(rem0, rem1);
    let idx2 = idx2_from_abc(rem1, 0);
    let p1 = tb64lut(idx1);
    let p2 = tb64lut(idx2);
    out[o] = (p1 & 0xff) as u8;
    out[o + 1] = ((p1 >> 8u32) & 0xff) as u8;
    out[o + 2] = (p2 & 0xff) as u8;
    out[o + 3] = PAD;
}

/// Encode `inp[ioff..]` (in practice a short tail of the input) three bytes
/// at a time into `out[ooff..]`, including the final `=` padding for 1-byte
/// and 2-byte remainders. Returns the number of characters written.
pub fn encode_scalar_tail(inp: &[u8], ioff: usize, out: &mut [u8], ooff: usize) -> (written: usize)
    requires
        ioff % 3 == 0,
        ioff <= inp@.len(),
        ooff == ioff / 3 * 4,
        enc_len(inp@.len() as int) <= old(out)@.len(),
    ensures
        final(out)@.len() == old(out)@.len(),
        ooff + written == enc_len(inp@.len() as int),
        forall|i: int|
            ooff <= i < enc_len(inp@.len() as int) ==> #[trigger] final(out)@[i] == enc_char(
                inp@,
                i,
            ),
        forall|i: int|
            0 <= i < old(out)@.len() && !(ooff <= i < enc_len(inp@.len() as int))
                ==> final(out)@[i] == old(out)@[i],
{
    let ghost d = inp@;
    let n = inp.len();
    let mut g = ioff;
    let mut og = ooff;
    while n - g >= 3
        invariant
            ioff <= g <= n,
            n == d.len(),
            d == inp@,
            g % 3 == 0,
            og == g / 3 * 4,
            ooff == ioff / 3 * 4,
            enc_len(n as int) <= out.len(),
            out@.len() == old(out)@.len(),
            forall|i: int| ooff <= i < og ==> #[trigger] out@[i] == enc_char(d, i),
            forall|i: int|
                0 <= i < old(out)@.len() && !(ooff <= i < og) ==> out@[i] == old(out)@[i],
        decreases n - g,
    {
        let x = enc3_lut(inp[g], inp[g + 1], inp[g + 2]);
        assert(og + 4 <= enc_len(n as int));
        store_u32_le(out, og, x);
        proof {
            let q = g / 3;
            assert forall|i: int| og <= i < og + 4 implies #[trigger] out@[i] == enc_char(d, i) by {
                let j = i - og;
                lemma_enc_char_group(d, q as int, j);
                assert(4 * q + j == i);
            }
        }
        g = g + 3;
        og = og + 4;
    }
    let rem = n - g;
    if rem != 0 {
        let ghost q = g / 3;
        assert(og + 4 <= enc_len(n as int));
        if rem == 1 {
            encode_tail_rem1(inp[g], out, og);
        } else {
            encode_tail_rem2(inp[g], inp[g + 1], out, og);
        }
        proof {
            assert forall|i: int| og <= i < og + 4 implies #[trigger] out@[i] == enc_char(d, i) by {
                let j = i - og;
                lemma_enc_char_at(d, q as int, j);
                assert(4 * q + j == i);
            }
        }
        og = og + 4;
    }
    assert(og == enc_len(n as int));
    og - ooff
}


// ===========================================================================
// Encode - entry points
// ===========================================================================

/// Encode `inp[ioff..]` into `out[ooff..]`, where `ooff` is the position of
/// character `4 * ioff / 3` of the whole encoding: 48-byte blocks (processed
/// in pairs, then one left-over block), then the scalar tail with padding.
/// Returns the number of characters written.
pub fn encode_from(inp: &[u8], ioff: usize, out: &mut [u8], ooff: usize) -> (written: usize)
    requires
        ioff % 3 == 0,
        ioff <= inp@.len(),
        ooff == ioff / 3 * 4,
        enc_len(inp@.len() as int) <= old(out)@.len(),
    ensures
        final(out)@.len() == old(out)@.len(),
        ooff + written == enc_len(inp@.len() as int),
        forall|i: int|
            ooff <= i < enc_len(inp@.len() as int) ==> #[trigger] final(out)@[i] == enc_char(
                inp@,
                i,
            ),
        forall|i: int|
            0 <= i < old(out)@.len() && !(ooff <= i < enc_len(inp@.len() as int))
                ==> final(out)@[i] == old(out)@[i],
{
    let ghost d = inp@;
    let n = inp.len();
    let mut g = ioff;
    let mut og = ooff;
    // Pairs of 48-byte blocks.
    while n - g >= 96
        invariant
            ioff <= g <= n,
            n == d.len(),
            d == inp@,
            g % 3 == 0,
            og == g / 3 * 4,
            ooff == ioff / 3 * 4,
            enc_len(n as int) <= out.len(),
            out@.len() == old(out)@.len(),
            forall|i: int| ooff <= i < og ==> #[trigger] out@[i] == enc_char(d, i),
            forall|i: int|
                0 <= i < old(out)@.len() && !(ooff <= i < og) ==> out@[i] == old(out)@[i],
        decreases n - g,
    {
        assert(og + 128 <= enc_len(n as int));
        encode_block_48_to_64(inp, g, out, og);
        encode_block_48_to_64(inp, g + 48, out, og + 64);
        g = g + 96;
        og = og + 128;
    }
    // One left-over 48-byte block.
    if n - g >= 48 {
        assert(og + 64 <= enc_len(n as int));
        encode_block_48_to_64(inp, g, out, og);
        g = g + 48;
        og = og + 64;
    }
    let tail = encode_scalar_tail(inp, g, out, og);
    og + tail - ooff
}

/// Encode raw bytes to standard Base64 (RFC 4648).
///
/// Writes the encoded output to the front of `out_data` and returns the number
/// of bytes written (always `ceil(input.len() / 3) * 4`).
pub fn encode_base64_fast(in_data: &[u8], out_data: &mut [u8]) -> (written: usize)
    requires
        enc_len(in_data@.len() as int) <= old(out_data)@.len(),
    ensures
        written == enc_len(in_data@.len() as int),
        final(out_data)@.len() == old(out_data)@.len(),
        final(out_data)@.subrange(0, written as int) == encode_spec(in_data@),
        final(out_data)@.subrange(written as int, final(out_data)@.len() as int)
            == old(out_data)@.subrange(written as int, old(out_data)@.len() as int),
{
    let written = encode_from(in_data, 0, out_data, 0);
    assert(out_data@.subrange(0, written as int) =~= encode_spec(in_data@));
    assert(out_data@.subrange(written as int, out_data@.len() as int) =~= old(out_data)@.subrange(
        written as int,
        old(out_data)@.len() as int,
    ));
    written
}


// ===========================================================================
// Decode helpers
// ===========================================================================

/// Compute the decoded byte length from a Base64 input, accounting for padding.
///
/// Returns `None` if `b64` has an invalid length (not a multiple of 4) or
/// ends in the illegal padding pattern `x===`.
pub fn decoded_len_strict(b64: &[u8]) -> (r: Option<usize>)
    ensures
        match r {
            Some(n) => decoded_len_spec(b64@) == Some(n as int),
            None => decoded_len_spec(b64@) is None,
        },
{
    let n = b64.len();
    if n == 0 {
        return Some(0);
    }
    if n % 4 != 0 {
        return None;
    }
    let pad: usize = if b64[n - 1] == PAD {
        if b64[n - 2] == PAD {
            2
        } else {
            1
        }
    } else {
        0
    };
    assert(pad == pad_count(b64@));
    if pad == 2 && b64[n - 3] == PAD {
        return None;
    }
    Some((n / 4) * 3 - pad)
}

/// The value that the decode sub-table of character position `pos` holds for
/// the 6-bit value `v`: its contribution to the three packed output bytes.
pub open spec fn dec_part(pos: int, v: u32) -> u32 {
    if pos == 0 {
        v << 2u32
    } else if pos == 1 {
        (v >> 4u32) | ((v & 0x0F) << 12u32)
    } else if pos == 2 {
        ((v >> 2u32) << 8u32) | ((v & 0x03) << 22u32)
    } else {
        v << 16u32
    }
}

/// Entry `i` (`< 1024`) of the combined decode table: sub-table `i >> 8`
/// (character position within a quad), character `i & 0xFF`. Characters
/// outside the alphabet map to [`INVALID_U32`].
pub fn dec_lut(i: usize) -> (e: u32)
    requires
        i < 1024,
    ensures
        is_b64((i % 256) as u8) ==> e == dec_part((i / 256) as int, sextet((i % 256) as u8) as u32),
        !is_b64((i % 256) as u8) ==> e == INVALID_U32,
{
    let pos = i / 256;
    let c = (i % 256) as u8;
    let v = rev64(c) as u32;
    if v == 0xFF {
        return INVALID_U32;
    }
    if pos == 0 {
        v << 2u32
    } else if pos == 1 {
        (v >> 4u32) | ((v & 0x0F) << 12u32)
    } else if pos == 2 {
        ((v >> 2u32) << 8u32) | ((v & 0x03) << 22u32)
    } else {
        v << 16u32
    }
}

/// OR of the four sub-table entries of a valid quad.
pub open spec fn quad_word(v0: u32, v1: u32, v2: u32, v3: u32) -> u32 {
    dec_part(0, v0) | dec_part(1, v1) | dec_part(2, v2) | dec_part(3, v3)
}

/// The OR of the sub-table entries of four 6-bit values packs the three
/// decoded bytes little-endian, with the top byte clear.
pub proof fn lemma_quad_word(v0: u32, v1: u32, v2: u32, v3: u32)
    requires
        v0 < 64,
        v1 < 64,
        v2 < 64,
        v3 < 64,
    ensures
        quad_word(v0, v1, v2, v3) < 0x100_0000,
        le_byte(quad_word(v0, v1, v2, v3), 0) == quad_byte(v0 as int, v1 as int, v2 as int, v3 as int, 0),
        le_byte(quad_word(v0, v1, v2, v3), 1) == quad_byte(v0 as int, v1 as int, v2 as int, v3 as int, 1),
        le_byte(quad_word(v0, v1, v2, v3), 2) == quad_byte(v0 as int, v1 as int, v2 as int, v3 as int, 2),
{
    let r = quad_word(v0, v1, v2, v3);
    assert(r < 0x100_0000 && r & 0xff == v0 * 4 + v1 / 16 && (r >> 8u32) & 0xff == (v1 % 16) * 16 + v2 / 4
        && (r >> 16u32) & 0xff == (v2 % 4) * 64 + v3) by (bit_vector)
        requires
            v0 < 64 && v1 < 64 && v2 < 64 && v3 < 64,
            r == (v0 << 2u32) | ((v1 >> 4u32) | ((v1 & 0x0F) << 12u32)) | (((v2 >> 2u32) << 8u32) | ((v2 & 0x03) << 22u32)) | (v3 << 16u32),
    ;
}

/// Decode a Base64 quad `(a, b, c, d)` into a packed little-endian `u32`.
///
/// The three output bytes are in bits 0..23. Returns [`INVALID_U32`] if any
/// input byte is not a Base64 character.
pub fn du32(a: u8, b: u8, c: u8, d: u8) -> (r: u32)
    ensures
        is_b64(a) && is_b64(b) && is_b64(c) && is_b64(d) ==> {
            &&& r < 0x100_0000
            &&& forall|j: int|
                0 <= j < 3 ==> #[trigger] le_byte(r, j) == quad_byte(
                    sextet(a),
                    sextet(b),
                    sextet(c),
                    sextet(d),
                    j,
                )
        },
        !(is_b64(a) && is_b64(b) && is_b64(c) && is_b64(d)) ==> r == INVALID_U32,
{
    let ai = a as usize;
    let bi = b as usize;
    let ci = c as usize;
    let di = d as usize;
    assert((bi | 256) / 256 == 1 && (bi | 256) % 256 == bi && (ci | 512) / 256 == 2 && (ci | 512)
        % 256 == ci && (di | 768) / 256 == 3 && (di | 768) % 256 == di && (bi | 256) < 1024 && (ci
        | 512) < 1024 && (di | 768) < 1024) by (bit_vector)
        requires
            ai < 256 && bi < 256 && ci < 256 && di < 256,
    ;
    let e0 = dec_lut(ai);
    let e1 = dec_lut(bi | 256);
    let e2 = dec_lut(ci | 512);
    let e3 = dec_lut(di | 768);
    let x0 = e0 | e1;
    let x1 = e2 | e3;
    let r = x0 | x1;
    proof {
        assert(r == e0 | e1 | e2 | e3) by (bit_vector)
            requires
                r == (e0 | e1) | (e2 | e3),
        ;
        if is_b64(a) && is_b64(b) && is_b64(c) && is_b64(d) {
            lemma_quad_word(
                sextet(a) as u32,
                sextet(b) as u32,
                sextet(c) as u32,
                sextet(d) as u32,
            );
        } else {
            assert(e0 == 0xFFFF_FFFFu32 || e1 == 0xFFFF_FFFFu32 || e2 == 0xFFFF_FFFFu32 || e3
                == 0xFFFF_FFFFu32);
            assert((e0 == 0xFFFF_FFFFu32 || e1 == 0xFFFF_FFFFu32 || e2 == 0xFFFF_FFFFu32 || e3
                == 0xFFFF_FFFFu32) ==> e0 | e1 | e2 | e3 == 0xFFFF_FFFFu32) by (bit_vector);
        }
    }
    r
}

/// Load bytes `inp[i..i+4]` as a little-endian `u32`.
pub fn load_u32_le(inp: &[u8], i: usize) -> (w: u32)
    requires
        i + 4 <= inp@.len(),
    ensures
        forall|k: int| 0 <= k < 4 ==> #[trigger] le_byte(w, k) == inp@[i + k],
{
    let b0 = inp[i] as u32;
    let b1 = inp[i + 1] as u32;
    let b2 = inp[i + 2] as u32;
    let b3 = inp[i + 3] as u32;
    let w = b0 | (b1 << 8u32) | (b2 << 16u32) | (b3 << 24u32);
    assert(w & 0xff == b0 && (w >> 8u32) & 0xff == b1 && (w >> 16u32) & 0xff == b2 && (w >> 24u32)
        & 0xff == b3) by (bit_vector)
        requires
            b0 < 256 && b1 < 256 && b2 < 256 && b3 < 256,
            w == b0 | (b1 << 8u32) | (b2 << 16u32) | (b3 << 24u32),
    ;
    w
}

/// Decode a Base64 quad packed as a little-endian `u32` word: split the word
/// into its four characters and OR their sub-table entries.
pub fn du32_u32_le(word: u32) -> (r: u32)
    ensures
        ({
            let a = le_byte(word, 0);
            let b = le_byte(word, 1);
            let c = le_byte(word, 2);
            let d = le_byte(word, 3);
            &&& is_b64(a) && is_b64(b) && is_b64(c) && is_b64(d) ==> {
                &&& r < 0x100_0000
                &&& forall|j: int|
                    0 <= j < 3 ==> #[trigger] le_byte(r, j) == quad_byte(
                        sextet(a),
                        sextet(b),
                        sextet(c),
                        sextet(d),
                        j,
                    )
            }
            &&& !(is_b64(a) && is_b64(b) && is_b64(c) && is_b64(d)) ==> r == INVALID_U32
        }),
{
    let a = (word & 0xFF) as u8;
    let b = ((word >> 8u32) & 0xFF) as u8;
    let c = ((word >> 16u32) & 0xFF) as u8;
    let d = ((word >> 24u32) & 0xFF) as u8;
    du32(a, b, c, d)
}

/// The first `nq` quads of `s` hold alphabet characters only.
pub open spec fn quads_valid(s: Seq<u8>, nq: int) -> bool {
    forall|i: int| 0 <= i < 4 * nq ==> #[trigger] is_b64(s[i])
}

/// The error accumulator `cu` summarises the first `nq` quads of `s`: it is
/// [`INVALID_U32`] exactly when one of them holds a non-alphabet character,
/// and otherwise its top byte is clear.
pub open spec fn acc_ok(cu: u32, s: Seq<u8>, nq: int) -> bool {
    &&& (cu == INVALID_U32) == !quads_valid(s, nq)
    &&& cu != INVALID_U32 ==> cu < 0x100_0000
}

/// `o[base..base + 3 * nq]` holds the bytes decoded from the first `nq`
/// quads of `s`.
pub open spec fn out_ok(o: Seq<u8>, base: int, s: Seq<u8>, nq: int) -> bool {
    forall|k: int| 0 <= k < 3 * nq ==> #[trigger] o[base + k] == dec_byte(s, k / 3, k % 3) as u8
}

/// Decode the full quad `q` of `inp` into `out[base + 3q..base + 3q + 3]`,
/// OR-ing its decoded word into the error accumulator.
pub fn decode_quad(inp: &[u8], q: usize, out: &mut [u8], base: usize, cu: &mut u32)
    requires
        4 * q + 4 <= inp.len(),
        base + 3 * q + 3 <= old(out).len(),
        acc_ok(*old(cu), inp@, q as int),
        *old(cu) != INVALID_U32 ==> out_ok(old(out)@, base as int, inp@, q as int),
    ensures
        final(out)@.len() == old(out)@.len(),
        acc_ok(*final(cu), inp@, q + 1),
        *final(cu) != INVALID_U32 ==> out_ok(final(out)@, base as int, inp@, q + 1),
        forall|i: int|
            0 <= i < old(out)@.len() && !(base + 3 * q <= i < base + 3 * q + 3) ==> final(out)@[i]
                == old(out)@[i],
{
    let ghost s = inp@;
    let ghost cu0 = *cu;
    let word = load_u32_le(inp, 4 * q);
    let u = du32_u32_le(word);
    let o = base + 3 * q;
    out[o] = (u & 0xFF) as u8;
    out[o + 1] = ((u >> 8u32) & 0xFF) as u8;
    out[o + 2] = ((u >> 16u32) & 0xFF) as u8;
    *cu = *cu | u;
    proof {
        let qi = q as int;
        let all4 = is_b64(s[4 * qi]) && is_b64(s[4 * qi + 1]) && is_b64(s[4 * qi + 2]) && is_b64(
            s[4 * qi + 3],
        );
        assert(le_byte(word, 0) == s[4 * qi + 0]);
        assert(le_byte(word, 1) == s[4 * qi + 1]);
        assert(le_byte(word, 2) == s[4 * qi + 2]);
        assert(le_byte(word, 3) == s[4 * qi + 3]);
        let cu1 = *cu;
        if all4 {
            assert(quads_valid(s, qi + 1) == quads_valid(s, qi)) by {
                if quads_valid(s, qi) {
                    assert forall|i: int| 0 <= i < 4 * (qi + 1) implies #[trigger] is_b64(s[i]) by {
                        if i >= 4 * qi {
                            assert(i == 4 * qi || i == 4 * qi + 1 || i == 4 * qi + 2 || i == 4 * qi + 3);
                        }
                    }
                }
            }
            assert(cu0 == 0xFFFF_FFFFu32 ==> cu1 == 0xFFFF_FFFFu32) by (bit_vector)
                requires
                    cu1 == cu0 | u,
            ;
            assert((cu0 < 0x100_0000 && u < 0x100_0000) ==> cu1 < 0x100_0000) by (bit_vector)
                requires
                    cu1 == cu0 | u,
            ;
            if cu1 != INVALID_U32 {
                assert forall|k: int| 0 <= k < 3 * (qi + 1) implies #[trigger] out@[base + k]
                    == dec_byte(s, k / 3, k % 3) as u8 by {
                    if k >= 3 * qi {
                        let j = k - 3 * qi;
                        assert(k / 3 == qi && k % 3 == j);
                        assert(le_byte(u, j) == quad_byte(
                            sextet(s[4 * qi]),
                            sextet(s[4 * qi + 1]),
                            sextet(s[4 * qi + 2]),
                            sextet(s[4 * qi + 3]),
                            j,
                        ));
                    }
                }
            }
        } else {
            assert(!quads_valid(s, qi + 1)) by {
                if !is_b64(s[4 * qi]) {
                    assert(!is_b64(s[4 * qi]));
                } else if !is_b64(s[4 * qi + 1]) {
                    assert(!is_b64(s[4 * qi + 1]));
                } else if !is_b64(s[4 * qi + 2]) {
                    assert(!is_b64(s[4 * qi + 2]));
                } else {
                    assert(!is_b64(s[4 * qi + 3]));
                }
            }
            assert(u == 0xFFFF_FFFFu32 ==> cu1 == 0xFFFF_FFFFu32) by (bit_vector)
                requires
                    cu1 == cu0 | u,
            ;
        }
    }
}

/// Decode the quads `[q0, q1)` of `inp` into `out[base + 3 * q0..base + 3 * q1]`.
pub fn decode_quads(inp: &[u8], q0: usize, q1: usize, out: &mut [u8], base: usize, cu: &mut u32)
    requires
        q0 <= q1,
        4 * q1 <= inp.len(),
        base + 3 * q1 <= old(out).len(),
        acc_ok(*old(cu), inp@, q0 as int),
        *old(cu) != INVALID_U32 ==> out_ok(old(out)@, base as int, inp@, q0 as int),
    ensures
        final(out)@.len() == old(out)@.len(),
        acc_ok(*final(cu), inp@, q1 as int),
        *final(cu) != INVALID_U32 ==> out_ok(final(out)@, base as int, inp@, q1 as int),
        forall|i: int|
            0 <= i < old(out)@.len() && !(base + 3 * q0 <= i < base + 3 * q1) ==> final(out)@[i]
                == old(out)@[i],
{
    let mut q = q0;
    while q < q1
        invariant
            q0 <= q <= q1,
            4 * q1 <= inp.len(),
            base + 3 * q1 <= out.len(),
            acc_ok(*cu, inp@, q as int),
            *cu != INVALID_U32 ==> out_ok(out@, base as int, inp@, q as int),
            out@.len() == old(out)@.len(),
            forall|i: int|
                0 <= i < old(out)@.len() && !(base + 3 * q0 <= i < base + 3 * q) ==> out@[i]
                    == old(out)@[i],
        decreases q1 - q,
    {
        decode_quad(inp, q, out, base, cu);
        q = q + 1;
    }
}

/// Decode the 64-character block `inp[ioff..ioff + 64]` (sixteen quads) into
/// the 48 bytes at `out[base + ioff / 4 * 3..]`.
pub fn decode_block_64_to_48(inp: &[u8], ioff: usize, out: &mut [u8], base: usize, cu: &mut u32)
    requires
        ioff % 4 == 0,
        ioff + 64 <= inp.len(),
        base + ioff / 4 * 3 + 48 <= old(out).len(),
        acc_ok(*old(cu), inp@, (ioff / 4) as int),
        *old(cu) != INVALID_U32 ==> out_ok(old(out)@, base as int, inp@, (ioff / 4) as int),
    ensures
        final(out)@.len() == old(out)@.len(),
        acc_ok(*final(cu), inp@, ioff / 4 + 16),
        *final(cu) != INVALID_U32 ==> out_ok(final(out)@, base as int, inp@, ioff / 4 + 16),
        forall|i: int|
            0 <= i < old(out)@.len() && !(base + ioff / 4 * 3 <= i < base + ioff / 4 * 3 + 48)
                ==> final(out)@[i] == old(out)@[i],
{
    decode_quads(inp, ioff / 4, ioff / 4 + 16, out, base, cu);
}

/// Decode `nblocks` consecutive 64-character blocks starting at quad `q0`,
/// four blocks at a time and then the remaining ones one by one.
pub fn decode_body_blocks_64_to_48(
    inp: &[u8],
    q0: usize,
    nblocks: usize,
    out: &mut [u8],
    base: usize,
    cu: &mut u32,
)
    requires
        4 * q0 + 64 * nblocks <= inp.len(),
        base + 3 * q0 + 48 * nblocks <= old(out).len(),
        acc_ok(*old(cu), inp@, q0 as int),
        *old(cu) != INVALID_U32 ==> out_ok(old(out)@, base as int, inp@, q0 as int),
    ensures
        final(out)@.len() == old(out)@.len(),
        acc_ok(*final(cu), inp@, q0 + 16 * nblocks),
        *final(cu) != INVALID_U32 ==> out_ok(final(out)@, base as int, inp@, q0 + 16 * nblocks),
        forall|i: int|
            0 <= i < old(out)@.len() && !(base + 3 * q0 <= i < base + 3 * q0 + 48 * nblocks)
                ==> final(out)@[i] == old(out)@[i],
{
    let mut b: usize = 0;
    while nblocks - b >= 4
        invariant
            b <= nblocks,
            4 * q0 + 64 * nblocks <= inp.len(),
            base + 3 * q0 + 48 * nblocks <= out.len(),
            acc_ok(*cu, inp@, q0 + 16 * b),
            *cu != INVALID_U32 ==> out_ok(out@, base as int, inp@, q0 + 16 * b),
            out@.len() == old(out)@.len(),
            forall|i: int|
                0 <= i < old(out)@.len() && !(base + 3 * q0 <= i < base + 3 * q0 + 48 * b)
                    ==> out@[i] == old(out)@[i],
        decreases nblocks - b,
    {
        let ioff = 4 * q0 + 64 * b;
        decode_block_64_to_48(inp, ioff, out, base, cu);
        decode_block_64_to_48(inp, ioff + 64, out, base, cu);
        decode_block_64_to_48(inp, ioff + 128, out, base, cu);
        decode_block_64_to_48(inp, ioff + 192, out, base, cu);
        b = b + 4;
    }
    while b < nblocks
        invariant
            b <= nblocks,
            4 * q0 + 64 * nblocks <= inp.len(),
            base + 3 * q0 + 48 * nblocks <= out.len(),
            acc_ok(*cu, inp@, q0 + 16 * b),
            *cu != INVALID_U32 ==> out_ok(out@, base as int, inp@, q0 + 16 * b),
            out@.len() == old(out)@.len(),
            forall|i: int|
                0 <= i < old(out)@.len() && !(base + 3 * q0 <= i < base + 3 * q0 + 48 * b)
                    ==> out@[i] == old(out)@[i],
        decreases nblocks - b,
    {
        decode_block_64_to_48(inp, 4 * q0 + 64 * b, out, base, cu);
        b = b + 1;
    }
}

// ===========================================================================
// Decode - tail functions
// ===========================================================================

/// 6-bit value of `c`, with non-alphabet characters (such as `=`) counting
/// as zero.
pub open spec fn sextet_or_zero(c: u8) -> int {
    if is_b64(c) {
        sextet(c)
    } else {
        0
    }
}

/// Number of bytes the final quad `(_, _, c, d)` decodes to.
pub open spec fn tail_len(c: u8, d: u8) -> int {
    if d != PAD {
        3
    } else if c != PAD {
        2
    } else {
        1
    }
}

/// The final quad `(a, b, c, d)` is well formed: the characters before the
/// padding are in the alphabet.
pub open spec fn tail_valid(a: u8, b: u8, c: u8, d: u8) -> bool {
    if d != PAD {
        is_b64(a) && is_b64(b) && is_b64(c) && is_b64(d)
    } else if c != PAD {
        is_b64(a) && is_b64(b) && is_b64(c)
    } else {
        is_b64(a) && is_b64(b)
    }
}

/// Decode the final 4-character group, handling `=` padding.
///
/// Writes 1, 2, or 3 bytes into `out3` depending on padding and returns
/// `Some((bytes_written, decoded_word))`, where the written bytes are the
/// low bytes of `decoded_word`; returns `None` if a non-padding character is
/// invalid. The word lets callers fold it into the error accumulator.
pub fn decode_tail_3(last4: &[u8], out3: &mut [u8]) -> (r: Option<(usize, u32)>)
    requires
        last4@.len() == 4,
        old(out3)@.len() == 3,
    ensures
        final(out3)@.len() == 3,
        r is Some <==> tail_valid(last4@[0], last4@[1], last4@[2], last4@[3]),
        r matches Some((w, u)) ==> {
            &&& w == tail_len(last4@[2], last4@[3])
            &&& u < 0x100_0000
            &&& forall|j: int|
                0 <= j < w ==> #[trigger] final(out3)@[j] == le_byte(u, j) && le_byte(u, j)
                    == quad_byte(
                    sextet_or_zero(last4@[0]),
                    sextet_or_zero(last4@[1]),
                    sextet_or_zero(last4@[2]),
                    sextet_or_zero(last4@[3]),
                    j,
                )
        },
{
    let a = last4[0];
    let b = last4[1];
    let c = last4[2];
    let d = last4[3];

    // No padding: 4 chars -> 3 bytes.
    if d != PAD {
        let u = du32(a, b, c, d);
        if u == INVALID_U32 {
            return None;
        }
        out3[0] = (u & 0xFF) as u8;
        out3[1] = ((u >> 8u32) & 0xFF) as u8;
        out3[2] = ((u >> 16u32) & 0xFF) as u8;
        return Some((3, u));
    }
    // One '=' padding: 3 chars -> 2 bytes.

    if c != PAD {
        let v0 = rev64(a) as u32;
        let v1 = rev64(b) as u32;
        let v2 = rev64(c) as u32;
        assert(((v0 < 64 || v0 == 255) && (v1 < 64 || v1 == 255) && (v2 < 64 || v2 == 255)) ==> (((
        v0 | v1 | v2) == 255) == (v0 == 255 || v1 == 255 || v2 == 255))) by (bit_vector);
        if (v0 | v1 | v2) == 0xFF {
            return None;
        }
        let o0 = (v0 << 2u32) | (v1 >> 4u32);
        let o1 = ((v1 & 0x0F) << 4u32) | (v2 >> 2u32);
        let u = o0 | (o1 << 8u32);
        assert(o0 == v0 * 4 + v1 / 16 && o1 == (v1 % 16) * 16 + v2 / 4 && u < 0x10000 && u & 0xff
            == o0 && (u >> 8u32) & 0xff == o1) by (bit_vector)
            requires
                v0 < 64 && v1 < 64 && v2 < 64,
                o0 == (v0 << 2u32) | (v1 >> 4u32),
                o1 == ((v1 & 0x0F) << 4u32) | (v2 >> 2u32),
                u == o0 | (o1 << 8u32),
        ;
        out3[0] = o0 as u8;
        out3[1] = o1 as u8;
        return Some((2, u));
    }
    // Two '=' padding: 2 chars -> 1 byte.

    let v0 = rev64(a) as u32;
    let v1 = rev64(b) as u32;
    assert(((v0 < 64 || v0 == 255) && (v1 < 64 || v1 == 255)) ==> (((v0 | v1) == 255) == (v0 == 255
        || v1 == 255))) by (bit_vector);
    if (v0 | v1) == 0xFF {
        return None;
    }
    let o0 = (v0 << 2u32) | (v1 >> 4u32);
    assert(o0 == v0 * 4 + v1 / 16 && o0 < 256 && o0 & 0xff == o0) by (bit_vector)
        requires
            v0 < 64 && v1 < 64,
            o0 == (v0 << 2u32) | (v1 >> 4u32),
    ;
    out3[0] = o0 as u8;
    Some((1, o0))
}

/// Decode the final 4-character group into `out[out_off..]`.
///
/// Thin wrapper around [`decode_tail_3`] that copies only the written bytes
/// into `out[out_off..]`.
pub fn decode_tail(last4: &[u8], out: &mut [u8], out_off: usize) -> (r: Option<(usize, u32)>)
    requires
        last4@.len() == 4,
        out_off + tail_len(last4@[2], last4@[3]) <= old(out)@.len(),
    ensures
        final(out)@.len() == old(out)@.len(),
        r is Some <==> tail_valid(last4@[0], last4@[1], last4@[2], last4@[3]),
        r matches Some((w, u)) ==> {
            &&& w == tail_len(last4@[2], last4@[3])
            &&& u < 0x100_0000
            &&& forall|j: int|
                0 <= j < w ==> #[trigger] final(out)@[out_off + j] == quad_byte(
                    sextet_or_zero(last4@[0]),
                    sextet_or_zero(last4@[1]),
                    sextet_or_zero(last4@[2]),
                    sextet_or_zero(last4@[3]),
                    j,
                )
        },
        forall|i: int|
            0 <= i < old(out)@.len() && !(out_off <= i < out_off + tail_len(last4@[2], last4@[3]))
                ==> final(out)@[i] == old(out)@[i],
{
    let mut tmp: Vec<u8> = vec![0u8, 0u8, 0u8];
    let r = decode_tail_3(last4, tmp.as_mut_slice());
    match r {
        None => None,
        Some((written, cu)) => {
            out[out_off] = tmp[0];
            if written >= 2 {
                out[out_off + 1] = tmp[1];
            }
            if written >= 3 {
                out[out_off + 2] = tmp[2];
            }
            Some((written, cu))
        },
    }
}

/// `decode_spec` in terms of the quads of a decodable text: body quads are
/// full quads, the last quad follows the padding rules.
pub proof fn lemma_chars_valid_split(s: Seq<u8>)
    requires
        s.len() >= 4,
        s.len() % 4 == 0,
    ensures
        chars_valid(s) <==> (quads_valid(s, s.len() / 4 - 1) && tail_valid(
            s[s.len() - 4],
            s[s.len() - 3],
            s[s.len() - 2],
            s[s.len() - 1],
        )),
{
    let n = s.len() as int;
    let nq = n / 4 - 1;
    assert(4 * nq == n - 4);
    if chars_valid(s) {
        assert forall|i: int| 0 <= i < 4 * nq implies #[trigger] is_b64(s[i]) by {
            assert(is_b64(s[i]));
        }
        assert(is_b64(s[n - 4]));
        if s[n - 1] != PAD {
            assert(is_b64(s[n - 3]) && is_b64(s[n - 2]) && is_b64(s[n - 1]));
        } else if s[n - 2] != PAD {
            assert(is_b64(s[n - 3]) && is_b64(s[n - 2]));
        } else {
            assert(is_b64(s[n - 3]));
        }
    }
    if quads_valid(s, nq) && tail_valid(s[n - 4], s[n - 3], s[n - 2], s[n - 1]) {
        assert forall|i: int| 0 <= i < n - pad_count(s) implies #[trigger] is_b64(s[i]) by {
            if i < 4 * nq {
                assert(is_b64(s[i]));
            }
        }
    }
}

// ===========================================================================
// Decode - entry points
// ===========================================================================

/// Decode standard Base64 `in_data` into `out[ooff..]`; the offset form of
/// [`decode_base64_fast`], used by the SIMD engines to finish a tail.
///
/// Phases: 64-character blocks (four at a time, then one by one), the
/// remaining body quads, and the final quad with its padding rules. Error
/// detection is deferred to one check of the OR accumulator at the end.
pub fn decode_into(in_data: &[u8], out: &mut [u8], ooff: usize) -> (r: Option<usize>)
    requires
        ooff <= old(out)@.len(),
    ensures
        final(out)@.len() == old(out)@.len(),
        r is Some <==> (decodable(in_data@) && ooff + decoded_len_spec(in_data@)->0
            <= old(out)@.len()),
        r matches Some(w) ==> {
            &&& w == decoded_len_spec(in_data@)->0
            &&& forall|k: int|
                0 <= k < w ==> #[trigger] final(out)@[ooff + k] == decoded_bytes(in_data@)[k]
            &&& forall|i: int|
                0 <= i < old(out)@.len() && !(ooff <= i < ooff + w) ==> final(out)@[i]
                    == old(out)@[i]
        },
        forall|i: int|
            0 <= i < old(out)@.len() && !(ooff <= i < ooff + in_data@.len() / 4 * 3)
                ==> final(out)@[i] == old(out)@[i],
        decoded_len_spec(in_data@) matches Some(m) ==> forall|i: int|
            0 <= i < old(out)@.len() && !(ooff <= i < ooff + m) ==> #[trigger] final(out)@[i] == old(out)@[i],
        decoded_len_spec(in_data@) is None || ooff + decoded_len_spec(in_data@)->0 > old(out)@.len()
            ==> final(out)@ == old(out)@,
{
    let ghost s = in_data@;
    let out_len = match decoded_len_strict(in_data) {
        Some(l) => l,
        None => return None,
    };
    if out.len() - ooff < out_len {
        return None;
    }
    let n = in_data.len();
    if n == 0 {
        assert(decodable(s));
        return Some(0);
    }
    let nq = n / 4 - 1;
    let nblocks = nq / 16;
    let mut cu: u32 = 0;
    assert(acc_ok(cu, s, 0));
    // Phase 1: 64-character blocks -> 48-byte outputs.
    decode_body_blocks_64_to_48(in_data, 0, nblocks, out, ooff, &mut cu);
    // Phase 2: remaining body quads (< 64 characters).
    decode_quads(in_data, 16 * nblocks, nq, out, ooff, &mut cu);
    // Phase 3: final 4-character group (with possible padding).
    let last4 = vstd::slice::slice_subrange(in_data, n - 4, n);
    proof {
        assert(last4@[0] == s[n - 4] && last4@[1] == s[n - 3] && last4@[2] == s[n - 2] && last4@[3]
            == s[n - 1]);
        assert(tail_len(last4@[2], last4@[3]) == 3 - pad_count(s));
        lemma_chars_valid_split(s);
    }
    let (tail_written, cu_tail) = match decode_tail(last4, out, ooff + 3 * nq) {
        Some(t) => t,
        None => return None,
    };
    let cu_body = cu;
    cu = cu | cu_tail;
    assert(cu_body == 0xFFFF_FFFFu32 ==> cu == 0xFFFF_FFFFu32) by (bit_vector)
        requires
            cu == cu_body | cu_tail,
    ;
    assert((cu_body < 0x100_0000 && cu_tail < 0x100_0000) ==> cu < 0x100_0000) by (bit_vector)
        requires
            cu == cu_body | cu_tail,
    ;
    if cu == INVALID_U32 {
        None
    } else {
        proof {
            let d = decoded_bytes(s);
            assert forall|k: int| 0 <= k < out_len implies #[trigger] out@[ooff + k] == d[k] by {
                if k >= 3 * nq {
                    let j = k - 3 * nq;
                    assert(k / 3 == nq && k % 3 == j);
                    assert(out@[ooff + 3 * nq + j] == out@[ooff + k]);
                }
            }
        }
        Some(out_len)
    }
}

/// Decode standard Base64 (RFC 4648) to raw bytes.
///
/// Writes decoded output to the front of `out_data` and returns the number of
/// bytes written, or `None` if the input is invalid (bad length, illegal
/// padding, or non-Base64 characters) or `out_data` is too short.
pub fn decode_base64_fast(in_data: &[u8], out_data: &mut [u8]) -> (r: Option<usize>)
    ensures
        final(out_data)@.len() == old(out_data)@.len(),
        r is Some <==> (decode_spec(in_data@) is Some && decode_spec(in_data@)->0.len()
            <= old(out_data)@.len()),
        r matches Some(w) ==> final(out_data)@.subrange(0, w as int) == decode_spec(in_data@)->0,
        r matches Some(w) ==> decoded_len_spec(in_data@) == Some(w as int),
        r matches Some(w) ==> final(out_data)@.subrange(w as int, final(out_data)@.len() as int)
            == old(out_data)@.subrange(w as int, old(out_data)@.len() as int),
        decoded_len_spec(in_data@) matches Some(m) ==> forall|i: int|
            m <= i < old(out_data)@.len() ==> #[trigger] final(out_data)@[i] == old(out_data)@[i],
        decoded_len_spec(in_data@) is None || decoded_len_spec(in_data@)->0 > old(out_data)@.len()
            ==> final(out_data)@ == old(out_data)@,
{
    let r = decode_into(in_data, out_data, 0);
    proof {
        if let Some(w) = r {
            assert forall|k: int| 0 <= k < w implies #[trigger] out_data@.subrange(0, w as int)[k]
                == decode_spec(in_data@)->0[k] by {
                assert(out_data@[0 + k] == decoded_bytes(in_data@)[k]);
            }
            assert(out_data@.subrange(0, w as int) =~= decode_spec(in_data@)->0);
            assert(out_data@.subrange(w as int, out_data@.len() as int) =~= old(out_data)@.subrange(
                w as int,
                old(out_data)@.len() as int,
            ));
        }
    }
    r
}

// ===========================================================================
// ScalarDecoder - trait implementation
// ===========================================================================

/// Pure-scalar Base64 decoder/encoder.
///
/// Used as the fallback on platforms without SIMD support. Implements
/// [`Base64Decoder`] using [`decode_base64_fast`] and [`encode_base64_fast`].
pub struct ScalarDecoder;

impl Base64Decoder for ScalarDecoder {
    open spec fn validates_all(&self) -> bool {
        true
    }

    fn decode_to_slice(&self, input: &[u8], out: &mut [u8]) -> (r: Option<usize>) {
        let r = decode_base64_fast(input, out);
        proof {
            if decodable(input@) && decoded_len_spec(input@)->0 <= old(out)@.len() {
                assert(decode_spec(input@) == Some(decoded_bytes(input@)));
            }
            if let Some(w) = r {
                assert(decode_spec(input@) is Some);
            }
        }
        r
    }

    fn encode_to_slice(&self, input: &[u8], out: &mut [u8]) -> (r: usize) {
        encode_base64_fast(input, out)
    }
}

} // verus!
