//! Portable lane operations of the vector engines.
//!
//! The x86 (SSSE3, AVX2), WebAssembly and AArch64 decoders map every input
//! byte to its 6-bit value with byte-lane instructions and validate it with a
//! second lookup; the encoders extract 6-bit fields with lane multiplies and
//! translate them to ASCII with a lookup. This module states those lane
//! operations on plain bytes: each 32-bit lane (one Base64 quad, one 3-byte
//! group) is processed by one function whose result is proved against the
//! Base64 model for every input byte.
use vstd::prelude::*;
use super::b64::{b64_char, group_field, is_b64, quad_byte, sextet};
use super::models::wasm_simd128::pshufb_lookup_byte;
use super::scalar::{alphabet, rev64};

verus! {

// ---------------------------------------------------------------------------
// Decode tables of the hash-based decoders (SSSE3, AVX2, WebAssembly)
// ---------------------------------------------------------------------------

/// First lookup table of the mapping hash:
/// `delta_hash = avg(pshufb(DELTA_ASSO, iv), iv >> 3)`.
pub const DELTA_ASSO: [u8; 16] = [
    0x01, 0x01, 0x01, 0x01, 0x01, 0x01, 0x01, 0x01, 0x00, 0x00, 0x00, 0x00, 0x00, 0x0f, 0x00, 0x0f,
];

/// Second lookup table of the mapping hash: `pshufb(DELTA_VALUES, delta_hash)`
/// is the offset that turns an alphabet character into its 6-bit value.
pub const DELTA_VALUES: [u8; 16] = [
    0x00, 0x00, 0x00, 0x13, 0x04, 0xbf, 0xbf, 0xb9, 0xb9, 0x00, 0x10, 0xc3, 0xbf, 0xbf, 0xb9, 0xb9,
];

/// First lookup table of the validity hash.
pub const CHECK_ASSO: [u8; 16] = [
    0x0d, 0x01, 0x01, 0x01, 0x01, 0x01, 0x01, 0x01, 0x01, 0x01, 0x03, 0x07, 0x0b, 0x0b, 0x0b, 0x0f,
];

/// Second lookup table of the validity hash: the saturating sum of its entry
/// and the input byte is negative exactly for bytes outside the alphabet.
pub const CHECK_VALUES: [u8; 16] = [
    0x80, 0x80, 0x80, 0x80, 0xcf, 0xbf, 0xd5, 0xa6, 0xb5, 0x86, 0xd1, 0x80, 0xb1, 0x80, 0x91, 0x80,
];

/// Entry `i` (`i < 16`) of [`DELTA_ASSO`].
pub open spec fn delta_asso_entry(i: u8) -> u8 {
    if i < 8 {
        0x01
    } else if i == 13 || i == 15 {
        0x0f
    } else {
        0x00
    }
}

/// Entry `i` (`i < 16`) of [`DELTA_VALUES`].
pub open spec fn delta_values_entry(i: u8) -> u8 {
    if i == 3 {
        0x13
    } else if i == 4 {
        0x04
    } else if i == 5 || i == 6 || i == 12 || i == 13 {
        0xbf
    } else if i == 7 || i == 8 || i == 14 || i == 15 {
        0xb9
    } else if i == 10 {
        0x10
    } else if i == 11 {
        0xc3
    } else {
        0x00
    }
}

/// Entry `i` (`i < 16`) of [`CHECK_ASSO`].
pub open spec fn check_asso_entry(i: u8) -> u8 {
    if i == 0 {
        0x0d
    } else if i < 10 {
        0x01
    } else if i == 10 {
        0x03
    } else if i == 11 {
        0x07
    } else if i < 15 {
        0x0b
    } else {
        0x0f
    }
}

/// Entry `i` (`i < 16`) of [`CHECK_VALUES`].
pub open spec fn check_values_entry(i: u8) -> u8 {
    if i < 4 {
        0x80
    } else if i == 4 {
        0xcf
    } else if i == 5 {
        0xbf
    } else if i == 6 {
        0xd5
    } else if i == 7 {
        0xa6
    } else if i == 8 {
        0xb5
    } else if i == 9 {
        0x86
    } else if i == 10 {
        0xd1
    } else if i == 12 {
        0xb1
    } else if i == 14 {
        0x91
    } else {
        0x80
    }
}

/// The lookup tables hold the entries their formulas state.
pub proof fn lemma_tables()
    ensures
        forall|i: u8| i < 16 ==> #[trigger] DELTA_ASSO@[i as int] == delta_asso_entry(i),
        forall|i: u8| i < 16 ==> #[trigger] DELTA_VALUES@[i as int] == delta_values_entry(i),
        forall|i: u8| i < 16 ==> #[trigger] CHECK_ASSO@[i as int] == check_asso_entry(i),
        forall|i: u8| i < 16 ==> #[trigger] CHECK_VALUES@[i as int] == check_values_entry(i),
{
    assert forall|i: u8| i < 16 implies #[trigger] DELTA_ASSO@[i as int] == delta_asso_entry(i) by {
        lemma_nibble_cases(i);
    }
    assert forall|i: u8| i < 16 implies #[trigger] DELTA_VALUES@[i as int] == delta_values_entry(i)
        by {
        lemma_nibble_cases(i);
    }
    assert forall|i: u8| i < 16 implies #[trigger] CHECK_ASSO@[i as int] == check_asso_entry(i) by {
        lemma_nibble_cases(i);
    }
    assert forall|i: u8| i < 16 implies #[trigger] CHECK_VALUES@[i as int] == check_values_entry(i)
        by {
        lemma_nibble_cases(i);
    }
}

/// A nibble is one of its sixteen values.
pub proof fn lemma_nibble_cases(i: u8)
    requires
        i < 16,
    ensures
        i == 0 || i == 1 || i == 2 || i == 3 || i == 4 || i == 5 || i == 6 || i == 7 || i == 8 || i
            == 9 || i == 10 || i == 11 || i == 12 || i == 13 || i == 14 || i == 15,
{
}

// ---------------------------------------------------------------------------
// Lane semantics
// ---------------------------------------------------------------------------

/// `pshufb` of a table given by its entry formula: zero for control bytes with
/// the top bit set, otherwise the entry of the low nibble.
pub open spec fn shuf_delta_asso(c: u8) -> u8 {
    if c & 0x80 != 0 {
        0
    } else {
        delta_asso_entry(c & 0x0f)
    }
}

/// `pshufb(DELTA_VALUES, c)`.
pub open spec fn shuf_delta_values(c: u8) -> u8 {
    if c & 0x80 != 0 {
        0
    } else {
        delta_values_entry(c & 0x0f)
    }
}

/// `pshufb(CHECK_ASSO, c)`.
pub open spec fn shuf_check_asso(c: u8) -> u8 {
    if c & 0x80 != 0 {
        0
    } else {
        check_asso_entry(c & 0x0f)
    }
}

/// `pshufb(CHECK_VALUES, c)`.
pub open spec fn shuf_check_values(c: u8) -> u8 {
    if c & 0x80 != 0 {
        0
    } else {
        check_values_entry(c & 0x0f)
    }
}

/// Byte lane of a 32-bit logical shift right by 3: the lane's own bits
/// shifted down and the low 3 bits of the next lane of the same 32-bit word
/// (zero for the top lane) shifted in.
pub open spec fn srl3_lane(b: u8, next: u8) -> u8 {
    ((b >> 3u8) | (next << 5u8)) as u8
}

/// Rounding average of two bytes (`pavgb`).
pub open spec fn avg_lane(a: u8, b: u8) -> u8 {
    let s: u16 = ((a as u16) + (b as u16) + 1) as u16;
    (s >> 1u16) as u8
}

/// Wrapping byte addition.
pub open spec fn add_lane(a: u8, b: u8) -> u8 {
    let s: u16 = ((a as u16) + (b as u16)) as u16;
    (s & 0xff) as u8
}

/// Biased sum of two signed bytes: `a + b + 256` for their signed values.
pub open spec fn biased_sum(a: u8, b: u8) -> u16 {
    (((a ^ 0x80u8) as u16) + ((b ^ 0x80u8) as u16)) as u16
}

/// Signed saturating byte addition (`paddsb`), on the bit patterns.
pub open spec fn adds_lane(a: u8, b: u8) -> u8 {
    let s = biased_sum(a, b);
    if s < 128 {
        0x80
    } else if s > 383 {
        0x7f
    } else {
        (s & 0xff) as u8
    }
}

/// 6-bit value the mapping hash gives the byte `b`, whose right neighbour in
/// its 32-bit word is `next`.
pub open spec fn hash_mapped(b: u8, next: u8) -> u8 {
    let sh = srl3_lane(b, next);
    add_lane(shuf_delta_values(avg_lane(shuf_delta_asso(b), sh)), b)
}

/// Result lane of the validity hash for the byte `b`.
pub open spec fn hash_check(b: u8, next: u8) -> u8 {
    let sh = srl3_lane(b, next);
    adds_lane(shuf_check_values(avg_lane(shuf_check_asso(b), sh)), b)
}

/// 6-bit value of an alphabet character, as a byte.
pub open spec fn sextet_u8(c: u8) -> u8 {
    if 65 <= c && c <= 90 {
        (c - 65) as u8
    } else if 97 <= c && c <= 122 {
        (c - 71) as u8
    } else if 48 <= c && c <= 57 {
        (c + 4) as u8
    } else if c == 43 {
        62
    } else {
        63
    }
}

/// The mapping hash yields the 6-bit value of every alphabet character, and
/// the validity hash flags (sign bit set) exactly the bytes outside the
/// alphabet, whatever the neighbouring byte.
pub proof fn lemma_hash_lane(b: u8, next: u8)
    by (bit_vector)
    ensures
        is_b64(b) ==> hash_mapped(b, next) == sextet_u8(b),
        (hash_check(b, next) >= 128) == !is_b64(b),
{
}

/// The byte form of the 6-bit value agrees with the model's.
pub proof fn lemma_sextet_u8(c: u8)
    requires
        is_b64(c),
    ensures
        sextet_u8(c) as int == sextet(c),
        sextet_u8(c) < 64,
{
}

// ---------------------------------------------------------------------------
// Packing four 6-bit values into three bytes
// ---------------------------------------------------------------------------

/// `pmaddubsw` with `0x01400140` then `pmaddwd` with `0x00011000`: the 32-bit
/// lane `m0 * 2^18 + m1 * 2^12 + m2 * 2^6 + m3`.
pub open spec fn madd_word(m0: u8, m1: u8, m2: u8, m3: u8) -> u32 {
    let w0: u32 = ((m0 as u32) * 64 + (m1 as u32)) as u32;
    let w1: u32 = ((m2 as u32) * 64 + (m3 as u32)) as u32;
    ((w0 * 4096) as u32 + w1) as u32
}

/// Packing through the multiply-adds yields the three decoded bytes in the
/// top-down order the cross-pack shuffle selects.
pub proof fn lemma_madd_pack(m0: u8, m1: u8, m2: u8, m3: u8)
    by (bit_vector)
    requires
        m0 < 64 && m1 < 64 && m2 < 64 && m3 < 64,
    ensures
        (madd_word(m0, m1, m2, m3) >> 16u32) & 0xff == (m0 as u32) * 4 + (m1 as u32) / 16,
        (madd_word(m0, m1, m2, m3) >> 8u32) & 0xff == ((m1 as u32) % 16) * 16 + (m2 as u32) / 4,
        madd_word(m0, m1, m2, m3) & 0xff == ((m2 as u32) % 4) * 64 + (m3 as u32),
{
}

/// Packing through byte shifts (`(a << 2) | (b >> 4)`, ...) yields the three
/// decoded bytes.
pub proof fn lemma_shift_pack(m0: u8, m1: u8, m2: u8, m3: u8)
    by (bit_vector)
    requires
        m0 < 64 && m1 < 64 && m2 < 64 && m3 < 64,
    ensures
        ((m0 << 2u8) | (m1 >> 4u8)) as u32 == (m0 as u32) * 4 + (m1 as u32) / 16,
        ((m1 << 4u8) | (m2 >> 2u8)) as u32 == ((m1 as u32) % 16) * 16 + (m2 as u32) / 4,
        ((m2 << 6u8) | m3) as u32 == ((m2 as u32) % 4) * 64 + (m3 as u32),
{
}

// ---------------------------------------------------------------------------
// Lane operations
// ---------------------------------------------------------------------------

/// Control-byte facts of `pshufb`: the top bit and the low nibble.
pub proof fn lemma_ctrl(c: u8)
    by (bit_vector)
    ensures
        (c & 0x80 != 0) == (c >= 128),
        c & 0x0f == c % 16,
        c & 0x0f < 16,
{
}

/// `pshufb(DELTA_ASSO, c)`.
pub fn pshufb_delta_asso(c: u8) -> (r: u8)
    ensures
        r == shuf_delta_asso(c),
{
    proof {
        lemma_tables();
        lemma_ctrl(c);
    }
    pshufb_lookup_byte(DELTA_ASSO, c)
}

/// `pshufb(DELTA_VALUES, c)`.
pub fn pshufb_delta_values(c: u8) -> (r: u8)
    ensures
        r == shuf_delta_values(c),
{
    proof {
        lemma_tables();
        lemma_ctrl(c);
    }
    pshufb_lookup_byte(DELTA_VALUES, c)
}

/// `pshufb(CHECK_ASSO, c)`.
pub fn pshufb_check_asso(c: u8) -> (r: u8)
    ensures
        r == shuf_check_asso(c),
{
    proof {
        lemma_tables();
        lemma_ctrl(c);
    }
    pshufb_lookup_byte(CHECK_ASSO, c)
}

/// `pshufb(CHECK_VALUES, c)`.
pub fn pshufb_check_values(c: u8) -> (r: u8)
    ensures
        r == shuf_check_values(c),
{
    proof {
        lemma_tables();
        lemma_ctrl(c);
    }
    pshufb_lookup_byte(CHECK_VALUES, c)
}

/// Byte lane of a 32-bit shift right by 3 (`psrld 3`).
pub fn srl3(b: u8, next: u8) -> (r: u8)
    ensures
        r == srl3_lane(b, next),
{
    ((b >> 3u8) | (next << 5u8)) as u8
}

/// Rounding average (`pavgb`).
pub fn avg_epu8(a: u8, b: u8) -> (r: u8)
    ensures
        r == avg_lane(a, b),
{
    let s: u16 = (a as u16) + (b as u16) + 1;
    (s >> 1u16) as u8
}

/// Wrapping byte addition (`paddb`).
pub fn add_epi8(a: u8, b: u8) -> (r: u8)
    ensures
        r == add_lane(a, b),
{
    let s: u16 = (a as u16) + (b as u16);
    (s & 0xff) as u8
}

/// Signed saturating byte addition (`paddsb`).
pub fn adds_epi8(a: u8, b: u8) -> (r: u8)
    ensures
        r == adds_lane(a, b),
{
    let s: u16 = ((a ^ 0x80u8) as u16) + ((b ^ 0x80u8) as u16);
    if s < 128 {
        0x80
    } else if s > 383 {
        0x7f
    } else {
        (s & 0xff) as u8
    }
}

// ---------------------------------------------------------------------------
// One quad of the hash-based decoders
// ---------------------------------------------------------------------------

/// The three bytes decoded from the quad `(b0, b1, b2, b3)` of alphabet
/// characters.
pub open spec fn quad_ok(b0: u8, b1: u8, b2: u8, b3: u8, o0: u8, o1: u8, o2: u8) -> bool {
    &&& o0 as int == quad_byte(sextet(b0), sextet(b1), sextet(b2), sextet(b3), 0)
    &&& o1 as int == quad_byte(sextet(b0), sextet(b1), sextet(b2), sextet(b3), 1)
    &&& o2 as int == quad_byte(sextet(b0), sextet(b1), sextet(b2), sextet(b3), 2)
}

/// Map the four bytes of one 32-bit lane through the mapping hash, and,
/// when `check` is set, through the validity hash. Returns the four 6-bit
/// values and whether a lane was flagged.
pub fn hash_map_quad(b0: u8, b1: u8, b2: u8, b3: u8, check: bool) -> (r: (u8, u8, u8, u8, bool))
    ensures
        is_b64(b0) ==> r.0 == sextet_u8(b0),
        is_b64(b1) ==> r.1 == sextet_u8(b1),
        is_b64(b2) ==> r.2 == sextet_u8(b2),
        is_b64(b3) ==> r.3 == sextet_u8(b3),
        check ==> (r.4 == !(is_b64(b0) && is_b64(b1) && is_b64(b2) && is_b64(b3))),
        !check ==> !r.4,
{
    let s0 = srl3(b0, b1);
    let s1 = srl3(b1, b2);
    let s2 = srl3(b2, b3);
    let s3 = srl3(b3, 0);
    let m0 = add_epi8(pshufb_delta_values(avg_epu8(pshufb_delta_asso(b0), s0)), b0);
    let m1 = add_epi8(pshufb_delta_values(avg_epu8(pshufb_delta_asso(b1), s1)), b1);
    let m2 = add_epi8(pshufb_delta_values(avg_epu8(pshufb_delta_asso(b2), s2)), b2);
    let m3 = add_epi8(pshufb_delta_values(avg_epu8(pshufb_delta_asso(b3), s3)), b3);
    proof {
        lemma_hash_lane(b0, b1);
        lemma_hash_lane(b1, b2);
        lemma_hash_lane(b2, b3);
        lemma_hash_lane(b3, 0);
    }
    let mut bad = false;
    if check {
        let c0 = adds_epi8(pshufb_check_values(avg_epu8(pshufb_check_asso(b0), s0)), b0);
        let c1 = adds_epi8(pshufb_check_values(avg_epu8(pshufb_check_asso(b1), s1)), b1);
        let c2 = adds_epi8(pshufb_check_values(avg_epu8(pshufb_check_asso(b2), s2)), b2);
        let c3 = adds_epi8(pshufb_check_values(avg_epu8(pshufb_check_asso(b3), s3)), b3);
        bad = c0 >= 128 || c1 >= 128 || c2 >= 128 || c3 >= 128;
    }
    (m0, m1, m2, m3, bad)
}

/// Pack four 6-bit values through the multiply-adds and the cross-pack
/// shuffle (SSSE3, AVX2, AVX-512): the three bytes of the 32-bit lane, top
/// byte first.
pub fn pack_madd(m0: u8, m1: u8, m2: u8, m3: u8) -> (r: (u8, u8, u8))
    ensures
        m0 < 64 && m1 < 64 && m2 < 64 && m3 < 64 ==> {
            &&& r.0 as int == quad_byte(m0 as int, m1 as int, m2 as int, m3 as int, 0)
            &&& r.1 as int == quad_byte(m0 as int, m1 as int, m2 as int, m3 as int, 1)
            &&& r.2 as int == quad_byte(m0 as int, m1 as int, m2 as int, m3 as int, 2)
        },
{
    let w0: u32 = (m0 as u32) * 64 + (m1 as u32);
    let w1: u32 = (m2 as u32) * 64 + (m3 as u32);
    let d: u32 = w0 * 4096 + w1;
    proof {
        if m0 < 64 && m1 < 64 && m2 < 64 && m3 < 64 {
            lemma_madd_pack(m0, m1, m2, m3);
        }
    }
    (((d >> 16u32) & 0xff) as u8, ((d >> 8u32) & 0xff) as u8, (d & 0xff) as u8)
}

/// Pack four 6-bit values through byte shifts (WebAssembly, NEON).
pub fn pack_shift(m0: u8, m1: u8, m2: u8, m3: u8) -> (r: (u8, u8, u8))
    ensures
        m0 < 64 && m1 < 64 && m2 < 64 && m3 < 64 ==> {
            &&& r.0 as int == quad_byte(m0 as int, m1 as int, m2 as int, m3 as int, 0)
            &&& r.1 as int == quad_byte(m0 as int, m1 as int, m2 as int, m3 as int, 1)
            &&& r.2 as int == quad_byte(m0 as int, m1 as int, m2 as int, m3 as int, 2)
        },
{
    proof {
        if m0 < 64 && m1 < 64 && m2 < 64 && m3 < 64 {
            lemma_shift_pack(m0, m1, m2, m3);
        }
    }
    (((m0 << 2u8) | (m1 >> 4u8)) as u8, ((m1 << 4u8) | (m2 >> 2u8)) as u8, ((m2 << 6u8) | m3) as u8)
}

// ---------------------------------------------------------------------------
// Table-lookup decoders (AVX-512 VBMI, NEON)
// ---------------------------------------------------------------------------

/// Entry `i` (`i < 128`) of the 128-byte VBMI decode table (two 64-byte
/// registers for `vpermi2b`): the 6-bit value, or `0x80` for bytes outside
/// the alphabet.
pub fn vbmi_lut(i: u8) -> (r: u8)
    requires
        i < 128,
    ensures
        is_b64(i) ==> r == sextet_u8(i),
        !is_b64(i) ==> r == 0x80,
{
    let v = rev64(i);
    if v == 0xFF {
        0x80
    } else {
        v
    }
}

/// NEON two-table lookup (`vqtbl4q` on the upper 64 entries with the index
/// `b ^ 0x40`, then `vqtbx4q` on the lower 64): the 128-byte table entry for
/// bytes below 128 (`0xFF` outside the alphabet), zero above.
pub fn neon_delookup(b: u8) -> (r: u8)
    ensures
        is_b64(b) ==> r == sextet_u8(b),
        !is_b64(b) && b < 128 ==> r == 0xFF,
        b >= 128 ==> r == 0,
{
    if b < 64 {
        rev64(b)
    } else if b < 128 {
        rev64(b)
    } else {
        0
    }
}

/// The low seven bits of a byte index the 128-entry tables, and leave bytes
/// below 128 unchanged.
pub proof fn lemma_low7(b: u8)
    by (bit_vector)
    ensures
        b & 0x7f < 128,
        b < 128 ==> b & 0x7f == b,
{
}

/// Top-bit test of an OR of two bytes.
pub proof fn lemma_or_top(a: u8, b: u8)
    by (bit_vector)
    ensures
        ((a | b) >= 128) == (a >= 128 || b >= 128),
{
}

/// How a lane decoder validates a quad.
pub enum CheckMode {
    /// No validation.
    Skip,
    /// Every byte outside the alphabet is flagged.
    Full,
}

/// The lane decoders of the vector engines.
pub enum LaneDecoder {
    /// Mapping and validity hashes, multiply-add packing (SSSE3, AVX2).
    HashMadd,
    /// Mapping and validity hashes, shift packing (WebAssembly).
    HashShift,
    /// 128-byte table permutation, multiply-add packing (AVX-512 VBMI).
    Vbmi,
    /// 128-byte table lookup, shift packing (NEON).
    Neon,
}

/// The bytes `s[a..b]` are alphabet characters.
pub open spec fn range_valid(s: Seq<u8>, a: int, b: int) -> bool {
    forall|k: int| a <= k < b ==> #[trigger] is_b64(s[k])
}

/// `bad` reports the quad `(b0, b1, b2, b3)` as `mode` promises.
pub open spec fn check_ok(mode: CheckMode, bad: bool, b0: u8, b1: u8, b2: u8, b3: u8) -> bool {
    let all = is_b64(b0) && is_b64(b1) && is_b64(b2) && is_b64(b3);
    match mode {
        CheckMode::Skip => !bad,
        CheckMode::Full => bad == !all,
    }
}

/// Decode one quad (one 32-bit lane) with the lane decoder `kind`: the three
/// packed bytes and the check flag.
pub fn decode_lane(kind: &LaneDecoder, b0: u8, b1: u8, b2: u8, b3: u8, mode: &CheckMode) -> (r: (
    u8,
    u8,
    u8,
    bool,
))
    ensures
        check_ok(*mode, r.3, b0, b1, b2, b3),
        is_b64(b0) && is_b64(b1) && is_b64(b2) && is_b64(b3) ==> quad_ok(b0, b1, b2, b3, r.0, r.1, r.2),
{
    let (m0, m1, m2, m3, bad) = match kind {
        LaneDecoder::HashMadd | LaneDecoder::HashShift => {
            let check = match mode {
                CheckMode::Skip => false,
                _ => true,
            };
            hash_map_quad(b0, b1, b2, b3, check)
        },
        LaneDecoder::Vbmi => {
            proof {
                lemma_low7(b0);
                lemma_low7(b1);
                lemma_low7(b2);
                lemma_low7(b3);
            }
            let m0 = vbmi_lut(b0 & 0x7f);
            let m1 = vbmi_lut(b1 & 0x7f);
            let m2 = vbmi_lut(b2 & 0x7f);
            let m3 = vbmi_lut(b3 & 0x7f);
            let bad = match mode {
                CheckMode::Skip => false,
                _ => {
                    proof {
                        lemma_or_top(m0, b0);
                        lemma_or_top(m1, b1);
                        lemma_or_top(m2, b2);
                        lemma_or_top(m3, b3);
                    }
                    (m0 | b0) >= 128 || (m1 | b1) >= 128 || (m2 | b2) >= 128 || (m3 | b3) >= 128
                },
            };
            (m0, m1, m2, m3, bad)
        },
        LaneDecoder::Neon => {
            let m0 = neon_delookup(b0);
            let m1 = neon_delookup(b1);
            let m2 = neon_delookup(b2);
            let m3 = neon_delookup(b3);
            let bad = match mode {
                CheckMode::Skip => false,
                CheckMode::Full => {
                    proof {
                        lemma_or_top(m0, b0);
                        lemma_or_top(m1, b1);
                        lemma_or_top(m2, b2);
                        lemma_or_top(m3, b3);
                    }
                    (m0 | b0) >= 128 || (m1 | b1) >= 128 || (m2 | b2) >= 128 || (m3 | b3) >= 128
                },
            };
            (m0, m1, m2, m3, bad)
        },
    };
    proof {
        if is_b64(b0) && is_b64(b1) && is_b64(b2) && is_b64(b3) {
            lemma_sextet_u8(b0);
            lemma_sextet_u8(b1);
            lemma_sextet_u8(b2);
            lemma_sextet_u8(b3);
        }
    }
    let (o0, o1, o2) = match kind {
        LaneDecoder::HashMadd | LaneDecoder::Vbmi => pack_madd(m0, m1, m2, m3),
        _ => pack_shift(m0, m1, m2, m3),
    };
    (o0, o1, o2, bad)
}


// ===========================================================================
// Encode lanes
// ===========================================================================

/// High half of the unsigned 16-bit product (`pmulhuw`).
pub open spec fn mulhi_u16(x: u16, m: u16) -> u16 {
    ((((x as u32) * (m as u32)) as u32) >> 16u32) as u16
}

/// Low half of the 16-bit product (`pmullw`).
pub open spec fn mullo_u16(x: u16, m: u16) -> u16 {
    ((x as u32) * (m as u32)) as u16
}

/// The four 6-bit fields of the group `(a, b, c)` as bytes, top field first.
pub open spec fn fields_ok(a: u8, b: u8, c: u8, f: (u8, u8, u8, u8)) -> bool {
    &&& f.0 as int == group_field(a as int, b as int, c as int, 0)
    &&& f.1 as int == group_field(a as int, b as int, c as int, 1)
    &&& f.2 as int == group_field(a as int, b as int, c as int, 2)
    &&& f.3 as int == group_field(a as int, b as int, c as int, 3)
}

/// Field extraction of the multiply encoders on the 32-bit lane that the
/// byte shuffle `[1, 0, 2, 1]` builds: `pmulhuw` by `0x0040`/`0x0400` of the
/// lane masked with `0x0fc0fc00`, OR `pmullw` by `0x0010`/`0x0100` of the lane
/// masked with `0x003f03f0`, yields the four fields in byte order.
pub proof fn lemma_pmul_fields(a: u8, b: u8, c: u8)
    by (bit_vector)
    ensures
        ({
            let lo: u16 = ((b as u16) | ((a as u16) << 8u16)) as u16;
            let hi: u16 = ((c as u16) | ((b as u16) << 8u16)) as u16;
            let lo_out: u16 = mulhi_u16(lo & 0xfc00, 0x0040) | mullo_u16(lo & 0x03f0, 0x0010);
            let hi_out: u16 = mulhi_u16(hi & 0x0fc0, 0x0400) | mullo_u16(hi & 0x003f, 0x0100);
            &&& (lo_out & 0xff) as u32 == (a as u32) / 4
            &&& (lo_out >> 8u16) as u32 == ((a as u32) % 4) * 16 + (b as u32) / 16
            &&& (hi_out & 0xff) as u32 == ((b as u32) % 16) * 4 + (c as u32) / 64
            &&& (hi_out >> 8u16) as u32 == (c as u32) % 64
        }),
{
}

/// Field extraction of the multishift encoder (AVX-512 VBMI): the 6-bit
/// windows at bits 10, 4, 22 and 16 of the shuffled 32-bit lane.
pub proof fn lemma_multishift_fields(a: u8, b: u8, c: u8)
    by (bit_vector)
    ensures
        ({
            let w: u32 = (b as u32) | ((a as u32) << 8u32) | ((c as u32) << 16u32) | ((b as u32)
                << 24u32);
            &&& (w >> 10u32) & 0x3f == (a as u32) / 4
            &&& (w >> 4u32) & 0x3f == ((a as u32) % 4) * 16 + (b as u32) / 16
            &&& (w >> 22u32) & 0x3f == ((b as u32) % 16) * 4 + (c as u32) / 64
            &&& (w >> 16u32) & 0x3f == (c as u32) % 64
        }),
{
}

/// Field extraction by byte shifts (NEON): `a >> 2`, `((a << 4) | (b >> 4))
/// & 63`, `((b << 2) | (c >> 6)) & 63`, `c & 63`.
pub proof fn lemma_shift_fields(a: u8, b: u8, c: u8)
    by (bit_vector)
    ensures
        (a >> 2u8) as u32 == (a as u32) / 4,
        (((a << 4u8) | (b >> 4u8)) & 0x3f) as u32 == ((a as u32) % 4) * 16 + (b as u32) / 16,
        (((b << 2u8) | (c >> 6u8)) & 0x3f) as u32 == ((b as u32) % 16) * 4 + (c as u32) / 64,
        (c & 0x3f) as u32 == (c as u32) % 64,
{
}

/// `pmulhuw` on one 16-bit lane.
pub fn mulhi_epu16(x: u16, m: u16) -> (r: u16)
    ensures
        r == mulhi_u16(x, m),
{
    proof {
        lemma_u16_product(x, m);
    }
    let p: u32 = (x as u32) * (m as u32);
    (p >> 16u32) as u16
}

/// `pmullw` on one 16-bit lane.
pub fn mullo_epi16(x: u16, m: u16) -> (r: u16)
    ensures
        r == mullo_u16(x, m),
{
    proof {
        lemma_u16_product(x, m);
    }
    let p: u32 = (x as u32) * (m as u32);
    #[verifier::truncate]
    (p as u16)
}

/// The product of two 16-bit values fits in 32 bits.
pub proof fn lemma_u16_product(x: u16, m: u16)
    ensures
        (x as u32) * (m as u32) <= u32::MAX,
{
    assert((x as int) * (m as int) <= 0xffff * 0xffff) by (nonlinear_arith)
        requires
            x <= 0xffff,
            m <= 0xffff,
    ;
}

/// The four 6-bit fields of `(a, b, c)` through the lane multiplies of the
/// SSSE3, AVX2 and WebAssembly encoders.
pub fn pmul_fields(a: u8, b: u8, c: u8) -> (f: (u8, u8, u8, u8))
    ensures
        fields_ok(a, b, c, f),
{
    let lo: u16 = (b as u16) | ((a as u16) << 8u16);
    let hi: u16 = (c as u16) | ((b as u16) << 8u16);
    let lo_out: u16 = mulhi_epu16(lo & 0xfc00, 0x0040) | mullo_epi16(lo & 0x03f0, 0x0010);
    let hi_out: u16 = mulhi_epu16(hi & 0x0fc0, 0x0400) | mullo_epi16(hi & 0x003f, 0x0100);
    proof {
        lemma_pmul_fields(a, b, c);
    }
    ((lo_out & 0xff) as u8, (lo_out >> 8u16) as u8, (hi_out & 0xff) as u8, (hi_out >> 8u16) as u8)
}

/// The four 6-bit fields of `(a, b, c)` through the multishift windows of
/// the AVX-512 VBMI encoder.
pub fn multishift_fields(a: u8, b: u8, c: u8) -> (f: (u8, u8, u8, u8))
    ensures
        fields_ok(a, b, c, f),
{
    let w: u32 = (b as u32) | ((a as u32) << 8u32) | ((c as u32) << 16u32) | ((b as u32) << 24u32);
    proof {
        lemma_multishift_fields(a, b, c);
    }
    (
        ((w >> 10u32) & 0x3f) as u8,
        ((w >> 4u32) & 0x3f) as u8,
        ((w >> 22u32) & 0x3f) as u8,
        ((w >> 16u32) & 0x3f) as u8,
    )
}

/// The four 6-bit fields of `(a, b, c)` through the byte shifts of the NEON
/// encoder.
pub fn shift_fields(a: u8, b: u8, c: u8) -> (f: (u8, u8, u8, u8))
    ensures
        fields_ok(a, b, c, f),
{
    proof {
        lemma_shift_fields(a, b, c);
    }
    (a >> 2u8, (a << 4u8 | b >> 4u8) & 0x3f, (b << 2u8 | c >> 6u8) & 0x3f, c & 0x3f)
}

/// Offsets of the ASCII translation, by class index: `A`-`Z`, `a`-`z`, ten
/// digits, `+`, `/` (as wrapping byte additions).
pub const ENC_OFFSETS: [u8; 16] = [65, 71, 252, 252, 252, 252, 252, 252, 252, 252, 252, 252, 237, 240, 0, 0];

/// Translate a 6-bit value to its alphabet character as the multiply
/// encoders do: the class index is `subs(v, 51)`, plus one above 25
/// (`cmpgt`), and the character is `v` plus the class offset.
pub fn translate_ascii(v: u8) -> (r: u8)
    requires
        v < 64,
    ensures
        r == b64_char(v as int),
{
    let sat: u8 = if v > 51 {
        v - 51
    } else {
        0
    };
    let gt: u8 = if super::b2i(v) > 25 {
        0xff
    } else {
        0
    };
    let idx: u8 = ((sat as u16 + 256 - gt as u16) % 256) as u8;
    proof {
        lemma_ctrl(idx);
    }
    let off = pshufb_lookup_byte(ENC_OFFSETS, idx);
    proof {
        assert(v as i8 == v) by (bit_vector)
            requires
                v < 64,
        ;
        assert(idx < 14);
        assert(ENC_OFFSETS@[idx as int] == off);
        if v < 26 {
            assert(idx == 0);
        } else if v < 52 {
            assert(idx == 1);
        } else if v < 62 {
            assert(2 <= idx < 12);
        } else if v == 62 {
            assert(idx == 12);
        } else {
            assert(idx == 13);
        }
    }
    ((v as u16 + off as u16) % 256) as u8
}

/// The encode lanes of the vector engines.
pub enum EncodeLane {
    /// Lane multiplies and offset translation (SSSE3, AVX2, WebAssembly).
    Pmul,
    /// Multishift windows and alphabet permutation (AVX-512 VBMI).
    Multishift,
    /// Byte shifts and alphabet table lookup (NEON).
    Shift,
}

/// Encode the 3-byte group `(a, b, c)` into its four characters.
pub fn encode_lane(kind: &EncodeLane, a: u8, b: u8, c: u8) -> (r: (u8, u8, u8, u8))
    ensures
        r.0 == b64_char(group_field(a as int, b as int, c as int, 0)),
        r.1 == b64_char(group_field(a as int, b as int, c as int, 1)),
        r.2 == b64_char(group_field(a as int, b as int, c as int, 2)),
        r.3 == b64_char(group_field(a as int, b as int, c as int, 3)),
{
    match kind {
        EncodeLane::Pmul => {
            let f = pmul_fields(a, b, c);
            (translate_ascii(f.0), translate_ascii(f.1), translate_ascii(f.2), translate_ascii(f.3))
        },
        EncodeLane::Multishift => {
            let f = multishift_fields(a, b, c);
            (
                alphabet(f.0 as u32),
                alphabet(f.1 as u32),
                alphabet(f.2 as u32),
                alphabet(f.3 as u32),
            )
        },
        EncodeLane::Shift => {
            let f = shift_fields(a, b, c);
            (
                alphabet(f.0 as u32),
                alphabet(f.1 as u32),
                alphabet(f.2 as u32),
                alphabet(f.3 as u32),
            )
        },
    }
}

} // verus!
