//! Laws of the codec: properties that relate its functions over all inputs.
//!
//! Every engine states its `decode_to_slice` and `encode_to_slice` over the
//! model of [`super::b64`], so a law of the model is a law of every engine.
use vstd::prelude::*;
use super::common::gap;
use super::models::{avx2, avx512vbmi, neon, ssse3, wasm_simd128};
use super::avx2::{avx2_checks, avx2_consumed};
use super::avx512vbmi::{avx512_checks, avx512_consumed};
use super::neon::{neon_checks, neon_consumed};
use super::ssse3::ds64_checks;
use super::b64::{
    b64_char, byte_or_zero, dec_byte, decodable, decode_spec, decoded_bytes, decoded_len_spec,
    enc_char, enc_field, enc_len, encode_spec, group_field, is_b64, lemma_char_sextet,
    lemma_enc_field_range, pad_count, quad_byte, sextet_at, PAD,
};

verus! {

/// Packing the four fields of a group gives back its three bytes.
pub proof fn lemma_group_roundtrip(a: int, b: int, c: int)
    requires
        0 <= a < 256,
        0 <= b < 256,
        0 <= c < 256,
    ensures
        quad_byte(group_field(a, b, c, 0), group_field(a, b, c, 1), group_field(a, b, c, 2), group_field(a, b, c, 3), 0) == a,
        quad_byte(group_field(a, b, c, 0), group_field(a, b, c, 1), group_field(a, b, c, 2), group_field(a, b, c, 3), 1) == b,
        quad_byte(group_field(a, b, c, 0), group_field(a, b, c, 1), group_field(a, b, c, 2), group_field(a, b, c, 3), 2) == c,
{
    let f1 = (a % 4) * 16 + b / 16;
    let f2 = (b % 16) * 4 + c / 64;
    assert(f1 / 16 == a % 4);
    assert(f1 % 16 == b / 16);
    assert(f2 / 4 == b % 16);
    assert(f2 % 4 == c / 64);
}

/// The 6-bit value that the decoder reads at position `4q + j` of an encoding
/// is the field the encoder wrote there (zero where it wrote padding).
pub proof fn lemma_encoded_sextet(d: Seq<u8>, q: int, j: int)
    requires
        0 <= q,
        4 * q + 4 <= enc_len(d.len() as int),
        0 <= j < 4,
    ensures
        sextet_at(encode_spec(d), 4 * q + j) == enc_field(d, q, j),
{
    let e = encode_spec(d);
    let i = 4 * q + j;
    assert(i / 4 == q && i % 4 == j);
    assert(e[i] == enc_char(d, i));
    lemma_enc_field_range(d, q, j);
    if 3 * q + j <= d.len() {
        lemma_char_sextet(enc_field(d, q, j));
    } else {
        assert(e[i] == PAD);
        assert(!is_b64(PAD));
        assert(3 * q + 2 > d.len() - 1);
        if j == 2 {
            assert(byte_or_zero(d, 3 * q + 1) == 0 || 3 * q + 1 < d.len());
            assert(byte_or_zero(d, 3 * q + 2) == 0);
            assert(byte_or_zero(d, 3 * q + 1) == 0);
        } else {
            assert(byte_or_zero(d, 3 * q + 2) == 0);
        }
    }
}

/// Round trip (the codec's central law): decoding the encoding of any byte
/// string gives the string back, and the padding announces its length.
pub proof fn law_roundtrip(d: Seq<u8>)
    ensures
        decoded_len_spec(encode_spec(d)) == Some(d.len() as int),
        decodable(encode_spec(d)),
        decode_spec(encode_spec(d)) == Some(d),
{
    let e = encode_spec(d);
    let n = d.len() as int;
    let m = enc_len(n);
    assert(e.len() == m);
    if n == 0 {
        assert(m == 0);
        assert(decoded_bytes(e) =~= d);
        return;
    }
    let last = m / 4 - 1;
    assert(m == 4 * (last + 1));
    assert(3 * last < n <= 3 * last + 3);
    // Padding of the last group.
    assert(e[m - 1] == enc_char(d, 4 * last + 3));
    assert(e[m - 2] == enc_char(d, 4 * last + 2));
    assert(e[m - 3] == enc_char(d, 4 * last + 1));
    assert((4 * last + 3) / 4 == last && (4 * last + 3) % 4 == 3);
    assert((4 * last + 2) / 4 == last && (4 * last + 2) % 4 == 2);
    assert((4 * last + 1) / 4 == last && (4 * last + 1) % 4 == 1);
    lemma_enc_field_range(d, last, 1);
    lemma_char_sextet(enc_field(d, last, 1));
    if n == 3 * last + 1 {
        assert(e[m - 1] == PAD && e[m - 2] == PAD && e[m - 3] != PAD);
        assert(pad_count(e) == 2);
    } else if n == 3 * last + 2 {
        lemma_enc_field_range(d, last, 2);
        lemma_char_sextet(enc_field(d, last, 2));
        assert(e[m - 1] == PAD && e[m - 2] != PAD);
        assert(pad_count(e) == 1);
    } else {
        lemma_enc_field_range(d, last, 3);
        lemma_char_sextet(enc_field(d, last, 3));
        assert(e[m - 1] != PAD);
        assert(pad_count(e) == 0);
    }
    assert(decoded_len_spec(e) == Some(n));
    // Every character before the padding is an alphabet character.
    assert forall|i: int| 0 <= i < m - pad_count(e) implies #[trigger] is_b64(e[i]) by {
        let q = i / 4;
        let j = i % 4;
        assert(3 * q + j <= n);
        assert(e[i] == enc_char(d, i));
        lemma_enc_field_range(d, q, j);
        lemma_char_sextet(enc_field(d, q, j));
    }
    assert(decodable(e));
    // Every decoded byte is the byte that was encoded.
    assert forall|k: int| 0 <= k < n implies #[trigger] decoded_bytes(e)[k] == d[k] by {
        let q = k / 3;
        let r = k % 3;
        assert(4 * q + 4 <= m);
        lemma_encoded_sextet(d, q, 0);
        lemma_encoded_sextet(d, q, 1);
        lemma_encoded_sextet(d, q, 2);
        lemma_encoded_sextet(d, q, 3);
        let a = byte_or_zero(d, 3 * q);
        let b = byte_or_zero(d, 3 * q + 1);
        let c = byte_or_zero(d, 3 * q + 2);
        lemma_group_roundtrip(a, b, c);
        assert(dec_byte(e, q, r) == quad_byte(
            group_field(a, b, c, 0),
            group_field(a, b, c, 1),
            group_field(a, b, c, 2),
            group_field(a, b, c, 3),
            r,
        ));
        assert(3 * q + r == k);
    }
    assert(decoded_bytes(e) =~= d);
}

// ---------------------------------------------------------------------------
// Output guards of the decode kernels
// ---------------------------------------------------------------------------

/// Every store of a block, at `base` plus each of `offsets`, has `width` bytes
/// of room before `out_end`.
pub open spec fn stores_fit(out_ptr: int, out_end: int, base: int, offsets: Seq<usize>, width: int) -> bool {
    forall|i: int| 0 <= i < offsets.len() ==> gap(out_ptr + base + #[trigger] offsets[i], out_end) >= width
}

/// The 16-byte engines' output guards leave room for every 16-byte store of
/// their steps: a DS64 block (48 bytes plus 4 of overhang), a pair of DS64
/// blocks (96 plus 4) and a single vector (12 plus 4), for SSSE3 and
/// WebAssembly alike.
pub proof fn law_ds64_stores_fit(out_ptr: int, out_end: int)
    ensures
        gap(out_ptr, out_end) >= 48 + 4 ==> stores_fit(out_ptr, out_end, 0, ssse3::DS64_STORE_OFFSETS@, ssse3::STORE_WIDTH_BYTES as int),
        gap(out_ptr, out_end) >= 96 + 4 ==> stores_fit(out_ptr, out_end, 0, ssse3::DS64_DOUBLE_STORE_OFFSETS@, ssse3::STORE_WIDTH_BYTES as int),
        gap(out_ptr, out_end) >= 12 + 4 ==> gap(out_ptr, out_end) >= ssse3::STORE_WIDTH_BYTES,
        gap(out_ptr, out_end) >= 48 + 4 ==> stores_fit(out_ptr, out_end, 0, wasm_simd128::DS64_STORE_OFFSETS@, wasm_simd128::STORE_WIDTH_BYTES as int),
        gap(out_ptr, out_end) >= 96 + 4 ==> stores_fit(out_ptr, out_end, 0, wasm_simd128::DS64_DOUBLE_STORE_OFFSETS@, wasm_simd128::STORE_WIDTH_BYTES as int),
        gap(out_ptr, out_end) >= 12 + 4 ==> gap(out_ptr, out_end) >= wasm_simd128::STORE_WIDTH_BYTES,
{
}

/// The AVX2 output guards of one, two and three DS128 blocks (96 bytes each
/// plus 4 of overhang) leave room for their eight 16-byte stores per block.
pub proof fn law_avx2_ds128_stores_fit(out_ptr: int, out_end: int)
    ensures
        gap(out_ptr, out_end) >= 100 ==> stores_fit(out_ptr, out_end, 0, avx2::DS128_STORE_OFFSETS@, avx2::STORE_WIDTH_BYTES as int),
        gap(out_ptr, out_end) >= 196 ==> {
            &&& stores_fit(out_ptr, out_end, 0, avx2::DS128_STORE_OFFSETS@, avx2::STORE_WIDTH_BYTES as int)
            &&& stores_fit(out_ptr, out_end, 96, avx2::DS128_STORE_OFFSETS@, avx2::STORE_WIDTH_BYTES as int)
        },
        gap(out_ptr, out_end) >= 292 ==> {
            &&& stores_fit(out_ptr, out_end, 0, avx2::DS128_STORE_OFFSETS@, avx2::STORE_WIDTH_BYTES as int)
            &&& stores_fit(out_ptr, out_end, 96, avx2::DS128_STORE_OFFSETS@, avx2::STORE_WIDTH_BYTES as int)
            &&& stores_fit(out_ptr, out_end, 192, avx2::DS128_STORE_OFFSETS@, avx2::STORE_WIDTH_BYTES as int)
        },
        gap(out_ptr, out_end) >= 16 ==> gap(out_ptr, out_end) >= avx2::STORE_WIDTH_BYTES,
{
}

/// The AVX-512 VBMI output guards of one and two DS256 blocks (192 bytes
/// each, 64-byte stores) leave room for their four stores per block.
pub proof fn law_avx512_ds256_stores_fit(out_ptr: int, out_end: int)
    ensures
        gap(out_ptr, out_end) >= 192 + 64 ==> stores_fit(out_ptr, out_end, 0, avx512vbmi::DS256_STORE_OFFSETS@, avx512vbmi::DECODE_STORE_WIDTH_BYTES as int),
        gap(out_ptr, out_end) >= 400 ==> {
            &&& stores_fit(out_ptr, out_end, 0, avx512vbmi::DS256_STORE_OFFSETS@, avx512vbmi::DECODE_STORE_WIDTH_BYTES as int)
            &&& stores_fit(out_ptr, out_end, 192, avx512vbmi::DS256_STORE_OFFSETS@, avx512vbmi::DECODE_STORE_WIDTH_BYTES as int)
        },
{
}

// ---------------------------------------------------------------------------
// Non-strict check lanes
// ---------------------------------------------------------------------------

/// The models agree with the decode kernels: the input the models' vector
/// loops consume is what the non-strict kernels consume (so the models'
/// written prefixes bound what a kernel writes), and the offsets the models
/// say the non-strict decoders validate are those the kernels validate: for
/// SSSE3 and WebAssembly at every offset the vector loops consume, for AVX2,
/// AVX-512 VBMI and NEON at every offset.
pub proof fn law_models_match_kernels(len: int, k: int)
    ensures
        avx2_consumed(len) == avx2::simd_consumed(len, avx2::partial_ds_input(len)),
        avx512_consumed(len) == avx512vbmi::simd_consumed(len),
        neon_consumed(len, false) == neon::simd_consumed(len),
        0 <= k < ssse3::simd_consumed(len) ==> ds64_checks(len, k, false) == (ssse3::safe_len(len) >= 32 && k
            < ssse3::ds_input(len) ==> k % 64 < 16),
        avx2_checks(len, k, false) == (k < avx2::partial_ds_input(len) ==> (k % 128) / 32 != 1),
        avx512_checks(len, k, false) == (k < avx512vbmi::ds_input(len) ==> (k % 256) / 64 != 1),
        neon_checks(len, k, false) == (k < neon::group_input(len) ==> (k % 256) / 64 == 3),
{
}

/// The encoder models write four characters for every three bytes they
/// consume: for NEON whole 48-byte blocks (`n / 48 * 64` characters for
/// `n / 48 * 48` bytes), for WebAssembly its three-phase schedule.
pub proof fn law_encode_prefix_models(n: int)
    requires
        0 <= n,
    ensures
        (n / 48 * 48) / 3 * 4 == n / 48 * 64,
        wasm_simd128::encode_written(n) == wasm_simd128::encode_consumed(n) / 3 * 4,
{
    assert((n / 48 * 48) / 3 == n / 48 * 16) by (nonlinear_arith)
        requires
            0 <= n,
    ;
}

// ---------------------------------------------------------------------------
// Lengths
// ---------------------------------------------------------------------------

/// A well-formed Base64 length is a multiple of four, and never decodes to
/// more bytes than it has characters; an encoding has a length that is a
/// multiple of four and no shorter than the input.
pub proof fn law_length_bounds(s: Seq<u8>, n: nat)
    ensures
        decoded_len_spec(s) is Some ==> s.len() % 4 == 0 && decoded_len_spec(s)->0 <= s.len(),
        enc_len(n as int) % 4 == 0,
        enc_len(n as int) >= n,
{
}

} // verus!
