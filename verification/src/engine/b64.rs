//! Mathematical model of standard Base64 (RFC 4648 alphabet `A-Za-z0-9+/`,
//! `=` padding) shared by every engine's contract.
//!
//! Both directions are stated pointwise: the `i`-th output byte is given by a
//! closed formula over the input, which is what the block-structured engines
//! need in their loop invariants.
use vstd::prelude::*;

verus! {

/// ASCII code of the padding character `=`.
pub const PAD: u8 = 61u8;

/// `c` belongs to the standard Base64 alphabet.
pub open spec fn is_b64(c: u8) -> bool {
    ||| 65 <= c <= 90
    ||| 97 <= c <= 122
    ||| 48 <= c <= 57
    ||| c == 43
    ||| c == 47
}

/// 6-bit value of an alphabet character.
pub open spec fn sextet(c: u8) -> int {
    if 65 <= c <= 90 {
        c - 65
    } else if 97 <= c <= 122 {
        c - 71
    } else if 48 <= c <= 57 {
        c + 4
    } else if c == 43 {
        62
    } else {
        63
    }
}

/// Alphabet character of a 6-bit value `s` (`0 <= s < 64`).
pub open spec fn b64_char(s: int) -> u8 {
    if s < 26 {
        (s + 65) as u8
    } else if s < 52 {
        (s + 71) as u8
    } else if s < 62 {
        (s - 4) as u8
    } else if s == 62 {
        43u8
    } else {
        47u8
    }
}

/// Byte `i` of `d`, or zero past its end.
pub open spec fn byte_or_zero(d: Seq<u8>, i: int) -> int {
    if 0 <= i < d.len() {
        d[i] as int
    } else {
        0
    }
}

/// The `j`-th 6-bit field (`0 <= j < 4`) of the 3-byte group `q` of `d`,
/// missing bytes counting as zero.
pub open spec fn enc_field(d: Seq<u8>, q: int, j: int) -> int {
    group_field(byte_or_zero(d, 3 * q), byte_or_zero(d, 3 * q + 1), byte_or_zero(d, 3 * q + 2), j)
}

/// The `j`-th 6-bit field (`0 <= j < 4`) of the three bytes `a`, `b`, `c`.
pub open spec fn group_field(a: int, b: int, c: int, j: int) -> int {
    if j == 0 {
        a / 4
    } else if j == 1 {
        (a % 4) * 16 + b / 16
    } else if j == 2 {
        (b % 16) * 4 + c / 64
    } else {
        c % 64
    }
}

/// Length of the padded encoding of `n` bytes.
pub open spec fn enc_len(n: int) -> int {
    ((n + 2) / 3) * 4
}

/// Character `i` of the padded encoding of `d`: field `i % 4` of group `i / 4`,
/// or `=` where the group runs past the end of `d`.
pub open spec fn enc_char(d: Seq<u8>, i: int) -> u8 {
    let q = i / 4;
    let j = i % 4;
    if 3 * q + j <= d.len() {
        b64_char(enc_field(d, q, j))
    } else {
        PAD
    }
}

/// The standard padded Base64 encoding of `d`.
pub open spec fn encode_spec(d: Seq<u8>) -> Seq<u8> {
    Seq::new(enc_len(d.len() as int) as nat, |i: int| enc_char(d, i))
}

/// Number of `=` at the end of a Base64 text whose length is a positive
/// multiple of four.
pub open spec fn pad_count(s: Seq<u8>) -> int {
    let n = s.len() as int;
    if s[n - 1] == PAD {
        if s[n - 2] == PAD {
            2
        } else {
            1
        }
    } else {
        0
    }
}

/// The decoded length that the length and padding of `s` announce, when they
/// are well formed: the length is a multiple of four and the text does not end
/// in `x===`.
pub open spec fn decoded_len_spec(s: Seq<u8>) -> Option<int> {
    let n = s.len() as int;
    if n == 0 {
        Some(0)
    } else if n % 4 != 0 {
        None
    } else if pad_count(s) == 2 && s[n - 3] == PAD {
        None
    } else {
        Some((n / 4) * 3 - pad_count(s))
    }
}

/// Every character of `s` is legal where it stands: all characters are in the
/// alphabet, except the one or two `=` that the padding announces at the end.
pub open spec fn chars_valid(s: Seq<u8>) -> bool {
    let n = s.len() as int;
    forall|i: int| 0 <= i < n - pad_count(s) ==> #[trigger] is_b64(s[i])
}

/// `s` is accepted by a strict decoder.
pub open spec fn decodable(s: Seq<u8>) -> bool {
    &&& decoded_len_spec(s) is Some
    &&& (s.len() > 0 ==> chars_valid(s))
}

/// 6-bit value at position `i` of `s`, with `=` and positions past the end
/// counting as zero.
pub open spec fn sextet_at(s: Seq<u8>, i: int) -> int {
    if 0 <= i < s.len() && is_b64(s[i]) {
        sextet(s[i])
    } else {
        0
    }
}

/// Byte `j` (`0 <= j < 3`) decoded from the quad `q` of `s`. Bits that fall
/// below the last decoded byte are dropped.
pub open spec fn dec_byte(s: Seq<u8>, q: int, j: int) -> int {
    let v0 = sextet_at(s, 4 * q);
    let v1 = sextet_at(s, 4 * q + 1);
    let v2 = sextet_at(s, 4 * q + 2);
    let v3 = sextet_at(s, 4 * q + 3);
    quad_byte(v0, v1, v2, v3, j)
}

/// Byte `j` (`0 <= j < 3`) packed from the four 6-bit values `v0..v3`.
pub open spec fn quad_byte(v0: int, v1: int, v2: int, v3: int, j: int) -> int {
    if j == 0 {
        v0 * 4 + v1 / 16
    } else if j == 1 {
        (v1 % 16) * 16 + v2 / 4
    } else {
        (v2 % 4) * 64 + v3
    }
}

/// Decoded bytes of a decodable text (meaningful only when `decodable(s)`).
pub open spec fn decoded_bytes(s: Seq<u8>) -> Seq<u8> {
    Seq::new(
        decoded_len_spec(s)->0 as nat,
        |k: int| dec_byte(s, k / 3, k % 3) as u8,
    )
}

/// Strict Base64 decoding: `None` for malformed text.
pub open spec fn decode_spec(s: Seq<u8>) -> Option<Seq<u8>> {
    if decodable(s) {
        Some(decoded_bytes(s))
    } else {
        None
    }
}

// ---------------------------------------------------------------------------
// Basic facts
// ---------------------------------------------------------------------------

/// Alphabet characters round-trip through their 6-bit values.
pub proof fn lemma_char_sextet(s: int)
    requires
        0 <= s < 64,
    ensures
        is_b64(b64_char(s)),
        sextet(b64_char(s)) == s,
        b64_char(s) != PAD,
{
}

/// Every alphabet character is the image of its 6-bit value.
pub proof fn lemma_sextet_char(c: u8)
    requires
        is_b64(c),
    ensures
        0 <= sextet(c) < 64,
        b64_char(sextet(c)) == c,
        c != PAD,
{
}

/// The fields of a group are 6-bit values.
pub proof fn lemma_enc_field_range(d: Seq<u8>, q: int, j: int)
    ensures
        0 <= enc_field(d, q, j) < 64,
{
}

} // verus!
