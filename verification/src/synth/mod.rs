//! Table synthesis for the hash-based decoders.
//!
//! The SSSE3, AVX2 and WebAssembly decoders index two 16-entry tables with
//! a 4-bit hash of each character and its right neighbour. These modules
//! compute, for a hash, which bytes fall into which bucket, and search for
//! table entries that decode every alphabet character and flag every other
//! byte: the analyses behind the tables of [`crate::engine::lanes`].
pub mod ambiguity;
pub mod check_values;
pub mod hash_resynth;
pub mod poisoned_map;
pub mod ranking;
pub mod split_predicate;
pub mod strict_table;
pub mod text;

use vstd::prelude::*;
use crate::engine::b64::{is_b64, sextet};
use crate::engine::lanes::{avg_epu8, avg_lane, delta_asso_entry, lemma_ctrl, lemma_tables, DELTA_ASSO};

verus! {

// ---------------------------------------------------------------------------
// Byte classes
// ---------------------------------------------------------------------------

/// `byte` is in the strict Base64 alphabet `[A-Za-z0-9+/]` (`=` is not).
pub fn is_base64_valid_strict_simd(byte: u8) -> (r: bool)
    ensures
        r == is_b64(byte),
{
    (65 <= byte && byte <= 90) || (97 <= byte && byte <= 122) || (48 <= byte && byte <= 57) || byte
        == 43 || byte == 47
}

/// 6-bit value of an alphabet character, `None` for any other byte.
pub fn expected_sextet(byte: u8) -> (r: Option<u8>)
    ensures
        is_b64(byte) ==> r == Some(sextet(byte) as u8) && sextet(byte) < 64,
        !is_b64(byte) ==> r is None,
{
    if 65 <= byte && byte <= 90 {
        Some(byte - 65)
    } else if 97 <= byte && byte <= 122 {
        Some(byte - 71)
    } else if 48 <= byte && byte <= 57 {
        Some(byte + 4)
    } else if byte == 43 {
        Some(62)
    } else if byte == 47 {
        Some(63)
    } else {
        None
    }
}

/// Signed saturating addition of two bytes' signed values.
pub open spec fn sat_add_spec(a: i8, b: i8) -> i8 {
    let s = a + b;
    if s > 127 {
        127i8
    } else if s < -128 {
        -128i8
    } else {
        s as i8
    }
}

/// Signed saturating byte addition (`paddsb` on one lane).
pub fn sat_add_i8(a: i8, b: i8) -> (r: i8)
    ensures
        r == sat_add_spec(a, b),
{
    let sum: i16 = (a as i16) + (b as i16);
    if sum > 127 {
        127
    } else if sum < -128 {
        -128
    } else {
        sum as i8
    }
}

// ---------------------------------------------------------------------------
// The decoders' mapping hash
// ---------------------------------------------------------------------------

/// Low nibble of the mapping hash of `byte` at position `pos` of its 32-bit
/// word, whose right neighbour has low bits `ctx` (no neighbour at position
/// 3): `avg(DELTA_ASSO[byte & 15], (byte >> 3) | (ctx << 5)) & 15`.
pub open spec fn nibble_hash(byte: u8, ctx: u8, pos: u8) -> u8 {
    let shifted: u8 = if pos == 3 {
        byte >> 3u8
    } else {
        ((byte >> 3u8) | ((ctx & 7u8) << 5u8)) as u8
    };
    avg_lane(delta_asso_entry(byte & 0x0f), shifted) & 0x0f
}

/// The `i`-th (position, neighbour bits) context, `i < 25`: the eight
/// neighbour values at positions 0 to 2, then position 3.
pub open spec fn ctx_pos(i: int) -> u8 {
    if i < 24 {
        (i / 8) as u8
    } else {
        3
    }
}

/// Neighbour bits of the `i`-th context.
pub open spec fn ctx_low(i: int) -> u8 {
    if i < 24 {
        (i % 8) as u8
    } else {
        0
    }
}

/// Some context sends `byte` to hash bucket `h`.
pub open spec fn reaches(byte: u8, h: int) -> bool {
    exists|i: int| 0 <= i < 25 && nibble_hash(byte, ctx_low(i), ctx_pos(i)) as int == h
}

/// Low nibble of the mapping hash (see [`nibble_hash`]).
pub fn delta_hash_nibble(byte: u8, next_low3: u8, pos_in_dword: u8) -> (r: u8)
    requires
        pos_in_dword < 4,
        next_low3 < 8,
    ensures
        r == nibble_hash(byte, next_low3, pos_in_dword),
        r < 16,
{
    proof {
        lemma_tables();
        lemma_ctrl(byte);
    }
    let asso = DELTA_ASSO[(byte & 0x0f) as usize];
    let shifted: u8 = if pos_in_dword == 3 {
        byte >> 3u8
    } else {
        (byte >> 3u8) | ((next_low3 & 0x07) << 5u8)
    };
    let m = avg_epu8(asso, shifted);
    proof {
        lemma_ctrl(m);
    }
    m & 0x0f
}

// ---------------------------------------------------------------------------
// Buckets of bytes
// ---------------------------------------------------------------------------

/// Membership of the bytes in hash buckets: entry `256 * h + b` is set when
/// byte `b` lies in bucket `h`.
pub struct Buckets {
    pub member: Vec<bool>,
}

impl Buckets {
    /// Byte `b` lies in bucket `h`.
    pub open spec fn has(&self, h: int, b: u8) -> bool {
        self.member@[256 * h + b]
    }

    /// Sixteen buckets of 256 bytes each.
    pub open spec fn wf(&self) -> bool {
        self.member@.len() == 4096
    }

    /// Bucket `h` is one of the buckets held.
    pub open spec fn holds(&self, h: int) -> bool {
        0 <= h && 256 * h + 256 <= self.member@.len()
    }

    /// Whether byte `b` lies in bucket `h`.
    pub fn contains(&self, h: usize, b: u8) -> (r: bool)
        requires
            self.holds(h as int),
        ensures
            r == self.has(h as int, b),
    {
        let n = self.member.len();
        proof {
            assert(256 * h + 256 <= n);
        }
        self.member[256 * h + b as usize]
    }
}

/// Group every byte into the buckets of the mapping hash, over all four
/// positions of a 32-bit word and all low-3-bit values of the neighbour.
pub fn hash_buckets() -> (r: Buckets)
    ensures
        r.wf(),
        forall|h: int, b: u8| 0 <= h < 16 ==> (#[trigger] r.has(h, b) <==> reaches(b, h)),
{
    let mut member: Vec<bool> = vec![false; 4096];
    let mut byte: u16 = 0;
    while byte < 256
        invariant
            byte <= 256,
            member@.len() == 4096,
            forall|h: int, b: u8|
                0 <= h < 16 && b < byte ==> (#[trigger] member@[256 * h + b] <==> reaches(b, h)),
            forall|h: int, b: u8| 0 <= h < 16 && b >= byte ==> !#[trigger] member@[256 * h + b],
        decreases 256 - byte,
    {
        let b = byte as u8;
        let mut i: usize = 0;
        while i < 25
            invariant
                i <= 25,
                b as u16 == byte,
                byte < 256,
                member@.len() == 4096,
                forall|h: int, x: u8|
                    0 <= h < 16 && x < byte ==> (#[trigger] member@[256 * h + x] <==> reaches(x, h)),
                forall|h: int, x: u8| 0 <= h < 16 && x > byte ==> !#[trigger] member@[256 * h + x],
                forall|h: int|
                    0 <= h < 16 ==> (#[trigger] member@[256 * h + b] <==> exists|k: int|
                        0 <= k < i && nibble_hash(b, ctx_low(k), ctx_pos(k)) as int == h),
            decreases 25 - i,
        {
            let pos: u8 = if i < 24 {
                (i / 8) as u8
            } else {
                3
            };
            let low: u8 = if i < 24 {
                (i % 8) as u8
            } else {
                0
            };
            let h = delta_hash_nibble(b, low, pos);
            let ghost prev = member@;
            member.set(256 * (h as usize) + b as usize, true);
            proof {
                assert(pos == ctx_pos(i as int) && low == ctx_low(i as int));
                assert forall|g: int|
                    0 <= g < 16 implies (#[trigger] member@[256 * g + b] <==> exists|k: int|
                    0 <= k < i + 1 && nibble_hash(b, ctx_low(k), ctx_pos(k)) as int == g) by {
                    if g == h {
                        assert(nibble_hash(b, ctx_low(i as int), ctx_pos(i as int)) as int == g);
                    } else {
                        assert(member@[256 * g + b] == prev[256 * g + b]);
                        if exists|k: int|
                            0 <= k < i + 1 && nibble_hash(b, ctx_low(k), ctx_pos(k)) as int == g {
                            let k = choose|k: int|
                                0 <= k < i + 1 && nibble_hash(b, ctx_low(k), ctx_pos(k)) as int == g;
                            assert(k != i);
                        }
                    }
                }
                assert forall|g: int, x: u8|
                    0 <= g < 16 && x != b implies #[trigger] member@[256 * g + x] == prev[256 * g
                    + x] by {
                    assert(256 * g + x != 256 * h + b);
                }
            }
            i = i + 1;
        }
        proof {
            assert forall|h: int| 0 <= h < 16 implies (#[trigger] member@[256 * h + b] <==> reaches(b, h)) by {
            }
        }
        byte = byte + 1;
    }
    Buckets { member }
}

} // verus!
