//! Re-synthesis of the decoders' hash: a local search over families of
//! 4-bit hashes (one or two lookups mixed with the shifted byte) for tables
//! under which one hash serves both the mapping and the validity check.
//!
//! For a candidate hash and its tables every byte is sent, from every
//! position and neighbour context, to a mapping bucket and a check bucket.
//! A table is scored by the buckets whose alphabet bytes need different
//! offsets, by the check buckets that no entry separates, and by the mapped
//! values of alphabet (or ASCII) bytes that have the top bit set.
use vstd::prelude::*;
use crate::engine::b64::{is_b64, sextet};
use crate::engine::lanes::{avg_epu8, avg_lane, DELTA_ASSO};
use super::{sat_add_i8, sat_add_spec};
use super::poisoned_map::wadd;
use super::Buckets;
use vstd::arithmetic::power2::{lemma2_to64, pow2};

verus! {

// ---------------------------------------------------------------------------
// Hash families
// ---------------------------------------------------------------------------

/// How the looked-up entry is mixed with the shifted byte.
#[derive(Clone, Copy, Debug, PartialEq, Eq, Structural)]
pub enum MixOp {
    Avg,
    Add,
    Xor,
    Min,
    Max,
    Sub,
}

/// Shape of the hash: which tables it looks up and how.
#[derive(Clone, Copy, Debug, PartialEq, Eq, Structural)]
pub enum HashFamily {
    OneLut,
    TwoLutAdd,
    TwoLutAvg,
    TwoLutXor,
    PredSelBit5,
    PredSelBit6,
    PosAware,
    LoHiAdd,
    DualIndexBit5,
    DualIndexBit6,
}

/// How the hash is turned into a table index.
#[derive(Clone, Copy, Debug, PartialEq, Eq, Structural)]
pub enum IndexMode {
    Maskless,
    Masked0f,
}

impl MixOp {
    /// Name of the mixing instruction.
    pub fn name(&self) -> (r: &'static str)
        ensures
            r@ == (match *self {
                MixOp::Avg => "avg_epu8"@,
                MixOp::Add => "add_epi8"@,
                MixOp::Xor => "xor_si128"@,
                MixOp::Min => "min_epu8"@,
                MixOp::Max => "max_epu8"@,
                MixOp::Sub => "sub_epi8"@,
            }),
    {
        match self {
            MixOp::Avg => "avg_epu8",
            MixOp::Add => "add_epi8",
            MixOp::Xor => "xor_si128",
            MixOp::Min => "min_epu8",
            MixOp::Max => "max_epu8",
            MixOp::Sub => "sub_epi8",
        }
    }
}

impl HashFamily {
    /// Name of the family.
    pub fn name(&self) -> (r: &'static str)
        ensures
            r@ == (match *self {
                HashFamily::OneLut => "one_lut"@,
                HashFamily::TwoLutAdd => "two_lut_add"@,
                HashFamily::TwoLutAvg => "two_lut_avg"@,
                HashFamily::TwoLutXor => "two_lut_xor"@,
                HashFamily::PredSelBit5 => "predsel_bit5"@,
                HashFamily::PredSelBit6 => "predsel_bit6"@,
                HashFamily::PosAware => "pos_aware"@,
                HashFamily::LoHiAdd => "lo_hi_add"@,
                HashFamily::DualIndexBit5 => "dual_index_bit5"@,
                HashFamily::DualIndexBit6 => "dual_index_bit6"@,
            }),
    {
        match self {
            HashFamily::OneLut => "one_lut",
            HashFamily::TwoLutAdd => "two_lut_add",
            HashFamily::TwoLutAvg => "two_lut_avg",
            HashFamily::TwoLutXor => "two_lut_xor",
            HashFamily::PredSelBit5 => "predsel_bit5",
            HashFamily::PredSelBit6 => "predsel_bit6",
            HashFamily::PosAware => "pos_aware",
            HashFamily::LoHiAdd => "lo_hi_add",
            HashFamily::DualIndexBit5 => "dual_index_bit5",
            HashFamily::DualIndexBit6 => "dual_index_bit6",
        }
    }

    /// Instructions the family adds to the baseline hash.
    pub fn extra_ops(&self) -> (r: u8)
        ensures
            r == (if *self is OneLut || *self is PosAware { 0u8 } else { 1u8 }),
    {
        match self {
            HashFamily::OneLut => 0,
            HashFamily::TwoLutAdd => 1,
            HashFamily::TwoLutAvg => 1,
            HashFamily::TwoLutXor => 1,
            HashFamily::PredSelBit5 => 1,
            HashFamily::PredSelBit6 => 1,
            HashFamily::PosAware => 0,
            HashFamily::LoHiAdd => 1,
            HashFamily::DualIndexBit5 => 1,
            HashFamily::DualIndexBit6 => 1,
        }
    }

    /// Live constant registers the family adds (a second table, or four
    /// per-position tables in place of one).
    pub fn const_live_delta(&self) -> (r: i8)
        ensures
            r == (match *self {
                HashFamily::OneLut => 0i8,
                HashFamily::PosAware => 3i8,
                HashFamily::DualIndexBit5 => 0i8,
                HashFamily::DualIndexBit6 => 0i8,
                _ => 1i8,
            }),
    {
        match self {
            HashFamily::OneLut => 0,
            HashFamily::TwoLutAdd => 1,
            HashFamily::TwoLutAvg => 1,
            HashFamily::TwoLutXor => 1,
            HashFamily::PredSelBit5 => 1,
            HashFamily::PredSelBit6 => 1,
            HashFamily::PosAware => 3,
            HashFamily::LoHiAdd => 1,
            HashFamily::DualIndexBit5 => 0,
            HashFamily::DualIndexBit6 => 0,
        }
    }

    /// The family reads the second (perturbation) table.
    pub open spec fn perturbs(self) -> bool {
        self is TwoLutAdd || self is TwoLutAvg || self is TwoLutXor || self is PredSelBit5
            || self is PredSelBit6
    }

    /// Whether the family reads the second (perturbation) table.
    pub fn uses_perturb(&self) -> (r: bool)
        ensures
            r == self.perturbs(),
    {
        match self {
            HashFamily::TwoLutAdd | HashFamily::TwoLutAvg | HashFamily::TwoLutXor
            | HashFamily::PredSelBit5 | HashFamily::PredSelBit6 => true,
            _ => false,
        }
    }

    /// Whether the family reads the high-nibble table.
    pub fn uses_hi(&self) -> (r: bool)
        ensures
            r == (*self is LoHiAdd),
    {
        match self {
            HashFamily::LoHiAdd => true,
            _ => false,
        }
    }

    /// Whether the family reads the per-position tables.
    pub fn uses_pos(&self) -> (r: bool)
        ensures
            r == (*self is PosAware),
    {
        match self {
            HashFamily::PosAware => true,
            _ => false,
        }
    }
}

impl IndexMode {
    /// Name of the index mode.
    pub fn name(&self) -> (r: &'static str)
        ensures
            r@ == (match *self {
                IndexMode::Maskless => "maskless"@,
                IndexMode::Masked0f => "masked_0f"@,
            }),
    {
        match self {
            IndexMode::Maskless => "maskless",
            IndexMode::Masked0f => "masked_0f",
        }
    }

    /// Instructions the index mode adds (one `pand` when masked).
    pub fn extra_ops(&self) -> (r: u8)
        ensures
            r == (if *self is Maskless { 0u8 } else { 1u8 }),
    {
        match self {
            IndexMode::Maskless => 0,
            IndexMode::Masked0f => 1,
        }
    }

    /// Live constants the index mode saves (the shared hash drops the check
    /// table's first lookup; masking needs the mask back).
    pub fn const_live_delta(&self) -> (r: i8)
        ensures
            r == (if *self is Maskless { -1i8 } else { 0i8 }),
    {
        match self {
            IndexMode::Maskless => -1,
            IndexMode::Masked0f => 0,
        }
    }
}

/// A candidate hash: shift amount `shift` (1 to 7) of the byte and its
/// neighbour, mixing, index mode and family.
#[derive(Clone, Copy, Debug, PartialEq, Eq, Structural)]
pub struct HashSpec {
    pub shift: u8,
    pub mix: MixOp,
    pub index_mode: IndexMode,
    pub family: HashFamily,
}

impl HashSpec {
    /// Instructions the hash adds to the baseline.
    pub fn extra_ops(&self) -> (r: u8)
        ensures
            r == (if self.index_mode is Maskless { 0u8 } else { 1u8 }) + (if self.family is OneLut
                || self.family is PosAware {
                0u8
            } else {
                1u8
            }),
    {
        self.index_mode.extra_ops() + self.family.extra_ops()
    }

    /// Live constants the hash adds to the baseline.
    pub fn const_live_delta(&self) -> (r: i8)
        ensures
            r == (if self.index_mode is Maskless { -1i8 } else { 0i8 }) + (match self.family {
                HashFamily::OneLut => 0i8,
                HashFamily::PosAware => 3i8,
                HashFamily::DualIndexBit5 => 0i8,
                HashFamily::DualIndexBit6 => 0i8,
                _ => 1i8,
            }),
    {
        self.index_mode.const_live_delta() + self.family.const_live_delta()
    }
}

// ---------------------------------------------------------------------------
// Tables and the hash
// ---------------------------------------------------------------------------

/// The tables of a candidate hash: the primary lookup, the perturbation
/// lookup, the high-nibble lookup and four per-position lookups (entry
/// `16 * pos + lo`).
#[derive(Clone, Copy, Debug)]
pub struct HashTables {
    pub primary: [u8; 16],
    pub perturb: [u8; 16],
    pub hi: [u8; 16],
    pub pos: [u8; 64],
}

/// The contents of a [`HashTables`].
pub struct TablesView {
    pub primary: Seq<u8>,
    pub perturb: Seq<u8>,
    pub hi: Seq<u8>,
    pub pos: Seq<u8>,
}

impl View for HashTables {
    type V = TablesView;

    open spec fn view(&self) -> TablesView {
        TablesView { primary: self.primary@, perturb: self.perturb@, hi: self.hi@, pos: self.pos@ }
    }
}

/// The byte shifted right by `k`, with the low `k` bits of its neighbour
/// shifted in at the top (none at position 3).
pub open spec fn shifted_spec(byte: u8, next_low_k: u8, pos: u8, k: u8) -> u8 {
    if pos == 3 {
        byte >> k
    } else {
        ((byte >> k) | ((next_low_k & ((((1u16 << k) as u16) - 1) as u8)) << ((8 - k) as u8))) as u8
    }
}

/// The entry the hash looks up for `byte` at position `pos`.
pub open spec fn base_spec(byte: u8, pos: u8, t: TablesView, fam: HashFamily) -> u8 {
    let lo = (byte & 0x0f) as int;
    let hi = (byte >> 4u8) as int;
    match fam {
        HashFamily::PosAware => t.pos[16 * pos + lo],
        HashFamily::LoHiAdd => wadd(t.primary[lo], t.hi[hi]),
        HashFamily::PredSelBit5 => if byte & 0x20 != 0 {
            t.perturb[lo]
        } else {
            t.primary[lo]
        },
        HashFamily::PredSelBit6 => if byte & 0x40 != 0 {
            t.perturb[lo]
        } else {
            t.primary[lo]
        },
        _ => t.primary[lo],
    }
}

/// The mix of two bytes.
pub open spec fn mix_spec(m: MixOp, a: u8, b: u8) -> u8 {
    match m {
        MixOp::Avg => avg_lane(a, b),
        MixOp::Add => wadd(a, b),
        MixOp::Xor => a ^ b,
        MixOp::Min => if a < b {
            a
        } else {
            b
        },
        MixOp::Max => if a > b {
            a
        } else {
            b
        },
        MixOp::Sub => ((a - b + 256) % 256) as u8,
    }
}

/// What each mixing operation does to two bytes, as the SSE instruction it
/// stands for: `min_epu8` and `max_epu8` give the smaller and the larger of
/// the two unsigned bytes, `add_epi8` and `sub_epi8` add and subtract modulo
/// 256, `avg_epu8` gives the average rounded up, and `xor` sets the bits set
/// in exactly one of them.
pub proof fn law_mix_ops(a: u8, b: u8)
    ensures
        mix_spec(MixOp::Min, a, b) <= a && mix_spec(MixOp::Min, a, b) <= b,
        mix_spec(MixOp::Min, a, b) == a || mix_spec(MixOp::Min, a, b) == b,
        mix_spec(MixOp::Max, a, b) >= a && mix_spec(MixOp::Max, a, b) >= b,
        mix_spec(MixOp::Max, a, b) == a || mix_spec(MixOp::Max, a, b) == b,
        (a + b - mix_spec(MixOp::Add, a, b)) % 256 == 0,
        (a - b - mix_spec(MixOp::Sub, a, b)) % 256 == 0,
        a + b <= 2 * mix_spec(MixOp::Avg, a, b) <= a + b + 1,
        mix_spec(MixOp::Xor, a, b) & (a & b) == 0,
        mix_spec(MixOp::Xor, a, b) | (a & b) == a | b,
{
    let x = a ^ b;
    let s: u16 = ((a as u16) + (b as u16) + 1) as u16;
    assert(x & (a & b) == 0 && x | (a & b) == a | b && (s >> 1u16) as u8 == ((a as int + b as int + 1) / 2) as u8)
        by (bit_vector)
        requires
            x == a ^ b,
            s == ((a as u16) + (b as u16) + 1) as u16,
    ;
}

/// The shifted operand of the hash is the byte shifted right by `k` bits;
/// at positions 0 to 2 the low `k` bits of the neighbour byte fill the
/// `k` freed top bits, at position 3 they stay zero.
pub proof fn law_shift_window(byte: u8, next_low_k: u8, pos: u8, k: u8)
    requires
        1 <= k <= 7,
    ensures
        pos == 3 ==> shifted_spec(byte, next_low_k, pos, k) as int == byte as int / (pow2(k as nat) as int),
        pos != 3 ==> shifted_spec(byte, next_low_k, pos, k) as int == byte as int / (pow2(k as nat) as int) + (
        next_low_k as int % (pow2(k as nat) as int)) * pow2((8 - k) as nat),
{
    let r = shifted_spec(byte, next_low_k, pos, k);
    assert((k == 1 ==> (pos == 3 ==> r == byte / 2) && (pos != 3 ==> r == byte / 2 + (next_low_k % 2) * 128))
        && (k == 2 ==> (pos == 3 ==> r == byte / 4) && (pos != 3 ==> r == byte / 4 + (next_low_k % 4) * 64))
        && (k == 3 ==> (pos == 3 ==> r == byte / 8) && (pos != 3 ==> r == byte / 8 + (next_low_k % 8) * 32))
        && (k == 4 ==> (pos == 3 ==> r == byte / 16) && (pos != 3 ==> r == byte / 16 + (next_low_k % 16) * 16))
        && (k == 5 ==> (pos == 3 ==> r == byte / 32) && (pos != 3 ==> r == byte / 32 + (next_low_k % 32) * 8))
        && (k == 6 ==> (pos == 3 ==> r == byte / 64) && (pos != 3 ==> r == byte / 64 + (next_low_k % 64) * 4))
        && (k == 7 ==> (pos == 3 ==> r == byte / 128) && (pos != 3 ==> r == byte / 128 + (next_low_k % 128) * 2)))
        by (bit_vector)
        requires
            r == shifted_spec(byte, next_low_k, pos, k),
    ;
    lemma2_to64();
}

/// The looked-up entry of each family: the primary entry of the byte's low
/// nibble, the byte's row of the position table, the primary and high-nibble
/// entries added modulo 256, or the second table in place of the primary one
/// when bit 5 (or bit 6) of the byte is set. The two-table families then
/// add, average or xor in the second table's entry for the low nibble.
pub proof fn law_hash_families(byte: u8, next_low_k: u8, pos: u8, t: TablesView, s: HashSpec)
    ensures
        ({
            let lo = byte as int % 16;
            let hi = byte as int / 16;
            let b5 = (byte as int / 32) % 2 == 1;
            let b6 = (byte as int / 64) % 2 == 1;
            let base = base_spec(byte, pos, t, s.family);
            let core = mix_spec(s.mix, base, shifted_spec(byte, next_low_k, pos, s.shift));
            let m = mixed_spec(byte, next_low_k, pos, t, s);
            &&& s.family == HashFamily::OneLut ==> base == t.primary[lo] && m == core
            &&& s.family == HashFamily::PosAware ==> base == t.pos[16 * pos + lo] && m == core
            &&& s.family == HashFamily::LoHiAdd ==> base as int == (t.primary[lo] + t.hi[hi]) % 256 && m == core
            &&& s.family == HashFamily::PredSelBit5 ==> base == (if b5 { t.perturb[lo] } else { t.primary[lo] })
                && m == core
            &&& s.family == HashFamily::PredSelBit6 ==> base == (if b6 { t.perturb[lo] } else { t.primary[lo] })
                && m == core
            &&& s.family == HashFamily::TwoLutAdd ==> base == t.primary[lo] && m as int == (core + t.perturb[lo])
                % 256
            &&& s.family == HashFamily::TwoLutAvg ==> base == t.primary[lo] && m as int == (core + t.perturb[lo]
                + 1) / 2
            &&& s.family == HashFamily::TwoLutXor ==> base == t.primary[lo] && m == core ^ t.perturb[lo]
        }),
{
    assert(byte & 0x0f == byte % 16 && byte >> 4u8 == byte / 16 && (byte & 0x20 != 0) == ((byte / 32) % 2 == 1)
        && (byte & 0x40 != 0) == ((byte / 64) % 2 == 1)) by (bit_vector);
    let c = mix_spec(s.mix, base_spec(byte, pos, t, s.family), shifted_spec(byte, next_low_k, pos, s.shift));
    law_mix_ops(c, t.perturb[byte as int % 16]);
}

/// The hash value (before indexing) of `byte` at position `pos` with
/// neighbour bits `next_low_k`.
pub open spec fn mixed_spec(byte: u8, next_low_k: u8, pos: u8, t: TablesView, s: HashSpec) -> u8 {
    let core = mix_spec(s.mix, base_spec(byte, pos, t, s.family), shifted_spec(byte, next_low_k, pos, s.shift));
    let p = t.perturb[(byte & 0x0f) as int];
    match s.family {
        HashFamily::OneLut => core,
        HashFamily::TwoLutAdd => wadd(core, p),
        HashFamily::TwoLutAvg => avg_lane(core, p),
        HashFamily::TwoLutXor => core ^ p,
        _ => core,
    }
}

/// A shift amount the hash supports.
pub open spec fn spec_ok(s: HashSpec) -> bool {
    1 <= s.shift <= 7
}

/// Wrapping byte addition.
fn add_u8(a: u8, b: u8) -> (r: u8)
    ensures
        r == wadd(a, b),
{
    ((a as u16 + b as u16) % 256) as u8
}

/// The hash value of `byte` at position `pos_in_dword` of its word, with
/// neighbour bits `next_low_k`.
pub fn hash_mixed_raw(byte: u8, next_low_k: u8, pos_in_dword: u8, tables: &HashTables, spec: &HashSpec) -> (r: u8)
    requires
        pos_in_dword < 4,
        spec_ok(*spec),
    ensures
        r == mixed_spec(byte, next_low_k, pos_in_dword, tables@, *spec),
{
    let k = spec.shift;
    let lo = (byte & 0x0f) as usize;
    let hi = (byte >> 4u8) as usize;
    assert(byte & 0x0f < 16 && byte >> 4u8 < 16) by (bit_vector);
    let shifted: u8 = if pos_in_dword == 3 {
        byte >> k
    } else {
        assert(1 <= k <= 7 ==> (1u16 << k) >= 1) by (bit_vector);
        let mask = ((1u16 << k) - 1) as u8;
        (byte >> k) | ((next_low_k & mask) << (8 - k))
    };
    let base = match spec.family {
        HashFamily::PosAware => tables.pos[16 * (pos_in_dword as usize) + lo],
        HashFamily::LoHiAdd => add_u8(tables.primary[lo], tables.hi[hi]),
        HashFamily::PredSelBit5 => {
            if (byte & 0x20) != 0 {
                tables.perturb[lo]
            } else {
                tables.primary[lo]
            }
        },
        HashFamily::PredSelBit6 => {
            if (byte & 0x40) != 0 {
                tables.perturb[lo]
            } else {
                tables.primary[lo]
            }
        },
        _ => tables.primary[lo],
    };
    let core = match spec.mix {
        MixOp::Avg => avg_epu8(base, shifted),
        MixOp::Add => add_u8(base, shifted),
        MixOp::Xor => base ^ shifted,
        MixOp::Min => if base < shifted {
            base
        } else {
            shifted
        },
        MixOp::Max => if base > shifted {
            base
        } else {
            shifted
        },
        MixOp::Sub => ((base as u16 + 256 - shifted as u16) % 256) as u8,
    };
    match spec.family {
        HashFamily::OneLut => core,
        HashFamily::TwoLutAdd => add_u8(core, tables.perturb[lo]),
        HashFamily::TwoLutAvg => avg_epu8(core, tables.perturb[lo]),
        HashFamily::TwoLutXor => core ^ tables.perturb[lo],
        _ => core,
    }
}

/// The mapping and check table indexes of a hash value.
pub open spec fn indexes_spec(mixed: u8, byte: u8, s: HashSpec) -> (int, int) {
    let base = (mixed & 0x0f) as int;
    let check = match s.family {
        HashFamily::DualIndexBit5 => (base as u8 ^ ((((byte >> 5u8) & 1u8) << 3u8) as u8)) as int,
        HashFamily::DualIndexBit6 => (base as u8 ^ ((((byte >> 6u8) & 1u8) << 3u8) as u8)) as int,
        _ => base,
    };
    (base, check)
}

/// Both table indexes lie in the low nibble of the hash value: the mapping
/// index is the hash modulo 16, and the check index is the same but in the
/// dual-index families, where it moves by 8 (modulo 16) when bit 5 (or
/// bit 6) of the byte is set.
pub proof fn law_hash_indexes(mixed: u8, byte: u8, s: HashSpec)
    ensures
        ({
            let r = indexes_spec(mixed, byte, s);
            let b5 = (byte as int / 32) % 2 == 1;
            let b6 = (byte as int / 64) % 2 == 1;
            &&& r.0 == mixed as int % 16
            &&& s.family == HashFamily::DualIndexBit5 ==> r.1 == (if b5 { (r.0 + 8) % 16 } else { r.0 })
            &&& s.family == HashFamily::DualIndexBit6 ==> r.1 == (if b6 { (r.0 + 8) % 16 } else { r.0 })
            &&& s.family != HashFamily::DualIndexBit5 && s.family != HashFamily::DualIndexBit6 ==> r.1 == r.0
        }),
{
    let base: u8 = mixed & 0x0f;
    assert(base == mixed % 16 && (base ^ (((byte >> 5u8) & 1u8) << 3u8)) as int == (if (byte / 32) % 2 == 1 {
        (base + 8) % 16
    } else {
        base as int
    }) && (base ^ (((byte >> 6u8) & 1u8) << 3u8)) as int == (if (byte / 64) % 2 == 1 {
        (base + 8) % 16
    } else {
        base as int
    })) by (bit_vector)
        requires
            base == mixed & 0x0f,
    ;
}

/// The mapping and check table indexes of a hash value: its low nibble,
/// with bit 3 of the check index flipped by bit 5 or 6 of the byte in the
/// dual-index families.
pub fn hash_indexes(mixed: u8, byte: u8, spec: &HashSpec) -> (r: (usize, usize))
    ensures
        r.0 as int == indexes_spec(mixed, byte, *spec).0,
        r.1 as int == indexes_spec(mixed, byte, *spec).1,
        r.0 < 16,
        r.1 < 16,
{
    let base: u8 = mixed & 0x0f;
    assert(mixed & 0x0f < 16) by (bit_vector);
    let check: u8 = match spec.family {
        HashFamily::DualIndexBit5 => base ^ (((byte >> 5u8) & 1u8) << 3u8),
        HashFamily::DualIndexBit6 => base ^ (((byte >> 6u8) & 1u8) << 3u8),
        _ => base,
    };
    assert(base < 16 ==> (base ^ (((byte >> 5u8) & 1u8) << 3u8)) < 16 && (base ^ (((byte >> 6u8) & 1u8) << 3u8)) < 16) by (bit_vector);
    (base as usize, check as usize)
}

// ---------------------------------------------------------------------------
// Deterministic random numbers
// ---------------------------------------------------------------------------

/// One xorshift64 step.
pub open spec fn xorshift_step(x: u64) -> u64 {
    let a = x ^ (x << 13u64);
    let b = a ^ (a >> 7u64);
    b ^ (b << 17u64)
}

/// The xorshift64 generator.
pub struct XorShift64 {
    pub state: u64,
}

impl XorShift64 {
    /// A generator seeded with `seed` (a fixed non-zero seed for zero).
    pub fn new(seed: u64) -> (r: Self)
        ensures
            r.state == (if seed == 0 { 0xA5A5_0123_89AB_CDEFu64 } else { seed }),
    {
        let s = if seed == 0 {
            0xA5A5_0123_89AB_CDEFu64
        } else {
            seed
        };
        Self { state: s }
    }

    /// The next 64-bit value.
    pub fn next_u64(&mut self) -> (r: u64)
        ensures
            r == xorshift_step(old(self).state),
            final(self).state == r,
    {
        let mut x = self.state;
        x = x ^ (x << 13u64);
        x = x ^ (x >> 7u64);
        x = x ^ (x << 17u64);
        self.state = x;
        x
    }

    /// The low byte of the next value.
    pub fn next_u8(&mut self) -> (r: u8)
        ensures
            r as int == xorshift_step(old(self).state) % 256,
            final(self).state == xorshift_step(old(self).state),
    {
        let v = self.next_u64();
        (v % 256) as u8
    }

    /// The next value reduced below `upper`.
    pub fn next_usize(&mut self, upper: usize) -> (r: usize)
        requires
            upper > 0,
        ensures
            r == (xorshift_step(old(self).state) as usize) % upper,
            r < upper,
            final(self).state == xorshift_step(old(self).state),
    {
        let v = self.next_u64();
        (v as usize) % upper
    }
}

// ---------------------------------------------------------------------------
// Buckets of a candidate hash
// ---------------------------------------------------------------------------

/// Number of neighbour values `2^k` of a shift by `k`.
pub open spec fn nlow(k: u8) -> int {
    (1u16 << k) as int
}

/// Number of (position, neighbour) contexts of a byte: `2^k` neighbour
/// values at positions 0 to 2, and position 3 alone.
pub open spec fn nctx(k: u8) -> int {
    3 * nlow(k) + 1
}

/// Position of the `i`-th context.
pub open spec fn ctx_pos_k(k: u8, i: int) -> u8 {
    if i < 3 * nlow(k) {
        (i / nlow(k)) as u8
    } else {
        3
    }
}

/// Neighbour bits of the `i`-th context.
pub open spec fn ctx_low_k(k: u8, i: int) -> u8 {
    if i < 3 * nlow(k) {
        (i % nlow(k)) as u8
    } else {
        0
    }
}

/// Hash value of `b` in its `i`-th context.
pub open spec fn mixed_at(b: u8, i: int, t: TablesView, s: HashSpec) -> u8 {
    mixed_spec(b, ctx_low_k(s.shift, i), ctx_pos_k(s.shift, i), t, s)
}

/// The mapping (`map`) or check bucket of `b` in its `i`-th context.
pub open spec fn index_at(map: bool, b: u8, i: int, t: TablesView, s: HashSpec) -> int {
    if map {
        indexes_spec(mixed_at(b, i, t, s), b, s).0
    } else {
        indexes_spec(mixed_at(b, i, t, s), b, s).1
    }
}

/// Some context sends `b` to mapping bucket `h`.
pub open spec fn map_reaches(b: u8, h: int, t: TablesView, s: HashSpec) -> bool {
    exists|i: int| 0 <= i < nctx(s.shift) && #[trigger] index_at(true, b, i, t, s) == h
}

/// Some context sends `b` to check bucket `h`.
pub open spec fn check_reaches(b: u8, h: int, t: TablesView, s: HashSpec) -> bool {
    exists|i: int| 0 <= i < nctx(s.shift) && #[trigger] index_at(false, b, i, t, s) == h
}

/// Bucket entries of the mapping hash (entry `256 * h + b`).
pub open spec fn map_seq(t: TablesView, s: HashSpec) -> Seq<bool> {
    Seq::new(4096, |k: int| map_reaches((k % 256) as u8, k / 256, t, s))
}

/// Bucket entries of the check hash.
pub open spec fn check_seq(t: TablesView, s: HashSpec) -> Seq<bool> {
    Seq::new(4096, |k: int| check_reaches((k % 256) as u8, k / 256, t, s))
}

/// Setting the entry of byte `b` in bucket `hi`, where its `i`-th context
/// sends it, extends the buckets of `b` by that context and keeps every
/// other byte's entries.
pub proof fn lemma_member_step(pm: Seq<bool>, m: Seq<bool>, b: u8, i: int, hi: int, map: bool, t: TablesView, s: HashSpec)
    requires
        pm.len() == 4096,
        0 <= i,
        0 <= hi < 16,
        m == pm.update(256 * hi + b, true),
        index_at(map, b, i, t, s) == hi,
        forall|g: int| 0 <= g < 16 ==> (#[trigger] pm[256 * g + b] <==> exists|j: int| 0 <= j < i && #[trigger] index_at(map, b, j, t, s) == g),
    ensures
        forall|g: int| 0 <= g < 16 ==> (#[trigger] m[256 * g + b] <==> exists|j: int| 0 <= j < i + 1 && #[trigger] index_at(map, b, j, t, s) == g),
        forall|g: int, x: u8| 0 <= g < 16 && x != b ==> #[trigger] m[256 * g + x] == pm[256 * g + x],
{
    assert forall|g: int| 0 <= g < 16 implies (#[trigger] m[256 * g + b] <==> exists|j: int| 0 <= j < i + 1 && #[trigger] index_at(map, b, j, t, s) == g) by {
        assert(0 <= 256 * g + b < 4096);
        let e0 = exists|j: int| 0 <= j < i && #[trigger] index_at(map, b, j, t, s) == g;
        let e1 = exists|j: int| 0 <= j < i + 1 && #[trigger] index_at(map, b, j, t, s) == g;
        assert(pm[256 * g + b] <==> e0);
        if g == hi {
            assert(m[256 * g + b]);
            assert(index_at(map, b, i, t, s) == g);
            assert(e1);
        } else {
            assert(256 * g + b != 256 * hi + b);
            assert(m[256 * g + b] == pm[256 * g + b]);
            if e0 {
                let j = choose|j: int| 0 <= j < i && #[trigger] index_at(map, b, j, t, s) == g;
                assert(0 <= j < i + 1 && index_at(map, b, j, t, s) == g);
                assert(e1);
            }
            if e1 {
                let j = choose|j: int| 0 <= j < i + 1 && #[trigger] index_at(map, b, j, t, s) == g;
                assert(j != i);
                assert(0 <= j < i && index_at(map, b, j, t, s) == g);
                assert(e0);
            }
        }
    }
    assert forall|g: int, x: u8| 0 <= g < 16 && x != b implies #[trigger] m[256 * g + x] == pm[256 * g + x] by {
        assert(256 * g + x != 256 * hi + b);
        assert(0 <= 256 * g + x < 4096);
    }
}

/// Number of (byte, context) pairs among the first `n` (byte-major) whose
/// hash value has the top bit set while the byte is an alphabet character
/// (`ascii` false) or an ASCII byte (`ascii` true).
pub open spec fn msb_violations(t: TablesView, s: HashSpec, valid: Seq<bool>, ascii: bool, n: int) -> nat
    decreases n,
{
    if n <= 0 {
        0
    } else {
        let b = ((n - 1) / nctx(s.shift)) as u8;
        let i = (n - 1) % nctx(s.shift);
        let hit = (if ascii { b < 128 } else { valid[b as int] }) && mixed_at(b, i, t, s) & 0x80 != 0;
        msb_violations(t, s, valid, ascii, n - 1) + (if hit { 1nat } else { 0nat })
    }
}

/// Context facts of a shift amount.
pub proof fn lemma_ctx(k: u8)
    requires
        1 <= k <= 7,
    ensures
        2 <= nlow(k) <= 128,
        nlow(k) == (1u16 << k),
{
    assert(1 <= k <= 7 ==> 2 <= (1u16 << k) <= 128) by (bit_vector);
}

/// Group every byte into the mapping and check buckets of the hash over all
/// its contexts, and count the top-bit violations of alphabet and ASCII
/// bytes.
pub fn build_buckets_and_msb_violations(tables: &HashTables, spec: &HashSpec, valid_lut: &[bool; 256]) -> (r: (
    Buckets,
    Buckets,
    u32,
    u32,
))
    requires
        spec_ok(*spec),
    ensures
        r.0.wf(),
        r.1.wf(),
        r.0.member@ == map_seq(tables@, *spec),
        r.1.member@ == check_seq(tables@, *spec),
        forall|h: int, b: u8| 0 <= h < 16 ==> (#[trigger] r.0.has(h, b) <==> map_reaches(b, h, tables@, *spec)),
        forall|h: int, b: u8| 0 <= h < 16 ==> (#[trigger] r.1.has(h, b) <==> check_reaches(b, h, tables@, *spec)),
        r.2 == msb_violations(tables@, *spec, valid_lut@, false, 256 * nctx(spec.shift)),
        r.3 == msb_violations(tables@, *spec, valid_lut@, true, 256 * nctx(spec.shift)),
{
    let ghost t = tables@;
    let ghost sp = *spec;
    let mut map_member: Vec<bool> = vec![false; 4096];
    let mut check_member: Vec<bool> = vec![false; 4096];
    let mut valid_msb: u32 = 0;
    let mut ascii_msb: u32 = 0;
    let contexts: u16 = 1u16 << spec.shift;
    let nc: usize = 3 * (contexts as usize) + 1;
    proof {
        lemma_ctx(spec.shift);
    }
    let mut byte: u16 = 0;
    while byte < 256
        invariant
            byte <= 256,
            spec_ok(sp),
            sp == *spec,
            t == tables@,
            contexts as int == nlow(sp.shift),
            nc as int == nctx(sp.shift),
            2 <= nlow(sp.shift) <= 128,
            map_member@.len() == 4096,
            check_member@.len() == 4096,
            forall|h: int, b: u8|
                0 <= h < 16 && b < byte ==> (#[trigger] map_member@[256 * h + b] <==> map_reaches(b, h, t, sp)),
            forall|h: int, b: u8|
                0 <= h < 16 && b < byte ==> (#[trigger] check_member@[256 * h + b] <==> check_reaches(b, h, t, sp)),
            forall|h: int, b: u8| 0 <= h < 16 && b >= byte ==> !#[trigger] map_member@[256 * h + b],
            forall|h: int, b: u8| 0 <= h < 16 && b >= byte ==> !#[trigger] check_member@[256 * h + b],
            valid_msb == msb_violations(t, sp, valid_lut@, false, byte * nctx(sp.shift)),
            ascii_msb == msb_violations(t, sp, valid_lut@, true, byte * nctx(sp.shift)),
            valid_msb <= byte * nctx(sp.shift),
            ascii_msb <= byte * nctx(sp.shift),
        decreases 256 - byte,
    {
        let b = byte as u8;
        let mut i: usize = 0;
        while i < nc
            invariant
                i <= nc,
                b as u16 == byte,
                byte < 256,
                spec_ok(sp),
                sp == *spec,
                t == tables@,
                contexts as int == nlow(sp.shift),
                nc as int == nctx(sp.shift),
                2 <= nlow(sp.shift) <= 128,
                map_member@.len() == 4096,
                check_member@.len() == 4096,
                forall|h: int, x: u8|
                    0 <= h < 16 && x < byte ==> (#[trigger] map_member@[256 * h + x] <==> map_reaches(x, h, t, sp)),
                forall|h: int, x: u8|
                    0 <= h < 16 && x < byte ==> (#[trigger] check_member@[256 * h + x] <==> check_reaches(x, h, t, sp)),
                forall|h: int, x: u8| 0 <= h < 16 && x > byte ==> !#[trigger] map_member@[256 * h + x],
                forall|h: int, x: u8| 0 <= h < 16 && x > byte ==> !#[trigger] check_member@[256 * h + x],
                forall|h: int|
                    0 <= h < 16 ==> (#[trigger] map_member@[256 * h + b] <==> exists|j: int|
                        0 <= j < i && #[trigger] index_at(true, b, j, t, sp) == h),
                forall|h: int|
                    0 <= h < 16 ==> (#[trigger] check_member@[256 * h + b] <==> exists|j: int|
                        0 <= j < i && #[trigger] index_at(false, b, j, t, sp) == h),
                valid_msb == msb_violations(t, sp, valid_lut@, false, byte * nctx(sp.shift) + i),
                ascii_msb == msb_violations(t, sp, valid_lut@, true, byte * nctx(sp.shift) + i),
                valid_msb <= byte * nctx(sp.shift) + i,
                ascii_msb <= byte * nctx(sp.shift) + i,
            decreases nc - i,
        {
            let (pos, low): (u8, u8) = if i < 3 * (contexts as usize) {
                ((i / (contexts as usize)) as u8, (i % (contexts as usize)) as u8)
            } else {
                (3, 0)
            };
            proof {
                assert(pos == ctx_pos_k(sp.shift, i as int) && low == ctx_low_k(sp.shift, i as int));
                if i < 3 * (contexts as usize) {
                    assert((i as int) / (contexts as int) < 3) by (nonlinear_arith)
                        requires
                            0 <= i < 3 * contexts,
                            contexts >= 2,
                    ;
                }
                assert(((byte * nctx(sp.shift) + i + 1) - 1) / nctx(sp.shift) == byte) by (nonlinear_arith)
                    requires
                        0 <= i < nctx(sp.shift),
                        byte >= 0,
                ;
                assert(((byte * nctx(sp.shift) + i + 1) - 1) % nctx(sp.shift) == i) by (nonlinear_arith)
                    requires
                        0 <= i < nctx(sp.shift),
                        byte >= 0,
                ;
            }
            proof {
                assert(byte * nctx(sp.shift) + i < 256 * 385) by (nonlinear_arith)
                    requires
                        byte < 256,
                        nctx(sp.shift) <= 385,
                        i < nctx(sp.shift),
                ;
            }
            let mixed = hash_mixed_raw(b, low, pos, tables, spec);
            let is_valid = valid_lut[b as usize];
            if is_valid && (mixed & 0x80) != 0 {
                valid_msb = valid_msb + 1;
            }
            if b < 128 && (mixed & 0x80) != 0 {
                ascii_msb = ascii_msb + 1;
            }
            let (h_map, h_check) = hash_indexes(mixed, b, spec);
            let ghost pm = map_member@;
            let ghost pc = check_member@;
            map_member.set(256 * h_map + b as usize, true);
            check_member.set(256 * h_check + b as usize, true);
            proof {
                assert(mixed == mixed_at(b, i as int, t, sp));
                lemma_member_step(pm, map_member@, b, i as int, h_map as int, true, t, sp);
                lemma_member_step(pc, check_member@, b, i as int, h_check as int, false, t, sp);
            }
            i = i + 1;
        }
        proof {
            assert(byte * nctx(sp.shift) + nctx(sp.shift) == (byte + 1) * nctx(sp.shift)) by (nonlinear_arith);
            assert forall|h: int| 0 <= h < 16 implies (#[trigger] map_member@[256 * h + b] <==> map_reaches(b, h, t, sp)) by {}
            assert forall|h: int| 0 <= h < 16 implies (#[trigger] check_member@[256 * h + b] <==> check_reaches(b, h, t, sp)) by {}
        }
        byte = byte + 1;
    }
    proof {
        assert forall|k: int| 0 <= k < 4096 implies #[trigger] map_member@[k] == map_seq(t, sp)[k] by {
            let h = k / 256;
            let x = (k % 256) as u8;
            assert(256 * h + x == k);
            assert(map_member@[256 * h + x] <==> map_reaches(x, h, t, sp));
        }
        assert forall|k: int| 0 <= k < 4096 implies #[trigger] check_member@[k] == check_seq(t, sp)[k] by {
            let h = k / 256;
            let x = (k % 256) as u8;
            assert(256 * h + x == k);
            assert(check_member@[256 * h + x] <==> check_reaches(x, h, t, sp));
        }
        assert(map_member@ =~= map_seq(t, sp));
        assert(check_member@ =~= check_seq(t, sp));
    }
    (Buckets { member: map_member }, Buckets { member: check_member }, valid_msb, ascii_msb)
}

/// Byte `b` is an alphabet byte of bucket `h` of the bucket entries `m`.
pub open spec fn valid_in(m: Seq<bool>, h: int, valid: Seq<bool>, b: u8) -> bool {
    m[256 * h + b] && valid[b as int]
}

/// Two alphabet bytes of bucket `h` need different offsets.
pub open spec fn has_conflict(m: Seq<bool>, h: int, valid: Seq<bool>, req: Seq<i8>) -> bool {
    exists|b1: u8, b2: u8| #[trigger] valid_in(m, h, valid, b1) && #[trigger] valid_in(m, h, valid, b2) && req[b1 as int] != req[b2 as int]
}

/// Bucket `h` holds an alphabet byte.
pub open spec fn has_valid(m: Seq<bool>, h: int, valid: Seq<bool>) -> bool {
    exists|b: u8| #[trigger] valid_in(m, h, valid, b)
}

/// The offset shared by the alphabet bytes of bucket `h` (`Err` when two
/// need different offsets, `None` when the bucket has none).
pub fn bucket_fixed_delta_conflict(bk: &Buckets, h: usize, valid_lut: &[bool; 256], required_delta_lut: &[i8; 256]) -> (r: Result<Option<i8>, ()>)
    requires
        bk.wf(),
        h < 16,
    ensures
        r is Err <==> has_conflict(bk.member@, h as int, valid_lut@, required_delta_lut@),
        r == Ok::<Option<i8>, ()>(None) <==> !has_valid(bk.member@, h as int, valid_lut@),
        r matches Ok(Some(d)) ==> has_valid(bk.member@, h as int, valid_lut@) && forall|b: u8| #[trigger] valid_in(bk.member@, h as int, valid_lut@, b) ==> required_delta_lut@[b as int] == d,
{
    let ghost valid = valid_lut@;
    let ghost req = required_delta_lut@;
    let mut delta_seen: Option<i8> = None;
    let ghost mut first: u8 = 0;
    let mut b: u16 = 0;
    while b < 256
        invariant
            b <= 256,
            bk.wf(),
            h < 16,
            valid == valid_lut@,
            req == required_delta_lut@,
            delta_seen is None <==> forall|x: u8| x < b ==> !#[trigger] valid_in(bk.member@, h as int, valid, x),
            delta_seen matches Some(d) ==> valid_in(bk.member@, h as int, valid, first) && req[first as int] == d && forall|x: u8| x < b && #[trigger] valid_in(bk.member@, h as int, valid, x) ==> req[x as int] == d,
        decreases 256 - b,
    {
        let byte = b as u8;
        proof {
            assert(valid_in(bk.member@, h as int, valid, byte) == (bk.has(h as int, byte) && valid_lut@[byte as int]));
        }
        if bk.contains(h, byte) && valid_lut[byte as usize] {
            let d = required_delta_lut[byte as usize];
            match delta_seen {
                Some(prev) => {
                    if prev != d {
                        proof {
                            assert(valid_in(bk.member@, h as int, valid, first) && valid_in(bk.member@, h as int, valid, byte));
                        }
                        return Err(());
                    }
                },
                None => {
                    delta_seen = Some(d);
                    proof {
                        first = byte;
                    }
                },
            }
        }
        b = b + 1;
    }
    proof {
        if let Some(d) = delta_seen {
            assert forall|x: u8| #[trigger] valid_in(bk.member@, h as int, valid, x) implies req[x as int] == d by {
                assert(x < b);
            }
            if has_conflict(bk.member@, h as int, valid, req) {
                let (b1, b2) = choose|b1: u8, b2: u8| #[trigger] valid_in(bk.member@, h as int, valid, b1) && #[trigger] valid_in(bk.member@, h as int, valid, b2) && req[b1 as int] != req[b2 as int];
                assert(req[b1 as int] == d && req[b2 as int] == d);
            }
        } else {
            assert forall|x: u8| !#[trigger] valid_in(bk.member@, h as int, valid, x) by {
                assert(x < b);
            }
        }
    }
    Ok(delta_seen)
}

/// The offset `du` poisons bucket `h`: every ASCII byte of the bucket
/// outside the alphabet maps to a value with the top bit set.
pub open spec fn poisons(m: Seq<bool>, h: int, valid: Seq<bool>, du: u8) -> bool {
    forall|b: u8| #[trigger] m[256 * h + b] && !valid[b as int] && b < 128 ==> wadd(b, du) >= 128
}

/// Byte `b` of bucket `h` is an ASCII byte outside the alphabet.
pub open spec fn ascii_invalid(m: Seq<bool>, h: int, valid: Seq<bool>, b: u8) -> bool {
    m[256 * h + b] && !valid[b as int] && b < 128
}

/// The offset chosen for a bucket without alphabet bytes: the one that lifts
/// its smallest ASCII byte outside the alphabet to 128, or 0 when it has
/// none.
pub open spec fn free_poison_delta(m: Seq<bool>, h: int, valid: Seq<bool>) -> u8 {
    if exists|b: u8| #[trigger] ascii_invalid(m, h, valid, b) {
        let lo = choose|b: u8| #[trigger] ascii_invalid(m, h, valid, b) && forall|x: u8| #[trigger] ascii_invalid(m, h, valid, x) ==> b <= x;
        (128 - lo) as u8
    } else {
        0
    }
}

/// An offset for bucket `h` that poisons its ASCII bytes outside the
/// alphabet (bytes from 128 up are flagged by themselves): the fixed offset
/// when the alphabet bytes impose one and it poisons, else the offset that
/// lifts the smallest such byte to 128, when one offset can lift them all.
pub fn bucket_poison_feasible_delta_80(bk: &Buckets, h: usize, valid_lut: &[bool; 256], fixed_delta: Option<i8>) -> (r: Option<u8>)
    requires
        bk.wf(),
        h < 16,
    ensures
        r matches Some(du) ==> poisons(bk.member@, h as int, valid_lut@, du),
        fixed_delta matches Some(d) ==> r == (if poisons(bk.member@, h as int, valid_lut@, d as u8) { Some(d as u8) } else { None::<u8> }),
        fixed_delta is None ==> r == Some(free_poison_delta(bk.member@, h as int, valid_lut@)),
{
    let ghost valid = valid_lut@;
    match fixed_delta {
        Some(d) => {
            let du = d as u8;
            let mut b: u16 = 0;
            while b < 256
                invariant
                    b <= 256,
                    bk.wf(),
                    h < 16,
                    valid == valid_lut@,
                    fixed_delta == Some(d),
                    du == d as u8,
                    forall|x: u8| x < b && #[trigger] bk.has(h as int, x) && !valid[x as int] && x < 128 ==> wadd(x, du) >= 128,
                decreases 256 - b,
            {
                let byte = b as u8;
                if bk.contains(h, byte) && !valid_lut[byte as usize] && byte < 128 {
                    if add_u8(byte, du) < 128 {
                        proof {
                            assert(bk.has(h as int, byte) && !valid[byte as int] && byte < 128 && wadd(byte, du) < 128);
                            assert(!poisons(bk.member@, h as int, valid, du));
                        }
                        return None;
                    }
                }
                b = b + 1;
            }
            proof {
                assert forall|x: u8| #[trigger] bk.member@[256 * h + x] && !valid[x as int] && x < 128 implies wadd(x, du) >= 128 by {
                    assert(bk.has(h as int, x));
                    assert(x < b);
                }
            }
            Some(du)
        },
        None => {
            let mut min_b: u8 = 255;
            let mut max_b: u8 = 0;
            let mut any = false;
            let mut b: u16 = 0;
            while b < 256
                invariant
                    b <= 256,
                    bk.wf(),
                    h < 16,
                    valid == valid_lut@,
                    fixed_delta is None,
                    !any ==> forall|x: u8| x < b ==> !(#[trigger] bk.has(h as int, x) && !valid[x as int] && x < 128),
                    any ==> min_b <= max_b < 128,
                    any ==> bk.has(h as int, min_b) && !valid[min_b as int],
                    any ==> bk.has(h as int, max_b) && !valid[max_b as int],
                    any ==> forall|x: u8| x < b && #[trigger] bk.has(h as int, x) && !valid[x as int] && x < 128 ==> min_b <= x <= max_b,
                decreases 256 - b,
            {
                let byte = b as u8;
                if bk.contains(h, byte) && !valid_lut[byte as usize] && byte < 128 {
                    if !any || byte < min_b {
                        min_b = byte;
                    }
                    if !any || byte > max_b {
                        max_b = byte;
                    }
                    any = true;
                }
                b = b + 1;
            }
            let ghost m = bk.member@;
            if !any {
                proof {
                    assert forall|x: u8| #[trigger] bk.member@[256 * h + x] && !valid[x as int] && x < 128 implies wadd(x, 0) >= 128 by {
                        assert(bk.has(h as int, x));
                        assert(x < b);
                    }
                    assert forall|x: u8| !#[trigger] ascii_invalid(m, h as int, valid, x) by {
                        assert(x < b);
                        assert(bk.has(h as int, x) == m[256 * h + x]);
                    }
                }
                return Some(0);
            }
            // Both ends are ASCII bytes, so one offset always lifts them all.
            let du = 128 - min_b;
            proof {
                assert forall|x: u8| #[trigger] bk.member@[256 * h + x] && !valid[x as int] && x < 128 implies wadd(x, du) >= 128 by {
                    assert(bk.has(h as int, x));
                    assert(x < b);
                }
                assert(ascii_invalid(m, h as int, valid, min_b));
                assert forall|x: u8| #[trigger] ascii_invalid(m, h as int, valid, x) implies min_b <= x by {
                    assert(x < b);
                    assert(bk.has(h as int, x));
                }
                let lo = choose|y: u8| #[trigger] ascii_invalid(m, h as int, valid, y) && forall|x: u8| #[trigger] ascii_invalid(m, h as int, valid, x) ==> y <= x;
                assert(ascii_invalid(m, h as int, valid, lo) && forall|x: u8| #[trigger] ascii_invalid(m, h as int, valid, x) ==> lo <= x);
                assert(lo <= min_b && min_b <= lo);
            }
            Some(du)
        },
    }
}

// ---------------------------------------------------------------------------
// Scores
// ---------------------------------------------------------------------------

/// Score of a candidate's tables (lower is better, field by field).
#[derive(Clone, Copy, Debug, PartialEq, Eq, Structural)]
pub struct Score {
    /// Mapping buckets whose alphabet bytes need different offsets.
    pub map_conflict_buckets: u32,
    /// (byte, context) pairs of alphabet bytes whose hash value has the
    /// top bit set.
    pub valid_msb_violations: u32,
    /// (byte, context) pairs of ASCII bytes whose hash value has the top bit
    /// set.
    pub ascii_msb_violations: u32,
    /// Check buckets that no entry separates.
    pub impossible_buckets: u32,
    /// Check buckets holding both alphabet and other bytes.
    pub mixed_buckets: u32,
    /// Number of separating entries, summed over the feasible check buckets.
    pub feasible_width_sum: u32,
    /// Mapping buckets without a poisoning offset.
    pub poison_impossible_buckets: u32,
}

impl Default for Score {
    fn default() -> (r: Self)
        ensures
            r.map_conflict_buckets == 0 && r.valid_msb_violations == 0 && r.ascii_msb_violations == 0
                && r.impossible_buckets == 0 && r.mixed_buckets == 0 && r.feasible_width_sum == 0
                && r.poison_impossible_buckets == 0,
    {
        Score {
            map_conflict_buckets: 0,
            valid_msb_violations: 0,
            ascii_msb_violations: 0,
            impossible_buckets: 0,
            mixed_buckets: 0,
            feasible_width_sum: 0,
            poison_impossible_buckets: 0,
        }
    }
}

/// `a` is better than `b`: lexicographically smaller on (map conflicts,
/// alphabet top-bit violations, ASCII top-bit violations, impossible
/// buckets, mixed buckets), then wider on the feasible width.
pub open spec fn score_better(a: Score, b: Score) -> bool {
    if a.map_conflict_buckets != b.map_conflict_buckets {
        a.map_conflict_buckets < b.map_conflict_buckets
    } else if a.valid_msb_violations != b.valid_msb_violations {
        a.valid_msb_violations < b.valid_msb_violations
    } else if a.ascii_msb_violations != b.ascii_msb_violations {
        a.ascii_msb_violations < b.ascii_msb_violations
    } else if a.impossible_buckets != b.impossible_buckets {
        a.impossible_buckets < b.impossible_buckets
    } else if a.mixed_buckets != b.mixed_buckets {
        a.mixed_buckets < b.mixed_buckets
    } else {
        a.feasible_width_sum > b.feasible_width_sum
    }
}

/// Being better is transitive.
pub proof fn lemma_better_transitive(a: Score, b: Score, c: Score)
    requires
        score_better(a, b),
        score_better(b, c),
    ensures
        score_better(a, c),
{
}

/// Nothing is better than itself.
pub proof fn lemma_better_irreflexive(a: Score)
    ensures
        !score_better(a, a),
{
}

/// Negated width, the last component of the comparison key.
pub fn neg_width(w: u32) -> (r: i32)
    requires
        w <= 0x7fff_ffff,
    ensures
        r == -(w as int),
{
    -(w as i32)
}

impl Score {
    /// Whether `self` is better than `other`.
    pub fn better_than(self, other: Self) -> (r: bool)
        ensures
            r == score_better(self, other),
    {
        if self.map_conflict_buckets != other.map_conflict_buckets {
            return self.map_conflict_buckets < other.map_conflict_buckets;
        }
        if self.valid_msb_violations != other.valid_msb_violations {
            return self.valid_msb_violations < other.valid_msb_violations;
        }
        if self.ascii_msb_violations != other.ascii_msb_violations {
            return self.ascii_msb_violations < other.ascii_msb_violations;
        }
        if self.impossible_buckets != other.impossible_buckets {
            return self.impossible_buckets < other.impossible_buckets;
        }
        if self.mixed_buckets != other.mixed_buckets {
            return self.mixed_buckets < other.mixed_buckets;
        }
        self.feasible_width_sum > other.feasible_width_sum
    }

    /// The comparison key: the five counts, then the negated width.
    pub fn cmp_key(self) -> (r: (u32, u32, u32, u32, u32, i32))
        requires
            self.feasible_width_sum <= 0x7fff_ffff,
        ensures
            r.0 == self.map_conflict_buckets,
            r.1 == self.valid_msb_violations,
            r.2 == self.ascii_msb_violations,
            r.3 == self.impossible_buckets,
            r.4 == self.mixed_buckets,
            r.5 + self.feasible_width_sum == 0,
    {
        (
            self.map_conflict_buckets,
            self.valid_msb_violations,
            self.ascii_msb_violations,
            self.impossible_buckets,
            self.mixed_buckets,
            neg_width(self.feasible_width_sum),
        )
    }
}

/// Signed value of a byte.
pub open spec fn sval(b: u8) -> int {
    (b as i8) as int
}

/// Lower end of the separating entries of check bucket `h`, over its bytes
/// below `n`: at least `-b` for every alphabet byte `b`.
pub open spec fn lo_upto(m: Seq<bool>, h: int, valid: Seq<bool>, n: int) -> int
    decreases n,
{
    if n <= 0 {
        -128
    } else {
        let prev = lo_upto(m, h, valid, n - 1);
        let b = (n - 1) as u8;
        if m[256 * h + b] && valid[b as int] && -sval(b) > prev {
            -sval(b)
        } else {
            prev
        }
    }
}

/// Upper end of the separating entries of check bucket `h`, over its bytes
/// below `n`: at most `-b - 1` for every other byte `b`.
pub open spec fn hi_upto(m: Seq<bool>, h: int, valid: Seq<bool>, n: int) -> int
    decreases n,
{
    if n <= 0 {
        127
    } else {
        let prev = hi_upto(m, h, valid, n - 1);
        let b = (n - 1) as u8;
        if m[256 * h + b] && !valid[b as int] && -sval(b) - 1 < prev {
            -sval(b) - 1
        } else {
            prev
        }
    }
}

/// Bucket `h` holds a byte.
pub open spec fn seen(m: Seq<bool>, h: int) -> bool {
    exists|b: u8| #[trigger] m[256 * h + b]
}

/// Bucket `h` holds a byte outside the alphabet.
pub open spec fn has_invalid(m: Seq<bool>, h: int, valid: Seq<bool>) -> bool {
    exists|b: u8| #[trigger] m[256 * h + b] && !valid[b as int]
}

/// The offset the alphabet bytes of bucket `h` share.
pub open spec fn shared_delta(m: Seq<bool>, h: int, valid: Seq<bool>, req: Seq<i8>) -> i8 {
    req[(choose|b: u8| #[trigger] valid_in(m, h, valid, b)) as int]
}

/// Mapping bucket `h` has a poisoning offset: its shared offset when it
/// holds alphabet bytes, some offset otherwise.
pub open spec fn poison_ok(m: Seq<bool>, h: int, valid: Seq<bool>, req: Seq<i8>) -> bool {
    if has_valid(m, h, valid) {
        poisons(m, h, valid, shared_delta(m, h, valid, req) as u8)
    } else {
        exists|du: u8| #[trigger] poisons(m, h, valid, du)
    }
}

/// Per-bucket terms of the score over buckets below `n`: map conflicts,
/// impossible, mixed, feasible width and poison-impossible buckets.
pub open spec fn bucket_terms(mm: Seq<bool>, cm: Seq<bool>, valid: Seq<bool>, req: Seq<i8>, n: int) -> (nat, nat, nat, nat, nat)
    decreases n,
{
    if n <= 0 {
        (0, 0, 0, 0, 0)
    } else {
        let p = bucket_terms(mm, cm, valid, req, n - 1);
        let h = n - 1;
        let lo = lo_upto(cm, h, valid, 256);
        let hi = hi_upto(cm, h, valid, 256);
        (
            p.0 + (if has_conflict(mm, h, valid, req) { 1nat } else { 0nat }),
            p.1 + (if seen(cm, h) && lo > hi { 1nat } else { 0nat }),
            p.2 + (if has_valid(cm, h, valid) && has_invalid(cm, h, valid) { 1nat } else { 0nat }),
            p.3 + (if seen(cm, h) && lo <= hi { (hi - lo + 1) as nat } else { 0nat }),
            p.4 + (if has_conflict(mm, h, valid, req) || !poison_ok(mm, h, valid, req) { 1nat } else { 0nat }),
        )
    }
}

/// The score of tables `t` under hash `s`.
pub open spec fn score_spec(t: TablesView, s: HashSpec, valid: Seq<bool>, req: Seq<i8>) -> Score {
    let terms = bucket_terms(map_seq(t, s), check_seq(t, s), valid, req, 16);
    Score {
        map_conflict_buckets: terms.0 as u32,
        valid_msb_violations: msb_violations(t, s, valid, false, 256 * nctx(s.shift)) as u32,
        ascii_msb_violations: msb_violations(t, s, valid, true, 256 * nctx(s.shift)) as u32,
        impossible_buckets: terms.1 as u32,
        mixed_buckets: terms.2 as u32,
        feasible_width_sum: terms.3 as u32,
        poison_impossible_buckets: terms.4 as u32,
    }
}

/// Bounds of the separating interval of one check bucket.
pub proof fn lemma_lo_hi_bounds(m: Seq<bool>, h: int, valid: Seq<bool>, n: int)
    ensures
        -128 <= lo_upto(m, h, valid, n) <= 128,
        -128 <= hi_upto(m, h, valid, n) <= 127,
    decreases n,
{
    if n > 0 {
        lemma_lo_hi_bounds(m, h, valid, n - 1);
        let b = (n - 1) as u8;
        assert(-128 <= sval(b) <= 127);
    }
}

/// Score the tables of a candidate (see [`score_spec`]).
#[verifier::rlimit(50)]
pub fn evaluate_table(tables: &HashTables, spec: &HashSpec, valid_lut: &[bool; 256], required_delta_lut: &[i8; 256]) -> (r: Score)
    requires
        spec_ok(*spec),
    ensures
        r == score_spec(tables@, *spec, valid_lut@, required_delta_lut@),
{
    let ghost valid = valid_lut@;
    let ghost req = required_delta_lut@;
    let (map_buckets, check_buckets, valid_msb_violations, ascii_msb_violations) = build_buckets_and_msb_violations(tables, spec, valid_lut);
    let ghost mm = map_buckets.member@;
    let ghost cm = check_buckets.member@;
    let mut map_conflicts: u32 = 0;
    let mut impossible: u32 = 0;
    let mut mixed: u32 = 0;
    let mut width: u32 = 0;
    let mut poison_impossible: u32 = 0;
    let mut h: usize = 0;
    while h < 16
        invariant
            h <= 16,
            map_buckets.wf(),
            check_buckets.wf(),
            mm == map_buckets.member@,
            cm == check_buckets.member@,
            valid == valid_lut@,
            req == required_delta_lut@,
            ({
                let p = bucket_terms(mm, cm, valid, req, h as int);
                map_conflicts == p.0 && impossible == p.1 && mixed == p.2 && width == p.3 && poison_impossible == p.4
            }),
            map_conflicts <= h,
            impossible <= h,
            mixed <= h,
            poison_impossible <= h,
            width <= 256 * h,
        decreases 16 - h,
    {
        // Mapping bucket: a shared offset, and a poisoning one.
        let fixed = bucket_fixed_delta_conflict(&map_buckets, h, valid_lut, required_delta_lut);
        let conflict = fixed.is_err();
        let mut poison_bad = conflict;
        if let Ok(d) = fixed {
            let pz = bucket_poison_feasible_delta_80(&map_buckets, h, valid_lut, d);
            poison_bad = pz.is_none();
            proof {
                if let Some(dd) = d {
                    let w = choose|b: u8| #[trigger] valid_in(mm, h as int, valid, b);
                    assert(valid_in(mm, h as int, valid, w));
                    assert(req[w as int] == dd);
                    assert(shared_delta(mm, h as int, valid, req) == dd);
                } else {
                    if let Some(du) = pz {
                        assert(poisons(mm, h as int, valid, du));
                    }
                }
            }
        }
        proof {
            assert(poison_bad == (has_conflict(mm, h as int, valid, req) || !poison_ok(mm, h as int, valid, req)));
        }
        // Check bucket: the separating interval.
        let mut seen_any = false;
        let mut has_v = false;
        let mut has_i = false;
        let mut lo: i16 = -128;
        let mut hi: i16 = 127;
        let mut b: u16 = 0;
        while b < 256
            invariant
                b <= 256,
                h < 16,
                check_buckets.wf(),
                cm == check_buckets.member@,
                valid == valid_lut@,
                lo as int == lo_upto(cm, h as int, valid, b as int),
                hi as int == hi_upto(cm, h as int, valid, b as int),
                seen_any <==> exists|x: u8| x < b && #[trigger] cm[256 * h + x],
                has_v <==> exists|x: u8| x < b && #[trigger] cm[256 * h + x] && valid[x as int],
                has_i <==> exists|x: u8| x < b && #[trigger] cm[256 * h + x] && !valid[x as int],
            decreases 256 - b,
        {
            let byte = b as u8;
            proof {
                assert(((b + 1) - 1) as u8 == byte);
                lemma_lo_hi_bounds(cm, h as int, valid, b as int);
                assert(-128 <= sval(byte) <= 127);
            }
            if check_buckets.contains(h, byte) {
                seen_any = true;
                let bi = (byte as i8) as i16;
                if valid_lut[byte as usize] {
                    has_v = true;
                    let lower = -bi;
                    if lower > lo {
                        lo = lower;
                    }
                } else {
                    has_i = true;
                    let upper = -bi - 1;
                    if upper < hi {
                        hi = upper;
                    }
                }
            }
            b = b + 1;
        }
        proof {
            lemma_lo_hi_bounds(cm, h as int, valid, 256);
            assert(seen_any == seen(cm, h as int)) by {
                if seen(cm, h as int) {
                    let x = choose|x: u8| #[trigger] cm[256 * h + x];
                    assert(x < b);
                }
            }
            assert(has_v == has_valid(cm, h as int, valid)) by {
                if has_valid(cm, h as int, valid) {
                    let x = choose|x: u8| #[trigger] valid_in(cm, h as int, valid, x);
                    assert(x < b && cm[256 * h + x] && valid[x as int]);
                }
                if has_v {
                    let x = choose|x: u8| x < b && #[trigger] cm[256 * h + x] && valid[x as int];
                    assert(valid_in(cm, h as int, valid, x));
                }
            }
            assert(has_i == has_invalid(cm, h as int, valid)) by {
                if has_invalid(cm, h as int, valid) {
                    let x = choose|x: u8| #[trigger] cm[256 * h + x] && !valid[x as int];
                    assert(x < b);
                }
            }
        }
        if conflict {
            map_conflicts = map_conflicts + 1;
        }
        if poison_bad {
            poison_impossible = poison_impossible + 1;
        }
        if seen_any {
            if has_v && has_i {
                mixed = mixed + 1;
            }
            if lo <= hi {
                width = width + ((hi - lo + 1) as u32);
            } else {
                impossible = impossible + 1;
            }
        }
        h = h + 1;
    }
    Score {
        map_conflict_buckets: map_conflicts,
        valid_msb_violations,
        ascii_msb_violations,
        impossible_buckets: impossible,
        mixed_buckets: mixed,
        feasible_width_sum: width,
        poison_impossible_buckets: poison_impossible,
    }
}

// ---------------------------------------------------------------------------
// Search
// ---------------------------------------------------------------------------

/// A candidate hash with its best tables and their score.
#[derive(Clone, Copy, Debug)]
pub struct Candidate {
    pub spec: HashSpec,
    pub tables: HashTables,
    pub score: Score,
}

impl Candidate {
    /// A maskless candidate with no conflict, violation or impossible
    /// bucket, within one extra instruction and no extra live constant.
    pub fn pass_maskless(&self) -> (r: bool)
        ensures
            r == (self.spec.index_mode is Maskless && self.score.map_conflict_buckets == 0
                && self.score.valid_msb_violations == 0 && self.score.ascii_msb_violations == 0
                && self.score.impossible_buckets == 0 && spec_extra_ops(self.spec) <= 1
                && spec_const_live(self.spec) <= 0),
    {
        self.spec.index_mode == IndexMode::Maskless && self.score.map_conflict_buckets == 0
            && self.score.valid_msb_violations == 0 && self.score.ascii_msb_violations == 0
            && self.score.impossible_buckets == 0 && self.spec.extra_ops() <= 1
            && self.spec.const_live_delta() <= 0
    }

    /// A masked candidate with no conflict or impossible bucket, within one
    /// extra instruction and no extra live constant.
    pub fn pass_masked(&self) -> (r: bool)
        ensures
            r == (self.spec.index_mode is Masked0f && self.score.map_conflict_buckets == 0
                && self.score.impossible_buckets == 0 && spec_extra_ops(self.spec) <= 1
                && spec_const_live(self.spec) <= 0),
    {
        self.spec.index_mode == IndexMode::Masked0f && self.score.map_conflict_buckets == 0
            && self.score.impossible_buckets == 0 && self.spec.extra_ops() <= 1
            && self.spec.const_live_delta() <= 0
    }

    /// A maskless candidate whose mapping also poisons every invalid byte.
    pub fn pass_poison_maskless(&self) -> (r: bool)
        ensures
            r == (self.spec.index_mode is Maskless && self.score.map_conflict_buckets == 0
                && self.score.valid_msb_violations == 0 && self.score.ascii_msb_violations == 0
                && self.score.poison_impossible_buckets == 0 && spec_extra_ops(self.spec) <= 1
                && spec_const_live(self.spec) <= 0),
    {
        self.spec.index_mode == IndexMode::Maskless && self.score.map_conflict_buckets == 0
            && self.score.valid_msb_violations == 0 && self.score.ascii_msb_violations == 0
            && self.score.poison_impossible_buckets == 0 && self.spec.extra_ops() <= 1
            && self.spec.const_live_delta() <= 0
    }

    /// A masked candidate whose mapping also poisons every invalid byte.
    pub fn pass_poison_masked(&self) -> (r: bool)
        ensures
            r == (self.spec.index_mode is Masked0f && self.score.map_conflict_buckets == 0
                && self.score.poison_impossible_buckets == 0 && spec_extra_ops(self.spec) <= 1
                && spec_const_live(self.spec) <= 0),
    {
        self.spec.index_mode == IndexMode::Masked0f && self.score.map_conflict_buckets == 0
            && self.score.poison_impossible_buckets == 0 && self.spec.extra_ops() <= 1
            && self.spec.const_live_delta() <= 0
    }

    /// A shared-hash candidate within two extra instructions and one extra
    /// live constant.
    pub fn pass_shared_extended(&self) -> (r: bool)
        ensures
            r == (self.score.map_conflict_buckets == 0 && self.score.impossible_buckets == 0
                && self.score.valid_msb_violations == 0 && self.score.ascii_msb_violations == 0
                && spec_extra_ops(self.spec) <= 2 && spec_const_live(self.spec) <= 1),
    {
        self.score.map_conflict_buckets == 0 && self.score.impossible_buckets == 0
            && self.score.valid_msb_violations == 0 && self.score.ascii_msb_violations == 0
            && self.spec.extra_ops() <= 2 && self.spec.const_live_delta() <= 1
    }

    /// A poisoning candidate within two extra instructions and one extra live
    /// constant.
    pub fn pass_poison_extended(&self) -> (r: bool)
        ensures
            r == (self.score.map_conflict_buckets == 0 && self.score.poison_impossible_buckets == 0
                && self.score.valid_msb_violations == 0 && self.score.ascii_msb_violations == 0
                && spec_extra_ops(self.spec) <= 2 && spec_const_live(self.spec) <= 1),
    {
        self.score.map_conflict_buckets == 0 && self.score.poison_impossible_buckets == 0
            && self.score.valid_msb_violations == 0 && self.score.ascii_msb_violations == 0
            && self.spec.extra_ops() <= 2 && self.spec.const_live_delta() <= 1
    }
}

/// Extra instructions of a hash.
pub open spec fn spec_extra_ops(s: HashSpec) -> int {
    (if s.index_mode is Maskless { 0int } else { 1int }) + (if s.family is OneLut || s.family is PosAware {
        0int
    } else {
        1int
    })
}

/// Extra live constants of a hash.
pub open spec fn spec_const_live(s: HashSpec) -> int {
    (if s.index_mode is Maskless { -1int } else { 0int }) + (match s.family {
        HashFamily::OneLut => 0int,
        HashFamily::PosAware => 3int,
        HashFamily::DualIndexBit5 => 0int,
        HashFamily::DualIndexBit6 => 0int,
        _ => 1int,
    })
}

/// The decoders' tables: the mapping hash's first lookup, nothing else.
pub open spec fn baseline_view() -> TablesView {
    TablesView {
        primary: DELTA_ASSO@,
        perturb: Seq::new(16, |i: int| 0u8),
        hi: Seq::new(16, |i: int| 0u8),
        pos: Seq::new(64, |i: int| 0u8),
    }
}

/// The decoders' tables as a starting point of the search.
pub fn baseline_tables() -> (r: HashTables)
    ensures
        r@ == baseline_view(),
{
    let r = HashTables { primary: DELTA_ASSO, perturb: [0u8; 16], hi: [0u8; 16], pos: [0u8; 64] };
    proof {
        assert(r.perturb@ =~= Seq::new(16, |i: int| 0u8));
        assert(r.hi@ =~= Seq::new(16, |i: int| 0u8));
        assert(r.pos@ =~= Seq::new(64, |i: int| 0u8));
    }
    r
}

/// Ordinal of a mixing operation, in declaration order.
pub open spec fn mix_ord(m: MixOp) -> u64 {
    match m {
        MixOp::Avg => 0,
        MixOp::Add => 1,
        MixOp::Xor => 2,
        MixOp::Min => 3,
        MixOp::Max => 4,
        MixOp::Sub => 5,
    }
}

/// Ordinal of an index mode, in declaration order.
pub open spec fn mode_ord(m: IndexMode) -> u64 {
    match m {
        IndexMode::Maskless => 0,
        IndexMode::Masked0f => 1,
    }
}

/// Ordinal of a hash family, in declaration order.
pub open spec fn family_ord(f: HashFamily) -> u64 {
    match f {
        HashFamily::OneLut => 0,
        HashFamily::TwoLutAdd => 1,
        HashFamily::TwoLutAvg => 2,
        HashFamily::TwoLutXor => 3,
        HashFamily::PredSelBit5 => 4,
        HashFamily::PredSelBit6 => 5,
        HashFamily::PosAware => 6,
        HashFamily::LoHiAdd => 7,
        HashFamily::DualIndexBit5 => 8,
        HashFamily::DualIndexBit6 => 9,
    }
}

/// Ordinal of a mixing operation.
fn mix_ordinal(m: MixOp) -> (r: u64)
    ensures
        r == mix_ord(m),
{
    match m {
        MixOp::Avg => 0,
        MixOp::Add => 1,
        MixOp::Xor => 2,
        MixOp::Min => 3,
        MixOp::Max => 4,
        MixOp::Sub => 5,
    }
}

/// Ordinal of an index mode.
fn mode_ordinal(m: IndexMode) -> (r: u64)
    ensures
        r == mode_ord(m),
{
    match m {
        IndexMode::Maskless => 0,
        IndexMode::Masked0f => 1,
    }
}

/// Ordinal of a hash family.
fn family_ordinal(f: HashFamily) -> (r: u64)
    ensures
        r == family_ord(f),
{
    match f {
        HashFamily::OneLut => 0,
        HashFamily::TwoLutAdd => 1,
        HashFamily::TwoLutAvg => 2,
        HashFamily::TwoLutXor => 3,
        HashFamily::PredSelBit5 => 4,
        HashFamily::PredSelBit6 => 5,
        HashFamily::PosAware => 6,
        HashFamily::LoHiAdd => 7,
        HashFamily::DualIndexBit5 => 8,
        HashFamily::DualIndexBit6 => 9,
    }
}

/// The generator's state after `k` steps from `x`.
pub open spec fn xorshift_iter(x: u64, k: nat) -> u64
    decreases k,
{
    if k == 0 {
        x
    } else {
        xorshift_step(xorshift_iter(x, (k - 1) as nat))
    }
}

/// The low byte of the generator's `k`-th value (counting from 0) from `x`.
pub open spec fn drawn_byte(x: u64, k: int) -> u8 {
    (xorshift_iter(x, (k + 1) as nat) % 256) as u8
}

/// The bytes a table of `n` entries draws from `x` after `skip` draws, when
/// `used`; zeros otherwise.
pub open spec fn drawn_table(x: u64, skip: int, n: nat, used: bool) -> Seq<u8> {
    Seq::new(n, |i: int| if used { drawn_byte(x, skip + i) } else { 0u8 })
}

/// Draws for the perturbation, high-nibble and per-position tables of
/// `family` (the primary table takes 16).
pub open spec fn perturb_draws(family: HashFamily) -> int {
    if family.perturbs() { 16 } else { 0 }
}

/// See [`perturb_draws`].
pub open spec fn hi_draws(family: HashFamily) -> int {
    if family is LoHiAdd { 16 } else { 0 }
}

/// See [`perturb_draws`].
pub open spec fn pos_draws(family: HashFamily) -> int {
    if family is PosAware { 64 } else { 0 }
}

/// Draws that random tables for `family` take from the generator.
pub open spec fn random_draws(family: HashFamily) -> nat {
    (16 + perturb_draws(family) + hi_draws(family) + pos_draws(family)) as nat
}

/// Random tables drawn from generator state `x`: the primary table, then
/// each table the family reads, in order; the others are zero.
pub open spec fn random_view(x: u64, family: HashFamily) -> TablesView {
    TablesView {
        primary: drawn_table(x, 0, 16, true),
        perturb: drawn_table(x, 16, 16, family.perturbs()),
        hi: drawn_table(x, 16 + perturb_draws(family), 16, family is LoHiAdd),
        pos: drawn_table(x, 16 + perturb_draws(family) + hi_draws(family), 64, family is PosAware),
    }
}

/// Random tables for a restart: every table the family reads is filled from
/// the generator, the others are zero.
fn random_tables(rng: &mut XorShift64, family: &HashFamily) -> (r: HashTables)
    ensures
        r@ == random_view(old(rng).state, *family),
        final(rng).state == xorshift_iter(old(rng).state, random_draws(*family)),
{
    let ghost x = rng.state;
    let mut primary = [0u8; 16];
    let mut i: usize = 0;
    while i < 16
        invariant
            i <= 16,
            rng.state == xorshift_iter(x, i as nat),
            forall|j: int| 0 <= j < i ==> #[trigger] primary@[j] == drawn_byte(x, j),
        decreases 16 - i,
    {
        primary[i] = rng.next_u8();
        i = i + 1;
    }
    let ghost np = perturb_draws(*family);
    let ghost nh = hi_draws(*family);
    let ghost npos = pos_draws(*family);
    let mut perturb = [0u8; 16];
    if family.uses_perturb() {
        let mut i: usize = 0;
        while i < 16
            invariant
                i <= 16,
                rng.state == xorshift_iter(x, (16 + i) as nat),
                forall|j: int| 0 <= j < i ==> #[trigger] perturb@[j] == drawn_byte(x, 16 + j),
            decreases 16 - i,
        {
            perturb[i] = rng.next_u8();
            i = i + 1;
        }
    }
    let mut hi = [0u8; 16];
    if family.uses_hi() {
        let mut i: usize = 0;
        while i < 16
            invariant
                i <= 16,
                np == perturb_draws(*family),
                rng.state == xorshift_iter(x, (16 + np + i) as nat),
                forall|j: int| 0 <= j < i ==> #[trigger] hi@[j] == drawn_byte(x, 16 + np + j),
            decreases 16 - i,
        {
            hi[i] = rng.next_u8();
            i = i + 1;
        }
    }
    let mut pos = [0u8; 64];
    if family.uses_pos() {
        let mut i: usize = 0;
        while i < 64
            invariant
                i <= 64,
                np == perturb_draws(*family),
                nh == hi_draws(*family),
                rng.state == xorshift_iter(x, (16 + np + nh + i) as nat),
                forall|j: int| 0 <= j < i ==> #[trigger] pos@[j] == drawn_byte(x, 16 + np + nh + j),
            decreases 64 - i,
        {
            pos[i] = rng.next_u8();
            i = i + 1;
        }
    }
    proof {
        assert(primary@ =~= drawn_table(x, 0, 16, true));
        assert(perturb@ =~= drawn_table(x, 16, 16, family.perturbs()));
        assert(hi@ =~= drawn_table(x, 16 + np, 16, *family is LoHiAdd));
        assert(pos@ =~= drawn_table(x, 16 + np + nh, 64, *family is PosAware));
    }
    HashTables { primary, perturb, hi, pos }
}

/// Read entry `idx` of table `target` (0 primary, 1 perturbation, 2 high
/// nibble, 3 per-position table `lane`).
fn table_entry(t: &HashTables, target: u8, lane: usize, idx: usize) -> (r: u8)
    requires
        idx < 16,
        lane < 4,
    ensures
        r == table_entry_spec(*t, target, lane as int, idx as int),
{
    match target {
        1 => t.perturb[idx],
        2 => t.hi[idx],
        3 => t.pos[16 * lane + idx],
        _ => t.primary[idx],
    }
}

/// Write entry `idx` of table `target`; every other entry keeps its value.
fn set_table_entry(t: &mut HashTables, target: u8, lane: usize, idx: usize, v: u8)
    requires
        idx < 16,
        lane < 4,
    ensures
        final(t).primary@ == (if target == 0 || target > 3 { old(t).primary@.update(idx as int, v) } else { old(t).primary@ }),
        final(t).perturb@ == (if target == 1 { old(t).perturb@.update(idx as int, v) } else { old(t).perturb@ }),
        final(t).hi@ == (if target == 2 { old(t).hi@.update(idx as int, v) } else { old(t).hi@ }),
        final(t).pos@ == (if target == 3 { old(t).pos@.update(16 * lane + idx, v) } else { old(t).pos@ }),
{
    match target {
        1 => {
            t.perturb[idx] = v;
        },
        2 => {
            t.hi[idx] = v;
        },
        3 => {
            t.pos[16 * lane + idx] = v;
        },
        _ => {
            t.primary[idx] = v;
        },
    }
}

/// Entry `idx` of table `target`.
pub open spec fn table_entry_spec(t: HashTables, target: u8, lane: int, idx: int) -> u8 {
    match target {
        1 => t.perturb@[idx],
        2 => t.hi@[idx],
        3 => t.pos@[16 * lane + idx],
        _ => t.primary@[idx],
    }
}

/// Entry `idx` of table `target` of `t` (see [`table_entry_spec`]).
pub open spec fn view_entry(t: TablesView, target: u8, lane: int, idx: int) -> u8 {
    match target {
        1 => t.perturb[idx],
        2 => t.hi[idx],
        3 => t.pos[16 * lane + idx],
        _ => t.primary[idx],
    }
}

/// `t` with entry `idx` of table `target` set to `v`.
pub open spec fn view_set(t: TablesView, target: u8, lane: int, idx: int, v: u8) -> TablesView {
    match target {
        1 => TablesView { primary: t.primary, perturb: t.perturb.update(idx, v), hi: t.hi, pos: t.pos },
        2 => TablesView { primary: t.primary, perturb: t.perturb, hi: t.hi.update(idx, v), pos: t.pos },
        3 => TablesView { primary: t.primary, perturb: t.perturb, hi: t.hi, pos: t.pos.update(16 * lane + idx, v) },
        _ => TablesView { primary: t.primary.update(idx, v), perturb: t.perturb, hi: t.hi, pos: t.pos },
    }
}

/// The table a mutation changes for draw `choose` (below 4): the
/// per-position, high-nibble or perturbation table when the family reads it
/// and the draw names it, else the primary table.
pub open spec fn mutation_target(family: HashFamily, choose: int) -> u8 {
    if family is PosAware && choose == 3 {
        3
    } else if family is LoHiAdd && choose == 2 {
        2
    } else if family.perturbs() && choose == 1 {
        1
    } else {
        0
    }
}

/// The state of the local search: the generator, the current tables and
/// their score, and the best tables seen and their score.
pub struct SearchState {
    pub rng: u64,
    pub tables: TablesView,
    pub current: Score,
    pub best_tables: TablesView,
    pub best: Score,
}

/// One mutation step: draw an entry index, a table, a lane and a new value
/// (flipped by `0x5a` when it equals the old one); keep the mutated tables
/// when they score better than the current ones, and record them as the best
/// when they also beat the best.
pub open spec fn search_step(st: SearchState, spec: HashSpec, valid: Seq<bool>, req: Seq<i8>) -> SearchState {
    let r1 = xorshift_step(st.rng);
    let r2 = xorshift_step(r1);
    let r3 = xorshift_step(r2);
    let r4 = xorshift_step(r3);
    let idx = ((r1 as usize) % 16) as int;
    let target = mutation_target(spec.family, ((r2 as usize) % 4) as int);
    let lane = ((r3 as usize) % 4) as int;
    let drawn = (r4 % 256) as u8;
    let old_entry = view_entry(st.tables, target, lane, idx);
    let new_entry = if drawn == old_entry { drawn ^ 0x5a } else { drawn };
    let trial = view_set(st.tables, target, lane, idx, new_entry);
    let ts = score_spec(trial, spec, valid, req);
    if score_better(ts, st.current) {
        if score_better(ts, st.best) {
            SearchState { rng: r4, tables: trial, current: ts, best_tables: trial, best: ts }
        } else {
            SearchState { rng: r4, tables: trial, current: ts, best_tables: st.best_tables, best: st.best }
        }
    } else {
        SearchState { rng: r4, tables: st.tables, current: st.current, best_tables: st.best_tables, best: st.best }
    }
}

/// `n` mutation steps from `st`.
pub open spec fn search_steps(st: SearchState, n: nat, spec: HashSpec, valid: Seq<bool>, req: Seq<i8>) -> SearchState
    decreases n,
{
    if n == 0 {
        st
    } else {
        search_step(search_steps(st, (n - 1) as nat, spec, valid, req), spec, valid, req)
    }
}

/// The start of restart `k`: the decoders' tables for the first, random
/// tables for the others; they become the best when they beat it.
pub open spec fn restart_state(st: SearchState, k: int, spec: HashSpec, valid: Seq<bool>, req: Seq<i8>) -> SearchState {
    let tables = if k == 0 { baseline_view() } else { random_view(st.rng, spec.family) };
    let rng = if k == 0 { st.rng } else { xorshift_iter(st.rng, random_draws(spec.family)) };
    let s = score_spec(tables, spec, valid, req);
    if score_better(s, st.best) {
        SearchState { rng, tables, current: s, best_tables: tables, best: s }
    } else {
        SearchState { rng, tables, current: s, best_tables: st.best_tables, best: st.best }
    }
}

/// The search after `k` restarts of `iters` steps each.
pub open spec fn search_restarts(
    st: SearchState,
    k: nat,
    iters: nat,
    spec: HashSpec,
    valid: Seq<bool>,
    req: Seq<i8>,
) -> SearchState
    decreases k,
{
    if k == 0 {
        st
    } else {
        let prev = search_restarts(st, (k - 1) as nat, iters, spec, valid, req);
        search_steps(restart_state(prev, k - 1, spec, valid, req), iters, spec, valid, req)
    }
}

/// The generator seed of a search: a constant mixed with the hash and the
/// search's sizes.
pub open spec fn search_seed(spec: HashSpec, restarts: usize, iters: usize) -> u64 {
    0xD00D_BAAD_F00D_CAFEu64 ^ (spec.shift as u64) ^ (mix_ord(spec.mix) << 16u64) ^ (mode_ord(spec.index_mode)
        << 20u64) ^ (family_ord(spec.family) << 22u64) ^ ((restarts as u64) << 24u64) ^ ((iters as u64) << 32u64)
}

/// The whole search: the generator seeded from [`search_seed`], the
/// decoders' tables as the best so far, then `restarts` restarts.
pub open spec fn search_result(
    spec: HashSpec,
    restarts: usize,
    iters: usize,
    valid: Seq<bool>,
    req: Seq<i8>,
) -> SearchState {
    let seed = search_seed(spec, restarts, iters);
    let b = baseline_view();
    let s = score_spec(b, spec, valid, req);
    let init = SearchState {
        rng: if seed == 0 { 0xA5A5_0123_89AB_CDEFu64 } else { seed },
        tables: b,
        current: s,
        best_tables: b,
        best: s,
    };
    search_restarts(init, restarts as nat, iters as nat, spec, valid, req)
}

/// Randomized local search for the tables of hash `spec`: `restarts` starts
/// (the decoders' tables, then random tables), each improved by `iters`
/// single-entry mutations that are kept when they improve the score. The
/// result is the best candidate seen: its score is that of its tables, and
/// no worse than the decoders' tables' score.
#[verifier::rlimit(40)]
pub fn local_search(spec: HashSpec, restarts: usize, iters: usize, valid_lut: &[bool; 256], required_delta_lut: &[i8; 256]) -> (r: Candidate)
    requires
        spec_ok(spec),
    ensures
        r.spec == spec,
        r.score == score_spec(r.tables@, spec, valid_lut@, required_delta_lut@),
        !score_better(score_spec(baseline_view(), spec, valid_lut@, required_delta_lut@), r.score),
        r.tables@ == search_result(spec, restarts, iters, valid_lut@, required_delta_lut@).best_tables,
        r.score == search_result(spec, restarts, iters, valid_lut@, required_delta_lut@).best,
{
    let ghost valid = valid_lut@;
    let ghost req = required_delta_lut@;
    let seed: u64 = 0xD00D_BAAD_F00D_CAFEu64 ^ (spec.shift as u64) ^ (mix_ordinal(spec.mix) << 16u64) ^ (
    mode_ordinal(spec.index_mode) << 20u64) ^ (family_ordinal(spec.family) << 22u64) ^ (
    (restarts as u64) << 24u64) ^ ((iters as u64) << 32u64);
    let mut rng = XorShift64::new(seed);
    let baseline = baseline_tables();
    let baseline_score = evaluate_table(&baseline, &spec, valid_lut, required_delta_lut);
    let mut best_tables = baseline;
    let mut best_score = baseline_score;
    let ghost init = SearchState {
        rng: rng.state,
        tables: baseline_view(),
        current: baseline_score,
        best_tables: baseline_view(),
        best: baseline_score,
    };
    proof {
        lemma_better_irreflexive(baseline_score);
        assert(seed == search_seed(spec, restarts, iters));
        assert(search_result(spec, restarts, iters, valid, req) == search_restarts(
            init,
            restarts as nat,
            iters as nat,
            spec,
            valid,
            req,
        ));
    }
    let mut restart: usize = 0;
    while restart < restarts
        invariant
            spec_ok(spec),
            valid == valid_lut@,
            req == required_delta_lut@,
            baseline@ == baseline_view(),
            baseline_score == score_spec(baseline_view(), spec, valid_lut@, required_delta_lut@),
            best_score == score_spec(best_tables@, spec, valid_lut@, required_delta_lut@),
            !score_better(baseline_score, best_score),
            restart <= restarts,
            search_result(spec, restarts, iters, valid, req) == search_restarts(init, restarts as nat, iters as nat, spec, valid, req),
            rng.state == search_restarts(init, restart as nat, iters as nat, spec, valid, req).rng,
            best_tables@ == search_restarts(init, restart as nat, iters as nat, spec, valid, req).best_tables,
            best_score == search_restarts(init, restart as nat, iters as nat, spec, valid, req).best,
        decreases restarts - restart,
    {
        let ghost prev = search_restarts(init, restart as nat, iters as nat, spec, valid, req);
        let ghost start = restart_state(prev, restart as int, spec, valid, req);
        let mut tables = if restart == 0 {
            baseline
        } else {
            random_tables(&mut rng, &spec.family)
        };
        let mut current_score = evaluate_table(&tables, &spec, valid_lut, required_delta_lut);
        if current_score.better_than(best_score) {
            proof {
                if score_better(baseline_score, current_score) {
                    lemma_better_transitive(baseline_score, current_score, best_score);
                }
            }
            best_score = current_score;
            best_tables = tables;
        }
        proof {
            assert(search_steps(start, 0, spec, valid, req) == start);
        }
        let mut it: usize = 0;
        while it < iters
            invariant
                spec_ok(spec),
                valid == valid_lut@,
                req == required_delta_lut@,
                baseline_score == score_spec(baseline_view(), spec, valid_lut@, required_delta_lut@),
                best_score == score_spec(best_tables@, spec, valid_lut@, required_delta_lut@),
                current_score == score_spec(tables@, spec, valid_lut@, required_delta_lut@),
                !score_better(baseline_score, best_score),
                it <= iters,
                rng.state == search_steps(start, it as nat, spec, valid, req).rng,
                tables@ == search_steps(start, it as nat, spec, valid, req).tables,
                current_score == search_steps(start, it as nat, spec, valid, req).current,
                best_tables@ == search_steps(start, it as nat, spec, valid, req).best_tables,
                best_score == search_steps(start, it as nat, spec, valid, req).best,
            decreases iters - it,
        {
            let ghost st = search_steps(start, it as nat, spec, valid, req);
            let idx = rng.next_usize(16);
            let choose = rng.next_usize(4);
            let mut target: u8 = 0;
            if spec.family.uses_pos() && choose == 3 {
                target = 3;
            } else if spec.family.uses_hi() && choose == 2 {
                target = 2;
            } else if spec.family.uses_perturb() && choose == 1 {
                target = 1;
            }
            let pos_lane = rng.next_usize(4);
            let current = table_entry(&tables, target, pos_lane, idx);
            let mut new = rng.next_u8();
            if new == current {
                new = new ^ 0x5a;
            }
            let prev_tables = tables;
            set_table_entry(&mut tables, target, pos_lane, idx, new);
            proof {
                assert(target == mutation_target(spec.family, choose as int));
                assert(current == view_entry(prev_tables@, target, pos_lane as int, idx as int));
                assert(tables@ == view_set(prev_tables@, target, pos_lane as int, idx as int, new));
            }
            let trial_score = evaluate_table(&tables, &spec, valid_lut, required_delta_lut);
            if trial_score.better_than(current_score) {
                current_score = trial_score;
                if trial_score.better_than(best_score) {
                    proof {
                        if score_better(baseline_score, trial_score) {
                            lemma_better_transitive(baseline_score, trial_score, best_score);
                        }
                    }
                    best_score = trial_score;
                    best_tables = tables;
                }
            } else {
                tables = prev_tables;
            }
            proof {
                assert(search_steps(start, (it + 1) as nat, spec, valid, req) == search_step(st, spec, valid, req));
            }
            it = it + 1;
        }
        restart = restart + 1;
    }
    Candidate { spec, tables: best_tables, score: best_score }
}

// ---------------------------------------------------------------------------
// Deriving the decoder tables of a candidate
// ---------------------------------------------------------------------------

/// Some mapping bucket holds two alphabet bytes that need different offsets.
pub open spec fn any_conflict(mm: Seq<bool>, valid: Seq<bool>, req: Seq<i8>) -> bool {
    exists|h: int| 0 <= h < 16 && #[trigger] has_conflict(mm, h, valid, req)
}

/// The offset table entry of mapping bucket `h`: the shared offset of its
/// alphabet bytes, 0 when it has none.
pub open spec fn delta_entry(mm: Seq<bool>, h: int, valid: Seq<bool>, req: Seq<i8>) -> i8 {
    if has_valid(mm, h, valid) {
        shared_delta(mm, h, valid, req)
    } else {
        0
    }
}

/// The offset table of the candidate's mapping hash: `None` when a bucket
/// holds two alphabet bytes with different offsets, else for each bucket
/// the offset all its alphabet bytes need (0 for a bucket without any).
pub fn derive_delta_values(tables: &HashTables, spec: &HashSpec, valid_lut: &[bool; 256], required_delta_lut: &[i8; 256]) -> (r: Option<[i8; 16]>)
    requires
        spec_ok(*spec),
    ensures
        r is None <==> any_conflict(map_seq(tables@, *spec), valid_lut@, required_delta_lut@),
        r matches Some(out) ==> forall|h: int| 0 <= h < 16 ==> #[trigger] out@[h] == delta_entry(map_seq(tables@, *spec), h, valid_lut@, required_delta_lut@),
        r matches Some(out) ==> forall|h: int, b: u8| 0 <= h < 16 && #[trigger] map_reaches(b, h, tables@, *spec) && valid_lut@[b as int] ==> out@[h] == required_delta_lut@[b as int],
{
    let ghost valid = valid_lut@;
    let ghost req = required_delta_lut@;
    let (buckets, _, _, _) = build_buckets_and_msb_violations(tables, spec, valid_lut);
    let ghost mm = buckets.member@;
    let mut out = [0i8; 16];
    let mut h: usize = 0;
    while h < 16
        invariant
            h <= 16,
            buckets.wf(),
            mm == buckets.member@,
            mm == map_seq(tables@, *spec),
            valid == valid_lut@,
            req == required_delta_lut@,
            forall|g: int| 0 <= g < h ==> !#[trigger] has_conflict(mm, g, valid, req),
            forall|g: int| 0 <= g < h ==> #[trigger] out@[g] == delta_entry(mm, g, valid, req),
        decreases 16 - h,
    {
        match bucket_fixed_delta_conflict(&buckets, h, valid_lut, required_delta_lut) {
            Err(()) => {
                return None;
            },
            Ok(chosen) => {
                let d = match chosen {
                    Some(d) => d,
                    None => 0,
                };
                proof {
                    if let Some(dd) = chosen {
                        let w = choose|b: u8| #[trigger] valid_in(mm, h as int, valid, b);
                        assert(valid_in(mm, h as int, valid, w));
                        assert(shared_delta(mm, h as int, valid, req) == dd);
                    }
                }
                out[h] = d;
            },
        }
        h = h + 1;
    }
    proof {
        assert forall|g: int, b: u8| 0 <= g < 16 && #[trigger] map_reaches(b, g, tables@, *spec) && valid_lut@[b as int] implies out@[g] == required_delta_lut@[b as int] by {
            assert(buckets.has(g, b));
            assert(valid_in(mm, g, valid, b));
            if !has_conflict(mm, g, valid, req) {
                let w = choose|x: u8| #[trigger] valid_in(mm, g, valid, x);
                assert(valid_in(mm, g, valid, w));
                if req[w as int] != req[b as int] {
                    assert(has_conflict(mm, g, valid, req));
                }
            }
        }
    }
    Some(out)
}

/// Some check bucket holds bytes that no entry separates.
pub open spec fn any_inseparable(cm: Seq<bool>, valid: Seq<bool>) -> bool {
    exists|h: int| 0 <= h < 16 && #[trigger] seen(cm, h) && lo_upto(cm, h, valid, 256) > hi_upto(cm, h, valid, 256)
}

/// The check table entry of check bucket `h`: the lowest separating entry,
/// 0 for an empty bucket.
pub open spec fn check_entry(cm: Seq<bool>, h: int, valid: Seq<bool>) -> int {
    if seen(cm, h) {
        lo_upto(cm, h, valid, 256)
    } else {
        0
    }
}

/// The lower end of the separating interval covers every alphabet byte seen.
pub proof fn lemma_lo_upto_covers(m: Seq<bool>, h: int, valid: Seq<bool>, n: int, b: u8)
    requires
        b < n,
        m[256 * h + b],
        valid[b as int],
    ensures
        lo_upto(m, h, valid, n) >= -sval(b),
    decreases n,
{
    if n - 1 != b as int {
        lemma_lo_upto_covers(m, h, valid, n - 1, b);
    } else {
        assert(((n - 1) as u8) == b);
    }
}

/// The upper end of the separating interval excludes every other byte seen.
pub proof fn lemma_hi_upto_excludes(m: Seq<bool>, h: int, valid: Seq<bool>, n: int, b: u8)
    requires
        b < n,
        m[256 * h + b],
        !valid[b as int],
    ensures
        hi_upto(m, h, valid, n) <= -sval(b) - 1,
    decreases n,
{
    if n - 1 != b as int {
        lemma_hi_upto_excludes(m, h, valid, n - 1, b);
    } else {
        assert(((n - 1) as u8) == b);
    }
}

/// The check table of the candidate's check hash: `None` when some bucket
/// holds bytes that no entry separates, else for each bucket its lowest
/// separating entry (0 for an empty bucket). With it, a byte's saturating
/// sum with its bucket's entry is non-negative exactly for alphabet bytes.
#[verifier::rlimit(20)]
pub fn derive_check_values(tables: &HashTables, spec: &HashSpec, valid_lut: &[bool; 256]) -> (r: Option<[i8; 16]>)
    requires
        spec_ok(*spec),
    ensures
        r is None <==> any_inseparable(check_seq(tables@, *spec), valid_lut@),
        r matches Some(out) ==> forall|h: int| 0 <= h < 16 ==> #[trigger] out@[h] as int == check_entry(check_seq(tables@, *spec), h, valid_lut@),
        r matches Some(out) ==> forall|h: int, b: u8| 0 <= h < 16 && #[trigger] check_reaches(b, h, tables@, *spec) ==> (valid_lut@[b as int] <==> sat_add_spec(out@[h], b as i8) >= 0),
{
    let ghost valid = valid_lut@;
    let (_, buckets, _, _) = build_buckets_and_msb_violations(tables, spec, valid_lut);
    let ghost cm = buckets.member@;
    let mut out = [0i8; 16];
    let mut h: usize = 0;
    while h < 16
        invariant
            h <= 16,
            buckets.wf(),
            cm == buckets.member@,
            cm == check_seq(tables@, *spec),
            valid == valid_lut@,
            forall|g: int| 0 <= g < h ==> !(#[trigger] seen(cm, g) && lo_upto(cm, g, valid, 256) > hi_upto(cm, g, valid, 256)),
            forall|g: int| 0 <= g < h ==> #[trigger] out@[g] as int == check_entry(cm, g, valid),
        decreases 16 - h,
    {
        let mut seen_any = false;
        let mut lo: i16 = -128;
        let mut hi: i16 = 127;
        let mut b: u16 = 0;
        while b < 256
            invariant
                b <= 256,
                h < 16,
                buckets.wf(),
                cm == buckets.member@,
                valid == valid_lut@,
                lo as int == lo_upto(cm, h as int, valid, b as int),
                hi as int == hi_upto(cm, h as int, valid, b as int),
                seen_any <==> exists|x: u8| x < b && #[trigger] cm[256 * h + x],
            decreases 256 - b,
        {
            let byte = b as u8;
            proof {
                assert(((b + 1) - 1) as u8 == byte);
                lemma_lo_hi_bounds(cm, h as int, valid, b as int);
                assert(-128 <= sval(byte) <= 127);
            }
            if buckets.contains(h, byte) {
                seen_any = true;
                let bi = (byte as i8) as i16;
                if valid_lut[byte as usize] {
                    let lower = -bi;
                    if lower > lo {
                        lo = lower;
                    }
                } else {
                    let upper = -bi - 1;
                    if upper < hi {
                        hi = upper;
                    }
                }
            }
            b = b + 1;
        }
        proof {
            lemma_lo_hi_bounds(cm, h as int, valid, 256);
            assert(seen_any == seen(cm, h as int)) by {
                if seen(cm, h as int) {
                    let x = choose|x: u8| #[trigger] cm[256 * h + x];
                    assert(x < b);
                }
            }
        }
        if seen_any {
            if lo > hi {
                return None;
            }
            out[h] = lo as i8;
        } else {
            out[h] = 0;
        }
        h = h + 1;
    }
    proof {
        assert forall|g: int, b: u8| 0 <= g < 16 && #[trigger] check_reaches(b, g, tables@, *spec) implies (valid_lut@[b as int] <==> sat_add_spec(out@[g], b as i8) >= 0) by {
            assert(buckets.has(g, b));
            assert(cm[256 * g + b]);
            assert(seen(cm, g));
            lemma_lo_hi_bounds(cm, g, valid, 256);
            assert(-128 <= sval(b) <= 127);
            assert((b as i8) as int == sval(b));
            if valid[b as int] {
                lemma_lo_upto_covers(cm, g, valid, 256, b);
            } else {
                lemma_hi_upto_excludes(cm, g, valid, 256, b);
            }
        }
    }
    Some(out)
}

/// Some mapping bucket has no poisoning offset.
pub open spec fn any_unpoisonable(mm: Seq<bool>, valid: Seq<bool>, req: Seq<i8>) -> bool {
    exists|h: int| 0 <= h < 16 && (#[trigger] has_conflict(mm, h, valid, req) || !poison_ok(mm, h, valid, req))
}

/// The poisoning offset table entry of mapping bucket `h`: the shared offset
/// of its alphabet bytes, or for a bucket without any the offset that lifts
/// its smallest ASCII byte outside the alphabet to 128.
pub open spec fn poison_entry(mm: Seq<bool>, h: int, valid: Seq<bool>, req: Seq<i8>) -> u8 {
    if has_valid(mm, h, valid) {
        shared_delta(mm, h, valid, req) as u8
    } else {
        free_poison_delta(mm, h, valid)
    }
}

/// The offset table of a decoder whose mapping flags bad bytes through the
/// top bit: `None` when some bucket has conflicting alphabet bytes or an
/// offset that cannot poison its ASCII bytes outside the alphabet, else for
/// each bucket its poisoning offset.
#[verifier::rlimit(60)]
#[verifier::spinoff_prover]
pub fn derive_poison_delta_values_80(tables: &HashTables, spec: &HashSpec, valid_lut: &[bool; 256], required_delta_lut: &[i8; 256]) -> (r: Option<[u8; 16]>)
    requires
        spec_ok(*spec),
    ensures
        r is None <==> any_unpoisonable(map_seq(tables@, *spec), valid_lut@, required_delta_lut@),
        r matches Some(out) ==> forall|h: int| 0 <= h < 16 ==> #[trigger] out@[h] == poison_entry(map_seq(tables@, *spec), h, valid_lut@, required_delta_lut@),
        r matches Some(out) ==> forall|h: int| 0 <= h < 16 ==> poisons(map_seq(tables@, *spec), h, valid_lut@, #[trigger] out@[h]),
{
    let ghost valid = valid_lut@;
    let ghost req = required_delta_lut@;
    let (buckets, _, _, _) = build_buckets_and_msb_violations(tables, spec, valid_lut);
    let ghost mm = buckets.member@;
    let mut out = [0u8; 16];
    let mut h: usize = 0;
    while h < 16
        invariant
            h <= 16,
            buckets.wf(),
            mm == buckets.member@,
            mm == map_seq(tables@, *spec),
            valid == valid_lut@,
            req == required_delta_lut@,
            forall|g: int| 0 <= g < h ==> !(#[trigger] has_conflict(mm, g, valid, req) || !poison_ok(mm, g, valid, req)),
            forall|g: int| 0 <= g < h ==> #[trigger] out@[g] == poison_entry(mm, g, valid, req),
            forall|g: int| 0 <= g < h ==> poisons(mm, g, valid, #[trigger] out@[g]),
        decreases 16 - h,
    {
        let fixed = match bucket_fixed_delta_conflict(&buckets, h, valid_lut, required_delta_lut) {
            Ok(f) => f,
            Err(()) => {
                proof {
                    assert(has_conflict(mm, h as int, valid, req));
                }
                return None;
            },
        };
        proof {
            if let Some(dd) = fixed {
                let w = choose|b: u8| #[trigger] valid_in(mm, h as int, valid, b);
                assert(valid_in(mm, h as int, valid, w));
                assert(shared_delta(mm, h as int, valid, req) == dd);
            }
        }
        let d = match bucket_poison_feasible_delta_80(&buckets, h, valid_lut, fixed) {
            Some(d) => d,
            None => {
                proof {
                    assert(!poison_ok(mm, h as int, valid, req));
                }
                return None;
            },
        };
        proof {
            assert(poisons(mm, h as int, valid, d));
            assert(!has_conflict(mm, h as int, valid, req));
            assert(poison_ok(mm, h as int, valid, req));
            assert(d == poison_entry(mm, h as int, valid, req));
        }
        let ghost prev = out@;
        out[h] = d;
        proof {
            assert forall|g: int| 0 <= g < h + 1 implies !(#[trigger] has_conflict(mm, g, valid, req) || !poison_ok(mm, g, valid, req))
                && out@[g] == poison_entry(mm, g, valid, req) && poisons(mm, g, valid, out@[g]) by {
                if g < h {
                    assert(out@[g] == prev[g]);
                }
            }
        }
        h = h + 1;
    }
    Some(out)
}

} // verus!
