//! The benchmark harnesses' pure parts: which modes a machine can run, the
//! inputs they time and the checksums that keep the work observable.
use vstd::prelude::*;
use crate::engine::b64::{enc_len, encode_spec};
use crate::engine::scalar::encode_base64_fast;
use crate::engine::CpuFeatures;
use crate::synth::hash_resynth::{drawn_byte, xorshift_iter};
use crate::synth::text::chars_of;

verus! {

/// `p` is a prefix of `s`.
pub open spec fn has_prefix(s: Seq<char>, p: Seq<char>) -> bool {
    p.len() <= s.len() && s.subrange(0, p.len() as int) == p
}

/// Whether `s` begins with `p`.
pub fn starts_with(s: &str, p: &str) -> (r: bool)
    ensures
        r == has_prefix(s@, p@),
{
    let sc = chars_of(s);
    let pc = chars_of(p);
    if pc.len() > sc.len() {
        return false;
    }
    let mut i: usize = 0;
    while i < pc.len()
        invariant
            i <= pc@.len(),
            pc@.len() <= sc@.len(),
            sc@ == s@,
            pc@ == p@,
            forall|k: int| 0 <= k < i ==> sc@[k] == pc@[k],
        decreases pc@.len() - i,
    {
        if sc[i] != pc[i] {
            proof {
                assert(sc@.subrange(0, pc@.len() as int)[i as int] != pc@[i as int]);
            }
            return false;
        }
        i = i + 1;
    }
    proof {
        assert(sc@.subrange(0, pc@.len() as int) =~= pc@);
    }
    true
}

/// A mode runs when the CPU has the feature its name selects: the SSSE3,
/// AVX2, AVX-512 VBMI and NEON modes of this library (`oxid64-`) or of the C
/// library (`tb64-`); no other mode runs.
pub open spec fn mode_runs(mode: Seq<char>, f: CpuFeatures) -> bool {
    if has_prefix(mode, "oxid64-ssse3"@) || has_prefix(mode, "tb64-ssse3"@) {
        f.ssse3
    } else if has_prefix(mode, "oxid64-avx2"@) || has_prefix(mode, "tb64-avx2"@) {
        f.avx2
    } else if has_prefix(mode, "oxid64-avx512"@) || has_prefix(mode, "tb64-avx512"@) {
        f.avx512vbmi
    } else if has_prefix(mode, "oxid64-neon"@) || has_prefix(mode, "tb64-neon"@) {
        f.neon
    } else {
        false
    }
}

/// A text that begins with `l` has `l` as a prefix.
proof fn lemma_has_prefix_own(l: Seq<char>, rest: Seq<char>)
    ensures
        has_prefix(l + rest, l),
{
    assert((l + rest).subrange(0, l.len() as int) =~= l);
}

/// A text that begins with `l` does not begin with a `p` that differs from
/// `l` at some position `i` of both.
proof fn lemma_no_prefix(l: Seq<char>, rest: Seq<char>, p: Seq<char>, i: int)
    requires
        0 <= i < l.len(),
        i < p.len(),
        l[i] != p[i],
    ensures
        !has_prefix(l + rest, p),
{
    if has_prefix(l + rest, p) {
        assert((l + rest).subrange(0, p.len() as int)[i] == p[i]);
    }
}

/// The harness runs a mode of the C library (`tb64-<isa>...`) exactly when it
/// runs the same mode of this library (`oxid64-<isa>...`): when the CPU has
/// the instruction set the name selects, SSSE3, AVX2, AVX-512 VBMI or NEON,
/// whatever follows the prefix.
pub proof fn law_modes_follow_their_isa(rest: Seq<char>, f: CpuFeatures)
    ensures
        mode_runs("tb64-ssse3"@ + rest, f) == f.ssse3,
        mode_runs("tb64-avx2"@ + rest, f) == f.avx2,
        mode_runs("tb64-avx512"@ + rest, f) == f.avx512vbmi,
        mode_runs("tb64-neon"@ + rest, f) == f.neon,
        mode_runs("oxid64-ssse3"@ + rest, f) == f.ssse3,
        mode_runs("oxid64-avx2"@ + rest, f) == f.avx2,
        mode_runs("oxid64-avx512"@ + rest, f) == f.avx512vbmi,
        mode_runs("oxid64-neon"@ + rest, f) == f.neon,
{
    reveal_strlit("oxid64-avx2");
    reveal_strlit("oxid64-avx512");
    reveal_strlit("oxid64-neon");
    reveal_strlit("oxid64-ssse3");
    reveal_strlit("tb64-avx2");
    reveal_strlit("tb64-avx512");
    reveal_strlit("tb64-neon");
    reveal_strlit("tb64-ssse3");
    lemma_no_prefix("tb64-ssse3"@, rest, "oxid64-ssse3"@, 0);
    lemma_has_prefix_own("tb64-ssse3"@, rest);
    lemma_no_prefix("tb64-avx2"@, rest, "oxid64-ssse3"@, 0);
    lemma_no_prefix("tb64-avx2"@, rest, "tb64-ssse3"@, 5);
    lemma_no_prefix("tb64-avx2"@, rest, "oxid64-avx2"@, 0);
    lemma_has_prefix_own("tb64-avx2"@, rest);
    lemma_no_prefix("tb64-avx512"@, rest, "oxid64-ssse3"@, 0);
    lemma_no_prefix("tb64-avx512"@, rest, "tb64-ssse3"@, 5);
    lemma_no_prefix("tb64-avx512"@, rest, "oxid64-avx2"@, 0);
    lemma_no_prefix("tb64-avx512"@, rest, "tb64-avx2"@, 8);
    lemma_no_prefix("tb64-avx512"@, rest, "oxid64-avx512"@, 0);
    lemma_has_prefix_own("tb64-avx512"@, rest);
    lemma_no_prefix("tb64-neon"@, rest, "oxid64-ssse3"@, 0);
    lemma_no_prefix("tb64-neon"@, rest, "tb64-ssse3"@, 5);
    lemma_no_prefix("tb64-neon"@, rest, "oxid64-avx2"@, 0);
    lemma_no_prefix("tb64-neon"@, rest, "tb64-avx2"@, 5);
    lemma_no_prefix("tb64-neon"@, rest, "oxid64-avx512"@, 0);
    lemma_no_prefix("tb64-neon"@, rest, "tb64-avx512"@, 5);
    lemma_no_prefix("tb64-neon"@, rest, "oxid64-neon"@, 0);
    lemma_has_prefix_own("tb64-neon"@, rest);
    lemma_has_prefix_own("oxid64-ssse3"@, rest);
    lemma_no_prefix("oxid64-ssse3"@, rest, "tb64-ssse3"@, 0);
    lemma_no_prefix("oxid64-avx2"@, rest, "oxid64-ssse3"@, 7);
    lemma_no_prefix("oxid64-avx2"@, rest, "tb64-ssse3"@, 0);
    lemma_has_prefix_own("oxid64-avx2"@, rest);
    lemma_no_prefix("oxid64-avx2"@, rest, "tb64-avx2"@, 0);
    lemma_no_prefix("oxid64-avx512"@, rest, "oxid64-ssse3"@, 7);
    lemma_no_prefix("oxid64-avx512"@, rest, "tb64-ssse3"@, 0);
    lemma_no_prefix("oxid64-avx512"@, rest, "oxid64-avx2"@, 10);
    lemma_no_prefix("oxid64-avx512"@, rest, "tb64-avx2"@, 0);
    lemma_has_prefix_own("oxid64-avx512"@, rest);
    lemma_no_prefix("oxid64-avx512"@, rest, "tb64-avx512"@, 0);
    lemma_no_prefix("oxid64-neon"@, rest, "oxid64-ssse3"@, 7);
    lemma_no_prefix("oxid64-neon"@, rest, "tb64-ssse3"@, 0);
    lemma_no_prefix("oxid64-neon"@, rest, "oxid64-avx2"@, 7);
    lemma_no_prefix("oxid64-neon"@, rest, "tb64-avx2"@, 0);
    lemma_no_prefix("oxid64-neon"@, rest, "oxid64-avx512"@, 7);
    lemma_no_prefix("oxid64-neon"@, rest, "tb64-avx512"@, 0);
    lemma_has_prefix_own("oxid64-neon"@, rest);
    lemma_no_prefix("oxid64-neon"@, rest, "tb64-neon"@, 0);
}

/// Whether the harness can run `mode` on a CPU with `features` (see
/// [`mode_runs`]).
pub fn mode_supported(mode: &str, features: &CpuFeatures) -> (r: bool)
    ensures
        r == mode_runs(mode@, *features),
{
    if starts_with(mode, "oxid64-ssse3") || starts_with(mode, "tb64-ssse3") {
        features.ssse3
    } else if starts_with(mode, "oxid64-avx2") || starts_with(mode, "tb64-avx2") {
        features.avx2
    } else if starts_with(mode, "oxid64-avx512") || starts_with(mode, "tb64-avx512") {
        features.avx512vbmi
    } else if starts_with(mode, "oxid64-neon") || starts_with(mode, "tb64-neon") {
        features.neon
    } else {
        false
    }
}

/// Seed of the generator that fills benchmark inputs.
pub const FILL_SEED: u64 = 0x1234_5678_9abc_def0u64;

/// Fill `buf` from the xorshift generator seeded with [`FILL_SEED`]: byte `k`
/// is the low byte of the generator's `k`-th value.
pub fn xorshift_fill(buf: &mut [u8])
    ensures
        final(buf)@.len() == old(buf)@.len(),
        forall|k: int| 0 <= k < final(buf)@.len() ==> #[trigger] final(buf)@[k] == drawn_byte(FILL_SEED, k),
{
    let mut x: u64 = FILL_SEED;
    let mut i: usize = 0;
    while i < buf.len()
        invariant
            i <= buf@.len(),
            buf@.len() == old(buf)@.len(),
            x == xorshift_iter(FILL_SEED, i as nat),
            forall|k: int| 0 <= k < i ==> #[trigger] buf@[k] == drawn_byte(FILL_SEED, k),
        decreases buf@.len() - i,
    {
        x = x ^ (x << 13u64);
        x = x ^ (x >> 7u64);
        x = x ^ (x << 17u64);
        proof {
            assert(x == xorshift_iter(FILL_SEED, (i + 1) as nat));
            assert((x as u8) == (x % 256) as u8) by (bit_vector);
        }
        buf[i] = x as u8;
        i = i + 1;
    }
}

/// A benchmark input of `size` bytes: byte `i` is `i mod 251`.
pub fn make_input(size: usize) -> (r: Vec<u8>)
    ensures
        r@.len() == size,
        forall|i: int| 0 <= i < size ==> #[trigger] r@[i] as int == i % 251,
{
    let mut input: Vec<u8> = Vec::new();
    let mut i: usize = 0;
    while i < size
        invariant
            i <= size,
            input@.len() == i,
            forall|k: int| 0 <= k < i ==> #[trigger] input@[k] as int == k % 251,
        decreases size - i,
    {
        input.push((i % 251) as u8);
        i = i + 1;
    }
    input
}

/// The Base64 encoding of `raw`, from a buffer with 64 bytes of slack.
pub fn make_encoded(raw: &[u8]) -> (r: Vec<u8>)
    requires
        enc_len(raw@.len() as int) + 64 <= usize::MAX,
    ensures
        r@ == encode_spec(raw@),
{
    let n = raw.len();
    let cap = (n / 3 + if n % 3 == 0 { 0 } else { 1 }) * 4 + 64;
    let mut encoded: Vec<u8> = vec![0u8; cap];
    let enc = encode_base64_fast(raw, encoded.as_mut_slice());
    encoded.truncate(enc);
    encoded
}

/// Checksum of a harness run: the length written, mixed with its first,
/// middle and last bytes (0 for nothing written).
pub fn sample_acc(buf: &[u8], written: usize) -> (r: u64)
    requires
        written <= buf@.len(),
    ensures
        r == (if written == 0 {
            0
        } else {
            (written as u64) ^ (buf@[0] as u64) ^ ((buf@[(written / 2) as int] as u64) << 8u64) ^ ((buf@[written - 1] as u64)
                << 16u64)
        }),
{
    if written == 0 {
        return 0;
    }
    let mid = written / 2;
    (written as u64) ^ (buf[0] as u64) ^ ((buf[mid] as u64) << 8u64) ^ ((buf[written - 1] as u64) << 16u64)
}

/// Mix the first and last of the `len` output bytes into `checksum`.
pub fn checksum_edge(out: &[u8], len: usize, checksum: &mut u64)
    requires
        len <= out@.len(),
    ensures
        *final(checksum) == (if len != 0 {
            *old(checksum) ^ (out@[0] as u64) ^ (out@[len - 1] as u64)
        } else {
            *old(checksum)
        }),
{
    if len != 0 {
        *checksum = *checksum ^ (out[0] as u64);
        *checksum = *checksum ^ (out[len - 1] as u64);
    }
}

} // verus!
