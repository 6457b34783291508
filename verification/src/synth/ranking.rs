//! The candidate hashes of the table search, the offsets their mapping
//! must produce, and the orders in which their results are ranked.
use vstd::prelude::*;
use crate::engine::b64::{is_b64, sextet};
use super::expected_sextet;
use super::hash_resynth::{score_better, Candidate, HashFamily, HashSpec, IndexMode, MixOp, Score};

verus! {

/// The offset that maps an alphabet byte to its 6-bit value (0 for other
/// bytes).
pub open spec fn required_delta(b: u8) -> int {
    if is_b64(b) {
        sextet(b) - b
    } else {
        0
    }
}

/// The offsets the mapping must add, byte by byte (see [`required_delta`]).
pub fn required_delta_lut() -> (r: [i8; 256])
    ensures
        forall|b: u8| #[trigger] r@[b as int] as int == required_delta(b),
{
    let mut lut = [0i8; 256];
    let mut i: usize = 0;
    while i < 256
        invariant
            i <= 256,
            forall|b: u8| b < i ==> #[trigger] lut@[b as int] as int == required_delta(b),
            forall|b: u8| b >= i ==> #[trigger] lut@[b as int] == 0,
        decreases 256 - i,
    {
        let b = i as u8;
        if let Some(s) = expected_sextet(b) {
            // Alphabet bytes are ASCII, so both values fit a signed byte.
            lut[i] = (s as i8) - (b as i8);
        }
        i = i + 1;
    }
    lut
}

/// The `i`-th hash family of the search.
pub open spec fn family_at(i: int) -> HashFamily {
    if i == 0 {
        HashFamily::OneLut
    } else if i == 1 {
        HashFamily::TwoLutAdd
    } else if i == 2 {
        HashFamily::TwoLutAvg
    } else if i == 3 {
        HashFamily::TwoLutXor
    } else if i == 4 {
        HashFamily::PredSelBit5
    } else if i == 5 {
        HashFamily::PredSelBit6
    } else if i == 6 {
        HashFamily::PosAware
    } else if i == 7 {
        HashFamily::LoHiAdd
    } else if i == 8 {
        HashFamily::DualIndexBit5
    } else {
        HashFamily::DualIndexBit6
    }
}

/// The `i`-th mixing of the search.
pub open spec fn mix_at(i: int) -> MixOp {
    if i == 0 {
        MixOp::Avg
    } else if i == 1 {
        MixOp::Add
    } else if i == 2 {
        MixOp::Xor
    } else if i == 3 {
        MixOp::Min
    } else if i == 4 {
        MixOp::Max
    } else {
        MixOp::Sub
    }
}

/// The `i`-th index mode of the search.
pub open spec fn mode_at(i: int) -> IndexMode {
    if i == 0 {
        IndexMode::Maskless
    } else {
        IndexMode::Masked0f
    }
}

/// Hash `k` of the search: shifts 1 to 4 within mixings within index modes
/// within families.
pub open spec fn spec_at(k: int) -> HashSpec {
    HashSpec { shift: (k % 4 + 1) as u8, mix: mix_at((k / 4) % 6), index_mode: mode_at((k / 24) % 2), family: family_at(k / 48) }
}

/// The 480 hashes of the search, in order (see [`spec_at`]).
pub fn candidate_specs() -> (r: Vec<HashSpec>)
    ensures
        r@.len() == 480,
        forall|k: int| 0 <= k < 480 ==> #[trigger] r@[k] == spec_at(k),
{
    let families = [
        HashFamily::OneLut,
        HashFamily::TwoLutAdd,
        HashFamily::TwoLutAvg,
        HashFamily::TwoLutXor,
        HashFamily::PredSelBit5,
        HashFamily::PredSelBit6,
        HashFamily::PosAware,
        HashFamily::LoHiAdd,
        HashFamily::DualIndexBit5,
        HashFamily::DualIndexBit6,
    ];
    let modes = [IndexMode::Maskless, IndexMode::Masked0f];
    let mixes = [MixOp::Avg, MixOp::Add, MixOp::Xor, MixOp::Min, MixOp::Max, MixOp::Sub];
    let mut specs: Vec<HashSpec> = Vec::new();
    let mut k: usize = 0;
    while k < 480
        invariant
            k <= 480,
            specs@.len() == k,
            forall|j: int| 0 <= j < k ==> #[trigger] specs@[j] == spec_at(j),
            forall|i: int| 0 <= i < 10 ==> #[trigger] families@[i] == family_at(i),
            forall|i: int| 0 <= i < 2 ==> #[trigger] modes@[i] == mode_at(i),
            forall|i: int| 0 <= i < 6 ==> #[trigger] mixes@[i] == mix_at(i),
        decreases 480 - k,
    {
        let s = HashSpec {
            shift: (k % 4 + 1) as u8,
            mix: mixes[(k / 4) % 6],
            index_mode: modes[(k / 24) % 2],
            family: families[k / 48],
        };
        specs.push(s);
        proof {
            assert(specs@[k as int] == spec_at(k as int));
        }
        k = k + 1;
    }
    specs
}

/// `a` ranks before `b` by the poisoning objective: lexicographically
/// smaller on (map conflicts, buckets without a poisoning offset, alphabet
/// top-bit violations, ASCII top-bit violations, mixed buckets), then wider
/// on the feasible width.
pub open spec fn poison_better(a: Score, b: Score) -> bool {
    if a.map_conflict_buckets != b.map_conflict_buckets {
        a.map_conflict_buckets < b.map_conflict_buckets
    } else if a.poison_impossible_buckets != b.poison_impossible_buckets {
        a.poison_impossible_buckets < b.poison_impossible_buckets
    } else if a.valid_msb_violations != b.valid_msb_violations {
        a.valid_msb_violations < b.valid_msb_violations
    } else if a.ascii_msb_violations != b.ascii_msb_violations {
        a.ascii_msb_violations < b.ascii_msb_violations
    } else if a.mixed_buckets != b.mixed_buckets {
        a.mixed_buckets < b.mixed_buckets
    } else {
        a.feasible_width_sum > b.feasible_width_sum
    }
}

/// `a` ranks before `b`: by the poisoning objective when `poison`, else by
/// [`score_better`].
pub open spec fn ranks_before(a: Candidate, b: Candidate, poison: bool) -> bool {
    if poison {
        poison_better(a.score, b.score)
    } else {
        score_better(a.score, b.score)
    }
}

/// Whether `a` ranks before `b` (see [`ranks_before`]).
fn precedes(a: &Candidate, b: &Candidate, poison: bool) -> (r: bool)
    ensures
        r == ranks_before(*a, *b, poison),
{
    if !poison {
        return a.score.better_than(b.score);
    }
    let (x, y) = (a.score, b.score);
    if x.map_conflict_buckets != y.map_conflict_buckets {
        return x.map_conflict_buckets < y.map_conflict_buckets;
    }
    if x.poison_impossible_buckets != y.poison_impossible_buckets {
        return x.poison_impossible_buckets < y.poison_impossible_buckets;
    }
    if x.valid_msb_violations != y.valid_msb_violations {
        return x.valid_msb_violations < y.valid_msb_violations;
    }
    if x.ascii_msb_violations != y.ascii_msb_violations {
        return x.ascii_msb_violations < y.ascii_msb_violations;
    }
    if x.mixed_buckets != y.mixed_buckets {
        return x.mixed_buckets < y.mixed_buckets;
    }
    x.feasible_width_sum > y.feasible_width_sum
}

/// Neither candidate ranks before the other: their ranking keys are equal.
pub open spec fn tied(a: Candidate, b: Candidate, poison: bool) -> bool {
    !ranks_before(a, b, poison) && !ranks_before(b, a, poison)
}

/// Tied candidates rank the same against any third.
proof fn lemma_tied_substitute(x: Candidate, y: Candidate, z: Candidate, poison: bool)
    requires
        tied(x, y, poison),
    ensures
        ranks_before(x, z, poison) == ranks_before(y, z, poison),
{
}

/// `p` maps the `n` positions of a result one to one onto positions of an
/// input of `n` elements.
pub open spec fn index_permutation(p: Seq<int>, n: int) -> bool {
    &&& p.len() == n
    &&& forall|k: int| 0 <= k < n ==> 0 <= #[trigger] p[k] < n
    &&& forall|a: int, b: int| 0 <= a < b < n ==> #[trigger] p[a] != #[trigger] p[b]
}

/// `r` is a stable ranking of `c`: the same candidates, none ranking before
/// one that comes earlier, and tied candidates in their order in `c`.
pub open spec fn stably_ranked(r: Seq<Candidate>, c: Seq<Candidate>, poison: bool) -> bool {
    exists|p: Seq<int>| {
        &&& index_permutation(p, c.len() as int)
        &&& r.len() == c.len()
        &&& forall|k: int| 0 <= k < r.len() ==> #[trigger] r[k] == c[p[k]]
        &&& forall|i: int, j: int| 0 <= i < j < r.len() ==> !ranks_before(#[trigger] r[j], #[trigger] r[i], poison)
        &&& forall|i: int, j: int|
            0 <= i < j < r.len() && tied(#[trigger] r[i], #[trigger] r[j], poison) ==> p[i] < p[j]
    }
}

/// Rank the candidates, best first, keeping tied candidates in their input
/// order: the result holds the same candidates, and none of them ranks before
/// one that comes earlier.
pub fn rank_candidates(candidates: Vec<Candidate>, poison: bool) -> (r: Vec<Candidate>)
    ensures
        r@.to_multiset() == candidates@.to_multiset(),
        forall|i: int, j: int| 0 <= i < j < r@.len() ==> !ranks_before(#[trigger] r@[j], #[trigger] r@[i], poison),
        stably_ranked(r@, candidates@, poison),
{
    broadcast use vstd::seq_lib::group_to_multiset_ensures;

    let ghost orig = candidates@;
    let ghost n = orig.len() as int;
    let mut rest = candidates;
    let mut out: Vec<Candidate> = Vec::new();
    let ghost mut idx: Seq<int> = Seq::empty();
    let ghost mut ridx: Seq<int> = Seq::new(n as nat, |k: int| k);
    while rest.len() > 0
        invariant
            n == orig.len(),
            out@.to_multiset().add(rest@.to_multiset()) == orig.to_multiset(),
            forall|i: int, j: int| 0 <= i < j < out@.len() ==> !ranks_before(#[trigger] out@[j], #[trigger] out@[i], poison),
            forall|i: int, j: int|
                0 <= i < out@.len() && 0 <= j < rest@.len() ==> !ranks_before(#[trigger] rest@[j], #[trigger] out@[i], poison),
            idx.len() == out@.len(),
            ridx.len() == rest@.len(),
            idx.len() + ridx.len() == n,
            forall|k: int| 0 <= k < idx.len() ==> 0 <= #[trigger] idx[k] < n && out@[k] == orig[idx[k]],
            forall|k: int| 0 <= k < ridx.len() ==> 0 <= #[trigger] ridx[k] < n && rest@[k] == orig[ridx[k]],
            forall|a: int, b: int| 0 <= a < b < ridx.len() ==> #[trigger] ridx[a] < #[trigger] ridx[b],
            forall|a: int, b: int| 0 <= a < b < idx.len() ==> #[trigger] idx[a] != #[trigger] idx[b],
            forall|a: int, b: int| 0 <= a < idx.len() && 0 <= b < ridx.len() ==> #[trigger] idx[a] != #[trigger] ridx[b],
            forall|a: int, b: int|
                0 <= a < b < out@.len() && tied(#[trigger] out@[a], #[trigger] out@[b], poison) ==> idx[a] < idx[b],
            forall|a: int, b: int|
                0 <= a < out@.len() && 0 <= b < rest@.len() && tied(#[trigger] out@[a], #[trigger] rest@[b], poison)
                    ==> idx[a] < ridx[b],
        decreases rest@.len(),
    {
        // The first of the best remaining candidates.
        let mut m: usize = 0;
        let mut i: usize = 1;
        while i < rest.len()
            invariant
                0 <= m < i <= rest@.len(),
                forall|j: int| 0 <= j < i ==> !ranks_before(#[trigger] rest@[j], rest@[m as int], poison),
                forall|j: int| 0 <= j < m ==> !tied(#[trigger] rest@[j], rest@[m as int], poison),
            decreases rest@.len() - i,
        {
            if precedes(&rest[i], &rest[m], poison) {
                proof {
                    assert forall|j: int| 0 <= j < i implies !tied(#[trigger] rest@[j], rest@[i as int], poison) by {
                        if tied(rest@[j], rest@[i as int], poison) {
                            lemma_tied_substitute(rest@[j], rest@[i as int], rest@[m as int], poison);
                        }
                    }
                }
                m = i;
            }
            i = i + 1;
        }
        let ghost before = rest@;
        let ghost prev_out = out@;
        let ghost prev_idx = idx;
        let ghost prev_ridx = ridx;
        let c = rest.remove(m);
        out.push(c);
        proof {
            idx = prev_idx.push(prev_ridx[m as int]);
            ridx = prev_ridx.remove(m as int);
            vstd::seq_lib::to_multiset_remove(before, m as int);
            assert(out@ == prev_out.push(c));
            vstd::seq_lib::to_multiset_build(prev_out, c);
            vstd::seq_lib::to_multiset_contains(before, c);
            assert(out@.to_multiset().add(rest@.to_multiset()) =~= prev_out.to_multiset().add(before.to_multiset()));
            assert forall|a: int, b: int| 0 <= a < out@.len() && 0 <= b < rest@.len() implies !ranks_before(
                #[trigger] rest@[b],
                #[trigger] out@[a],
                poison,
            ) by {
                let bi = if b < m {
                    b
                } else {
                    b + 1
                };
                assert(rest@[b] == before[bi]);
                if a < prev_out.len() {
                    assert(out@[a] == prev_out[a]);
                } else {
                    assert(out@[a] == before[m as int]);
                }
            }
            assert forall|a: int, b: int| 0 <= a < b < out@.len() implies !ranks_before(#[trigger] out@[b], #[trigger] out@[a], poison) by {
                if b < prev_out.len() {
                    assert(out@[a] == prev_out[a] && out@[b] == prev_out[b]);
                } else {
                    assert(out@[b] == before[m as int]);
                    assert(out@[a] == prev_out[a]);
                }
            }
            assert forall|k: int| 0 <= k < idx.len() implies 0 <= #[trigger] idx[k] < n && out@[k] == orig[idx[k]] by {
                if k < prev_idx.len() {
                    assert(idx[k] == prev_idx[k] && out@[k] == prev_out[k]);
                }
            }
            assert forall|k: int| 0 <= k < ridx.len() implies 0 <= #[trigger] ridx[k] < n && rest@[k] == orig[ridx[k]] by {
                let ki = if k < m { k } else { k + 1 };
                assert(ridx[k] == prev_ridx[ki] && rest@[k] == before[ki]);
            }
            assert forall|a: int, b: int| 0 <= a < b < ridx.len() implies #[trigger] ridx[a] < #[trigger] ridx[b] by {
                let ai = if a < m { a } else { a + 1 };
                let bi = if b < m { b } else { b + 1 };
                assert(ridx[a] == prev_ridx[ai] && ridx[b] == prev_ridx[bi]);
            }
            assert forall|a: int, b: int| 0 <= a < b < idx.len() implies #[trigger] idx[a] != #[trigger] idx[b] by {
                if b < prev_idx.len() {
                    assert(idx[a] == prev_idx[a] && idx[b] == prev_idx[b]);
                } else {
                    assert(idx[a] == prev_idx[a] && idx[b] == prev_ridx[m as int]);
                }
            }
            assert forall|a: int, b: int| 0 <= a < idx.len() && 0 <= b < ridx.len() implies #[trigger] idx[a] != #[trigger] ridx[b] by {
                let bi = if b < m { b } else { b + 1 };
                assert(ridx[b] == prev_ridx[bi]);
                if a < prev_idx.len() {
                    assert(idx[a] == prev_idx[a]);
                } else {
                    assert(idx[a] == prev_ridx[m as int]);
                }
            }
            assert forall|a: int, b: int|
                0 <= a < b < out@.len() && tied(#[trigger] out@[a], #[trigger] out@[b], poison) implies idx[a] < idx[b] by {
                assert(out@[a] == prev_out[a] && idx[a] == prev_idx[a]);
                if b < prev_out.len() {
                    assert(out@[b] == prev_out[b] && idx[b] == prev_idx[b]);
                } else {
                    assert(out@[b] == before[m as int] && idx[b] == prev_ridx[m as int]);
                }
            }
            assert forall|a: int, b: int|
                0 <= a < out@.len() && 0 <= b < rest@.len() && tied(#[trigger] out@[a], #[trigger] rest@[b], poison)
                    implies idx[a] < ridx[b] by {
                let bi = if b < m { b } else { b + 1 };
                assert(ridx[b] == prev_ridx[bi] && rest@[b] == before[bi]);
                if a < prev_out.len() {
                    assert(out@[a] == prev_out[a] && idx[a] == prev_idx[a]);
                } else {
                    assert(out@[a] == before[m as int] && idx[a] == prev_ridx[m as int]);
                    if b < m {
                        assert(!tied(before[bi], before[m as int], poison));
                    }
                }
            }
        }
    }
    proof {
        assert(rest@.to_multiset() =~= vstd::multiset::Multiset::empty());
        assert(out@.to_multiset().add(rest@.to_multiset()) =~= out@.to_multiset());
        assert(index_permutation(idx, n));
        assert(stably_ranked(out@, orig, poison));
    }
    out
}

} // verus!
