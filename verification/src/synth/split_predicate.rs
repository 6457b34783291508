//! Splitting the mapping hash's buckets by one or two predicate bits of the
//! byte, so that a table indexed by `(hash << k) | pred` can tell alphabet
//! bytes from the others: either by a plain validity flag per bucket, or
//! by a saturating check entry per bucket.
use vstd::prelude::*;
use vstd::string::StringSliceAdditionalSpecFns;
use crate::engine::b64::is_b64;
use super::{hash_buckets, reaches, sat_add_spec, Buckets};
use super::strict_table::{bucket_counts, count_in, feasible_t_values, separates};
use super::ranking::index_permutation;

verus! {

/// A predicate on a byte's bits.
#[derive(Clone, Copy, Debug)]
pub enum PredKind {
    /// One of the masked bits is set.
    Bit(u8),
    /// Exactly one of the two masks hits.
    Xor(u8, u8),
    /// Either mask hits.
    Or(u8, u8),
    /// Both masks hit.
    And(u8, u8),
}

/// A named predicate.
#[derive(Clone, Copy, Debug)]
pub struct PredSpec {
    pub name: &'static str,
    pub kind: PredKind,
}

/// What the predicates mean: each is 0 or 1; `Bit(m)` holds when `byte`
/// shares a bit with `m` (never for `m == 0`, for every nonzero byte when
/// `m == 0xff`); `Or`, `And` and `Xor` hold when one, both, or exactly one of
/// `Bit(a)` and `Bit(b)` hold; and `Or(a, b)` is `Bit(a | b)`.
pub proof fn law_predicates(byte: u8, a: u8, b: u8)
    ensures
        pred_spec(byte, PredKind::Bit(a)) == 0 || pred_spec(byte, PredKind::Bit(a)) == 1,
        pred_spec(byte, PredKind::Bit(0)) == 0,
        pred_spec(byte, PredKind::Bit(0xff)) == 1 <==> byte != 0,
        pred_spec(byte, PredKind::Or(a, b)) == 1 <==> pred_spec(byte, PredKind::Bit(a)) == 1 || pred_spec(
            byte,
            PredKind::Bit(b),
        ) == 1,
        pred_spec(byte, PredKind::Or(a, b)) == pred_spec(byte, PredKind::Bit(a | b)),
        pred_spec(byte, PredKind::And(a, b)) == 1 <==> pred_spec(byte, PredKind::Bit(a)) == 1 && pred_spec(
            byte,
            PredKind::Bit(b),
        ) == 1,
        pred_spec(byte, PredKind::Xor(a, b)) == 1 <==> pred_spec(byte, PredKind::Bit(a)) != pred_spec(
            byte,
            PredKind::Bit(b),
        ),
        pred_spec(byte, PredKind::Or(a, b)) <= 1 && pred_spec(byte, PredKind::And(a, b)) <= 1 && pred_spec(
            byte,
            PredKind::Xor(a, b),
        ) <= 1,
{
    assert((byte & a != 0 || byte & b != 0) == (byte & (a | b) != 0) && byte & 0 == 0 && (byte & 0xff != 0)
        == (byte != 0)) by (bit_vector);
}

/// The predicate's bit for `byte`.
pub open spec fn pred_spec(byte: u8, kind: PredKind) -> u8 {
    match kind {
        PredKind::Bit(m) => if byte & m != 0 { 1 } else { 0 },
        PredKind::Xor(a, b) => if (byte & a != 0) != (byte & b != 0) { 1 } else { 0 },
        PredKind::Or(a, b) => if byte & a != 0 || byte & b != 0 { 1 } else { 0 },
        PredKind::And(a, b) => if byte & a != 0 && byte & b != 0 { 1 } else { 0 },
    }
}

/// The predicate's bit for `byte`.
pub fn pred_bit(byte: u8, spec: PredSpec) -> (r: u8)
    ensures
        r == pred_spec(byte, spec.kind),
{
    let hit = match spec.kind {
        PredKind::Bit(mask) => byte & mask != 0,
        PredKind::Xor(a, b) => (byte & a != 0) != (byte & b != 0),
        PredKind::Or(a, b) => byte & a != 0 || byte & b != 0,
        PredKind::And(a, b) => byte & a != 0 && byte & b != 0,
    };
    if hit {
        1
    } else {
        0
    }
}

/// Number of sub-buckets per hash bucket: 2 for one predicate, 4 for two.
pub open spec fn width(second: Option<PredSpec>) -> int {
    if second is Some {
        4
    } else {
        2
    }
}

/// Sub-bucket of `byte`: the first predicate's bit, plus twice the second's.
pub open spec fn sub_index(byte: u8, first: PredSpec, second: Option<PredSpec>) -> int {
    pred_spec(byte, first.kind) + match second {
        Some(p) => 2 * pred_spec(byte, p.kind),
        None => 0,
    }
}

/// A byte's sub-bucket lies below the split's width; its low bit is the
/// first predicate's bit and, with a second predicate, its high bit is the
/// second's, so bytes that disagree on a predicate land in different
/// sub-buckets.
pub proof fn law_sub_index(byte: u8, other: u8, first: PredSpec, second: Option<PredSpec>)
    ensures
        0 <= sub_index(byte, first, second) < width(second),
        sub_index(byte, first, second) % 2 == pred_spec(byte, first.kind),
        second matches Some(p) ==> sub_index(byte, first, second) / 2 == pred_spec(byte, p.kind),
        second is None ==> sub_index(byte, first, second) == pred_spec(byte, first.kind),
        sub_index(byte, first, second) == sub_index(other, first, second) ==> pred_spec(byte, first.kind)
            == pred_spec(other, first.kind),
        sub_index(byte, first, second) == sub_index(other, first, second) ==> (second matches Some(p)
            ==> pred_spec(byte, p.kind) == pred_spec(other, p.kind)),
{
    law_predicates(byte, 0, 0);
    law_predicates(other, 0, 0);
    match first.kind {
        PredKind::Bit(m) => {
            law_predicates(byte, m, 0);
            law_predicates(other, m, 0);
        },
        PredKind::Xor(a, b) | PredKind::Or(a, b) | PredKind::And(a, b) => {
            law_predicates(byte, a, b);
            law_predicates(other, a, b);
        },
    }
    if let Some(p) = second {
        match p.kind {
            PredKind::Bit(m) => {
                law_predicates(byte, m, 0);
                law_predicates(other, m, 0);
            },
            PredKind::Xor(a, b) | PredKind::Or(a, b) | PredKind::And(a, b) => {
                law_predicates(byte, a, b);
                law_predicates(other, a, b);
            },
        }
    }
}

/// Entry `k` of the split membership: byte `k % 256` in split bucket
/// `k / 256`.
pub open spec fn split_entry(bk: Buckets, k: int, first: PredSpec, second: Option<PredSpec>) -> bool {
    let i = k / 256;
    let x = (k % 256) as u8;
    bk.has(i / width(second), x) && sub_index(x, first, second) == i % width(second)
}

/// Split each of the 16 buckets of `bk` by the predicates' bits: byte `x`
/// lies in bucket `w * h + s` when it lies in bucket `h` and `s` is its
/// sub-bucket.
fn split_buckets(bk: &Buckets, first: PredSpec, second: Option<PredSpec>) -> (r: Buckets)
    requires
        bk.wf(),
    ensures
        r.member@.len() == 256 * 16 * width(second),
        forall|i: int, x: u8|
            0 <= i < 16 * width(second) ==> (#[trigger] r.has(i, x) <==> bk.has(i / width(second), x)
                && sub_index(x, first, second) == i % width(second)),
{
    let w: usize = if second.is_some() {
        4
    } else {
        2
    };
    let total: usize = 256 * 16 * w;
    let mut member: Vec<bool> = Vec::new();
    let mut k: usize = 0;
    while k < total
        invariant
            k <= total,
            total == 256 * 16 * w,
            w as int == width(second),
            bk.wf(),
            member@.len() == k,
            forall|j: int| 0 <= j < k ==> #[trigger] member@[j] == split_entry(*bk, j, first, second),
        decreases total - k,
    {
        let i = k / 256;
        let x = (k % 256) as u8;
        let h = i / w;
        let p0 = pred_bit(x, first);
        let sub: usize = match second {
            Some(p) => (p0 as usize) + 2 * (pred_bit(x, p) as usize),
            None => p0 as usize,
        };
        proof {
            assert(x as int == k % 256);
            assert(h < 16);
        }
        let v = bk.contains(h, x) && sub == i % w;
        member.push(v);
        k = k + 1;
    }
    let r = Buckets { member };
    proof {
        assert forall|i: int, x: u8| 0 <= i < 16 * width(second) implies (#[trigger] r.has(i, x) <==> bk.has(i / width(second), x)
            && sub_index(x, first, second) == i % width(second)) by {
            let j = 256 * i + x;
            assert(j / 256 == i && j % 256 == x) by (nonlinear_arith)
                requires
                    j == 256 * i + x,
                    0 <= x < 256,
            ;
            assert(0 <= j < total);
            assert(member@[j] == split_entry(*bk, j, first, second));
        }
    }
    r
}

/// Membership of the buckets `(hash << 1) | pred` of the mapping hash split
/// by one predicate (entry `256 * i + x` for byte `x` in bucket `i`).
pub open spec fn pred_member(p: PredSpec) -> Seq<bool> {
    Seq::new(256 * 32, |k: int| reaches((k % 256) as u8, k / 256 / 2) && pred_spec((k % 256) as u8, p.kind) == (k / 256) % 2)
}

/// Membership of the buckets `(hash << 2) | pred2` of the mapping hash split
/// by two predicates, `pred2` being the first's bit plus twice the second's.
pub open spec fn pair_member(a: PredSpec, b: PredSpec) -> Seq<bool> {
    Seq::new(
        256 * 64,
        |k: int| reaches((k % 256) as u8, k / 256 / 4) && sub_index((k % 256) as u8, a, Some(b)) == (k / 256) % 4,
    )
}

/// The 32 buckets `(hash << 1) | pred` of the mapping hash split by one
/// predicate.
pub fn buckets_for_pred(spec: PredSpec) -> (r: Buckets)
    ensures
        r.member@ == pred_member(spec),
        forall|i: int, x: u8| 0 <= i < 32 ==> (#[trigger] r.has(i, x) <==> reaches(x, i / 2) && pred_spec(x, spec.kind) == i % 2),
{
    let bk = hash_buckets();
    let r = split_buckets(&bk, spec, None);
    proof {
        assert forall|k: int| 0 <= k < 256 * 32 implies #[trigger] r.member@[k] == pred_member(spec)[k] by {
            let i = k / 256;
            let x = (k % 256) as u8;
            assert(k == 256 * i + x && 0 <= i < 32) by (nonlinear_arith)
                requires
                    0 <= k < 256 * 32,
                    i == k / 256,
                    x == k % 256,
            ;
            assert(r.has(i, x) == (reaches(x, i / 2) && pred_spec(x, spec.kind) == i % 2));
        }
        assert(r.member@ =~= pred_member(spec));
    }
    r
}

/// The 64 buckets `(hash << 2) | pred2` of the mapping hash split by two
/// predicates.
pub fn buckets_for_pair(a: PredSpec, b: PredSpec) -> (r: Buckets)
    ensures
        r.member@ == pair_member(a, b),
        forall|i: int, x: u8|
            0 <= i < 64 ==> (#[trigger] r.has(i, x) <==> reaches(x, i / 4) && pred_spec(x, a.kind) + 2 * pred_spec(x, b.kind) == i % 4),
{
    let bk = hash_buckets();
    let r = split_buckets(&bk, a, Some(b));
    proof {
        assert forall|k: int| 0 <= k < 256 * 64 implies #[trigger] r.member@[k] == pair_member(a, b)[k] by {
            let i = k / 256;
            let x = (k % 256) as u8;
            assert(k == 256 * i + x && 0 <= i < 64) by (nonlinear_arith)
                requires
                    0 <= k < 256 * 64,
                    i == k / 256,
                    x == k % 256,
            ;
            assert(r.has(i, x) == (reaches(x, i / 4) && pred_spec(x, a.kind) + 2 * pred_spec(x, b.kind) == i % 4));
        }
        assert(r.member@ =~= pair_member(a, b));
    }
    r
}

// ---------------------------------------------------------------------------
// Feasibility of the two lookups
// ---------------------------------------------------------------------------

/// Some byte of bucket `i` is (`valid`) or is not an alphabet byte.
pub open spec fn holds_kind(m: Seq<bool>, i: int, valid: bool) -> bool {
    exists|x: u8| #[trigger] m[256 * i + x] && is_b64(x) == valid
}

/// Bucket `i` holds alphabet bytes and other bytes: a validity flag per
/// bucket cannot tell them apart.
pub open spec fn mixed(m: Seq<bool>, i: int) -> bool {
    holds_kind(m, i, true) && holds_kind(m, i, false)
}

/// The check entry `t` separates bucket `i` of `m`: alphabet bytes keep a
/// non-negative saturating sum, the others a negative one.
pub open spec fn separates_in(m: Seq<bool>, i: int, t: i8) -> bool {
    forall|b: u8| #[trigger] m[256 * i + b] ==> (is_b64(b) <==> sat_add_spec(t, b as i8) >= 0)
}

/// Some check entry separates bucket `i`.
pub open spec fn separable(m: Seq<bool>, i: int) -> bool {
    exists|t: i8| #[trigger] separates_in(m, i, t)
}

/// The two statements of separation agree.
proof fn lemma_separates_in(bk: Buckets, h: int, t: i8)
    ensures
        separates(bk, h, t) == separates_in(bk.member@, h, t),
{
    if separates(bk, h, t) {
        assert forall|b: u8| #[trigger] bk.member@[256 * h + b] implies (is_b64(b) <==> sat_add_spec(t, b as i8) >= 0) by {
            assert(bk.has(h, b));
        }
    }
    if separates_in(bk.member@, h, t) {
        assert forall|b: u8| #[trigger] bk.has(h, b) implies (is_b64(b) <==> sat_add_spec(t, b as i8) >= 0) by {
            assert(bk.member@[256 * h + b]);
        }
    }
}

/// `s` lists, in increasing order, exactly the bucket indices below `n`
/// that satisfy `p`.
pub open spec fn lists(s: Seq<usize>, n: int, p: spec_fn(int) -> bool) -> bool {
    &&& forall|k: usize| s.contains(k) <==> k < n && p(k as int)
    &&& forall|i: int, j: int| 0 <= i < j < s.len() ==> s[i] < s[j]
}

/// Appending `k` when it qualifies extends a listing below `k` to one below
/// `k + 1`.
proof fn lemma_lists_step(prev: Seq<usize>, out: Seq<usize>, k: usize, p: spec_fn(int) -> bool)
    requires
        lists(prev, k as int, p),
        forall|i: int| 0 <= i < prev.len() ==> prev[i] < k,
        out == (if p(k as int) { prev.push(k) } else { prev }),
    ensures
        lists(out, k + 1, p),
        forall|i: int| 0 <= i < out.len() ==> out[i] < k + 1,
{
    assert forall|x: usize| out.contains(x) <==> x < k + 1 && p(x as int) by {
        if out.contains(x) {
            let i = choose|i: int| 0 <= i < out.len() && out[i] == x;
            if i < prev.len() {
                assert(prev[i] == x && prev.contains(x));
            }
        }
        if x < k + 1 && p(x as int) {
            if x == k {
                assert(out[out.len() - 1] == x);
            } else {
                assert(prev.contains(x));
                let i = choose|i: int| 0 <= i < prev.len() && prev[i] == x;
                assert(out[i] == x);
            }
        }
    }
}

/// A bucket index below `len / 256` is held.
proof fn lemma_holds(bk: Buckets, i: int)
    requires
        bk.member@.len() % 256 == 0,
        0 <= i < bk.member@.len() / 256,
    ensures
        bk.holds(i),
{
    let n = bk.member@.len() as int;
    assert(256 * i + 256 <= n) by (nonlinear_arith)
        requires
            n % 256 == 0,
            0 <= i < n / 256,
    ;
}

/// A positive count of a kind of byte in a bucket means a byte of that kind.
proof fn lemma_count_positive(bk: Buckets, h: int, valid: bool, k: int)
    requires
        0 <= k <= 256,
    ensures
        count_in(bk, h, valid, k) > 0 <==> exists|x: u8| x < k && #[trigger] bk.has(h, x) && is_b64(x) == valid,
    decreases k,
{
    if k > 0 {
        lemma_count_positive(bk, h, valid, k - 1);
        let y = (k - 1) as u8;
        if count_in(bk, h, valid, k - 1) > 0 {
            let x = choose|x: u8| x < k - 1 && #[trigger] bk.has(h, x) && is_b64(x) == valid;
            assert(x < k && bk.has(h, x));
        }
        if exists|x: u8| x < k && #[trigger] bk.has(h, x) && is_b64(x) == valid {
            let x = choose|x: u8| x < k && #[trigger] bk.has(h, x) && is_b64(x) == valid;
            if x < k - 1 {
                assert(count_in(bk, h, valid, k - 1) > 0);
            } else {
                assert(x == y);
            }
        }
    }
}

/// Counts of a bucket's alphabet bytes and other bytes, as kinds present.
proof fn lemma_counts_kinds(bk: Buckets, h: int)
    ensures
        count_in(bk, h, true, 256) > 0 <==> holds_kind(bk.member@, h, true),
        count_in(bk, h, false, 256) > 0 <==> holds_kind(bk.member@, h, false),
{
    lemma_count_positive(bk, h, true, 256);
    lemma_count_positive(bk, h, false, 256);
    if holds_kind(bk.member@, h, true) {
        let x = choose|x: u8| #[trigger] bk.member@[256 * h + x] && is_b64(x) == true;
        assert(bk.has(h, x));
    }
    if holds_kind(bk.member@, h, false) {
        let x = choose|x: u8| #[trigger] bk.member@[256 * h + x] && is_b64(x) == false;
        assert(bk.has(h, x));
    }
}

/// The buckets that hold both alphabet bytes and other bytes, in order.
pub fn option1_mixed_buckets(buckets: &Buckets) -> (r: Vec<usize>)
    requires
        buckets.member@.len() % 256 == 0,
    ensures
        lists(r@, (buckets.member@.len() / 256) as int, |i: int| mixed(buckets.member@, i)),
{
    let ghost p = |i: int| mixed(buckets.member@, i);
    let n = buckets.member.len() / 256;
    let mut out: Vec<usize> = Vec::new();
    let mut idx: usize = 0;
    while idx < n
        invariant
            idx <= n,
            n == buckets.member@.len() / 256,
            buckets.member@.len() % 256 == 0,
            p == (|i: int| mixed(buckets.member@, i)),
            lists(out@, idx as int, p),
            forall|i: int| 0 <= i < out@.len() ==> out@[i] < idx,
        decreases n - idx,
    {
        proof {
            lemma_holds(*buckets, idx as int);
            lemma_counts_kinds(*buckets, idx as int);
        }
        let (valid, invalid) = bucket_counts(buckets, idx);
        let ghost prev = out@;
        if valid > 0 && invalid > 0 {
            out.push(idx);
        }
        proof {
            lemma_lists_step(prev, out@, idx, p);
        }
        idx = idx + 1;
    }
    out
}

/// A separating entry exists exactly when the feasible list is non-empty.
proof fn lemma_feasible_nonempty(bk: Buckets, h: int, f: Seq<i8>)
    requires
        forall|t: i8| f.contains(t) <==> separates(bk, h, t),
    ensures
        f.len() > 0 <==> separable(bk.member@, h),
{
    if f.len() > 0 {
        assert(f.contains(f[0]));
        lemma_separates_in(bk, h, f[0]);
        assert(separates_in(bk.member@, h, f[0]));
    }
    if separable(bk.member@, h) {
        let t = choose|t: i8| #[trigger] separates_in(bk.member@, h, t);
        lemma_separates_in(bk, h, t);
        assert(separates(bk, h, t));
        assert(f.contains(t));
    }
}

/// The buckets that no saturating check entry separates, in order.
pub fn option2_impossible_buckets(buckets: &Buckets) -> (r: Vec<usize>)
    requires
        buckets.member@.len() % 256 == 0,
    ensures
        lists(r@, (buckets.member@.len() / 256) as int, |i: int| !separable(buckets.member@, i)),
{
    let ghost p = |i: int| !separable(buckets.member@, i);
    let n = buckets.member.len() / 256;
    let mut out: Vec<usize> = Vec::new();
    let mut idx: usize = 0;
    while idx < n
        invariant
            idx <= n,
            n == buckets.member@.len() / 256,
            buckets.member@.len() % 256 == 0,
            p == (|i: int| !separable(buckets.member@, i)),
            lists(out@, idx as int, p),
            forall|i: int| 0 <= i < out@.len() ==> out@[i] < idx,
        decreases n - idx,
    {
        proof {
            lemma_holds(*buckets, idx as int);
        }
        let feasible = feasible_t_values(buckets, idx);
        proof {
            lemma_feasible_nonempty(*buckets, idx as int, feasible@);
        }
        let ghost prev = out@;
        if feasible.len() == 0 {
            out.push(idx);
        }
        proof {
            lemma_lists_step(prev, out@, idx, p);
        }
        idx = idx + 1;
    }
    out
}

/// `t` is the smallest check entry that separates bucket `i`.
pub open spec fn least_separating(m: Seq<bool>, i: int, t: i8) -> bool {
    separates_in(m, i, t) && forall|u: i8| #[trigger] separates_in(m, i, u) ==> t <= u
}

/// The first entry of the feasible list is the least separating entry.
proof fn lemma_feasible_least(bk: Buckets, h: int, f: Seq<i8>)
    requires
        forall|t: i8| f.contains(t) <==> separates(bk, h, t),
        forall|i: int, j: int| 0 <= i < j < f.len() ==> f[i] < f[j],
        f.len() > 0,
    ensures
        least_separating(bk.member@, h, f[0]),
{
    assert(f.contains(f[0]));
    lemma_separates_in(bk, h, f[0]);
    assert forall|u: i8| #[trigger] separates_in(bk.member@, h, u) implies f[0] <= u by {
        lemma_separates_in(bk, h, u);
        assert(separates(bk, h, u));
        assert(f.contains(u));
        let j = choose|j: int| 0 <= j < f.len() && f[j] == u;
        if j > 0 {
            assert(f[0] < f[j]);
        }
    }
}

/// Example split check tables for 32 buckets `(hash << 1) | pred`: for each
/// hash bucket the least separating entry of its `pred == 0` half and of its
/// `pred == 1` half; `None` when some half has none.
pub fn option2_example_tables(buckets: &Buckets) -> (r: Option<([i8; 16], [i8; 16])>)
    requires
        buckets.member@.len() == 256 * 32,
    ensures
        r is None <==> exists|i: int| 0 <= i < 32 && !#[trigger] separable(buckets.member@, i),
        r matches Some((t0, t1)) ==> forall|h: int|
            0 <= h < 16 ==> least_separating(buckets.member@, 2 * h, #[trigger] t0@[h]) && least_separating(
                buckets.member@,
                2 * h + 1,
                t1@[h],
            ),
{
    let ghost m = buckets.member@;
    let mut t0 = [0i8; 16];
    let mut t1 = [0i8; 16];
    let mut h: usize = 0;
    while h < 16
        invariant
            h <= 16,
            m == buckets.member@,
            m.len() == 256 * 32,
            forall|i: int| 0 <= i < 2 * h ==> #[trigger] separable(m, i),
            forall|g: int| 0 <= g < h ==> least_separating(m, 2 * g, #[trigger] t0@[g]) && least_separating(m, 2 * g + 1, t1@[g]),
        decreases 16 - h,
    {
        let f0 = feasible_t_values(buckets, 2 * h);
        let f1 = feasible_t_values(buckets, 2 * h + 1);
        proof {
            lemma_feasible_nonempty(*buckets, 2 * h as int, f0@);
            lemma_feasible_nonempty(*buckets, 2 * h + 1 as int, f1@);
        }
        if f0.len() == 0 || f1.len() == 0 {
            proof {
                if f0.len() == 0 {
                    assert(!separable(m, 2 * h as int));
                } else {
                    assert(!separable(m, 2 * h + 1 as int));
                }
            }
            return None;
        }
        proof {
            lemma_feasible_least(*buckets, 2 * h as int, f0@);
            lemma_feasible_least(*buckets, 2 * h + 1 as int, f1@);
        }
        t0[h] = f0[0];
        t1[h] = f1[0];
        h = h + 1;
    }
    Some((t0, t1))
}

// ---------------------------------------------------------------------------
// Candidate predicates and their reports
// ---------------------------------------------------------------------------

/// The predicates tried: single bits 7 down to 3, and combinations of bits
/// 6, 5 and 4.
pub fn standard_predicates() -> (r: [PredSpec; 9])
    ensures
        r[0].kind == PredKind::Bit(0x80),
        r[1].kind == PredKind::Bit(0x40),
        r[2].kind == PredKind::Bit(0x20),
        r[3].kind == PredKind::Bit(0x10),
        r[4].kind == PredKind::Bit(0x08),
        r[5].kind == PredKind::Xor(0x40, 0x20),
        r[6].kind == PredKind::Or(0x40, 0x20),
        r[7].kind == PredKind::And(0x40, 0x20),
        r[8].kind == PredKind::Xor(0x20, 0x10),
{
    [
        PredSpec { name: "bit7", kind: PredKind::Bit(0x80) },
        PredSpec { name: "bit6", kind: PredKind::Bit(0x40) },
        PredSpec { name: "bit5", kind: PredKind::Bit(0x20) },
        PredSpec { name: "bit4", kind: PredKind::Bit(0x10) },
        PredSpec { name: "bit3", kind: PredKind::Bit(0x08) },
        PredSpec { name: "bit6_xor_bit5", kind: PredKind::Xor(0x40, 0x20) },
        PredSpec { name: "bit6_or_bit5", kind: PredKind::Or(0x40, 0x20) },
        PredSpec { name: "bit6_and_bit5", kind: PredKind::And(0x40, 0x20) },
        PredSpec { name: "bit5_xor_bit4", kind: PredKind::Xor(0x20, 0x10) },
    ]
}

/// A pair of predicates, with the buckets of its split that hold both kinds
/// of bytes and those that no check entry separates.
pub struct CandidateResult {
    pub first: PredSpec,
    pub second: PredSpec,
    pub mixed_count: usize,
    pub impossible_count: usize,
    pub mixed_idxs: Vec<usize>,
    pub impossible_idxs: Vec<usize>,
}

/// `c` is the evaluation of its pair of predicates.
pub open spec fn evaluated(c: CandidateResult) -> bool {
    &&& lists(c.mixed_idxs@, 64, |i: int| mixed(pair_member(c.first, c.second), i))
    &&& lists(c.impossible_idxs@, 64, |i: int| !separable(pair_member(c.first, c.second), i))
    &&& c.mixed_count == c.mixed_idxs@.len()
    &&& c.impossible_count == c.impossible_idxs@.len()
}

/// Split by the pair `a`, `b` and list the mixed and the inseparable
/// buckets.
pub fn evaluate_pair(a: PredSpec, b: PredSpec) -> (r: CandidateResult)
    ensures
        r.first == a,
        r.second == b,
        evaluated(r),
{
    let buckets = buckets_for_pair(a, b);
    let mixed_idxs = option1_mixed_buckets(&buckets);
    let impossible_idxs = option2_impossible_buckets(&buckets);
    CandidateResult {
        first: a,
        second: b,
        mixed_count: mixed_idxs.len(),
        impossible_count: impossible_idxs.len(),
        mixed_idxs,
        impossible_idxs,
    }
}

/// Some candidate of `r` is the pair `(a, b)`.
pub open spec fn has_pair(r: Seq<CandidateResult>, a: PredSpec, b: PredSpec) -> bool {
    exists|k: int| 0 <= k < r.len() && #[trigger] r[k].first == a && r[k].second == b
}

/// Candidate `c` is a pair `(preds[i], preds[j])` with `i < j`.
pub open spec fn from_pair(preds: Seq<PredSpec>, c: CandidateResult) -> bool {
    exists|i: int, j: int| 0 <= i < j < preds.len() && c.first == #[trigger] preds[i] && c.second == #[trigger] preds[j]
}

/// Evaluate every pair `(preds[i], preds[j])` with `i < j`.
pub fn evaluate_all_pairs(preds: &[PredSpec]) -> (r: Vec<CandidateResult>)
    ensures
        forall|k: int| 0 <= k < r@.len() ==> #[trigger] evaluated(r@[k]),
        forall|i: int, j: int| 0 <= i < j < preds@.len() ==> #[trigger] has_pair(r@, preds@[i], preds@[j]),
        forall|k: int| 0 <= k < r@.len() ==> #[trigger] from_pair(preds@, r@[k]),
{
    let n = preds.len();
    let mut results: Vec<CandidateResult> = Vec::new();
    let mut i: usize = 0;
    while i < n
        invariant
            i <= n,
            n == preds@.len(),
            forall|k: int| 0 <= k < results@.len() ==> #[trigger] evaluated(results@[k]),
            forall|a: int, b: int| 0 <= a < i && a < b < n ==> #[trigger] has_pair(results@, preds@[a], preds@[b]),
            forall|k: int| 0 <= k < results@.len() ==> #[trigger] from_pair(preds@, results@[k]),
        decreases n - i,
    {
        let mut j: usize = i + 1;
        while j < n
            invariant
                i < n,
                i + 1 <= j <= n,
                n == preds@.len(),
                forall|k: int| 0 <= k < results@.len() ==> #[trigger] evaluated(results@[k]),
                forall|a: int, b: int|
                    (0 <= a < i && a < b < n) || (a == i && i < b < j) ==> #[trigger] has_pair(results@, preds@[a], preds@[b]),
                forall|k: int| 0 <= k < results@.len() ==> #[trigger] from_pair(preds@, results@[k]),
            decreases n - j,
        {
            let c = evaluate_pair(preds[i], preds[j]);
            let ghost prev = results@;
            results.push(c);
            proof {
                let last = results@.len() - 1;
                assert(results@[last].first == preds@[i as int] && results@[last].second == preds@[j as int]);
                assert forall|a: int, b: int| (0 <= a < i && a < b < n) || (a == i && i < b < j + 1) implies #[trigger] has_pair(
                    results@,
                    preds@[a],
                    preds@[b],
                ) by {
                    if a == i && b == j {
                        assert(results@[last].first == preds@[a]);
                    } else {
                        assert(has_pair(prev, preds@[a], preds@[b]));
                        let k = choose|k: int| 0 <= k < prev.len() && #[trigger] prev[k].first == preds@[a] && prev[k].second == preds@[b];
                        assert(results@[k] == prev[k]);
                    }
                }
                assert forall|k: int| 0 <= k < results@.len() implies #[trigger] from_pair(preds@, results@[k]) by {
                    if k == last {
                        assert(results@[k].first == preds@[i as int] && results@[k].second == preds@[j as int]);
                    } else {
                        assert(results@[k] == prev[k]);
                        assert(from_pair(preds@, prev[k]));
                    }
                }
                assert forall|k: int| 0 <= k < results@.len() implies #[trigger] evaluated(results@[k]) by {
                    if k < last {
                        assert(results@[k] == prev[k]);
                    }
                }
            }
            j = j + 1;
        }
        i = i + 1;
    }
    results
}

// ---------------------------------------------------------------------------
// Ranking the candidates
// ---------------------------------------------------------------------------

/// The bytes of the name `"first | second"` of a candidate.
pub open spec fn candidate_name(c: CandidateResult) -> Seq<u8> {
    c.first.name.spec_bytes() + seq![32u8, 124u8, 32u8] + c.second.name.spec_bytes()
}

/// `x` sorts before `y` byte-wise, comparing from index `i` on.
pub open spec fn lex_lt_from(x: Seq<u8>, y: Seq<u8>, i: int) -> bool
    decreases x.len() - i,
{
    if i >= y.len() {
        false
    } else if i >= x.len() {
        true
    } else if x[i] != y[i] {
        x[i] < y[i]
    } else {
        lex_lt_from(x, y, i + 1)
    }
}

/// `lhs` ranks before `rhs`: fewer mixed buckets, then fewer inseparable
/// buckets, then the name in byte order.
pub open spec fn ranks_before(lhs: CandidateResult, rhs: CandidateResult) -> bool {
    lhs.mixed_count < rhs.mixed_count || (lhs.mixed_count == rhs.mixed_count && (lhs.impossible_count
        < rhs.impossible_count || (lhs.impossible_count == rhs.impossible_count && lex_lt_from(
        candidate_name(lhs),
        candidate_name(rhs),
        0,
    ))))
}

/// Equal bytes before `i` do not decide the order.
proof fn lemma_lex_skip(x: Seq<u8>, y: Seq<u8>, j: int, i: int)
    requires
        0 <= j <= i,
        i <= x.len(),
        i <= y.len(),
        forall|k: int| j <= k < i ==> x[k] == y[k],
    ensures
        lex_lt_from(x, y, j) == lex_lt_from(x, y, i),
    decreases i - j,
{
    if j < i {
        lemma_lex_skip(x, y, j + 1, i);
    }
}

/// The byte order is transitive.
proof fn lemma_lex_transitive(x: Seq<u8>, y: Seq<u8>, z: Seq<u8>, i: int)
    requires
        0 <= i,
        lex_lt_from(x, y, i),
        lex_lt_from(y, z, i),
    ensures
        lex_lt_from(x, z, i),
    decreases x.len() - i,
{
    if i < x.len() && x[i] == y[i] && y[i] == z[i] {
        lemma_lex_transitive(x, y, z, i + 1);
    }
}

/// The byte order is irreflexive.
proof fn lemma_lex_irreflexive(x: Seq<u8>, i: int)
    requires
        0 <= i,
    ensures
        !lex_lt_from(x, x, i),
    decreases x.len() - i,
{
    if i < x.len() {
        lemma_lex_irreflexive(x, i + 1);
    }
}

/// The ranking is transitive.
pub proof fn lemma_ranks_transitive(a: CandidateResult, b: CandidateResult, c: CandidateResult)
    requires
        ranks_before(a, b),
        ranks_before(b, c),
    ensures
        ranks_before(a, c),
{
    if lex_lt_from(candidate_name(a), candidate_name(b), 0) && lex_lt_from(candidate_name(b), candidate_name(c), 0) {
        lemma_lex_transitive(candidate_name(a), candidate_name(b), candidate_name(c), 0);
    }
}

/// No candidate ranks before itself.
pub proof fn lemma_ranks_irreflexive(a: CandidateResult)
    ensures
        !ranks_before(a, a),
{
    lemma_lex_irreflexive(candidate_name(a), 0);
}

/// Two names neither of which is before the other from `i` on agree from `i`
/// on.
proof fn lemma_lex_tied(x: Seq<u8>, y: Seq<u8>, i: int)
    requires
        0 <= i <= x.len(),
        i <= y.len(),
        !lex_lt_from(x, y, i),
        !lex_lt_from(y, x, i),
    ensures
        x.subrange(i, x.len() as int) == y.subrange(i, y.len() as int),
    decreases x.len() - i,
{
    if i < x.len() && i < y.len() {
        lemma_lex_tied(x, y, i + 1);
        assert(x.subrange(i, x.len() as int) =~= seq![x[i]] + x.subrange(i + 1, x.len() as int));
        assert(y.subrange(i, y.len() as int) =~= seq![y[i]] + y.subrange(i + 1, y.len() as int));
    } else {
        assert(x.subrange(i, x.len() as int) =~= Seq::<u8>::empty());
        assert(y.subrange(i, y.len() as int) =~= Seq::<u8>::empty());
    }
}

/// Neither candidate ranks before the other: equal counts and equal names.
pub open spec fn tied(a: CandidateResult, b: CandidateResult) -> bool {
    !ranks_before(a, b) && !ranks_before(b, a)
}

/// Tied candidates rank the same against any third.
proof fn lemma_tied_substitute(x: CandidateResult, y: CandidateResult, z: CandidateResult)
    requires
        tied(x, y),
    ensures
        ranks_before(x, z) == ranks_before(y, z),
{
    let nx = candidate_name(x);
    let ny = candidate_name(y);
    if x.mixed_count == y.mixed_count && x.impossible_count == y.impossible_count {
        lemma_lex_tied(nx, ny, 0);
        assert(nx =~= nx.subrange(0, nx.len() as int));
        assert(ny =~= ny.subrange(0, ny.len() as int));
        assert(nx == ny);
    }
}

/// `r` is a stable ranking of `c`: the same candidates, none ranking before
/// one that comes earlier, and tied candidates in their order in `c`.
pub open spec fn stably_ranked(r: Seq<CandidateResult>, c: Seq<CandidateResult>) -> bool {
    exists|p: Seq<int>| {
        &&& index_permutation(p, c.len() as int)
        &&& r.len() == c.len()
        &&& forall|k: int| 0 <= k < r.len() ==> #[trigger] r[k] == c[p[k]]
        &&& forall|i: int, j: int| 0 <= i < j < r.len() ==> !ranks_before(#[trigger] r[j], #[trigger] r[i])
        &&& forall|i: int, j: int| 0 <= i < j < r.len() && tied(#[trigger] r[i], #[trigger] r[j]) ==> p[i] < p[j]
    }
}

/// The name of a candidate fits in memory.
pub open spec fn name_fits(c: CandidateResult) -> bool {
    candidate_name(c).len() <= usize::MAX
}

/// Byte `i` of the name built from `a`, `" | "` and `b`.
fn name_byte(a: &[u8], b: &[u8], i: usize) -> (r: u8)
    requires
        i < a@.len() + 3 + b@.len(),
    ensures
        r == (a@ + seq![32u8, 124u8, 32u8] + b@)[i as int],
{
    if i < a.len() {
        a[i]
    } else if i - a.len() < 3 {
        if i - a.len() == 1 {
            124
        } else {
            32
        }
    } else {
        b[i - a.len() - 3]
    }
}

/// Whether `lhs` ranks before `rhs` (see [`ranks_before`]).
pub fn candidate_precedes(lhs: &CandidateResult, rhs: &CandidateResult) -> (r: bool)
    requires
        name_fits(*lhs),
        name_fits(*rhs),
    ensures
        r == ranks_before(*lhs, *rhs),
{
    if lhs.mixed_count != rhs.mixed_count {
        return lhs.mixed_count < rhs.mixed_count;
    }
    if lhs.impossible_count != rhs.impossible_count {
        return lhs.impossible_count < rhs.impossible_count;
    }
    let la = lhs.first.name.as_bytes();
    let lb = lhs.second.name.as_bytes();
    let ra = rhs.first.name.as_bytes();
    let rb = rhs.second.name.as_bytes();
    let ghost x = candidate_name(*lhs);
    let ghost y = candidate_name(*rhs);
    proof {
        assert(x =~= la@ + seq![32u8, 124u8, 32u8] + lb@);
        assert(y =~= ra@ + seq![32u8, 124u8, 32u8] + rb@);
    }
    let lx = la.len() + 3 + lb.len();
    let ly = ra.len() + 3 + rb.len();
    let mut i: usize = 0;
    while i < lx && i < ly
        invariant
            i <= lx,
            i <= ly,
            lx == x.len(),
            ly == y.len(),
            x == la@ + seq![32u8, 124u8, 32u8] + lb@,
            y == ra@ + seq![32u8, 124u8, 32u8] + rb@,
            x == candidate_name(*lhs),
            y == candidate_name(*rhs),
            lhs.mixed_count == rhs.mixed_count,
            lhs.impossible_count == rhs.impossible_count,
            forall|k: int| 0 <= k < i ==> x[k] == y[k],
        decreases lx - i,
    {
        let cx = name_byte(la, lb, i);
        let cy = name_byte(ra, rb, i);
        if cx != cy {
            proof {
                lemma_lex_skip(x, y, 0, i as int);
            }
            return cx < cy;
        }
        i = i + 1;
    }
    proof {
        lemma_lex_skip(x, y, 0, i as int);
    }
    i < ly
}

/// Rank the candidates, keeping tied candidates in their input order: the
/// result holds the same candidates, and none of them ranks before one that
/// comes earlier.
pub fn sort_candidates(results: Vec<CandidateResult>) -> (r: Vec<CandidateResult>)
    requires
        forall|k: int| 0 <= k < results@.len() ==> #[trigger] name_fits(results@[k]),
    ensures
        r@.to_multiset() == results@.to_multiset(),
        forall|i: int, j: int| 0 <= i < j < r@.len() ==> !ranks_before(#[trigger] r@[j], #[trigger] r@[i]),
        stably_ranked(r@, results@),
{
    broadcast use vstd::seq_lib::group_to_multiset_ensures;

    let ghost orig = results@;
    let ghost n = orig.len() as int;
    let mut rest = results;
    let mut out: Vec<CandidateResult> = Vec::new();
    let ghost mut idx: Seq<int> = Seq::empty();
    let ghost mut ridx: Seq<int> = Seq::new(n as nat, |k: int| k);
    while rest.len() > 0
        invariant
            n == orig.len(),
            out@.to_multiset().add(rest@.to_multiset()) == orig.to_multiset(),
            forall|k: int| 0 <= k < rest@.len() ==> #[trigger] name_fits(rest@[k]),
            forall|i: int, j: int| 0 <= i < j < out@.len() ==> !ranks_before(#[trigger] out@[j], #[trigger] out@[i]),
            forall|i: int, j: int| 0 <= i < out@.len() && 0 <= j < rest@.len() ==> !ranks_before(#[trigger] rest@[j], #[trigger] out@[i]),
            idx.len() == out@.len(),
            ridx.len() == rest@.len(),
            idx.len() + ridx.len() == n,
            forall|k: int| 0 <= k < idx.len() ==> 0 <= #[trigger] idx[k] < n && out@[k] == orig[idx[k]],
            forall|k: int| 0 <= k < ridx.len() ==> 0 <= #[trigger] ridx[k] < n && rest@[k] == orig[ridx[k]],
            forall|a: int, b: int| 0 <= a < b < ridx.len() ==> #[trigger] ridx[a] < #[trigger] ridx[b],
            forall|a: int, b: int| 0 <= a < b < idx.len() ==> #[trigger] idx[a] != #[trigger] idx[b],
            forall|a: int, b: int| 0 <= a < idx.len() && 0 <= b < ridx.len() ==> #[trigger] idx[a] != #[trigger] ridx[b],
            forall|a: int, b: int| 0 <= a < b < out@.len() && tied(#[trigger] out@[a], #[trigger] out@[b]) ==> idx[a] < idx[b],
            forall|a: int, b: int|
                0 <= a < out@.len() && 0 <= b < rest@.len() && tied(#[trigger] out@[a], #[trigger] rest@[b]) ==> idx[a] < ridx[b],
        decreases rest@.len(),
    {
        let mut m: usize = 0;
        let mut i: usize = 1;
        proof {
            lemma_ranks_irreflexive(rest@[0]);
        }
        while i < rest.len()
            invariant
                0 <= m < i <= rest@.len(),
                forall|k: int| 0 <= k < rest@.len() ==> #[trigger] name_fits(rest@[k]),
                forall|j: int| 0 <= j < i ==> !ranks_before(#[trigger] rest@[j], rest@[m as int]),
                forall|j: int| 0 <= j < m ==> !tied(#[trigger] rest@[j], rest@[m as int]),
            decreases rest@.len() - i,
        {
            if candidate_precedes(&rest[i], &rest[m]) {
                proof {
                    assert forall|j: int| 0 <= j < i + 1 implies !ranks_before(#[trigger] rest@[j], rest@[i as int]) by {
                        if j == i {
                            lemma_ranks_irreflexive(rest@[j]);
                        } else if ranks_before(rest@[j], rest@[i as int]) {
                            lemma_ranks_transitive(rest@[j], rest@[i as int], rest@[m as int]);
                        }
                    }
                    assert forall|j: int| 0 <= j < i implies !tied(#[trigger] rest@[j], rest@[i as int]) by {
                        if tied(rest@[j], rest@[i as int]) {
                            lemma_tied_substitute(rest@[j], rest@[i as int], rest@[m as int]);
                        }
                    }
                }
                m = i;
            }
            i = i + 1;
        }
        let ghost before = rest@;
        let ghost prev_out = out@;
        let ghost prev_idx = idx;
        let ghost prev_ridx = ridx;
        let c = rest.remove(m);
        out.push(c);
        proof {
            idx = prev_idx.push(prev_ridx[m as int]);
            ridx = prev_ridx.remove(m as int);
            assert(rest@ == before.remove(m as int));
            vstd::seq_lib::to_multiset_remove(before, m as int);
            assert(out@ == prev_out.push(c));
            vstd::seq_lib::to_multiset_build(prev_out, c);
            vstd::seq_lib::to_multiset_contains(before, c);
            assert(before.to_multiset().count(c) > 0);
            assert(out@.to_multiset().add(rest@.to_multiset()) =~= prev_out.to_multiset().add(before.to_multiset()));
            assert forall|k: int| 0 <= k < rest@.len() implies #[trigger] name_fits(rest@[k]) by {
                if k < m {
                    assert(rest@[k] == before[k]);
                } else {
                    assert(rest@[k] == before[k + 1]);
                }
            }
            assert forall|a: int, b: int| 0 <= a < out@.len() && 0 <= b < rest@.len() implies !ranks_before(
                #[trigger] rest@[b],
                #[trigger] out@[a],
            ) by {
                let bi = if b < m { b } else { b + 1 };
                assert(rest@[b] == before[bi]);
                if a < prev_out.len() {
                    assert(out@[a] == prev_out[a]);
                } else {
                    assert(out@[a] == before[m as int]);
                }
            }
            assert forall|a: int, b: int| 0 <= a < b < out@.len() implies !ranks_before(#[trigger] out@[b], #[trigger] out@[a]) by {
                if b < prev_out.len() {
                    assert(out@[a] == prev_out[a] && out@[b] == prev_out[b]);
                } else {
                    assert(out@[b] == before[m as int]);
                    assert(out@[a] == prev_out[a]);
                }
            }
            assert forall|k: int| 0 <= k < idx.len() implies 0 <= #[trigger] idx[k] < n && out@[k] == orig[idx[k]] by {
                if k < prev_idx.len() {
                    assert(idx[k] == prev_idx[k] && out@[k] == prev_out[k]);
                }
            }
            assert forall|k: int| 0 <= k < ridx.len() implies 0 <= #[trigger] ridx[k] < n && rest@[k] == orig[ridx[k]] by {
                let ki = if k < m { k } else { k + 1 };
                assert(ridx[k] == prev_ridx[ki] && rest@[k] == before[ki]);
            }
            assert forall|a: int, b: int| 0 <= a < b < ridx.len() implies #[trigger] ridx[a] < #[trigger] ridx[b] by {
                let ai = if a < m { a } else { a + 1 };
                let bi = if b < m { b } else { b + 1 };
                assert(ridx[a] == prev_ridx[ai] && ridx[b] == prev_ridx[bi]);
            }
            assert forall|a: int, b: int| 0 <= a < b < idx.len() implies #[trigger] idx[a] != #[trigger] idx[b] by {
                if b < prev_idx.len() {
                    assert(idx[a] == prev_idx[a] && idx[b] == prev_idx[b]);
                } else {
                    assert(idx[a] == prev_idx[a] && idx[b] == prev_ridx[m as int]);
                }
            }
            assert forall|a: int, b: int| 0 <= a < idx.len() && 0 <= b < ridx.len() implies #[trigger] idx[a] != #[trigger] ridx[b] by {
                let bi = if b < m { b } else { b + 1 };
                assert(ridx[b] == prev_ridx[bi]);
                if a < prev_idx.len() {
                    assert(idx[a] == prev_idx[a]);
                } else {
                    assert(idx[a] == prev_ridx[m as int]);
                }
            }
            assert forall|a: int, b: int| 0 <= a < b < out@.len() && tied(#[trigger] out@[a], #[trigger] out@[b]) implies idx[a] < idx[b] by {
                assert(out@[a] == prev_out[a] && idx[a] == prev_idx[a]);
                if b < prev_out.len() {
                    assert(out@[b] == prev_out[b] && idx[b] == prev_idx[b]);
                } else {
                    assert(out@[b] == before[m as int] && idx[b] == prev_ridx[m as int]);
                }
            }
            assert forall|a: int, b: int|
                0 <= a < out@.len() && 0 <= b < rest@.len() && tied(#[trigger] out@[a], #[trigger] rest@[b]) implies idx[a] < ridx[b] by {
                let bi = if b < m { b } else { b + 1 };
                assert(ridx[b] == prev_ridx[bi] && rest@[b] == before[bi]);
                if a < prev_out.len() {
                    assert(out@[a] == prev_out[a] && idx[a] == prev_idx[a]);
                } else {
                    assert(out@[a] == before[m as int] && idx[a] == prev_ridx[m as int]);
                    if b < m {
                        assert(!tied(before[bi], before[m as int]));
                    }
                }
            }
        }
    }
    proof {
        assert(rest@.to_multiset() =~= vstd::multiset::Multiset::empty());
        assert(out@.to_multiset().add(rest@.to_multiset()) =~= out@.to_multiset());
        assert(index_permutation(idx, n));
        assert(stably_ranked(out@, orig));
    }
    out
}

// ---------------------------------------------------------------------------
// Summaries
// ---------------------------------------------------------------------------

/// One predicate's split: its mixed buckets, its inseparable buckets, and
/// example check tables when every bucket is separable.
pub struct PredReport {
    pub spec: PredSpec,
    pub mixed: Vec<usize>,
    pub impossible: Vec<usize>,
    pub example: Option<([i8; 16], [i8; 16])>,
}

/// Split by `spec` and report on both lookups.
pub fn evaluate_pred(spec: PredSpec) -> (r: PredReport)
    ensures
        r.spec == spec,
        lists(r.mixed@, 32, |i: int| mixed(pred_member(spec), i)),
        lists(r.impossible@, 32, |i: int| !separable(pred_member(spec), i)),
        r.example is None <==> r.impossible@.len() > 0,
        r.example matches Some((t0, t1)) ==> forall|h: int|
            0 <= h < 16 ==> least_separating(pred_member(spec), 2 * h, #[trigger] t0@[h]) && least_separating(
                pred_member(spec),
                2 * h + 1,
                t1@[h],
            ),
{
    let buckets = buckets_for_pred(spec);
    let mixed_idxs = option1_mixed_buckets(&buckets);
    let impossible = option2_impossible_buckets(&buckets);
    let example = option2_example_tables(&buckets);
    proof {
        let m = buckets.member@;
        if impossible@.len() > 0 {
            assert(impossible@.contains(impossible@[0]));
            assert(!separable(m, impossible@[0] as int));
        }
        if exists|i: int| 0 <= i < 32 && !#[trigger] separable(m, i) {
            let i = choose|i: int| 0 <= i < 32 && !#[trigger] separable(m, i);
            assert(impossible@.contains(i as usize));
        }
        if let Some((t0, t1)) = example {
            assert(m == pred_member(spec));
            assert forall|h: int| 0 <= h < 16 implies least_separating(pred_member(spec), 2 * h, #[trigger] t0@[h]) && least_separating(
                pred_member(spec),
                2 * h + 1,
                t1@[h],
            ) by {
                assert(least_separating(m, 2 * h, t0@[h]));
            }
        }
    }
    PredReport { spec, mixed: mixed_idxs, impossible, example }
}

/// Index of the first least count, `None` for no counts.
pub fn first_minimum(counts: &[usize]) -> (r: Option<usize>)
    ensures
        r is None <==> counts@.len() == 0,
        r matches Some(k) ==> k < counts@.len() && (forall|j: int| 0 <= j < counts@.len() ==> counts@[k as int] <= #[trigger] counts@[j])
            && (forall|j: int| 0 <= j < k ==> counts@[k as int] < #[trigger] counts@[j]),
{
    if counts.len() == 0 {
        return None;
    }
    let mut best: usize = 0;
    let mut i: usize = 1;
    while i < counts.len()
        invariant
            0 <= best < i <= counts@.len(),
            forall|j: int| 0 <= j < i ==> counts@[best as int] <= #[trigger] counts@[j],
            forall|j: int| 0 <= j < best ==> counts@[best as int] < #[trigger] counts@[j],
        decreases counts@.len() - i,
    {
        if counts[i] < counts[best] {
            best = i;
        }
        i = i + 1;
    }
    Some(best)
}

/// Number of candidates among the first `n` with no mixed bucket
/// (`mixed`), or with no inseparable bucket.
pub open spec fn feasible_count(s: Seq<CandidateResult>, n: int, by_mixed: bool) -> nat
    decreases n,
{
    if n <= 0 {
        0
    } else {
        feasible_count(s, n - 1, by_mixed) + (if (if by_mixed {
            s[n - 1].mixed_count
        } else {
            s[n - 1].impossible_count
        }) == 0 {
            1nat
        } else {
            0nat
        })
    }
}

/// Number of candidates whose flag lookup works, and of those whose check
/// lookup works.
pub fn feasible_counts(results: &[CandidateResult]) -> (r: (usize, usize))
    ensures
        r.0 == feasible_count(results@, results@.len() as int, true),
        r.1 == feasible_count(results@, results@.len() as int, false),
{
    let mut by_mixed: usize = 0;
    let mut by_check: usize = 0;
    let mut i: usize = 0;
    while i < results.len()
        invariant
            i <= results@.len(),
            by_mixed == feasible_count(results@, i as int, true),
            by_check == feasible_count(results@, i as int, false),
            by_mixed <= i,
            by_check <= i,
        decreases results@.len() - i,
    {
        if results[i].mixed_count == 0 {
            by_mixed = by_mixed + 1;
        }
        if results[i].impossible_count == 0 {
            by_check = by_check + 1;
        }
        i = i + 1;
    }
    (by_mixed, by_check)
}

/// Entry `(i, valid, invalid)` holds bucket `i`'s number of alphabet bytes
/// and of other bytes.
pub open spec fn counts_of(bk: Buckets, e: (usize, usize, usize)) -> bool {
    e.1 == count_in(bk, e.0 as int, true, 256) && e.2 == count_in(bk, e.0 as int, false, 256)
}

/// The buckets that hold any byte, in order, each with its number of
/// alphabet bytes and of other bytes.
pub fn bucket_report(buckets: &Buckets) -> (r: Vec<(usize, usize, usize)>)
    requires
        buckets.member@.len() % 256 == 0,
    ensures
        lists(
            r@.map_values(|e: (usize, usize, usize)| e.0),
            (buckets.member@.len() / 256) as int,
            |i: int| holds_kind(buckets.member@, i, true) || holds_kind(buckets.member@, i, false),
        ),
        forall|k: int| 0 <= k < r@.len() ==> counts_of(*buckets, #[trigger] r@[k]),
{
    let ghost p = |i: int| holds_kind(buckets.member@, i, true) || holds_kind(buckets.member@, i, false);
    let n = buckets.member.len() / 256;
    let mut out: Vec<(usize, usize, usize)> = Vec::new();
    let mut idx: usize = 0;
    while idx < n
        invariant
            idx <= n,
            n == buckets.member@.len() / 256,
            buckets.member@.len() % 256 == 0,
            p == (|i: int| holds_kind(buckets.member@, i, true) || holds_kind(buckets.member@, i, false)),
            lists(out@.map_values(|e: (usize, usize, usize)| e.0), idx as int, p),
            forall|i: int| 0 <= i < out@.len() ==> out@[i].0 < idx,
            forall|k: int| 0 <= k < out@.len() ==> counts_of(*buckets, #[trigger] out@[k]),
        decreases n - idx,
    {
        proof {
            lemma_holds(*buckets, idx as int);
            lemma_counts_kinds(*buckets, idx as int);
        }
        let (valid, invalid) = bucket_counts(buckets, idx);
        let ghost prev = out@;
        if valid > 0 || invalid > 0 {
            out.push((idx, valid, invalid));
        }
        proof {
            let f = |e: (usize, usize, usize)| e.0;
            if valid > 0 || invalid > 0 {
                assert(out@.map_values(f) =~= prev.map_values(f).push(idx));
            } else {
                assert(out@.map_values(f) =~= prev.map_values(f));
            }
            assert forall|i: int| 0 <= i < prev.map_values(f).len() implies prev.map_values(f)[i] < idx by {
                assert(prev.map_values(f)[i] == prev[i].0);
            }
            lemma_lists_step(prev.map_values(f), out@.map_values(f), idx, p);
        }
        idx = idx + 1;
    }
    out
}

} // verus!
