//! Check tables for a single-lookup hash: each byte is hashed from its own
//! low nibble and its shifted neighbour, and each bucket needs an entry
//! whose saturating sum with the byte is non-negative exactly for alphabet
//! bytes.
use vstd::prelude::*;
use crate::engine::b64::is_b64;
use super::{is_base64_valid_strict_simd, sat_add_i8, sat_add_spec, Buckets};
use super::hash_resynth::{
    build_buckets_and_msb_violations, hash_mixed_raw, hi_upto, lemma_hi_upto_excludes, lemma_lo_hi_bounds,
    lemma_lo_upto_covers, lo_upto, map_reaches, map_seq, mixed_spec, seen, sval, HashFamily, HashSpec, HashTables,
    IndexMode, MixOp, TablesView,
};
use super::strict_table::{bucket_counts, count_in};
use super::text::{chars_equal, chars_of, is_white_space, white_space};

verus! {

/// A single-lookup hash: the neighbour's low `shift` bits are shifted in and
/// mixed with the table entry of the byte's low nibble.
#[derive(Clone, Copy, Debug)]
pub struct CheckHashSpec {
    pub shift: u8,
    pub mix: MixOp,
}

/// The same hash as a candidate of the search.
pub open spec fn as_hash_spec(s: CheckHashSpec) -> HashSpec {
    HashSpec { shift: s.shift, mix: s.mix, index_mode: IndexMode::Maskless, family: HashFamily::OneLut }
}

/// Tables holding only `table` as the primary lookup.
pub open spec fn single_table(table: Seq<u8>) -> TablesView {
    TablesView {
        primary: table,
        perturb: Seq::new(16, |i: int| 0u8),
        hi: Seq::new(16, |i: int| 0u8),
        pos: Seq::new(64, |i: int| 0u8),
    }
}

/// Tables holding only `table` as the primary lookup.
fn tables_of(table: &[u8; 16]) -> (r: HashTables)
    ensures
        r@ == single_table(table@),
{
    let r = HashTables { primary: *table, perturb: [0u8; 16], hi: [0u8; 16], pos: [0u8; 64] };
    proof {
        assert(r.perturb@ =~= Seq::new(16, |i: int| 0u8));
        assert(r.hi@ =~= Seq::new(16, |i: int| 0u8));
        assert(r.pos@ =~= Seq::new(64, |i: int| 0u8));
    }
    r
}

/// The bucket of `byte` at position `pos_in_dword` of its word, with
/// neighbour bits `next_low_k`.
pub fn hash_nibble(byte: u8, next_low_k: u8, pos_in_dword: u8, table: &[u8; 16], spec: CheckHashSpec) -> (r: u8)
    requires
        pos_in_dword < 4,
        1 <= spec.shift <= 7,
    ensures
        r == mixed_spec(byte, next_low_k, pos_in_dword, single_table(table@), as_hash_spec(spec)) & 0x0f,
        r < 16,
{
    let tables = tables_of(table);
    let hs = HashSpec { shift: spec.shift, mix: spec.mix, index_mode: IndexMode::Maskless, family: HashFamily::OneLut };
    let m = hash_mixed_raw(byte, next_low_k, pos_in_dword, &tables, &hs);
    assert(m & 0x0f < 16) by (bit_vector);
    m & 0x0f
}

/// The strict alphabet as a lookup table.
pub fn strict_alphabet_lut() -> (r: [bool; 256])
    ensures
        forall|b: u8| #[trigger] r@[b as int] == is_b64(b),
{
    let mut lut = [false; 256];
    let mut i: usize = 0;
    while i < 256
        invariant
            i <= 256,
            forall|b: u8| b < i ==> #[trigger] lut@[b as int] == is_b64(b),
        decreases 256 - i,
    {
        lut[i] = is_base64_valid_strict_simd(i as u8);
        i = i + 1;
    }
    lut
}

/// The alphabet as a sequence of flags.
pub open spec fn alphabet_flags() -> Seq<bool> {
    Seq::new(256, |b: int| is_b64(b as u8))
}

/// The buckets of every byte over all positions and neighbour bits.
pub fn build_buckets(table: &[u8; 16], spec: CheckHashSpec) -> (r: Buckets)
    requires
        1 <= spec.shift <= 7,
    ensures
        r.wf(),
        r.member@ == map_seq(single_table(table@), as_hash_spec(spec)),
        forall|h: int, b: u8| 0 <= h < 16 ==> (#[trigger] r.has(h, b) <==> map_reaches(b, h, single_table(table@), as_hash_spec(spec))),
{
    let tables = tables_of(table);
    let hs = HashSpec { shift: spec.shift, mix: spec.mix, index_mode: IndexMode::Maskless, family: HashFamily::OneLut };
    let lut = strict_alphabet_lut();
    let (buckets, _, _, _) = build_buckets_and_msb_violations(&tables, &hs, &lut);
    buckets
}

// ---------------------------------------------------------------------------
// Choosing the check entries
// ---------------------------------------------------------------------------

/// The report on one bucket.
#[derive(Clone, Copy, Debug)]
pub enum CheckBucket {
    /// No byte lands in the bucket.
    Empty,
    /// No entry separates the bucket's alphabet bytes from the others.
    Infeasible { valid: usize, invalid: usize },
    /// Entries `lo..=hi` separate the bucket; `chosen` is their midpoint,
    /// rounded toward zero, and `violations` the bytes it misclassifies.
    Feasible { valid: usize, invalid: usize, lo: i16, hi: i16, chosen: i8, violations: u32 },
}

/// Half of `x`, rounded toward zero.
pub open spec fn half_toward_zero(x: int) -> int {
    if x >= 0 {
        x / 2
    } else {
        -((-x) / 2)
    }
}

/// Every entry of the separating interval separates the bucket.
pub proof fn lemma_interval_separates(m: Seq<bool>, h: int, t: int)
    requires
        lo_upto(m, h, alphabet_flags(), 256) <= t <= hi_upto(m, h, alphabet_flags(), 256),
    ensures
        forall|b: u8| #[trigger] m[256 * h + b] ==> (is_b64(b) <==> sat_add_spec(t as i8, b as i8) >= 0),
{
    let valid = alphabet_flags();
    lemma_lo_hi_bounds(m, h, valid, 256);
    assert forall|b: u8| #[trigger] m[256 * h + b] implies (is_b64(b) <==> sat_add_spec(t as i8, b as i8) >= 0) by {
        assert(-128 <= sval(b) <= 127) by (bit_vector);
        assert((b as i8) as int == sval(b));
        assert(valid[b as int] == is_b64(b));
        if is_b64(b) {
            lemma_lo_upto_covers(m, h, valid, 256, b);
        } else {
            lemma_hi_upto_excludes(m, h, valid, 256, b);
        }
    }
}

/// Report on bucket `h`: its counts, and the separating interval with its
/// midpoint when there is one.
pub fn check_bucket(bk: &Buckets, h: usize) -> (r: CheckBucket)
    requires
        bk.wf(),
        h < 16,
    ensures
        r is Empty <==> !seen(bk.member@, h as int),
        r is Infeasible <==> seen(bk.member@, h as int) && lo_upto(bk.member@, h as int, alphabet_flags(), 256) > hi_upto(
            bk.member@,
            h as int,
            alphabet_flags(),
            256,
        ),
        r matches CheckBucket::Infeasible { valid, invalid } ==> valid == count_in(*bk, h as int, true, 256) && invalid
            == count_in(*bk, h as int, false, 256),
        r matches CheckBucket::Feasible { valid, invalid, lo, hi, chosen, violations } ==> {
            &&& valid == count_in(*bk, h as int, true, 256)
            &&& invalid == count_in(*bk, h as int, false, 256)
            &&& lo == lo_upto(bk.member@, h as int, alphabet_flags(), 256)
            &&& hi == hi_upto(bk.member@, h as int, alphabet_flags(), 256)
            &&& chosen as int == half_toward_zero(lo + hi)
            &&& violations == 0
            &&& forall|b: u8| #[trigger] bk.has(h as int, b) ==> (is_b64(b) <==> sat_add_spec(chosen, b as i8) >= 0)
        },
{
    let ghost m = bk.member@;
    let ghost valid = alphabet_flags();
    let mut seen_any = false;
    let mut lo: i16 = -128;
    let mut hi: i16 = 127;
    let mut b: u16 = 0;
    while b < 256
        invariant
            b <= 256,
            h < 16,
            bk.wf(),
            m == bk.member@,
            valid == alphabet_flags(),
            lo as int == lo_upto(m, h as int, valid, b as int),
            hi as int == hi_upto(m, h as int, valid, b as int),
            seen_any <==> exists|x: u8| x < b && #[trigger] m[256 * h + x],
        decreases 256 - b,
    {
        let byte = b as u8;
        proof {
            assert(((b + 1) - 1) as u8 == byte);
            lemma_lo_hi_bounds(m, h as int, valid, b as int);
            assert(-128 <= sval(byte) <= 127) by (bit_vector);
            assert(valid[byte as int] == is_b64(byte));
        }
        if bk.contains(h, byte) {
            seen_any = true;
            let bi = (byte as i8) as i16;
            if is_base64_valid_strict_simd(byte) {
                let lower = -bi;
                if lower > lo {
                    lo = lower;
                }
            } else {
                let upper = -bi - 1;
                if upper < hi {
                    hi = upper;
                }
            }
        }
        b = b + 1;
    }
    proof {
        lemma_lo_hi_bounds(m, h as int, valid, 256);
        assert(seen_any == seen(m, h as int)) by {
            if seen(m, h as int) {
                let x = choose|x: u8| #[trigger] m[256 * h + x];
                assert(x < b);
            }
        }
    }
    if !seen_any {
        return CheckBucket::Empty;
    }
    let (valid_count, invalid_count) = bucket_counts(bk, h);
    if lo > hi {
        return CheckBucket::Infeasible { valid: valid_count, invalid: invalid_count };
    }
    let chosen = ((lo + hi) / 2) as i8;
    proof {
        lemma_interval_separates(m, h as int, chosen as int);
    }
    // Count the bytes the chosen entry misclassifies (none, by the interval).
    let mut violations: u32 = 0;
    let mut b: u16 = 0;
    while b < 256
        invariant
            b <= 256,
            h < 16,
            bk.wf(),
            m == bk.member@,
            violations == 0,
            forall|x: u8| #[trigger] m[256 * h + x] ==> (is_b64(x) <==> sat_add_spec(chosen, x as i8) >= 0),
        decreases 256 - b,
    {
        let byte = b as u8;
        if bk.contains(h, byte) {
            let y = sat_add_i8(chosen, byte as i8);
            let is_valid = is_base64_valid_strict_simd(byte);
            if is_valid {
                if y < 0 {
                    violations = violations + 1;
                }
            } else if y >= 0 {
                violations = violations + 1;
            }
        }
        b = b + 1;
    }
    proof {
        assert forall|x: u8| #[trigger] bk.has(h as int, x) implies (is_b64(x) <==> sat_add_spec(chosen, x as i8) >= 0) by {
            assert(m[256 * h + x]);
        }
    }
    CheckBucket::Feasible { valid: valid_count, invalid: invalid_count, lo, hi, chosen, violations }
}

/// The check table chosen from the bucket reports: each feasible bucket's
/// midpoint, 0 elsewhere; with the buckets no entry separates, in order.
pub struct CheckSynthesis {
    pub buckets: Vec<CheckBucket>,
    pub check_values: [i8; 16],
    pub impossible: Vec<usize>,
}

/// Report on all 16 buckets and choose the check table.
pub fn synthesize_check_values(bk: &Buckets) -> (r: CheckSynthesis)
    requires
        bk.wf(),
    ensures
        r.buckets@.len() == 16,
        forall|h: int| 0 <= h < 16 ==> (#[trigger] r.buckets@[h] is Empty <==> !seen(bk.member@, h)),
        forall|h: int| 0 <= h < 16 ==> (#[trigger] r.buckets@[h] is Infeasible <==> seen(bk.member@, h) && lo_upto(bk.member@, h, alphabet_flags(), 256)
            > hi_upto(bk.member@, h, alphabet_flags(), 256)),
        forall|h: int| 0 <= h < 16 ==> #[trigger] r.check_values@[h] == match r.buckets@[h] {
            CheckBucket::Feasible { chosen, .. } => chosen,
            _ => 0i8,
        },
        forall|h: int, b: u8| 0 <= h < 16 && #[trigger] bk.has(h, b) && !(r.buckets@[h] is Infeasible) ==> (is_b64(b) <==> sat_add_spec(
            #[trigger] r.check_values@[h],
            b as i8,
        ) >= 0),
        forall|k: usize| r.impossible@.contains(k) <==> k < 16 && r.buckets@[k as int] is Infeasible,
        forall|i: int, j: int| 0 <= i < j < r.impossible@.len() ==> r.impossible@[i] < r.impossible@[j],
{
    let mut buckets: Vec<CheckBucket> = Vec::new();
    let mut check_values = [0i8; 16];
    let mut impossible: Vec<usize> = Vec::new();
    let mut h: usize = 0;
    while h < 16
        invariant
            h <= 16,
            bk.wf(),
            buckets@.len() == h,
            forall|g: int| 0 <= g < h ==> (#[trigger] buckets@[g] is Empty <==> !seen(bk.member@, g)),
            forall|g: int| 0 <= g < h ==> (#[trigger] buckets@[g] is Infeasible <==> seen(bk.member@, g) && lo_upto(bk.member@, g, alphabet_flags(), 256)
                > hi_upto(bk.member@, g, alphabet_flags(), 256)),
            forall|g: int| 0 <= g < h ==> #[trigger] check_values@[g] == match buckets@[g] {
                CheckBucket::Feasible { chosen, .. } => chosen,
                _ => 0i8,
            },
            forall|g: int, b: u8| 0 <= g < h && #[trigger] bk.has(g, b) && !(buckets@[g] is Infeasible) ==> (is_b64(b) <==> sat_add_spec(
                #[trigger] check_values@[g],
                b as i8,
            ) >= 0),
            forall|k: usize| impossible@.contains(k) <==> k < h && buckets@[k as int] is Infeasible,
            forall|i: int, j: int| 0 <= i < j < impossible@.len() ==> impossible@[i] < impossible@[j],
            forall|i: int| 0 <= i < impossible@.len() ==> impossible@[i] < h,
            forall|g: int| h <= g < 16 ==> #[trigger] check_values@[g] == 0,
        decreases 16 - h,
    {
        let report = check_bucket(bk, h);
        let ghost prev_imp = impossible@;
        match report {
            CheckBucket::Feasible { chosen, .. } => {
                check_values[h] = chosen;
            },
            CheckBucket::Infeasible { .. } => {
                impossible.push(h);
            },
            CheckBucket::Empty => {
                proof {
                    assert forall|b: u8| !#[trigger] bk.has(h as int, b) by {
                        if bk.has(h as int, b) {
                            assert(bk.member@[256 * h + b]);
                        }
                    }
                }
            },
        }
        buckets.push(report);
        proof {
            assert forall|k: usize| impossible@.contains(k) <==> k < h + 1 && buckets@[k as int] is Infeasible by {
                if impossible@.contains(k) {
                    let i = choose|i: int| 0 <= i < impossible@.len() && impossible@[i] == k;
                    if i < prev_imp.len() {
                        assert(prev_imp[i] == k && prev_imp.contains(k));
                    }
                }
                if k < h + 1 && buckets@[k as int] is Infeasible {
                    if k == h {
                        assert(impossible@[impossible@.len() - 1] == k);
                    } else {
                        assert(prev_imp.contains(k));
                        let i = choose|i: int| 0 <= i < prev_imp.len() && prev_imp[i] == k;
                        assert(impossible@[i] == k);
                    }
                }
            }
        }
        h = h + 1;
    }
    CheckSynthesis { buckets, check_values, impossible }
}

// ---------------------------------------------------------------------------
// Reading the hash and the table from text
// ---------------------------------------------------------------------------

/// The mixing named by `s`: `avg` or `avg_epu8`, `add` or `add_epi8`,
/// `xor` or `xor_si128`.
pub open spec fn mix_named(s: Seq<char>) -> Option<MixOp> {
    if s == "avg"@ || s == "avg_epu8"@ {
        Some(MixOp::Avg)
    } else if s == "add"@ || s == "add_epi8"@ {
        Some(MixOp::Add)
    } else if s == "xor"@ || s == "xor_si128"@ {
        Some(MixOp::Xor)
    } else {
        None
    }
}

impl MixOp {
    /// The mixing named by `s` (see [`mix_named`]).
    pub fn parse(s: &str) -> (r: Option<MixOp>)
        ensures
            r == mix_named(s@),
    {
        let c = chars_of(s);
        if chars_equal(&c, "avg") || chars_equal(&c, "avg_epu8") {
            Some(MixOp::Avg)
        } else if chars_equal(&c, "add") || chars_equal(&c, "add_epi8") {
            Some(MixOp::Add)
        } else if chars_equal(&c, "xor") || chars_equal(&c, "xor_si128") {
            Some(MixOp::Xor)
        } else {
            None
        }
    }
}

/// A comma or white space: what separates the bytes of a table.
pub open spec fn is_separator(c: char) -> bool {
    c == ',' || is_white_space(c)
}

/// Whether `c` separates the bytes of a table.
fn separator(c: char) -> (r: bool)
    ensures
        r == is_separator(c),
{
    c == ',' || white_space(c)
}

/// The non-empty runs of non-separator characters of `c`, in order.
pub open spec fn tokens(c: Seq<char>) -> Seq<Seq<char>>
    decreases c.len(),
{
    if c.len() == 0 {
        seq![]
    } else {
        let prev = tokens(c.drop_last());
        let ch = c.last();
        if is_separator(ch) {
            prev
        } else if c.len() >= 2 && !is_separator(c[c.len() - 2]) {
            prev.update(prev.len() - 1, prev.last().push(ch))
        } else {
            prev.push(seq![ch])
        }
    }
}

/// `p` without its leading `"0"` + `x` pairs.
pub open spec fn strip_prefixes(p: Seq<char>, x: char) -> Seq<char>
    decreases p.len(),
{
    if p.len() >= 2 && p[0] == '0' && p[1] == x {
        strip_prefixes(p.subrange(2, p.len() as int), x)
    } else {
        p
    }
}

/// The value of a hexadecimal digit.
pub open spec fn hex_digit(c: char) -> Option<nat> {
    let u = c as u32;
    if 48 <= u <= 57 {
        Some((u - 48) as nat)
    } else if 65 <= u <= 70 {
        Some((u - 55) as nat)
    } else if 97 <= u <= 102 {
        Some((u - 87) as nat)
    } else {
        None
    }
}

/// The value of a string of hexadecimal digits.
pub open spec fn hex_value(d: Seq<char>) -> nat
    decreases d.len(),
{
    if d.len() == 0 {
        0
    } else {
        hex_value(d.drop_last()) * 16 + match hex_digit(d.last()) {
            Some(v) => v,
            None => 0,
        }
    }
}

/// A token after its `0x` and then its `0X` prefixes are stripped.
pub open spec fn trimmed(p: Seq<char>) -> Seq<char> {
    strip_prefixes(strip_prefixes(p, 'x'), 'X')
}

/// Every character of `d` is a hexadecimal digit.
pub open spec fn all_hex(d: Seq<char>) -> bool {
    forall|i: int| 0 <= i < d.len() ==> #[trigger] hex_digit(d[i]) is Some
}

/// `q` without a leading `+`.
pub open spec fn unsigned_digits(q: Seq<char>) -> Seq<char> {
    if q.len() > 0 && q[0] == '+' {
        q.drop_first()
    } else {
        q
    }
}

/// The byte a table token stands for: after the prefixes, an optional `+`
/// and one or more hexadecimal digits worth at most 255.
pub open spec fn hex_byte(p: Seq<char>) -> Option<u8> {
    let d = unsigned_digits(trimmed(p));
    if d.len() > 0 && all_hex(d) && hex_value(d) <= 255 {
        Some(hex_value(d) as u8)
    } else {
        None
    }
}

/// Why a table does not parse.
pub enum TableError {
    /// The text holds this many tokens, not 16.
    Count(usize),
    /// Token `index`, with its prefixes stripped as `token`, is no byte.
    BadHex { index: usize, token: String },
}

/// Token boundaries found in the first `i` characters: `(start, end)` of
/// each token, and whether a token is still open at `i`.
pub open spec fn tokens_found(c: Seq<char>, i: int, ranges: Seq<(usize, usize)>) -> bool {
    let t = tokens(c.take(i));
    &&& ranges.len() == t.len()
    &&& forall|k: int| #![trigger ranges[k]] 0 <= k < ranges.len() ==> ranges[k].0 < ranges[k].1 <= i && c.subrange(ranges[k].0 as int, ranges[k].1 as int) == t[k]
}

/// Split `c` into its tokens.
fn token_ranges(c: &Vec<char>) -> (r: Vec<(usize, usize)>)
    ensures
        tokens_found(c@, c@.len() as int, r@),
{
    let mut ranges: Vec<(usize, usize)> = Vec::new();
    let mut open = false;
    let mut i: usize = 0;
    while i < c.len()
        invariant
            i <= c@.len(),
            tokens_found(c@, i as int, ranges@),
            open <==> (i > 0 && !is_separator(c@[i - 1])),
            open ==> ranges@.len() > 0 && ranges@.last().1 == i,
        decreases c@.len() - i,
    {
        let ghost prev = ranges@;
        let ghost t = tokens(c@.take(i as int));
        proof {
            assert(c@.take(i + 1).drop_last() =~= c@.take(i as int));
            assert(c@.take(i + 1).last() == c@[i as int]);
            if i > 0 {
                assert(c@.take(i + 1)[i - 1] == c@[i - 1]);
            }
        }
        let ch = c[i];
        if separator(ch) {
            open = false;
        } else if open {
            let last = ranges.len() - 1;
            let (start, _) = ranges[last];
            ranges.set(last, (start, i + 1));
            proof {
                assert(c@.subrange(start as int, i + 1) =~= c@.subrange(start as int, i as int).push(ch));
                assert forall|k: int| #![trigger ranges@[k]] 0 <= k < ranges@.len() implies ranges@[k].0 < ranges@[k].1 <= i + 1
                    && c@.subrange(ranges@[k].0 as int, ranges@[k].1 as int) == tokens(c@.take(i + 1))[k] by {
                    if k < last {
                        assert(ranges@[k] == prev[k]);
                    }
                }
            }
        } else {
            ranges.push((i, i + 1));
            open = true;
            proof {
                assert(c@.subrange(i as int, i + 1) =~= seq![ch]);
                assert forall|k: int| #![trigger ranges@[k]] 0 <= k < ranges@.len() implies ranges@[k].0 < ranges@[k].1 <= i + 1
                    && c@.subrange(ranges@[k].0 as int, ranges@[k].1 as int) == tokens(c@.take(i + 1))[k] by {
                    if k < prev.len() {
                        assert(ranges@[k] == prev[k]);
                    }
                }
            }
        }
        i = i + 1;
    }
    proof {
        assert(c@.take(c@.len() as int) =~= c@);
    }
    ranges
}

/// Skip the leading `"0"` + `x` pairs of `c[start..end]`.
fn skip_prefixes(c: &Vec<char>, start: usize, end: usize, x: char) -> (r: usize)
    requires
        start <= end <= c@.len(),
    ensures
        start <= r <= end,
        c@.subrange(r as int, end as int) == strip_prefixes(c@.subrange(start as int, end as int), x),
{
    let mut j = start;
    while end - j >= 2 && c[j] == '0' && c[j + 1] == x
        invariant
            start <= j <= end <= c@.len(),
            strip_prefixes(c@.subrange(j as int, end as int), x) == strip_prefixes(c@.subrange(start as int, end as int), x),
        decreases end - j,
    {
        proof {
            assert(c@.subrange(j as int, end as int).subrange(2, (end - j) as int) =~= c@.subrange(j + 2, end as int));
        }
        j = j + 2;
    }
    j
}

/// The value of a hexadecimal digit.
fn digit_value(c: char) -> (r: Option<u8>)
    ensures
        r matches Some(v) ==> hex_digit(c) == Some(v as nat) && v < 16,
        r is None ==> hex_digit(c) is None,
{
    let u = c as u32;
    if 48 <= u && u <= 57 {
        Some((u - 48) as u8)
    } else if 65 <= u && u <= 70 {
        Some((u - 55) as u8)
    } else if 97 <= u && u <= 102 {
        Some((u - 87) as u8)
    } else {
        None
    }
}

/// The byte that `c[start..end]` stands for (see [`hex_byte`]).
fn parse_hex_byte(c: &Vec<char>, start: usize, end: usize) -> (r: (Option<u8>, usize))
    requires
        start <= end <= c@.len(),
    ensures
        r.0 == hex_byte(c@.subrange(start as int, end as int)),
        start <= r.1 <= end,
        c@.subrange(r.1 as int, end as int) == trimmed(c@.subrange(start as int, end as int)),
{
    let ghost p = c@.subrange(start as int, end as int);
    let j1 = skip_prefixes(c, start, end, 'x');
    let j = skip_prefixes(c, j1, end, 'X');
    let ghost q = c@.subrange(j as int, end as int);
    let mut k = j;
    if k < end && c[k] == '+' {
        k = k + 1;
    }
    let ghost d = c@.subrange(k as int, end as int);
    proof {
        if j < end && c@[j as int] == '+' {
            assert(d =~= q.drop_first());
        } else {
            assert(d =~= q);
        }
    }
    if k == end {
        return (None, j);
    }
    // The value so far, capped at 256.
    let mut value: u16 = 0;
    let mut i = k;
    while i < end
        invariant
            start <= j <= k <= i <= end <= c@.len(),
            p == c@.subrange(start as int, end as int),
            q == c@.subrange(j as int, end as int),
            q == trimmed(p),
            d == c@.subrange(k as int, end as int),
            d == unsigned_digits(q),
            d.len() > 0,
            forall|x: int| k <= x < i ==> #[trigger] hex_digit(c@[x]) is Some,
            value as int == if hex_value(c@.subrange(k as int, i as int)) < 256 {
                hex_value(c@.subrange(k as int, i as int)) as int
            } else {
                256
            },
        decreases end - i,
    {
        let dv = digit_value(c[i]);
        match dv {
            None => {
                proof {
                    assert(d[i - k] == c@[i as int]);
                    assert(hex_digit(d[i - k]) is None);
                    assert(!all_hex(d));
                }
                return (None, j);
            },
            Some(v) => {
                proof {
                    let pre = c@.subrange(k as int, i + 1);
                    assert(pre.drop_last() =~= c@.subrange(k as int, i as int));
                    assert(pre.last() == c@[i as int]);
                }
                let next: u16 = value * 16 + (v as u16);
                value = if next > 256 {
                    256
                } else {
                    next
                };
            },
        }
        i = i + 1;
    }
    proof {
        assert(c@.subrange(k as int, end as int) =~= d);
        assert forall|x: int| 0 <= x < d.len() implies #[trigger] hex_digit(d[x]) is Some by {
            assert(d[x] == c@[k + x]);
        }
        assert(all_hex(d));
    }
    if value > 255 {
        (None, j)
    } else {
        (Some(value as u8), j)
    }
}

/// The 16 bytes of a table written as text: tokens separated by commas or
/// white space, each a byte in hexadecimal (see [`hex_byte`]).
pub fn parse_table(arg: &str) -> (r: Result<[u8; 16], TableError>)
    ensures
        tokens(arg@).len() != 16 <==> r == Err::<[u8; 16], TableError>(TableError::Count(tokens(arg@).len() as usize)),
        r is Ok <==> tokens(arg@).len() == 16 && forall|k: int| 0 <= k < 16 ==> #[trigger] hex_byte(tokens(arg@)[k]) is Some,
        r matches Ok(t) ==> forall|k: int| 0 <= k < 16 ==> Some(#[trigger] t@[k]) == hex_byte(tokens(arg@)[k]),
        r matches Err(TableError::BadHex { index, token }) ==> {
            &&& tokens(arg@).len() == 16
            &&& index < 16
            &&& hex_byte(tokens(arg@)[index as int]) is None
            &&& forall|k: int| 0 <= k < index ==> #[trigger] hex_byte(tokens(arg@)[k]) is Some
            &&& token@ == trimmed(tokens(arg@)[index as int])
        },
{
    let c = chars_of(arg);
    let ranges = token_ranges(&c);
    let ghost toks = tokens(arg@);
    proof {
        assert(c@.take(c@.len() as int) =~= c@);
    }
    if ranges.len() != 16 {
        return Err(TableError::Count(ranges.len()));
    }
    let mut out = [0u8; 16];
    let mut idx: usize = 0;
    while idx < 16
        invariant
            idx <= 16,
            c@ == arg@,
            toks == tokens(arg@),
            tokens_found(c@, c@.len() as int, ranges@),
            ranges@.len() == 16,
            toks.len() == 16,
            forall|k: int| #![trigger ranges@[k]] 0 <= k < 16 ==> ranges@[k].0 < ranges@[k].1 <= c@.len() && c@.subrange(ranges@[k].0 as int, ranges@[k].1 as int) == toks[k],
            forall|k: int| 0 <= k < idx ==> Some(#[trigger] out@[k]) == hex_byte(toks[k]),
        decreases 16 - idx,
    {
        let (start, end) = ranges[idx];
        proof {
            assert(ranges@[idx as int].0 < ranges@[idx as int].1 <= c@.len());
            assert(c@.subrange(start as int, end as int) == toks[idx as int]);
        }
        let (value, from) = parse_hex_byte(&c, start, end);
        match value {
            Some(v) => {
                out[idx] = v;
            },
            None => {
                let text = arg.substring_char(from, end);
                let token = String::from_str(text);
                proof {
                    assert(token@ == trimmed(toks[idx as int]));
                    assert forall|k: int| 0 <= k < idx implies #[trigger] hex_byte(tokens(arg@)[k]) is Some by {
                        assert(Some(out@[k]) == hex_byte(toks[k]));
                    }
                }
                return Err(TableError::BadHex { index: idx, token });
            },
        }
        idx = idx + 1;
    }
    proof {
        assert forall|k: int| 0 <= k < 16 implies #[trigger] hex_byte(tokens(arg@)[k]) is Some by {
            assert(Some(out@[k]) == hex_byte(toks[k]));
        }
    }
    Ok(out)
}

} // verus!
