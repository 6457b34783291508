//! How often encoded text hits the buckets of the mapping hash where
//! alphabet bytes and other bytes collide: the bytes, and the 16- and
//! 64-byte blocks of the vectorised part, that a two-tier strict decoder
//! would have to re-check.
use vstd::prelude::*;
use crate::engine::b64::{enc_len, encode_spec};
use crate::engine::scalar::encode_base64_fast;
use super::{delta_hash_nibble, nibble_hash};
use super::check_values::unsigned_digits;
use super::text::{chars_of, is_white_space, white_space};

verus! {

/// The buckets of the mapping hash that hold both alphabet bytes and other
/// bytes (1) and those that do not (0).
pub const CONFLICT_BUCKETS: [u8; 16] = [0, 0, 0, 1, 1, 0, 1, 0, 1, 0, 0, 0, 0, 0, 0, 0];

/// Neighbour bits of byte `idx`: the low 3 bits of the next byte, none for
/// the last byte of a 32-bit word or of the text.
pub open spec fn next_low3_at(s: Seq<u8>, idx: int) -> u8 {
    if idx % 4 == 3 || idx + 1 >= s.len() {
        0
    } else {
        s[idx + 1] & 7
    }
}

/// Byte `idx` of `s` hashes into a conflict bucket.
pub open spec fn ambiguous_at(s: Seq<u8>, idx: int) -> bool {
    CONFLICT_BUCKETS@[nibble_hash(s[idx], next_low3_at(s, idx), (idx % 4) as u8) as int] != 0
}

/// Whether byte `idx` of `encoded` hashes into a conflict bucket.
pub fn is_ambiguous_byte(encoded: &[u8], idx: usize) -> (r: bool)
    requires
        idx < encoded@.len(),
    ensures
        r == ambiguous_at(encoded@, idx as int),
{
    let byte = encoded[idx];
    let pos_in_dword = idx % 4;
    let next_low3: u8 = if pos_in_dword == 3 || idx + 1 >= encoded.len() {
        0
    } else {
        let b = encoded[idx + 1];
        assert(b & 7 < 8) by (bit_vector);
        b & 0x07
    };
    let h = delta_hash_nibble(byte, next_low3, pos_in_dword as u8) as usize;
    CONFLICT_BUCKETS[h] != 0
}

/// Number of ambiguous bytes among the first `n`.
pub open spec fn ambiguous_count(s: Seq<u8>, n: int) -> nat
    decreases n,
{
    if n <= 0 {
        0
    } else {
        ambiguous_count(s, n - 1) + if ambiguous_at(s, n - 1) {
            1nat
        } else {
            0nat
        }
    }
}

/// Some byte of the `w` bytes from `start` is ambiguous.
pub open spec fn block_ambiguous(s: Seq<u8>, start: int, w: int) -> bool {
    exists|i: int| start <= i < start + w && #[trigger] ambiguous_at(s, i)
}

/// Number of ambiguous blocks among the first `n` blocks of `w` bytes.
pub open spec fn ambiguous_blocks(s: Seq<u8>, w: int, n: int) -> nat
    decreases n,
{
    if n <= 0 {
        0
    } else {
        ambiguous_blocks(s, w, n - 1) + if block_ambiguous(s, w * (n - 1), w) {
            1nat
        } else {
            0nat
        }
    }
}

/// Ambiguity counts of an encoded text. Its last 4 bytes are left to the
/// scalar tail; of the rest, whole 16-byte blocks are vectorised.
#[derive(Clone, Copy, Debug)]
pub struct Stats {
    pub encoded_len: usize,
    pub safe_len: usize,
    pub vec_len: usize,
    pub amb_bytes: usize,
    pub blocks16_total: usize,
    pub blocks16_amb: usize,
    pub blocks64_total: usize,
    pub blocks64_amb: usize,
}

/// Count the ambiguous bytes of the vectorised part, and its 16- and 64-byte
/// blocks that hold one.
pub fn analyze_encoded(encoded: &[u8]) -> (r: Stats)
    ensures
        r.encoded_len == encoded@.len(),
        r.safe_len == if encoded@.len() >= 4 { encoded@.len() - 4 } else { 0 },
        r.vec_len == r.safe_len / 16 * 16,
        r.amb_bytes == ambiguous_count(encoded@, r.vec_len as int),
        r.blocks16_total == r.vec_len / 16,
        r.blocks16_amb == ambiguous_blocks(encoded@, 16, r.blocks16_total as int),
        r.blocks64_total == r.vec_len / 64,
        r.blocks64_amb == ambiguous_blocks(encoded@, 64, r.blocks64_total as int),
{
    let ghost s = encoded@;
    let len = encoded.len();
    let safe_len: usize = if len >= 4 {
        len - 4
    } else {
        0
    };
    let vec_len = (safe_len / 16) * 16;
    let blocks16_total = vec_len / 16;
    let mut amb_bytes: usize = 0;
    let mut blocks16_amb: usize = 0;
    let mut b: usize = 0;
    while b < blocks16_total
        invariant
            s == encoded@,
            vec_len <= len == s.len(),
            blocks16_total == vec_len / 16,
            b <= blocks16_total,
            amb_bytes == ambiguous_count(s, 16 * b),
            amb_bytes <= 16 * b,
            blocks16_amb == ambiguous_blocks(s, 16, b as int),
            blocks16_amb <= b,
        decreases blocks16_total - b,
    {
        let start = 16 * b;
        let mut any16 = false;
        let mut i = start;
        while i < start + 16
            invariant
                s == encoded@,
                b < blocks16_total,
                blocks16_total == vec_len / 16,
                vec_len <= len == s.len(),
                start == 16 * b,
                start <= i <= start + 16,
                amb_bytes == ambiguous_count(s, i as int),
                amb_bytes <= i,
                any16 <==> exists|j: int| start <= j < i && #[trigger] ambiguous_at(s, j),
            decreases start + 16 - i,
        {
            if is_ambiguous_byte(encoded, i) {
                amb_bytes = amb_bytes + 1;
                any16 = true;
            }
            i = i + 1;
        }
        if any16 {
            blocks16_amb = blocks16_amb + 1;
        }
        proof {
            assert(block_ambiguous(s, 16 * b, 16) == any16);
        }
        b = b + 1;
    }
    let blocks64_total = vec_len / 64;
    let mut blocks64_amb: usize = 0;
    let mut b: usize = 0;
    while b < blocks64_total
        invariant
            s == encoded@,
            vec_len <= len == s.len(),
            blocks64_total == vec_len / 64,
            b <= blocks64_total,
            blocks64_amb == ambiguous_blocks(s, 64, b as int),
            blocks64_amb <= b,
        decreases blocks64_total - b,
    {
        let start = 64 * b;
        let mut any64 = false;
        let mut i = start;
        while i < start + 64 && !any64
            invariant
                s == encoded@,
                b < blocks64_total,
                blocks64_total == vec_len / 64,
                vec_len <= len == s.len(),
                start == 64 * b,
                start <= i <= start + 64,
                any64 <==> exists|j: int| start <= j < i && #[trigger] ambiguous_at(s, j),
            decreases start + 64 - i,
        {
            if is_ambiguous_byte(encoded, i) {
                any64 = true;
            }
            i = i + 1;
        }
        proof {
            if !any64 {
                assert(i == start + 64);
            }
            assert(block_ambiguous(s, 64 * b, 64) == any64);
        }
        if any64 {
            blocks64_amb = blocks64_amb + 1;
        }
        b = b + 1;
    }
    Stats {
        encoded_len: len,
        safe_len,
        vec_len,
        amb_bytes,
        blocks16_total,
        blocks16_amb,
        blocks64_total,
        blocks64_amb,
    }
}

/// The bytes `0, 1, ..., 255, 0, 1, ...`, `size` of them.
pub open spec fn counting_bytes(size: nat) -> Seq<u8> {
    Seq::new(size, |i: int| (i % 256) as u8)
}

/// The encoding of `size` counting bytes, as a benchmark would encode.
pub fn bench_like_encoded(size: usize) -> (r: Vec<u8>)
    requires
        enc_len(size as int) + 64 <= usize::MAX,
    ensures
        r@ == encode_spec(counting_bytes(size as nat)),
{
    let mut input: Vec<u8> = Vec::new();
    let mut i: usize = 0;
    while i < size
        invariant
            i <= size,
            input@ == counting_bytes(i as nat),
        decreases size - i,
    {
        input.push((i % 256) as u8);
        proof {
            assert(input@ =~= counting_bytes((i + 1) as nat));
        }
        i = i + 1;
    }
    let mut encoded = vec![0u8; ((size + 2) / 3) * 4 + 64];
    let n = encode_base64_fast(input.as_slice(), encoded.as_mut_slice());
    encoded.truncate(n);
    proof {
        assert(encoded@ =~= encode_spec(input@));
    }
    encoded
}

// ---------------------------------------------------------------------------
// The list of sizes
// ---------------------------------------------------------------------------

/// The comma-separated pieces of `c`, empty ones included.
pub open spec fn split_commas(c: Seq<char>) -> Seq<Seq<char>>
    decreases c.len(),
{
    if c.len() == 0 {
        seq![Seq::empty()]
    } else {
        let prev = split_commas(c.drop_last());
        if c.last() == ',' {
            prev.push(Seq::empty())
        } else {
            prev.update(prev.len() - 1, prev.last().push(c.last()))
        }
    }
}

/// `p` without its leading white space.
pub open spec fn trim_start(p: Seq<char>) -> Seq<char>
    decreases p.len(),
{
    if p.len() > 0 && is_white_space(p[0]) {
        trim_start(p.drop_first())
    } else {
        p
    }
}

/// `p` without its trailing white space.
pub open spec fn trim_end(p: Seq<char>) -> Seq<char>
    decreases p.len(),
{
    if p.len() > 0 && is_white_space(p.last()) {
        trim_end(p.drop_last())
    } else {
        p
    }
}

/// `p` without its leading and trailing white space.
pub open spec fn trim(p: Seq<char>) -> Seq<char> {
    trim_end(trim_start(p))
}

/// The value of a decimal digit.
pub open spec fn dec_digit(c: char) -> Option<nat> {
    let u = c as u32;
    if 48 <= u <= 57 {
        Some((u - 48) as nat)
    } else {
        None
    }
}

/// Every character of `d` is a decimal digit.
pub open spec fn all_dec(d: Seq<char>) -> bool {
    forall|i: int| 0 <= i < d.len() ==> #[trigger] dec_digit(d[i]) is Some
}

/// The value of a string of decimal digits.
pub open spec fn dec_value(d: Seq<char>) -> nat
    decreases d.len(),
{
    if d.len() == 0 {
        0
    } else {
        dec_value(d.drop_last()) * 10 + match dec_digit(d.last()) {
            Some(v) => v,
            None => 0,
        }
    }
}

/// The size a non-empty piece stands for: an optional `+` and one or more
/// decimal digits worth at most `usize::MAX`.
pub open spec fn size_value(t: Seq<char>) -> Option<usize> {
    let d = unsigned_digits(t);
    if d.len() > 0 && all_dec(d) && dec_value(d) <= usize::MAX {
        Some(dec_value(d) as usize)
    } else {
        None
    }
}

/// The sizes of the first `n` pieces, in order, skipping pieces that are
/// empty once trimmed; `Err` with the first piece that is no size.
pub open spec fn sizes_upto(pieces: Seq<Seq<char>>, n: int) -> Result<Seq<usize>, Seq<char>>
    decreases n,
{
    if n <= 0 {
        Ok(Seq::empty())
    } else {
        match sizes_upto(pieces, n - 1) {
            Err(t) => Err(t),
            Ok(v) => {
                let t = trim(pieces[n - 1]);
                if t.len() == 0 {
                    Ok(v)
                } else {
                    match size_value(t) {
                        Some(x) => Ok(v.push(x)),
                        None => Err(t),
                    }
                }
            },
        }
    }
}

/// Once a piece is no size, the list is no list of sizes.
proof fn lemma_sizes_err_stays(pieces: Seq<Seq<char>>, m: int, n: int)
    requires
        m <= n,
        sizes_upto(pieces, m) is Err,
    ensures
        sizes_upto(pieces, n) == sizes_upto(pieces, m),
    decreases n - m,
{
    if m < n {
        lemma_sizes_err_stays(pieces, m, n - 1);
    }
}

/// The sizes listed in `c`.
pub open spec fn sizes_in(c: Seq<char>) -> Result<Seq<usize>, Seq<char>> {
    sizes_upto(split_commas(c), split_commas(c).len() as int)
}

/// Why a list of sizes does not parse.
pub enum SizesError {
    /// This piece, trimmed, is no size.
    Invalid { token: String },
    /// The list holds no size.
    Empty,
}

/// The pieces found in the first `i` characters, as `(start, end)` ranges.
pub open spec fn pieces_found(c: Seq<char>, i: int, ranges: Seq<(usize, usize)>) -> bool {
    let t = split_commas(c.take(i));
    &&& ranges.len() == t.len()
    &&& forall|k: int| #![trigger ranges[k]] 0 <= k < ranges.len() ==> ranges[k].0 <= ranges[k].1 <= i && c.subrange(ranges[k].0 as int, ranges[k].1 as int) == t[k]
}

/// Split `c` at its commas.
fn comma_ranges(c: &Vec<char>) -> (r: Vec<(usize, usize)>)
    ensures
        pieces_found(c@, c@.len() as int, r@),
        r@.len() >= 1,
{
    let mut ranges: Vec<(usize, usize)> = Vec::new();
    ranges.push((0, 0));
    proof {
        assert(c@.take(0) =~= Seq::<char>::empty());
        assert(c@.subrange(0, 0) =~= Seq::<char>::empty());
    }
    let mut i: usize = 0;
    while i < c.len()
        invariant
            i <= c@.len(),
            pieces_found(c@, i as int, ranges@),
            ranges@.len() >= 1,
            ranges@.last().1 == i,
        decreases c@.len() - i,
    {
        let ghost prev = ranges@;
        proof {
            assert(c@.take(i + 1).drop_last() =~= c@.take(i as int));
            assert(c@.take(i + 1).last() == c@[i as int]);
        }
        let ch = c[i];
        if ch == ',' {
            ranges.push((i + 1, i + 1));
            proof {
                assert(c@.subrange(i + 1, i + 1) =~= Seq::<char>::empty());
                assert forall|k: int| #![trigger ranges@[k]] 0 <= k < ranges@.len() implies ranges@[k].0 <= ranges@[k].1 <= i + 1
                    && c@.subrange(ranges@[k].0 as int, ranges@[k].1 as int) == split_commas(c@.take(i + 1))[k] by {
                    if k < prev.len() {
                        assert(ranges@[k] == prev[k]);
                    }
                }
            }
        } else {
            let last = ranges.len() - 1;
            let (start, _) = ranges[last];
            ranges.set(last, (start, i + 1));
            proof {
                assert(c@.subrange(start as int, i + 1) =~= c@.subrange(start as int, i as int).push(ch));
                assert forall|k: int| #![trigger ranges@[k]] 0 <= k < ranges@.len() implies ranges@[k].0 <= ranges@[k].1 <= i + 1
                    && c@.subrange(ranges@[k].0 as int, ranges@[k].1 as int) == split_commas(c@.take(i + 1))[k] by {
                    if k < last {
                        assert(ranges@[k] == prev[k]);
                    }
                }
            }
        }
        i = i + 1;
    }
    proof {
        assert(c@.take(c@.len() as int) =~= c@);
    }
    ranges
}

/// Trim white space from both ends of `c[start..end]`.
fn trim_range(c: &Vec<char>, start: usize, end: usize) -> (r: (usize, usize))
    requires
        start <= end <= c@.len(),
    ensures
        start <= r.0 <= r.1 <= end,
        c@.subrange(r.0 as int, r.1 as int) == trim(c@.subrange(start as int, end as int)),
{
    let mut s = start;
    while s < end && white_space(c[s])
        invariant
            start <= s <= end <= c@.len(),
            trim_start(c@.subrange(s as int, end as int)) == trim_start(c@.subrange(start as int, end as int)),
        decreases end - s,
    {
        proof {
            assert(c@.subrange(s as int, end as int).drop_first() =~= c@.subrange(s + 1, end as int));
        }
        s = s + 1;
    }
    let mut e = end;
    while e > s && white_space(c[e - 1])
        invariant
            start <= s <= e <= end <= c@.len(),
            trim_start(c@.subrange(start as int, end as int)) == c@.subrange(s as int, end as int),
            trim_end(c@.subrange(s as int, e as int)) == trim_end(c@.subrange(s as int, end as int)),
        decreases e - s,
    {
        proof {
            assert(c@.subrange(s as int, e as int).drop_last() =~= c@.subrange(s as int, e - 1));
        }
        e = e - 1;
    }
    (s, e)
}

/// The size that `c[start..end]` stands for (see [`size_value`]).
fn parse_size(c: &Vec<char>, start: usize, end: usize) -> (r: Option<usize>)
    requires
        start <= end <= c@.len(),
    ensures
        r == size_value(c@.subrange(start as int, end as int)),
{
    let ghost t = c@.subrange(start as int, end as int);
    let mut k = start;
    if k < end && c[k] == '+' {
        k = k + 1;
    }
    let ghost d = c@.subrange(k as int, end as int);
    proof {
        if start < end && c@[start as int] == '+' {
            assert(d =~= t.drop_first());
        } else {
            assert(d =~= t);
        }
    }
    if k == end {
        return None;
    }
    // The value so far, `None` once it exceeds `usize::MAX`.
    let mut value: Option<usize> = Some(0);
    let mut i = k;
    while i < end
        invariant
            start <= k <= i <= end <= c@.len(),
            t == c@.subrange(start as int, end as int),
            d == c@.subrange(k as int, end as int),
            d == unsigned_digits(t),
            d.len() > 0,
            forall|x: int| k <= x < i ==> #[trigger] dec_digit(c@[x]) is Some,
            value == if dec_value(c@.subrange(k as int, i as int)) <= usize::MAX {
                Some(dec_value(c@.subrange(k as int, i as int)) as usize)
            } else {
                None
            },
        decreases end - i,
    {
        let u = c[i] as u32;
        if !(48 <= u && u <= 57) {
            proof {
                assert(d[i - k] == c@[i as int]);
                assert(dec_digit(d[i - k]) is None);
                assert(!all_dec(d));
            }
            return None;
        }
        let dv = (u - 48) as usize;
        proof {
            let pre = c@.subrange(k as int, i + 1);
            assert(pre.drop_last() =~= c@.subrange(k as int, i as int));
            assert(pre.last() == c@[i as int]);
        }
        value = match value {
            Some(v) => match v.checked_mul(10) {
                Some(m) => m.checked_add(dv),
                None => None,
            },
            None => None,
        };
        i = i + 1;
    }
    proof {
        assert(c@.subrange(k as int, end as int) =~= d);
        assert forall|x: int| 0 <= x < d.len() implies #[trigger] dec_digit(d[x]) is Some by {
            assert(d[x] == c@[k + x]);
        }
        assert(all_dec(d));
    }
    value
}

/// The sizes of a comma-separated list (see [`sizes_in`]): pieces are
/// trimmed of white space and empty ones skipped; `Invalid` names the first
/// piece that is no size, `Empty` a list without sizes.
pub fn parse_sizes(arg: &str) -> (r: Result<Vec<usize>, SizesError>)
    ensures
        r is Ok <==> sizes_in(arg@) is Ok && sizes_in(arg@)->Ok_0.len() > 0,
        r matches Ok(v) ==> sizes_in(arg@) == Ok::<Seq<usize>, Seq<char>>(v@),
        r matches Err(SizesError::Invalid { token }) ==> sizes_in(arg@) == Err::<Seq<usize>, Seq<char>>(token@),
        r matches Err(SizesError::Empty) <==> sizes_in(arg@) == Ok::<Seq<usize>, Seq<char>>(Seq::empty()),
{
    let c = chars_of(arg);
    let ranges = comma_ranges(&c);
    let ghost pieces = split_commas(arg@);
    proof {
        assert(c@.take(c@.len() as int) =~= c@);
    }
    let mut out: Vec<usize> = Vec::new();
    let mut k: usize = 0;
    while k < ranges.len()
        invariant
            k <= ranges@.len(),
            c@ == arg@,
            pieces == split_commas(arg@),
            ranges@.len() == pieces.len(),
            forall|j: int| #![trigger ranges@[j]] 0 <= j < ranges@.len() ==> ranges@[j].0 <= ranges@[j].1 <= c@.len() && c@.subrange(ranges@[j].0 as int, ranges@[j].1 as int) == pieces[j],
            sizes_upto(pieces, k as int) == Ok::<Seq<usize>, Seq<char>>(out@),
        decreases ranges@.len() - k,
    {
        let (start, end) = ranges[k];
        let (s, e) = trim_range(&c, start, end);
        proof {
            assert(c@.subrange(start as int, end as int) == pieces[k as int]);
        }
        if s < e {
            match parse_size(&c, s, e) {
                Some(v) => {
                    out.push(v);
                },
                None => {
                    let text = arg.substring_char(s, e);
                    let token = String::from_str(text);
                    proof {
                        assert(token@ == trim(pieces[k as int]));
                        assert(sizes_upto(pieces, k + 1) == Err::<Seq<usize>, Seq<char>>(token@));
                        lemma_sizes_err_stays(pieces, k + 1, pieces.len() as int);
                    }
                    return Err(SizesError::Invalid { token });
                },
            }
        }
        k = k + 1;
    }
    if out.len() == 0 {
        proof {
            assert(out@ =~= Seq::<usize>::empty());
        }
        return Err(SizesError::Empty);
    }
    Ok(out)
}

} // verus!
