//! SSE4.2 codec of the first SIMD API: an SSSE3 encode kernel with 96- and
//! 48-byte steps, and the scalar decoder.
use vstd::prelude::*;
use crate::engine::b64::{decodable, decoded_bytes, decoded_len_spec, enc_len, encode_spec};
use crate::engine::lanes::EncodeLane;
use crate::engine::models::greedy_steps;
use crate::engine::scalar::{decode_base64_fast, decoded_len_strict};
use crate::engine::vector::{lemma_untouched_step, untouched_from, encode_group_run, encode_kernel_ok, groups_encoded, lemma_encode_step};
use super::Base64Decoder;

verus! {

/// SSE4.2 codec.
pub struct Sse42Decoder;

impl Sse42Decoder {
    /// Encode raw bytes to Base64: the SSSE3 kernel, then the scalar tail.
    pub fn encode_to_slice(input: &[u8], out: &mut [u8]) -> (r: usize)
        requires
            enc_len(input@.len() as int) <= old(out)@.len(),
        ensures
            r == enc_len(input@.len() as int),
            final(out)@.len() == old(out)@.len(),
            final(out)@.subrange(0, r as int) == encode_spec(input@),
    {
        let (consumed, written) = encode_base64_ssse3(input, out);
        crate::engine::finish_encode(input, out, consumed, written)
    }
}

impl Base64Decoder for Sse42Decoder {
    open spec fn validates_all(&self) -> bool {
        true
    }

    fn decode(&self, input: &[u8]) -> (r: Option<Vec<u8>>) {
        let out_len = match decoded_len_strict(input) {
            Some(n) => n,
            None => return None,
        };
        let mut out = vec![0u8; out_len];
        match decode_base64_fast(input, out.as_mut_slice()) {
            Some(_) => {
                proof {
                    assert(out@ =~= out@.subrange(0, out_len as int));
                }
                Some(out)
            },
            None => None,
        }
    }

    fn encode(&self, input: &[u8]) -> (r: Vec<u8>) {
        let out_len = crate::engine::scalar::encoded_len(input.len());
        let mut out = vec![0u8; out_len];
        let written = Self::encode_to_slice(input, out.as_mut_slice());
        assert(out@ =~= out@.subrange(0, written as int));
        out
    }
}

/// Input bytes the encode kernel consumes for `len` input bytes: nothing
/// under 52 bytes; else 96-byte steps while 144 bytes remain, then 48-byte
/// steps while 52 remain.
pub open spec fn sse42_encode_consumed(len: int) -> int {
    if len < 52 {
        0
    } else {
        let a = greedy_steps(len, 143, 96);
        let b = greedy_steps(len - 96 * a, 51, 48);
        96 * (a as int) + 48 * (b as int)
    }
}

/// SSSE3 encode kernel: inputs under 52 bytes are left to the scalar
/// encoder; 96-byte steps (eight 12-byte vectors) while at least 144 bytes
/// remain, then 48-byte steps while at least 52 remain. Returns
/// `(consumed, written)`.
pub fn encode_base64_ssse3(in_data: &[u8], out_data: &mut [u8]) -> (r: (usize, usize))
    requires
        enc_len(in_data@.len() as int) <= old(out_data)@.len(),
    ensures
        final(out_data)@.len() == old(out_data)@.len(),
        encode_kernel_ok(in_data@, final(out_data)@, r),
        untouched_from(final(out_data)@, old(out_data)@, r.1 as int),
        r.0 == sse42_encode_consumed(in_data@.len() as int),
{
    let ghost d = in_data@;
    let n = in_data.len();
    let olen = out_data.len();
    let kind = EncodeLane::Pmul;
    proof {
        assert(groups_encoded(out_data@, d, 0, 0));
    }
    if n < 52 {
        return (0, 0);
    }
    let limit = n - 52;
    let ghost len = n as int;
    let ghost a = greedy_steps(len, 143, 96);
    let mut ip: usize = 0;
    let mut op: usize = 0;
    if n >= 144 {
        let unroll_limit = n - 144;
        while ip <= unroll_limit
            invariant
                d == in_data@,
                n == d.len(),
                unroll_limit == n - 144,
                len == n,
                a == greedy_steps(len, 143, 96),
                ip + 96 * greedy_steps(len - ip, 143, 96) == 96 * a,
                enc_len(n as int) <= out_data@.len(),
                olen == out_data@.len(),
                out_data@.len() == old(out_data)@.len(),
                ip % 3 == 0,
                ip <= n,
                op == ip / 3 * 4,
                untouched_from(out_data@, old(out_data)@, op as int),
                groups_encoded(out_data@, d, 0, (ip / 3) as int),
            decreases n - ip,
        {
            let ghost prev = out_data@;
            encode_group_run(in_data, ip / 3, 32, out_data, &kind);
            proof {
                lemma_encode_step(d, prev, out_data@, (ip / 3) as int, 32);
                lemma_untouched_step(old(out_data)@, prev, out_data@, 4 * ((ip / 3) as int), 4 * ((ip / 3) as int + 32));
                assert(greedy_steps(len - ip, 143, 96) == 1 + greedy_steps(len - (ip + 96), 143, 96));
            }
            ip = ip + 96;
            op = op + 128;
        }
    }
    let ghost ia = ip as int;
    let ghost b = greedy_steps(len - ia, 51, 48);
    proof {
        assert(ia == 96 * a);
    }
    while ip <= limit
        invariant
            len == n,
            ia == 96 * a,
            b == greedy_steps(len - ia, 51, 48),
            ip + 48 * greedy_steps(len - ip, 51, 48) == ia + 48 * b,
            d == in_data@,
            n == d.len(),
            limit == n - 52,
            enc_len(n as int) <= out_data@.len(),
            olen == out_data@.len(),
            out_data@.len() == old(out_data)@.len(),
            ip % 3 == 0,
            ip <= n,
            op == ip / 3 * 4,
            untouched_from(out_data@, old(out_data)@, op as int),
            groups_encoded(out_data@, d, 0, (ip / 3) as int),
        decreases n - ip,
    {
        let ghost prev = out_data@;
        encode_group_run(in_data, ip / 3, 16, out_data, &kind);
        proof {
            lemma_encode_step(d, prev, out_data@, (ip / 3) as int, 16);
            lemma_untouched_step(old(out_data)@, prev, out_data@, 4 * ((ip / 3) as int), 4 * ((ip / 3) as int + 16));
            assert(greedy_steps(len - ip, 51, 48) == 1 + greedy_steps(len - (ip + 48), 51, 48));
        }
        ip = ip + 48;
        op = op + 64;
    }
    proof {
        assert(ip == ia + 48 * b);
    }
    (ip, op)
}

} // verus!
