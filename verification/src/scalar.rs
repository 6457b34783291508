//! Scalar Base64 entry points at the crate root.
//!
//! These are the scalar engine's encoder, length check and decoder (see
//! [`crate::engine::scalar`]), under the paths of the crate's first API.
use vstd::prelude::*;
use crate::engine::b64::{decode_spec, decoded_len_spec, enc_len, encode_spec};

verus! {

/// Encode raw bytes to standard Base64 (RFC 4648) at the front of
/// `out_data`; returns the number of bytes written (`ceil(n / 3) * 4`).
pub fn encode_base64_fast(in_data: &[u8], out_data: &mut [u8]) -> (written: usize)
    requires
        enc_len(in_data@.len() as int) <= old(out_data)@.len(),
    ensures
        written == enc_len(in_data@.len() as int),
        final(out_data)@.len() == old(out_data)@.len(),
        final(out_data)@.subrange(0, written as int) == encode_spec(in_data@),
{
    crate::engine::scalar::encode_base64_fast(in_data, out_data)
}

/// Decoded length of a Base64 input, accounting for padding: `None` for a
/// length that is not a multiple of 4 or the padding `x===`.
pub fn decoded_len_strict(b64: &[u8]) -> (r: Option<usize>)
    ensures
        match r {
            Some(n) => decoded_len_spec(b64@) == Some(n as int),
            None => decoded_len_spec(b64@) is None,
        },
{
    crate::engine::scalar::decoded_len_strict(b64)
}

/// Decode standard Base64 to raw bytes at the front of `out_data`: `None`
/// for invalid input (bad length, padding or character) or a short output.
pub fn decode_base64_fast(in_data: &[u8], out_data: &mut [u8]) -> (r: Option<usize>)
    ensures
        final(out_data)@.len() == old(out_data)@.len(),
        r is Some <==> (decode_spec(in_data@) is Some && decode_spec(in_data@)->0.len()
            <= old(out_data)@.len()),
        r matches Some(w) ==> final(out_data)@.subrange(0, w as int) == decode_spec(in_data@)->0,
        r matches Some(w) ==> crate::engine::b64::decoded_len_spec(in_data@) == Some(w as int),
        crate::engine::b64::decoded_len_spec(in_data@) matches Some(m) ==> forall|i: int|
            m <= i < old(out_data)@.len() ==> #[trigger] final(out_data)@[i] == old(out_data)@[i],
        crate::engine::b64::decoded_len_spec(in_data@) is None || crate::engine::b64::decoded_len_spec(in_data@)->0
            > old(out_data)@.len() ==> final(out_data)@ == old(out_data)@,
{
    crate::engine::scalar::decode_base64_fast(in_data, out_data)
}

} // verus!
