use oxid64::engine::scalar::{decode_base64_fast, decoded_len_strict, encode_base64_fast};

fn fill_xorshift(buf: &mut [u8]) {
    let mut x = 0x1234_5678_9abc_def0_u64;
    for b in buf {
        x ^= x << 13;
        x ^= x >> 7;
        x ^= x << 17;
        *b = x as u8;
    }
}

#[test]
fn matches_rfc4648_vectors() {
    const CASES: [(&[u8], &str); 7] = [
        (b"", ""),
        (b"f", "Zg=="),
        (b"fo", "Zm8="),
        (b"foo", "Zm9v"),
        (b"foob", "Zm9vYg=="),
        (b"fooba", "Zm9vYmE="),
        (b"foobar", "Zm9vYmFy"),
    ];

    for (input, expected) in CASES {
        let mut out = vec![0u8; input.len().div_ceil(3) * 4 + 8];
        let written = encode_base64_fast(input, &mut out);
        assert_eq!(&out[..written], expected.as_bytes(), "encode mismatch");

        let mut decoded = vec![0u8; input.len() + 8];
        let decoded_len =
            decode_base64_fast(expected.as_bytes(), &mut decoded).expect("decode failed");
        assert_eq!(decoded_len, input.len(), "decode len mismatch");
        assert_eq!(&decoded[..decoded_len], input, "decode mismatch");
    }
}

#[test]
fn scalar_decode_roundtrip_many_sizes() {
    let max_len = 8192usize;
    for len in 0..=max_len {
        let mut input = vec![0u8; len];
        fill_xorshift(&mut input);

        let mut encoded = vec![0u8; len.div_ceil(3) * 4 + 8];
        let enc_written = encode_base64_fast(&input, &mut encoded);
        let encoded = &encoded[..enc_written];

        let expected_len = decoded_len_strict(encoded).expect("decoded_len_strict failed");
        assert_eq!(expected_len, len, "decoded_len mismatch at len={len}");

        let mut out = vec![0u8; len + 8];
        let written = decode_base64_fast(encoded, &mut out).expect("decode failed");
        assert_eq!(written, len, "len mismatch at len={len}");
        assert_eq!(&out[..written], input.as_slice(), "mismatch at len={len}");
    }
}

#[test]
fn scalar_decode_rejects_invalid() {
    let mut out = [0u8; 64];
    assert_eq!(decoded_len_strict(b""), Some(0));
    assert!(decode_base64_fast(b"A", &mut out).is_none());
    assert!(decode_base64_fast(b"AAA", &mut out).is_none());
    assert!(decode_base64_fast(b"AAAAA", &mut out).is_none());
    assert!(decode_base64_fast(b"A===", &mut out).is_none());
    assert!(decode_base64_fast(b"AA*A", &mut out).is_none());
    assert!(decode_base64_fast(b"AA=A", &mut out).is_none());
    // The crate-level scalar entry points reject the same inputs.
    assert_eq!(oxid64::scalar::decoded_len_strict(b""), Some(0));
    assert!(oxid64::scalar::decode_base64_fast(b"A", &mut out).is_none());
    assert!(oxid64::scalar::decode_base64_fast(b"AAA", &mut out).is_none());
    assert!(oxid64::scalar::decode_base64_fast(b"AAAAA", &mut out).is_none());
    assert!(oxid64::scalar::decode_base64_fast(b"A===", &mut out).is_none());
    assert!(oxid64::scalar::decode_base64_fast(b"AA*A", &mut out).is_none());
    assert!(oxid64::scalar::decode_base64_fast(b"AA=A", &mut out).is_none());
}

#[test]
fn scalar_decode_rejects_short_output() {
    let mut out = [0u8; 2];
    assert!(decode_base64_fast(b"Zm9v", &mut out).is_none());
    let mut out3 = [0u8; 3];
    assert_eq!(decode_base64_fast(b"Zm9v", &mut out3), Some(3));
    assert_eq!(&out3, b"foo");
}

#[test]
fn scalar_decode_accepts_noncanonical_padding_bits() {
    // The unused low bits of the last character are ignored on decode, so
    // "Zh==" decodes to "f" although "f" encodes as "Zg==".
    let mut out = [0u8; 4];
    assert_eq!(decode_base64_fast(b"Zh==", &mut out), Some(1));
    assert_eq!(out[0], b'f');
    let mut enc = [0u8; 4];
    assert_eq!(encode_base64_fast(b"f", &mut enc), 4);
    assert_eq!(&enc, b"Zg==");
}

#[test]
fn scalar_encode_leaves_rest_of_output() {
    let mut out = [0xAAu8; 12];
    let written = encode_base64_fast(b"Man", &mut out);
    assert_eq!(written, 4);
    assert_eq!(&out[..4], b"TWFu");
    assert!(out[4..].iter().all(|&b| b == 0xAA));
}

#[test]
fn scalar_decode_frames_the_output() {
    let mut out = [7u8; 10];
    assert_eq!(decode_base64_fast(b"AAA", &mut out), None);
    assert_eq!(out, [7u8; 10]);
    let mut short = [7u8; 2];
    assert_eq!(decode_base64_fast(b"TWFu", &mut short), None);
    assert_eq!(short, [7u8; 2]);
    let mut out = [7u8; 10];
    assert_eq!(decode_base64_fast(b"TWFuTW*=", &mut out), None);
    assert!(out[5..].iter().all(|&b| b == 7));
    let mut out = [7u8; 10];
    assert_eq!(decode_base64_fast(b"TWE=", &mut out), Some(2));
    assert_eq!(&out[..2], b"Ma");
    assert!(out[2..].iter().all(|&b| b == 7));
}
