use oxid64::engine::avx2::{decode_avx2, decode_avx2_strict, encode_base64_avx2, Avx2Decoder};
use oxid64::engine::avx512vbmi::{decode_avx512, decode_avx512_strict, encode_base64_avx512, Avx512VbmiDecoder};
use oxid64::engine::neon::{decode_neon, decode_neon_strict, encode_base64_neon, encode_neon_kernel, NeonDecoder};
use oxid64::engine::{run_decode_kernel, SimdEngine};
use oxid64::engine::scalar::{decode_base64_fast, encode_base64_fast, ScalarDecoder};
use oxid64::engine::ssse3::{decode_ssse3, decode_ssse3_strict, encode_base64_ssse3, Ssse3Decoder};
use oxid64::engine::wasm_simd128::{decode_wasm, decode_wasm_strict, encode_base64_wasm, WasmSimd128Decoder};
use oxid64::engine::{CpuFeatures, DecodeOpts};
use oxid64::simd::ssse3::decode_base64_ssse3;
use oxid64::{Base64Decoder, Decoder};

fn fill_xorshift(buf: &mut [u8], seed: u64) {
    let mut x = seed;
    for b in buf {
        x ^= x << 13;
        x ^= x >> 7;
        x ^= x << 17;
        *b = x as u8;
    }
}

fn all_engines(strict: bool) -> Vec<(&'static str, Decoder)> {
    vec![
        ("scalar", Decoder::Scalar(ScalarDecoder)),
        ("ssse3", Decoder::Ssse3(Ssse3Decoder::with_opts(DecodeOpts { strict }))),
        ("avx2", Decoder::Avx2(Avx2Decoder::with_opts(DecodeOpts { strict }))),
        (
            "avx512vbmi",
            Decoder::Avx512Vbmi(Avx512VbmiDecoder::with_opts(DecodeOpts { strict })),
        ),
        ("neon", Decoder::Neon(NeonDecoder::with_opts(DecodeOpts { strict }))),
        (
            "wasm",
            Decoder::WasmSimd128(WasmSimd128Decoder::with_opts(DecodeOpts { strict })),
        ),
    ]
}

fn scalar_encode(input: &[u8]) -> Vec<u8> {
    let mut out = vec![0u8; input.len().div_ceil(3) * 4];
    let w = encode_base64_fast(input, &mut out);
    out.truncate(w);
    out
}

fn roundtrip_all(strict: bool) {
    {
        for (name, engine) in all_engines(strict) {
            for len in (0..=300usize).chain([511, 512, 513, 700, 1023, 1024, 1025, 2047, 2048, 4096]) {
                let mut input = vec![0u8; len];
                fill_xorshift(&mut input, 0x9e37_79b9_7f4a_7c15 ^ len as u64);
                let expected = scalar_encode(&input);

                let mut enc = vec![0u8; expected.len()];
                let written = engine.encode_to_slice(&input, &mut enc);
                assert_eq!(written, expected.len(), "{name} encode len at {len}");
                assert_eq!(enc, expected, "{name} encode at {len}");

                let mut dec = vec![0u8; len];
                let n = engine
                    .decode_to_slice(&enc, &mut dec)
                    .unwrap_or_else(|| panic!("{name} decode failed at {len}"));
                assert_eq!(n, len, "{name} decode len at {len}");
                assert_eq!(dec, input, "{name} decode at {len}");

                assert_eq!(engine.encode(&input), expected, "{name} encode vec at {len}");
                assert_eq!(engine.decode(&enc), Some(input.clone()), "{name} decode vec at {len}");
            }
        }
    }
}

#[test]
fn strict_engines_roundtrip_and_match_scalar() {
    roundtrip_all(true);
}

#[test]
fn non_strict_engines_roundtrip_and_match_scalar() {
    roundtrip_all(false);
}

#[test]
fn strict_engines_reject_every_invalid_position() {
    let mut input = vec![0u8; 300];
    fill_xorshift(&mut input, 7);
    let enc = scalar_encode(&input);
    for (name, engine) in all_engines(true) {
        for pos in 0..enc.len() {
            for bad in [b'*', b'-', 0x80u8, 0xFFu8, b'\n'] {
                let mut corrupt = enc.clone();
                corrupt[pos] = bad;
                let mut out = vec![0u8; input.len()];
                assert!(
                    engine.decode_to_slice(&corrupt, &mut out).is_none(),
                    "{name} accepted {bad:#x} at {pos}"
                );
                assert_eq!(engine.decode(&corrupt), None, "{name} decode vec at {pos}");
            }
        }
    }
}

#[test]
fn engines_reject_malformed_length_and_padding() {
    for strict in [true, false] {
        for (name, engine) in all_engines(strict) {
            let mut out = [0u8; 64];
            for bad in [&b"A"[..], b"AAA", b"AAAAA", b"A===", b"AA=A", b"=AAA"] {
                assert!(engine.decode_to_slice(bad, &mut out).is_none(), "{name} {bad:?}");
            }
            assert_eq!(engine.decode_to_slice(b"", &mut out), Some(0), "{name} empty");
        }
    }
}

#[test]
fn engines_reject_short_output() {
    let mut input = vec![0u8; 300];
    fill_xorshift(&mut input, 11);
    let enc = scalar_encode(&input);
    for strict in [true, false] {
        for (name, engine) in all_engines(strict) {
            let mut out = vec![0u8; input.len() - 1];
            assert!(engine.decode_to_slice(&enc, &mut out).is_none(), "{name}");
        }
    }
}

/// Encode `len` bytes, then corrupt the character at `pos`.
fn corrupt_at(len: usize, pos: usize) -> (Vec<u8>, usize) {
    let raw_len = len / 4 * 3;
    let mut input = vec![0u8; raw_len];
    fill_xorshift(&mut input, 3);
    let mut enc = scalar_encode(&input);
    assert_eq!(enc.len(), len);
    enc[pos] = b'*';
    (enc, raw_len)
}

fn non_strict_accepts<D: Base64Decoder>(engine: &D, len: usize, pos: usize) -> bool {
    let (enc, raw_len) = corrupt_at(len, pos);
    let mut out = vec![0u8; raw_len];
    engine.decode_to_slice(&enc, &mut out).is_some()
}

#[test]
fn ssse3_non_strict_checks_first_vector_of_each_block() {
    let d = Ssse3Decoder::with_opts(DecodeOpts { strict: false });
    for pos in 0..128usize {
        let unchecked = (16..64).contains(&pos);
        assert_eq!(non_strict_accepts(&d, 128, pos), unchecked, "pos {pos}");
    }
}

#[test]
fn wasm_non_strict_checks_first_vector_of_each_block() {
    let d = WasmSimd128Decoder::with_opts(DecodeOpts { strict: false });
    for pos in 0..128usize {
        let unchecked = (16..64).contains(&pos);
        assert_eq!(non_strict_accepts(&d, 128, pos), unchecked, "pos {pos}");
    }
}

#[test]
fn avx2_non_strict_skips_second_vector() {
    let d = Avx2Decoder::with_opts(DecodeOpts { strict: false });
    for (len, ranges) in [
        (200usize, vec![32..64]),
        (328, vec![32..64, 160..192]),
        (456, vec![32..64, 160..192, 288..320]),
    ] {
        for pos in 0..len {
            let unchecked = ranges.iter().any(|r| r.contains(&pos));
            assert_eq!(non_strict_accepts(&d, len, pos), unchecked, "len {len} pos {pos}");
        }
    }
}

#[test]
fn avx512_non_strict_skips_second_vector() {
    let d = Avx512VbmiDecoder::with_opts(DecodeOpts { strict: false });
    for (len, ranges) in [(392usize, vec![64..128]), (648, vec![64..128, 320..384])] {
        for pos in 0..len {
            let unchecked = ranges.iter().any(|r| r.contains(&pos));
            assert_eq!(non_strict_accepts(&d, len, pos), unchecked, "len {len} pos {pos}");
        }
    }
}

#[test]
fn neon_non_strict_checks_last_chunk_of_each_group() {
    let d = NeonDecoder::with_opts(DecodeOpts { strict: false });
    for (len, ranges) in [(320usize, vec![0..192]), (576, vec![0..192, 256..448])] {
        for pos in 0..len {
            let unchecked = ranges.iter().any(|r| r.contains(&pos));
            assert_eq!(non_strict_accepts(&d, len, pos), unchecked, "len {len} pos {pos}");
        }
    }
}

#[test]
fn default_options_are_strict() {
    assert!(DecodeOpts::default().strict);
    let (enc, raw_len) = corrupt_at(128, 20);
    let mut out = vec![0u8; raw_len];
    assert!(Ssse3Decoder::new().decode_to_slice(&enc, &mut out).is_none());
    assert!(Ssse3Decoder::default().decode_to_slice(&enc, &mut out).is_none());
    assert!(Avx2Decoder::new().decode_to_slice(&enc, &mut out).is_none());
    assert!(Avx512VbmiDecoder::new().decode_to_slice(&enc, &mut out).is_none());
    assert!(NeonDecoder::new().decode_to_slice(&enc, &mut out).is_none());
    assert!(WasmSimd128Decoder::new().decode_to_slice(&enc, &mut out).is_none());
}

#[test]
fn select_follows_priority() {
    let f = |avx512vbmi, avx2, ssse3, neon, simd128| CpuFeatures {
        avx512vbmi,
        avx2,
        ssse3,
        neon,
        simd128,
    };
    assert!(matches!(Decoder::select(&f(true, true, true, false, false)), Decoder::Avx512Vbmi(_)));
    assert!(matches!(Decoder::select(&f(false, true, true, false, false)), Decoder::Avx2(_)));
    assert!(matches!(Decoder::select(&f(false, false, true, false, false)), Decoder::Ssse3(_)));
    assert!(matches!(Decoder::select(&f(false, false, false, true, false)), Decoder::Neon(_)));
    assert!(matches!(
        Decoder::select(&f(false, false, false, false, true)),
        Decoder::WasmSimd128(_)
    ));
    assert!(matches!(Decoder::select(&f(false, false, false, false, false)), Decoder::Scalar(_)));
}

#[test]
fn readme_examples() {
    let engine = Decoder::select(&CpuFeatures {
        avx512vbmi: false,
        avx2: true,
        ssse3: true,
        neon: false,
        simd128: false,
    });
    let encoded = engine.encode(b"Hello, world!");
    assert_eq!(encoded, b"SGVsbG8sIHdvcmxkIQ==");
    assert_eq!(engine.decode(&encoded).unwrap(), b"Hello, world!");
    assert_eq!(engine.decode(b"b3hpZDY0").unwrap(), b"oxid64");
    assert_eq!(engine.encode(b"oxid64"), b"b3hpZDY0");
    let mut buf = vec![0u8; 5];
    let n = engine.decode_to_slice(b"SGVsbG8=", &mut buf).unwrap();
    assert_eq!(&buf[..n], b"Hello");
    let mut buf = vec![0u8; 8];
    let n = engine.encode_to_slice(b"Hello", &mut buf);
    assert_eq!(&buf[..n], b"SGVsbG8=");
}

#[test]
fn scalar_fast_matches_engine_decode() {
    let mut input = vec![0u8; 999];
    fill_xorshift(&mut input, 5);
    let enc = scalar_encode(&input);
    let mut a = vec![0u8; 999];
    let mut b = vec![0u8; 999];
    assert_eq!(decode_base64_fast(&enc, &mut a), Some(999));
    assert_eq!(Avx2Decoder::new().decode_to_slice(&enc, &mut b), Some(999));
    assert_eq!(a, b);
}

type Kernel = fn(&[u8], &mut [u8]) -> Option<(usize, usize)>;

/// Valid input of `len` characters through `kernel` with a full-size output:
/// the bytes the vector loops consume and write.
fn kernel_run(kernel: Kernel, len: usize) -> Option<(usize, usize)> {
    let mut raw = vec![0u8; len / 4 * 3];
    fill_xorshift(&mut raw, 11);
    let enc = scalar_encode(&raw);
    let mut out = vec![0u8; raw.len() + 4];
    kernel(&enc, &mut out)
}

#[test]
fn kernels_consume_their_schedule() {
    let lens = [0usize, 8, 40, 100, 200, 328, 456, 648, 1000];
    let cases: [(&str, [Kernel; 2], [usize; 9]); 5] = [
        ("ssse3", [decode_ssse3, decode_ssse3_strict], [0, 0, 32, 96, 192, 320, 448, 640, 992]),
        ("wasm", [decode_wasm, decode_wasm_strict], [0, 0, 32, 96, 192, 320, 448, 640, 992]),
        ("avx2", [decode_avx2, decode_avx2_strict], [0, 0, 32, 80, 192, 320, 448, 640, 992]),
        ("avx512", [decode_avx512, decode_avx512_strict], [0, 0, 0, 64, 128, 256, 384, 576, 960]),
        ("neon", [decode_neon, decode_neon_strict], [0, 0, 0, 64, 192, 320, 448, 640, 960]),
    ];
    for (name, kernels, consumed) in cases {
        for kernel in kernels {
            for (len, c) in lens.iter().zip(consumed) {
                assert_eq!(kernel_run(kernel, *len), Some((c, c / 4 * 3)), "{name} len {len}");
            }
        }
    }
}

#[test]
fn kernels_reject_a_validated_bad_byte() {
    // A bad character in the last vector the loops consume is validated in
    // both modes; one past it is left to the scalar tail.
    let cases: [(Kernel, usize, usize); 5] = [
        (decode_ssse3, 200, 192),
        (decode_wasm, 200, 192),
        (decode_avx2, 200, 192),
        (decode_avx512, 200, 128),
        (decode_neon, 200, 192),
    ];
    for (kernel, len, consumed) in cases {
        let (enc, raw_len) = corrupt_at(len, consumed - 1);
        let mut out = vec![0u8; raw_len];
        assert_eq!(kernel(&enc, &mut out), None, "len {len}");
        let (enc, raw_len) = corrupt_at(len, consumed);
        let mut out = vec![0u8; raw_len];
        assert_eq!(kernel(&enc, &mut out), Some((consumed, consumed / 4 * 3)), "len {len}");
    }
}

type EncodeKernel = fn(&[u8], &mut [u8]) -> (usize, usize);

#[test]
fn encode_kernels_consume_their_schedule() {
    let lens = [0usize, 30, 51, 52, 100, 200, 300, 500, 1000];
    let cases: [(&str, EncodeKernel, [usize; 9]); 7] = [
        ("ssse3", encode_base64_ssse3, [0, 0, 0, 48, 96, 192, 288, 492, 996]),
        ("wasm", encode_base64_wasm, [0, 0, 0, 48, 96, 192, 288, 492, 996]),
        ("avx2", encode_base64_avx2, [0, 0, 0, 0, 48, 168, 264, 456, 960]),
        ("avx512", encode_base64_avx512, [0, 0, 0, 0, 0, 0, 192, 384, 960]),
        ("neon", encode_base64_neon, [0, 0, 48, 48, 96, 192, 288, 480, 960]),
        ("sse42", oxid64::simd::sse42::encode_base64_ssse3, [0, 0, 0, 48, 96, 192, 288, 480, 960]),
        ("simd avx2", oxid64::simd::avx2::encode_base64_avx2, [0, 0, 0, 0, 48, 168, 264, 456, 960]),
    ];
    for (name, kernel, consumed) in cases {
        for (len, c) in lens.iter().zip(consumed) {
            let mut raw = vec![0u8; *len];
            fill_xorshift(&mut raw, 5);
            let enc = scalar_encode(&raw);
            let mut out = vec![0u8; enc.len()];
            assert_eq!(kernel(&raw, &mut out), (c, c / 3 * 4), "{name} len {len}");
            assert_eq!(&out[..c / 3 * 4], &enc[..c / 3 * 4], "{name} len {len}");
        }
    }
}

#[test]
fn strict_preloadless_kernel_consumes_whole_vectors() {
    for (len, c) in [(0usize, 0usize), (32, 0), (36, 32), (40, 32), (100, 96), (200, 192), (1000, 992)] {
        assert_eq!(kernel_run(decode_base64_ssse3, len), Some((c, c / 4 * 3)), "len {len}");
    }
    let (enc, raw_len) = corrupt_at(200, 191);
    let mut out = vec![0u8; raw_len];
    assert_eq!(decode_base64_ssse3(&enc, &mut out), None);
    let (enc, raw_len) = corrupt_at(200, 192);
    let mut out = vec![0u8; raw_len];
    assert_eq!(decode_base64_ssse3(&enc, &mut out), Some((192, 144)));
}

#[test]
fn rejecting_kernels_write_only_their_steps() {
    // A bad first character: every kernel validates it and rejects; the
    // output bytes from the schedule's written prefix on keep their canary.
    let cases: [(&str, Kernel, usize, usize); 7] = [
        ("ssse3", decode_ssse3, 200, 192),
        ("wasm", decode_wasm_strict, 200, 192),
        ("avx2", decode_avx2, 328, 320),
        ("avx2 strict", decode_avx2_strict, 456, 448),
        ("avx512", decode_avx512, 648, 576),
        ("neon strict", decode_neon_strict, 200, 192),
        ("simd ssse3", decode_base64_ssse3, 200, 192),
    ];
    for (name, kernel, len, consumed) in cases {
        let (enc, raw_len) = corrupt_at(len, 0);
        let canary = 0xA5u8;
        let mut out = vec![canary; raw_len + 17];
        assert_eq!(kernel(&enc, &mut out[..raw_len + 4]), None, "{name}");
        let bound = consumed / 4 * 3;
        assert!(out[..bound].iter().any(|&b| b != canary), "{name}");
        assert!(out[bound..].iter().all(|&b| b == canary), "{name}");
    }
}

#[test]
fn run_decode_kernel_follows_each_schedule() {
    let cases: [(SimdEngine, usize); 5] = [
        (SimdEngine::Ssse3, 192),
        (SimdEngine::WasmSimd128, 192),
        (SimdEngine::Avx2, 192),
        (SimdEngine::Avx512Vbmi, 128),
        (SimdEngine::Neon, 192),
    ];
    for (engine, consumed) in cases {
        for strict in [false, true] {
            let mut raw = vec![0u8; 150];
            fill_xorshift(&mut raw, 11);
            let enc = scalar_encode(&raw);
            let mut out = vec![0u8; raw.len() + 4];
            assert_eq!(run_decode_kernel(&engine, strict, &enc, &mut out), Some((consumed, consumed / 4 * 3)));
            let (bad, raw_len) = corrupt_at(200, consumed - 1);
            let mut out = vec![0u8; raw_len + 4];
            assert_eq!(run_decode_kernel(&engine, strict, &bad, &mut out), None);
        }
    }
}

#[test]
fn neon_encode_kernel_consumes_whole_blocks() {
    for len in [0usize, 47, 48, 100, 200] {
        let mut raw = vec![0u8; len];
        fill_xorshift(&mut raw, 3);
        let enc = scalar_encode(&raw);
        let mut out = vec![0u8; enc.len()];
        let c = len / 48 * 48;
        assert_eq!(encode_neon_kernel(&raw, &mut out), (c, c / 3 * 4));
        assert_eq!(&out[..c / 3 * 4], &enc[..c / 3 * 4]);
    }
}

#[test]
fn rejecting_decoders_leave_the_rest_of_the_output() {
    // The AVX2 decoder on a bad first character, with an output of the exact
    // decoded length: nothing from the schedule's written prefix on changes.
    for (len, consumed) in [(200usize, 192usize), (328, 320), (456, 448)] {
        let (bad, raw_len) = corrupt_at(len, 0);
        for strict in [true, false] {
            let canary = if strict { 0xA5u8 } else { 0x5Au8 };
            let mut out = vec![canary; raw_len + 17];
            let d = Avx2Decoder::with_opts(DecodeOpts { strict });
            assert_eq!(d.decode_to_slice(&bad, &mut out[..raw_len]), None);
            let bound = consumed / 4 * 3;
            assert!(out[bound..].iter().all(|&b| b == canary), "len {len} strict {strict}");
        }
    }
}

#[test]
fn kernels_follow_their_output_guards() {
    // 100 characters decode to 75 bytes. With exactly 75 output bytes the
    // SSSE3 guards stop one 16-byte step early; with 4 more they take it.
    let mut raw = vec![0u8; 75];
    fill_xorshift(&mut raw, 17);
    let enc = scalar_encode(&raw);
    let mut out = vec![0u8; 75];
    assert_eq!(decode_ssse3(&enc, &mut out), Some((80, 60)));
    let mut out = vec![0u8; 79];
    assert_eq!(decode_ssse3(&enc, &mut out), Some((96, 72)));
    // A bad character past the steps taken is left to the scalar tail.
    let (bad, raw_len) = corrupt_at(100, 90);
    let mut out = vec![0u8; raw_len];
    assert_eq!(decode_ssse3_strict(&bad, &mut out), Some((80, 60)));
    let mut out = vec![0u8; raw_len + 4];
    assert_eq!(decode_ssse3_strict(&bad, &mut out), None);
    // An output too short for any step: nothing decoded, nothing rejected.
    let mut out = vec![0u8; 10];
    assert_eq!(decode_ssse3_strict(&bad, &mut out), Some((0, 0)));
}
