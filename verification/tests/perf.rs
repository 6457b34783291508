use oxid64::perf::{checksum_edge, make_encoded, make_input, sample_acc, starts_with, xorshift_fill};

#[test]
fn benchmark_inputs() {
    assert_eq!(make_input(5), vec![0, 1, 2, 3, 4]);
    let big = make_input(300);
    assert_eq!(big[250], 250);
    assert_eq!(big[251], 0);
    assert_eq!(big[299], 48);
    assert_eq!(make_encoded(b"Man"), b"TWFu".to_vec());
    assert_eq!(make_encoded(b""), Vec::<u8>::new());
    assert_eq!(make_encoded(b"Ma"), b"TWE=".to_vec());
    let mut buf = [0u8; 4];
    xorshift_fill(&mut buf);
    assert_eq!(buf, [77, 59, 195, 36]);
}

#[test]
fn benchmark_checksums() {
    let buf = [10u8, 20, 30, 40, 50];
    assert_eq!(sample_acc(&buf, 0), 0);
    assert_eq!(sample_acc(&buf, 5), 3284495);
    assert_eq!(sample_acc(&buf, 1), 1 ^ 10 ^ (10 << 8) ^ (10 << 16));
    let mut c = 7u64;
    checksum_edge(&buf, 0, &mut c);
    assert_eq!(c, 7);
    checksum_edge(&buf, 4, &mut c);
    assert_eq!(c, 7 ^ 10 ^ 40);
}

#[test]
fn prefixes() {
    assert!(starts_with("oxid64-avx2-encode", "oxid64-avx2"));
    assert!(starts_with("abc", ""));
    assert!(!starts_with("oxid64", "oxid64-avx2"));
    assert!(!starts_with("oxid64-avx512", "oxid64-avx2"));
}
