use oxid64::{decoded_len, encoded_len};

#[test]
fn encoded_len_examples() {
    assert_eq!(encoded_len(0), 0);
    assert_eq!(encoded_len(1), 4);
    assert_eq!(encoded_len(3), 4);
    assert_eq!(encoded_len(13), 20);
}

#[test]
fn decoded_len_examples() {
    assert_eq!(decoded_len(b"SGVsbG8="), Some(5));
    assert_eq!(decoded_len(b"SGVsbG8sIHdvcmxkIQ=="), Some(13));
    assert_eq!(decoded_len(b"abc"), None);
    assert_eq!(decoded_len(b""), Some(0));
    assert_eq!(decoded_len(b"A==="), None);
    assert_eq!(decoded_len(b"AAAA"), Some(3));
}

#[test]
fn length_bounds_hold_for_small_inputs() {
    for n in 0..2048usize {
        let e = encoded_len(n);
        assert_eq!(e % 4, 0);
        assert!(e >= n);
    }
    let samples: [&[u8]; 6] = [b"", b"AAAA", b"AA==", b"AAA=", b"AAAAAAAA", b"QUJD"];
    for s in samples {
        let d = decoded_len(s).unwrap();
        assert!(d <= s.len());
        assert_eq!(s.len() % 4, 0);
    }
}
