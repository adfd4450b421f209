use blogview::itoa2::{append_itoa, append_utoa, utoa};

#[test]
fn test_utoa() {
    let tests = [
        0,
        1,
        12,
        123,
        1234,
        1234_5,
        1234_5678_9,
        1234_5678_9012_3,
        1234_5678_9012_3456_7u64,
    ];
    for x in tests {
        let mut buf: Vec<u8> = Vec::with_capacity(64);
        append_utoa(&mut buf, x);
        let got = String::from_utf8(buf).unwrap();
        let expected = format!("{}", x);
        assert_eq!(got, expected);
    }
}

#[test]
fn test_itoa() {
    const X: i64 = -101;

    let mut buf: Vec<u8> = Vec::with_capacity(64);
    let mut sample_buf = itoa::Buffer::new();
    append_itoa(&mut buf, X);
    let got = String::from_utf8(buf).unwrap();
    let expected = sample_buf.format(X);
    assert_eq!(got, expected);
}

#[test]
fn utoa_extremes() {
    assert_eq!(utoa(u64::MAX), b"18446744073709551615".to_vec());
    assert_eq!(utoa(100), b"100".to_vec());
    assert_eq!(utoa(9), b"9".to_vec());
}

#[test]
fn itoa_extremes() {
    let mut buf = Vec::new();
    append_itoa(&mut buf, i64::MIN);
    assert_eq!(buf, b"-9223372036854775808".to_vec());
    let mut buf = Vec::new();
    append_itoa(&mut buf, 0);
    assert_eq!(buf, b"0".to_vec());
}
