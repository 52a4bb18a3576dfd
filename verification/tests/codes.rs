use rushort::base62::read_code;
use rushort::codes::CodeSet;
use rushort::{base62_decode, base62_encode};

#[test]
fn base62_roundtrip() {
    assert_eq!(base62_encode(0), "0");
    assert_eq!(base62_encode(1), "1");
    assert_eq!(base62_encode(61), "z");
    assert_eq!(base62_encode(62), "10");
    assert_eq!(base62_encode(62 * 62 - 1), "zz");
    for n in [0u64, 1, 61, 62, 3843, 3844, u64::MAX / 2, u64::MAX - 1] {
        let encoded = base62_encode(n);
        assert_eq!(base62_decode(&encoded), Some(n), "roundtrip failed for {n}");
    }
    assert_eq!(base62_decode(""), None);
    assert_eq!(base62_decode("a!"), None);
}

#[test]
fn codes_have_no_leading_zero_and_at_most_eleven_digits() {
    assert_eq!(base62_encode(u64::MAX), "LygHa16AHYF");
    assert_eq!(base62_decode("LygHa16AHYF"), Some(u64::MAX));
    assert_eq!(base62_decode("LygHa16AHYG"), None);
    assert_eq!(base62_decode("0000000000001"), Some(1));
    assert_eq!(read_code(b"10"), Some(62));
    assert_eq!(read_code(b"010"), None);
    assert_eq!(read_code(b"0"), Some(0));
    assert_eq!(read_code(b"0000000000001"), None);
    assert_eq!(read_code(b""), None);
}

#[test]
fn a_set_of_codes_knows_what_is_new() {
    let mut codes = CodeSet::new();
    assert!(codes.insert("a"));
    assert!(codes.insert("b"));
    assert!(!codes.insert("a"));
    assert!(codes.insert("10"));
    assert!(!codes.insert("010"));
    assert!(!codes.insert("not a code"));
}
