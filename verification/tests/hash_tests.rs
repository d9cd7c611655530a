use node::hash::H256;
use node::strutil::parse_u64;

#[test]
fn to_hex_renders_all_words() {
    let h = H256 { w0: 0, w1: 1, w2: 0xdeadbeef, w3: 0xffffffffffffffff };
    assert_eq!(
        h.to_hex(),
        "0000000000000000000000000000000100000000deadbeefffffffffffffffff"
    );
}

#[test]
fn from_hex_round_trip() {
    let h = H256 { w0: 0x0123456789abcdef, w1: 42, w2: 7, w3: 0 };
    let s = h.to_hex();
    assert_eq!(s.len(), 64);
    assert_eq!(H256::from_hex(&s), Some(h));
}

#[test]
fn from_hex_accepts_uppercase() {
    let s = "00000000000000000000000000000000000000000000000000000000DEADBEEF";
    assert_eq!(
        H256::from_hex(s),
        Some(H256 { w0: 0, w1: 0, w2: 0, w3: 0xdeadbeef })
    );
}

#[test]
fn from_hex_rejects_bad_input() {
    assert_eq!(H256::from_hex(""), None);
    assert_eq!(H256::from_hex("abc"), None);
    // 63 and 65 characters
    assert_eq!(H256::from_hex(&"0".repeat(63)), None);
    assert_eq!(H256::from_hex(&"0".repeat(65)), None);
    // one character outside the hex alphabet
    let mut s = "0".repeat(64);
    s.replace_range(10..11, "g");
    assert_eq!(H256::from_hex(&s), None);
}

#[test]
fn parse_u64_exact_values() {
    assert_eq!(parse_u64("0"), Some(0));
    assert_eq!(parse_u64("42"), Some(42));
    assert_eq!(parse_u64("007"), Some(7));
    assert_eq!(parse_u64("18446744073709551615"), Some(u64::MAX));
}

#[test]
fn parse_u64_rejects_bad_input() {
    assert_eq!(parse_u64(""), None);
    assert_eq!(parse_u64("x"), None);
    assert_eq!(parse_u64("12a"), None);
    assert_eq!(parse_u64("-1"), None);
    assert_eq!(parse_u64("18446744073709551616"), None);
    assert_eq!(parse_u64("99999999999999999999999"), None);
}
