use subnet_calculator::IpVersion;
use subnet_calculator::validate::{
    validate_all_slice_contents, validate_slice_contents, AddrSliceStore,
};

fn validated(ip_ver: IpVersion, text: &str) -> String {
    let mut s = String::from(text);
    validate_slice_contents(ip_ver, &mut s);
    s
}

#[test]
fn ipv4_octet_above_255_is_trimmed_per_position() {
    assert_eq!(validated(IpVersion::IPv4, "299"), "29");
    assert_eq!(validated(IpVersion::IPv4, "256"), "25");
}

#[test]
fn ipv4_leading_two_rule_deletes_one_digit_per_pass() {
    // The sweep is position-local and single-pass: it deletes only the
    // first digit above five after a leading two.
    assert_eq!(validated(IpVersion::IPv4, "266"), "26");
    assert_eq!(validated(IpVersion::IPv4, "29"), "2");
}

#[test]
fn ipv4_keeps_leading_zeroes() {
    assert_eq!(validated(IpVersion::IPv4, "037"), "037");
}

#[test]
fn ipv4_single_digit_survives() {
    assert_eq!(validated(IpVersion::IPv4, "9"), "9");
    assert_eq!(validated(IpVersion::IPv4, "2"), "2");
}

#[test]
fn ipv4_truncates_to_three_characters() {
    assert_eq!(validated(IpVersion::IPv4, "12345"), "123");
}

#[test]
fn ipv4_leading_digit_above_two_dropped_when_three_present() {
    assert_eq!(validated(IpVersion::IPv4, "399"), "99");
}

#[test]
fn ipv4_non_digits_removed() {
    assert_eq!(validated(IpVersion::IPv4, "abc"), "");
    assert_eq!(validated(IpVersion::IPv4, "x25"), "25");
    assert_eq!(validated(IpVersion::IPv4, "2a5"), "25");
    assert_eq!(validated(IpVersion::IPv4, ""), "");
}

#[test]
fn ipv4_validated_value_is_at_most_255() {
    for raw in ["299", "399", "999", "888", "256", "255", "271"] {
        let v: u32 = match validated(IpVersion::IPv4, raw).parse() {
            Ok(v) => v,
            Err(_) => 0,
        };
        assert!(v <= 255, "{raw} validated above 255");
    }
}

#[test]
fn ipv6_all_invalid_becomes_empty() {
    assert_eq!(validated(IpVersion::IPv6, "ZZZZ1"), "");
}

#[test]
fn ipv6_keeps_hex_digits_and_case() {
    assert_eq!(validated(IpVersion::IPv6, "G1A2"), "1A2");
    assert_eq!(validated(IpVersion::IPv6, "AbCd"), "AbCd");
    assert_eq!(validated(IpVersion::IPv6, "ffff"), "ffff");
}

#[test]
fn ipv6_truncates_to_four_characters() {
    assert_eq!(validated(IpVersion::IPv6, "12345"), "1234");
}

#[test]
fn validate_all_leaves_unused_ipv4_segments_alone() {
    let mut store = AddrSliceStore::default();
    store.slice_a = String::from("299");
    store.slice_b = String::from("abc");
    store.slice_c = String::from("12");
    store.slice_d = String::from("4444");
    store.slice_e = String::from("zz!");
    store.slice_h = String::from("9999");
    validate_all_slice_contents(IpVersion::IPv4, &mut store);
    assert_eq!(store.slice_a, "29");
    assert_eq!(store.slice_b, "");
    assert_eq!(store.slice_c, "12");
    assert_eq!(store.slice_d, "44");
    assert_eq!(store.slice_e, "zz!");
    assert_eq!(store.slice_h, "9999");
}

#[test]
fn validate_all_covers_every_ipv6_segment() {
    let mut store = AddrSliceStore::default();
    store.slice_a = String::from("fffff");
    store.slice_e = String::from("G1A2");
    store.slice_h = String::from("01x");
    validate_all_slice_contents(IpVersion::IPv6, &mut store);
    assert_eq!(store.slice_a, "ffff");
    assert_eq!(store.slice_e, "1A2");
    assert_eq!(store.slice_h, "01");
}
