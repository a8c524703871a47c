use subnet_calculator::IpVersion;
use subnet_calculator::window::{
    parse_segment, refresh_window, try_set_prefix, update_addressing, update_addressing_non_mut,
    IpAddrValue, SubnetWindowStore,
};

fn unit_with_v4_slices(a: &str, b: &str, c: &str, d: &str) -> SubnetWindowStore {
    let mut unit = SubnetWindowStore::new_window();
    unit.addr_slice_store.slice_a = String::from(a);
    unit.addr_slice_store.slice_b = String::from(b);
    unit.addr_slice_store.slice_c = String::from(c);
    unit.addr_slice_store.slice_d = String::from(d);
    unit
}

#[test]
fn normalizes_validated_ipv4_fragments() {
    let mut unit = unit_with_v4_slices("192", "168", "1", "1");
    update_addressing(&mut unit);
    assert_eq!(unit.ip_addr, IpAddrValue::V4(192, 168, 1, 1));
}

#[test]
fn empty_or_unparseable_fragments_contribute_zero() {
    let mut unit = unit_with_v4_slices("", "abc", "10", "999");
    update_addressing(&mut unit);
    assert_eq!(unit.ip_addr, IpAddrValue::V4(0, 0, 10, 0));
}

#[test]
fn pipeline_validates_before_normalizing() {
    // "1000" must never reach the normalizer as-is: the validator first
    // rewrites it to "100".
    let mut unit = unit_with_v4_slices("1000", "168", "1", "1");
    refresh_window(&mut unit);
    assert_eq!(unit.addr_slice_store.slice_a, "100");
    assert_eq!(unit.ip_addr, IpAddrValue::V4(100, 168, 1, 1));
}

#[test]
fn normalizes_ipv6_fragments_as_hexadecimal() {
    let mut unit = SubnetWindowStore::new_window();
    unit.ip_version = IpVersion::IPv6;
    unit.addr_slice_store.slice_a = String::from("ff");
    unit.addr_slice_store.slice_b = String::from("A0");
    unit.addr_slice_store.slice_h = String::from("1");
    update_addressing(&mut unit);
    assert_eq!(
        unit.ip_addr,
        IpAddrValue::V6(0xff, 0xa0, 0, 0, 0, 0, 0, 1)
    );
}

#[test]
fn non_mut_normalization_returns_updated_unit() {
    let unit = unit_with_v4_slices("10", "0", "0", "7");
    let updated = update_addressing_non_mut(unit);
    assert_eq!(updated.ip_addr, IpAddrValue::V4(10, 0, 0, 7));
    assert_eq!(updated.mask, 32);
    assert!(updated.is_window_open);
}

#[test]
fn parse_segment_degrades_to_zero() {
    assert_eq!(parse_segment(IpVersion::IPv4, "255"), 255);
    assert_eq!(parse_segment(IpVersion::IPv4, "256"), 0);
    assert_eq!(parse_segment(IpVersion::IPv4, ""), 0);
    assert_eq!(parse_segment(IpVersion::IPv4, "1a"), 0);
    assert_eq!(parse_segment(IpVersion::IPv6, "ffff"), 0xffff);
    assert_eq!(parse_segment(IpVersion::IPv6, "10000"), 0);
}

#[test]
fn prefix_text_in_range_is_applied() {
    let mut unit = SubnetWindowStore::new_window();
    try_set_prefix(&mut unit, "26");
    assert_eq!(unit.mask, 26);
    try_set_prefix(&mut unit, "0");
    assert_eq!(unit.mask, 0);
}

#[test]
fn prefix_text_out_of_range_is_rejected() {
    let mut unit = SubnetWindowStore::new_window();
    try_set_prefix(&mut unit, "33");
    assert_eq!(unit.mask, 32);
    try_set_prefix(&mut unit, "-1");
    assert_eq!(unit.mask, 32);
    try_set_prefix(&mut unit, "");
    assert_eq!(unit.mask, 32);
    try_set_prefix(&mut unit, "9999");
    assert_eq!(unit.mask, 32);
}

#[test]
fn ipv6_prefix_range_is_wider() {
    let mut unit = SubnetWindowStore::new_window();
    unit.ip_version = IpVersion::IPv6;
    try_set_prefix(&mut unit, "128");
    assert_eq!(unit.mask, 128);
    try_set_prefix(&mut unit, "129");
    assert_eq!(unit.mask, 128);
}

#[test]
fn refresh_derives_mask_and_wildcard() {
    let mut unit = unit_with_v4_slices("10", "1", "2", "3");
    try_set_prefix(&mut unit, "24");
    refresh_window(&mut unit);
    assert_eq!(unit.mask_slice_store.slice_a, "255");
    assert_eq!(unit.mask_slice_store.slice_d, "0");
    assert_eq!(unit.wildcard_slice_store.slice_a, "0");
    assert_eq!(unit.wildcard_slice_store.slice_d, "255");
    assert_eq!(unit.ip_addr, IpAddrValue::V4(10, 1, 2, 3));
    assert_eq!(unit.mask, 24);
}
