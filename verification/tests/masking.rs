use subnet_calculator::IpVersion;
use subnet_calculator::mask::{mask_calculator, mask_slice_calc, update_slice_from_slice_id};
use subnet_calculator::validate::AddrSliceStore;

fn derive(ip_ver: IpVersion, prefix: i16) -> (AddrSliceStore, AddrSliceStore) {
    let mut mask = AddrSliceStore::default();
    let mut wildcard = AddrSliceStore::default();
    let mut cidr = prefix;
    mask_calculator(ip_ver, &mut cidr, &mut mask, &mut wildcard);
    assert_eq!(cidr, prefix);
    (mask, wildcard)
}

fn v4_strings(s: &AddrSliceStore) -> String {
    format!("{}.{}.{}.{}", s.slice_a, s.slice_b, s.slice_c, s.slice_d)
}

#[test]
fn ipv4_prefix_24() {
    let (mask, wildcard) = derive(IpVersion::IPv4, 24);
    assert_eq!(v4_strings(&mask), "255.255.255.0");
    assert_eq!(v4_strings(&wildcard), "0.0.0.255");
}

#[test]
fn ipv4_prefix_26() {
    let (mask, wildcard) = derive(IpVersion::IPv4, 26);
    assert_eq!(v4_strings(&mask), "255.255.255.192");
    assert_eq!(v4_strings(&wildcard), "0.0.0.63");
}

#[test]
fn ipv4_prefix_0() {
    let (mask, wildcard) = derive(IpVersion::IPv4, 0);
    assert_eq!(v4_strings(&mask), "0.0.0.0");
    assert_eq!(v4_strings(&wildcard), "255.255.255.255");
}

#[test]
fn ipv4_prefix_32() {
    let (mask, wildcard) = derive(IpVersion::IPv4, 32);
    assert_eq!(v4_strings(&mask), "255.255.255.255");
    assert_eq!(v4_strings(&wildcard), "0.0.0.0");
}

#[test]
fn ipv4_prefix_12_boundary_segment() {
    let (mask, wildcard) = derive(IpVersion::IPv4, 12);
    assert_eq!(v4_strings(&mask), "255.240.0.0");
    assert_eq!(v4_strings(&wildcard), "0.15.255.255");
}

#[test]
fn ipv4_unused_segments_untouched() {
    let (mask, wildcard) = derive(IpVersion::IPv4, 24);
    assert_eq!(mask.slice_e, "");
    assert_eq!(mask.slice_h, "");
    assert_eq!(wildcard.slice_e, "");
    assert_eq!(wildcard.slice_h, "");
}

#[test]
fn ipv6_prefix_64() {
    let (mask, wildcard) = derive(IpVersion::IPv6, 64);
    for seg in [&mask.slice_a, &mask.slice_b, &mask.slice_c, &mask.slice_d] {
        assert_eq!(seg, "ffff");
    }
    for seg in [&mask.slice_e, &mask.slice_f, &mask.slice_g, &mask.slice_h] {
        assert_eq!(seg, "0000");
    }
    for seg in [
        &wildcard.slice_a,
        &wildcard.slice_b,
        &wildcard.slice_c,
        &wildcard.slice_d,
    ] {
        assert_eq!(seg, "0000");
    }
    for seg in [
        &wildcard.slice_e,
        &wildcard.slice_f,
        &wildcard.slice_g,
        &wildcard.slice_h,
    ] {
        assert_eq!(seg, "ffff");
    }
}

#[test]
fn ipv6_prefix_68_boundary_segment() {
    let (mask, wildcard) = derive(IpVersion::IPv6, 68);
    assert_eq!(mask.slice_d, "ffff");
    assert_eq!(mask.slice_e, "f000");
    assert_eq!(mask.slice_f, "0000");
    assert_eq!(wildcard.slice_e, "0fff");
}

#[test]
fn ipv6_prefix_128() {
    let (mask, wildcard) = derive(IpVersion::IPv6, 128);
    assert_eq!(mask.slice_h, "ffff");
    assert_eq!(wildcard.slice_h, "0000");
}

#[test]
fn mask_and_wildcard_segments_are_complements() {
    for prefix in 0..=32i16 {
        let (mask, wildcard) = derive(IpVersion::IPv4, prefix);
        for (m, w) in [
            (&mask.slice_a, &wildcard.slice_a),
            (&mask.slice_b, &wildcard.slice_b),
            (&mask.slice_c, &wildcard.slice_c),
            (&mask.slice_d, &wildcard.slice_d),
        ] {
            let m: u32 = m.parse().unwrap();
            let w: u32 = w.parse().unwrap();
            assert_eq!(m | w, 255, "prefix {prefix}");
            assert_eq!(m & w, 0, "prefix {prefix}");
        }
    }
    for prefix in 0..=128i16 {
        let (mask, wildcard) = derive(IpVersion::IPv6, prefix);
        for (m, w) in [
            (&mask.slice_a, &wildcard.slice_a),
            (&mask.slice_d, &wildcard.slice_d),
            (&mask.slice_e, &wildcard.slice_e),
            (&mask.slice_h, &wildcard.slice_h),
        ] {
            let m = u32::from_str_radix(m, 16).unwrap();
            let w = u32::from_str_radix(w, 16).unwrap();
            assert_eq!(m | w, 0xffff, "prefix {prefix}");
            assert_eq!(m & w, 0, "prefix {prefix}");
        }
    }
}

#[test]
fn single_slice_calculation_touches_one_segment() {
    let mut mask = AddrSliceStore::default();
    let mut wildcard = AddrSliceStore::default();
    // prefix 11: one whole segment covered, three bits spilling into the next
    mask_slice_calc(IpVersion::IPv4, 1, 1, 3, &mut mask, &mut wildcard);
    assert_eq!(mask.slice_b, "224");
    assert_eq!(wildcard.slice_b, "31");
    assert_eq!(mask.slice_a, "");
    assert_eq!(mask.slice_c, "");
}

#[test]
fn update_slice_by_id_in_range() {
    let mut store = AddrSliceStore::default();
    update_slice_from_slice_id(2, String::from("17"), &mut store);
    assert_eq!(store.slice_c, "17");
    assert_eq!(store.slice_a, "");
}

#[test]
fn update_slice_by_id_out_of_range_changes_nothing() {
    let mut store = AddrSliceStore::default();
    store.slice_a = String::from("1");
    update_slice_from_slice_id(9, String::from("17"), &mut store);
    update_slice_from_slice_id(-1, String::from("17"), &mut store);
    assert_eq!(store.slice_a, "1");
    assert_eq!(store.slice_b, "");
    assert_eq!(store.slice_h, "");
}
