//! One calculation unit: its protocol, prefix length, segment text buffers
//! and canonical address value, with the per-refresh pipeline that keeps
//! them consistent.

use vstd::prelude::*;

use crate::mask::{mask_calculator, spec_mask_value, spec_wildcard_value};
use crate::text::{parse_bounded, spec_parse_bounded, spec_parse_or_zero, spec_render_segment};
use crate::validate::{
    AddrSliceStore, spec_validate_segment, validate_all_slice_contents,
};
use crate::{IpVersion, address_bits, spec_address_bits, spec_segment_count, spec_segment_max};

verus! {

/// Canonical address value: four octets for IPv4, eight hextets for IPv6.
#[derive(PartialEq, Eq, Structural, Copy, Clone, Debug)]
pub enum IpAddrValue {
    V4(u8, u8, u8, u8),
    V6(u16, u16, u16, u16, u16, u16, u16, u16),
}

/// One live subnet calculation.
pub struct SubnetWindowStore {
    pub ip_version: IpVersion,
    pub ip_addr: IpAddrValue,
    pub mask: i16,
    pub addr_slice_store: AddrSliceStore,
    pub mask_slice_store: AddrSliceStore,
    pub wildcard_slice_store: AddrSliceStore,
    pub is_window_open: bool,
}

/// The value one segment contributes to the canonical address: its parsed
/// value when the text is a digit string of the protocol's radix that fits
/// the segment width, and zero otherwise.
pub open spec fn spec_segment_value(ip_ver: IpVersion, s: Seq<char>) -> int {
    spec_parse_or_zero(ip_ver, s, spec_segment_max(ip_ver))
}

/// The canonical address the in-use segments denote, in fragment order.
pub open spec fn spec_normalized_addr(ip_ver: IpVersion, v: Seq<Seq<char>>) -> IpAddrValue {
    match ip_ver {
        IpVersion::IPv4 => IpAddrValue::V4(
            spec_segment_value(ip_ver, v[0]) as u8,
            spec_segment_value(ip_ver, v[1]) as u8,
            spec_segment_value(ip_ver, v[2]) as u8,
            spec_segment_value(ip_ver, v[3]) as u8,
        ),
        IpVersion::IPv6 => IpAddrValue::V6(
            spec_segment_value(ip_ver, v[0]) as u16,
            spec_segment_value(ip_ver, v[1]) as u16,
            spec_segment_value(ip_ver, v[2]) as u16,
            spec_segment_value(ip_ver, v[3]) as u16,
            spec_segment_value(ip_ver, v[4]) as u16,
            spec_segment_value(ip_ver, v[5]) as u16,
            spec_segment_value(ip_ver, v[6]) as u16,
            spec_segment_value(ip_ver, v[7]) as u16,
        ),
    }
}

/// The segment buffers after validation: the in-use segments rewritten,
/// the rest untouched.
pub open spec fn spec_validated_slices(ip_ver: IpVersion, v: Seq<Seq<char>>) -> Seq<Seq<char>> {
    Seq::new(
        8,
        |i: int|
            if i < spec_segment_count(ip_ver) {
                spec_validate_segment(ip_ver, v[i])
            } else {
                v[i]
            },
    )
}

impl SubnetWindowStore {
    /// The prefix length stays within the protocol's range.
    pub open spec fn wf(&self) -> bool {
        0 <= self.mask <= spec_address_bits(self.ip_version)
    }

    /// A fresh calculation: IPv4, prefix length 32, every segment buffer
    /// empty, the window open.
    pub fn new_window() -> (r: Self)
        ensures
            r.wf(),
            r.ip_version == IpVersion::IPv4,
            r.ip_addr == IpAddrValue::V4(0u8, 0u8, 0u8, 0u8),
            r.mask == 32,
            r.is_window_open,
            forall|i: int| 0 <= i < 8 ==> r.addr_slice_store@[i] == Seq::<char>::empty(),
            forall|i: int| 0 <= i < 8 ==> r.mask_slice_store@[i] == Seq::<char>::empty(),
            forall|i: int| 0 <= i < 8 ==> r.wildcard_slice_store@[i] == Seq::<char>::empty(),
    {
        Self {
            ip_version: IpVersion::IPv4,
            ip_addr: IpAddrValue::V4(0, 0, 0, 0),
            mask: 32,
            addr_slice_store: Default::default(),
            mask_slice_store: Default::default(),
            wildcard_slice_store: Default::default(),
            is_window_open: true,
        }
    }
}

/// Parses one (already validated or raw) segment's text, degrading to zero
/// where it does not parse or does not fit the segment.
pub fn parse_segment(ip_ver: IpVersion, s: &str) -> (v: u16)
    ensures
        v as int == spec_segment_value(ip_ver, s@),
{
    let max: u32 = match ip_ver {
        IpVersion::IPv4 => 255,
        IpVersion::IPv6 => 0xffff,
    };
    match parse_bounded(ip_ver, s, max) {
        Some(v) => v as u16,
        None => 0,
    }
}

/// Reparses the unit's address segments into the canonical address value.
/// Segments that are empty or fail to parse contribute zero; no failure is
/// visible to the caller. Everything but the canonical address is left
/// untouched.
pub fn update_addressing(store: &mut SubnetWindowStore)
    ensures
        final(store).ip_addr == spec_normalized_addr(
            old(store).ip_version,
            old(store).addr_slice_store@,
        ),
        final(store).ip_version == old(store).ip_version,
        final(store).mask == old(store).mask,
        final(store).addr_slice_store@ == old(store).addr_slice_store@,
        final(store).mask_slice_store@ == old(store).mask_slice_store@,
        final(store).wildcard_slice_store@ == old(store).wildcard_slice_store@,
        final(store).is_window_open == old(store).is_window_open,
{
    match store.ip_version {
        IpVersion::IPv4 => {
            let a = parse_segment(IpVersion::IPv4, store.addr_slice_store.slice_a.as_str());
            let b = parse_segment(IpVersion::IPv4, store.addr_slice_store.slice_b.as_str());
            let c = parse_segment(IpVersion::IPv4, store.addr_slice_store.slice_c.as_str());
            let d = parse_segment(IpVersion::IPv4, store.addr_slice_store.slice_d.as_str());
            store.ip_addr = IpAddrValue::V4(a as u8, b as u8, c as u8, d as u8);
        },
        IpVersion::IPv6 => {
            let a = parse_segment(IpVersion::IPv6, store.addr_slice_store.slice_a.as_str());
            let b = parse_segment(IpVersion::IPv6, store.addr_slice_store.slice_b.as_str());
            let c = parse_segment(IpVersion::IPv6, store.addr_slice_store.slice_c.as_str());
            let d = parse_segment(IpVersion::IPv6, store.addr_slice_store.slice_d.as_str());
            let e = parse_segment(IpVersion::IPv6, store.addr_slice_store.slice_e.as_str());
            let f = parse_segment(IpVersion::IPv6, store.addr_slice_store.slice_f.as_str());
            let g = parse_segment(IpVersion::IPv6, store.addr_slice_store.slice_g.as_str());
            let h = parse_segment(IpVersion::IPv6, store.addr_slice_store.slice_h.as_str());
            store.ip_addr = IpAddrValue::V6(a, b, c, d, e, f, g, h);
        },
    }
}

/// As `update_addressing`, but on an owned unit, handing back the unit with
/// its canonical address recomputed.
pub fn update_addressing_non_mut(store: SubnetWindowStore) -> (r: SubnetWindowStore)
    ensures
        r.ip_addr == spec_normalized_addr(store.ip_version, store.addr_slice_store@),
        r.ip_version == store.ip_version,
        r.mask == store.mask,
        r.addr_slice_store@ == store.addr_slice_store@,
        r.mask_slice_store@ == store.mask_slice_store@,
        r.wildcard_slice_store@ == store.wildcard_slice_store@,
        r.is_window_open == store.is_window_open,
{
    let mut store2 = store;
    update_addressing(&mut store2);
    store2
}

/// Applies prefix-length text typed by the user. The text is decimal for
/// either protocol; a value outside the protocol's range, or text that is
/// no number, is rejected and the prior prefix length kept.
pub fn try_set_prefix(store: &mut SubnetWindowStore, text: &str)
    requires
        old(store).wf(),
    ensures
        final(store).wf(),
        ({
            let parsed = spec_parse_bounded(
                IpVersion::IPv4,
                text@,
                spec_address_bits(old(store).ip_version),
            );
            match parsed {
                Some(v) => final(store).mask == v,
                None => final(store).mask == old(store).mask,
            }
        }),
        final(store).ip_version == old(store).ip_version,
        final(store).ip_addr == old(store).ip_addr,
        final(store).addr_slice_store@ == old(store).addr_slice_store@,
        final(store).mask_slice_store@ == old(store).mask_slice_store@,
        final(store).wildcard_slice_store@ == old(store).wildcard_slice_store@,
        final(store).is_window_open == old(store).is_window_open,
{
    let bits = address_bits(store.ip_version);
    match parse_bounded(IpVersion::IPv4, text, bits as u32) {
        Some(v) => {
            store.mask = v as i16;
        },
        None => {},
    }
}

/// How a refreshed unit `r` relates to the unit `u` it came from: protocol,
/// prefix length and open flag kept; address segments validated; mask and
/// wildcard text derived from the prefix length for every in-use segment;
/// and the canonical address folded from the validated segments.
pub open spec fn spec_refreshed_from(u: SubnetWindowStore, r: SubnetWindowStore) -> bool {
    &&& r.ip_version == u.ip_version
    &&& r.mask == u.mask
    &&& r.is_window_open == u.is_window_open
    &&& r.addr_slice_store@ == spec_validated_slices(u.ip_version, u.addr_slice_store@)
    &&& r.ip_addr == spec_normalized_addr(
        u.ip_version,
        spec_validated_slices(u.ip_version, u.addr_slice_store@),
    )
    &&& forall|j: int|
        0 <= j < spec_segment_count(u.ip_version) ==> r.mask_slice_store@[j]
            == spec_render_segment(
            u.ip_version,
            spec_mask_value(u.ip_version, u.mask as int, j),
        ) && r.wildcard_slice_store@[j] == spec_render_segment(
            u.ip_version,
            spec_wildcard_value(u.ip_version, u.mask as int, j),
        )
    &&& forall|j: int|
        spec_segment_count(u.ip_version) <= j < 8 ==> r.mask_slice_store@[j]
            == u.mask_slice_store@[j] && r.wildcard_slice_store@[j] == u.wildcard_slice_store@[j]
}

/// The full per-refresh pipeline of one unit: validate every in-use address
/// segment, derive mask and wildcard text from the prefix length, then fold
/// the validated segments into the canonical address.
pub fn refresh_window(store: &mut SubnetWindowStore)
    requires
        old(store).wf(),
    ensures
        final(store).wf(),
        spec_refreshed_from(*old(store), *final(store)),
{
    validate_all_slice_contents(store.ip_version, &mut store.addr_slice_store);
    proof {
        assert(store.addr_slice_store@ =~= spec_validated_slices(
            old(store).ip_version,
            old(store).addr_slice_store@,
        ));
    }
    mask_calculator(
        store.ip_version,
        &mut store.mask,
        &mut store.mask_slice_store,
        &mut store.wildcard_slice_store,
    );
    update_addressing(store);
}

} // verus!
