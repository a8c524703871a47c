//! Subnet parameter engine: validates per-segment address text, derives
//! network mask and wildcard segments from a prefix length, and folds
//! validated segments into a canonical address value, for IPv4 and IPv6.

use vstd::prelude::*;

pub mod text;
pub mod validate;
pub mod mask;
pub mod window;
pub mod calculator;

verus! {

/// The addressing protocol a calculation works in. It selects the number of
/// segments in use, each segment's radix and width, and the prefix-length
/// range.
#[derive(PartialEq, Eq, Structural, Copy, Clone, Debug)]
pub enum IpVersion {
    IPv4,
    IPv6,
}

/// Number of address segments the protocol uses.
pub open spec fn spec_segment_count(ip_ver: IpVersion) -> int {
    match ip_ver {
        IpVersion::IPv4 => 4,
        IpVersion::IPv6 => 8,
    }
}

/// Width of one segment in bits.
pub open spec fn spec_segment_width(ip_ver: IpVersion) -> int {
    match ip_ver {
        IpVersion::IPv4 => 8,
        IpVersion::IPv6 => 16,
    }
}

/// Largest value one segment can hold: 255 for an IPv4 octet, 0xffff for an
/// IPv6 hextet.
pub open spec fn spec_segment_max(ip_ver: IpVersion) -> int {
    match ip_ver {
        IpVersion::IPv4 => 255,
        IpVersion::IPv6 => 0xffff,
    }
}

/// Total address width in bits, the upper bound of the prefix-length range.
pub open spec fn spec_address_bits(ip_ver: IpVersion) -> int {
    spec_segment_count(ip_ver) * spec_segment_width(ip_ver)
}

/// Total address width in bits: 32 for IPv4, 128 for IPv6.
pub fn address_bits(ip_ver: IpVersion) -> (n: i16)
    ensures
        n == spec_address_bits(ip_ver),
{
    match ip_ver {
        IpVersion::IPv4 => 32,
        IpVersion::IPv6 => 128,
    }
}

} // verus!
