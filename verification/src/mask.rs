//! Mask and wildcard derivation from a prefix length.
//!
//! A prefix of `p` bits covers `p / w` whole segments of width `w` and
//! spills `p % w` bits into the next segment. A covered segment's mask is
//! all ones, an uncovered one's is zero, and the boundary segment carries a
//! left-aligned run of the spilled bits. The wildcard is the segment-wise
//! complement. Both are written into the display buffers as text, decimal
//! for IPv4 and zero-padded hexadecimal for IPv6.

use vstd::prelude::*;
use vstd::arithmetic::div_mod::{lemma_fundamental_div_mod, lemma_fundamental_div_mod_converse};
use vstd::arithmetic::power2::{lemma2_to64, lemma_pow2_strictly_increases, pow2};
use vstd::bits::lemma_u32_shl_is_mul;

use crate::validate::AddrSliceStore;
use crate::text::{render_segment, spec_render_segment};
use crate::{IpVersion, spec_address_bits, spec_segment_count, spec_segment_max,
    spec_segment_width};

verus! {

/// Value of mask segment `i` for the given prefix length: all ones below
/// the covered boundary, zero above it, and at the boundary a left-aligned
/// run of the spilled bits (zero when the prefix lands on a segment edge).
pub open spec fn spec_mask_value(ip_ver: IpVersion, prefix: int, i: int) -> int {
    let w = spec_segment_width(ip_ver);
    let full = prefix / w;
    let spill = prefix % w;
    if i < full {
        spec_segment_max(ip_ver)
    } else if i == full && spill > 0 {
        spec_segment_max(ip_ver) - (pow2((w - spill) as nat) - 1)
    } else {
        0
    }
}

/// Value of wildcard segment `i`: the segment-wise complement of the mask.
pub open spec fn spec_wildcard_value(ip_ver: IpVersion, prefix: int, i: int) -> int {
    spec_segment_max(ip_ver) - spec_mask_value(ip_ver, prefix, i)
}

/// Law: every mask segment value lies between zero and the segment maximum.
pub proof fn lemma_mask_value_bounds(ip_ver: IpVersion, prefix: int, i: int)
    ensures
        0 <= spec_mask_value(ip_ver, prefix, i) <= spec_segment_max(ip_ver),
{
    let w = spec_segment_width(ip_ver);
    let spill = prefix % w;
    if i == prefix / w && spill > 0 {
        lemma2_to64();
        lemma_pow2_strictly_increases(0, (w - spill) as nat);
        lemma_pow2_strictly_increases((w - spill) as nat, w as nat);
    }
}

/// Law: for every protocol, prefix length in range, and segment position,
/// the mask and wildcard segment values are exact bitwise complements: their
/// union is the all-ones segment and their intersection is empty.
pub proof fn lemma_mask_wildcard_partition(ip_ver: IpVersion, prefix: int, i: int)
    requires
        0 <= prefix <= spec_address_bits(ip_ver),
        0 <= i < spec_segment_count(ip_ver),
    ensures
        ((spec_mask_value(ip_ver, prefix, i) as u32) | (spec_wildcard_value(ip_ver, prefix, i)
            as u32)) == spec_segment_max(ip_ver),
        ((spec_mask_value(ip_ver, prefix, i) as u32) & (spec_wildcard_value(ip_ver, prefix, i)
            as u32)) == 0,
{
    let w = spec_segment_width(ip_ver);
    let full = prefix / w;
    let spill = prefix % w;
    let max = spec_segment_max(ip_ver);
    lemma_mask_value_bounds(ip_ver, prefix, i);
    let m = spec_mask_value(ip_ver, prefix, i) as u32;
    let wd = spec_wildcard_value(ip_ver, prefix, i) as u32;
    if i == full && spill > 0 {
        let k = (w - spill) as nat;
        lemma2_to64();
        lemma_pow2_strictly_increases(k, w as nat);
        let k32 = k as u32;
        let w32 = w as u32;
        assert(1 * pow2(k) <= u32::MAX && 1 * pow2(w as nat) <= u32::MAX);
        lemma_u32_shl_is_mul(1u32, k32);
        lemma_u32_shl_is_mul(1u32, w32);
        assert((m | wd) == (1u32 << w32) - 1 && (m & wd) == 0) by (bit_vector)
            requires
                1 <= k32 < w32 <= 16,
                m == ((1u32 << w32) - 1) - ((1u32 << k32) - 1),
                wd == (1u32 << k32) - 1,
        ;
    } else if i < full {
        assert(m == max && wd == 0);
        assert((255u32 | 0u32) == 255 && (255u32 & 0u32) == 0) by (bit_vector);
        assert((0xffffu32 | 0u32) == 0xffff && (0xffffu32 & 0u32) == 0) by (bit_vector);
    } else {
        assert(m == 0 && wd == max);
        assert((0u32 | 255u32) == 255 && (0u32 & 255u32) == 0) by (bit_vector);
        assert((0u32 | 0xffffu32) == 0xffff && (0u32 & 0xffffu32) == 0) by (bit_vector);
    }
}

/// Boundary-segment mask: a left-aligned run of `spill` one-bits within the
/// protocol's segment width.
fn partial_mask(ip_ver: IpVersion, spill: i16) -> (m: u16)
    requires
        1 <= spill < spec_segment_width(ip_ver),
    ensures
        m as int == spec_segment_max(ip_ver) - (pow2((spec_segment_width(ip_ver) - spill) as nat)
            - 1),
{
    let w: u32 = match ip_ver {
        IpVersion::IPv4 => 8,
        IpVersion::IPv6 => 16,
    };
    let k: u32 = w - (spill as u32);
    proof {
        lemma2_to64();
        lemma_pow2_strictly_increases(k as nat, w as nat);
        assert(1 * pow2(k as nat) <= u32::MAX);
        lemma_u32_shl_is_mul(1u32, k);
    }
    let low: u32 = (1u32 << k) - 1;
    let max32: u32 = match ip_ver {
        IpVersion::IPv4 => 255,
        IpVersion::IPv6 => 0xffff,
    };
    (max32 - low) as u16
}

/// Writes `slice_value` into the segment buffer at position `id`, leaving
/// every other segment as it was; an out-of-range position changes nothing.
pub fn update_slice_from_slice_id(id: i16, slice_value: String, slice_store: &mut AddrSliceStore)
    ensures
        forall|j: int| 0 <= j < 8 && j != id ==> final(slice_store)@[j] == old(slice_store)@[j],
        0 <= id < 8 ==> final(slice_store)@[id as int] == slice_value@,
        !(0 <= id < 8) ==> final(slice_store)@ == old(slice_store)@,
{
    match id {
        0 => slice_store.slice_a = slice_value,
        1 => slice_store.slice_b = slice_value,
        2 => slice_store.slice_c = slice_value,
        3 => slice_store.slice_d = slice_value,
        4 => slice_store.slice_e = slice_value,
        5 => slice_store.slice_f = slice_value,
        6 => slice_store.slice_g = slice_value,
        7 => slice_store.slice_h = slice_value,
        _ => {},
    }
}

/// Writes mask and wildcard text for the one segment `slice_id`, given the
/// count of wholly covered segments and the spilled bit count of the
/// prefix. Other segments are untouched.
pub fn mask_slice_calc(
    ip_ver: IpVersion,
    slice_id: i16,
    cidr_coverage_slices: i16,
    spill: i16,
    mask: &mut AddrSliceStore,
    wildcard: &mut AddrSliceStore,
)
    requires
        0 <= slice_id < spec_segment_count(ip_ver),
        0 <= spill < spec_segment_width(ip_ver),
        0 <= cidr_coverage_slices <= spec_segment_count(ip_ver),
        spill > 0 ==> cidr_coverage_slices < spec_segment_count(ip_ver),
    ensures
        ({
            let prefix = cidr_coverage_slices * spec_segment_width(ip_ver) + spill;
            &&& forall|j: int|
                0 <= j < 8 && j != slice_id ==> final(mask)@[j] == old(mask)@[j]
                    && final(wildcard)@[j] == old(wildcard)@[j]
            &&& final(mask)@[slice_id as int] == spec_render_segment(
                ip_ver,
                spec_mask_value(ip_ver, prefix, slice_id as int),
            )
            &&& final(wildcard)@[slice_id as int] == spec_render_segment(
                ip_ver,
                spec_wildcard_value(ip_ver, prefix, slice_id as int),
            )
        }),
{
    let w: i16 = match ip_ver {
        IpVersion::IPv4 => 8,
        IpVersion::IPv6 => 16,
    };
    let seg_max: u16 = match ip_ver {
        IpVersion::IPv4 => 255,
        IpVersion::IPv6 => 0xffff,
    };
    let ghost prefix = cidr_coverage_slices * spec_segment_width(ip_ver) + spill;
    proof {
        lemma_fundamental_div_mod_converse(
            prefix,
            w as int,
            cidr_coverage_slices as int,
            spill as int,
        );
        lemma_mask_value_bounds(ip_ver, prefix, slice_id as int);
    }
    if slice_id < cidr_coverage_slices {
        update_slice_from_slice_id(slice_id, render_segment(ip_ver, seg_max), mask);
        update_slice_from_slice_id(slice_id, render_segment(ip_ver, 0), wildcard);
    } else if slice_id == cidr_coverage_slices && spill > 0 {
        let m = partial_mask(ip_ver, spill);
        update_slice_from_slice_id(slice_id, render_segment(ip_ver, m), mask);
        update_slice_from_slice_id(slice_id, render_segment(ip_ver, seg_max - m), wildcard);
    } else {
        update_slice_from_slice_id(slice_id, render_segment(ip_ver, 0), mask);
        update_slice_from_slice_id(slice_id, render_segment(ip_ver, seg_max), wildcard);
    }
}

/// Derives every in-use mask and wildcard segment from the prefix length.
/// For IPv4 the four unused segment buffers are left untouched; the prefix
/// length itself is not changed.
pub fn mask_calculator(
    ip_ver: IpVersion,
    cidr: &mut i16,
    mask: &mut AddrSliceStore,
    wildcard: &mut AddrSliceStore,
)
    requires
        0 <= *old(cidr) <= spec_address_bits(ip_ver),
    ensures
        *final(cidr) == *old(cidr),
        forall|j: int|
            0 <= j < spec_segment_count(ip_ver) ==> final(mask)@[j] == spec_render_segment(
                ip_ver,
                spec_mask_value(ip_ver, *old(cidr) as int, j),
            ) && final(wildcard)@[j] == spec_render_segment(
                ip_ver,
                spec_wildcard_value(ip_ver, *old(cidr) as int, j),
            ),
        forall|j: int|
            spec_segment_count(ip_ver) <= j < 8 ==> final(mask)@[j] == old(mask)@[j]
                && final(wildcard)@[j] == old(wildcard)@[j],
{
    let slice_size: i16 = match ip_ver {
        IpVersion::IPv4 => 8,
        IpVersion::IPv6 => 16,
    };
    let cidr_coverage_slices: i16 = *cidr / slice_size;
    let cidr_slice_spill: i16 = *cidr % slice_size;
    proof {
        lemma_fundamental_div_mod(*cidr as int, slice_size as int);
    }
    let max_slices: i16 = match ip_ver {
        IpVersion::IPv4 => 4,
        IpVersion::IPv6 => 8,
    };
    proof {
        assert(*cidr as int == slice_size * cidr_coverage_slices + cidr_slice_spill);
        if cidr_coverage_slices > max_slices || (cidr_slice_spill > 0 && cidr_coverage_slices
            >= max_slices) {
            assert(slice_size * cidr_coverage_slices >= slice_size * max_slices)
                by (nonlinear_arith)
                requires
                    cidr_coverage_slices >= max_slices,
                    slice_size > 0,
            ;
        }
    }
    let mut i: i16 = 0;
    while i < max_slices
        invariant
            0 <= i <= max_slices,
            max_slices == spec_segment_count(ip_ver),
            slice_size == spec_segment_width(ip_ver),
            0 <= *cidr <= spec_address_bits(ip_ver),
            *cidr == *old(cidr),
            cidr_coverage_slices == *cidr as int / slice_size as int,
            cidr_slice_spill == *cidr as int % slice_size as int,
            0 <= cidr_coverage_slices <= max_slices,
            0 <= cidr_slice_spill < slice_size,
            cidr_slice_spill > 0 ==> cidr_coverage_slices < max_slices,
            *cidr as int == cidr_coverage_slices * slice_size + cidr_slice_spill,
            forall|j: int|
                0 <= j < i ==> mask@[j] == spec_render_segment(
                    ip_ver,
                    spec_mask_value(ip_ver, *old(cidr) as int, j),
                ) && wildcard@[j] == spec_render_segment(
                    ip_ver,
                    spec_wildcard_value(ip_ver, *old(cidr) as int, j),
                ),
            forall|j: int| i <= j < 8 ==> mask@[j] == old(mask)@[j]
                && wildcard@[j] == old(wildcard)@[j],
        decreases max_slices - i,
    {
        mask_slice_calc(ip_ver, i, cidr_coverage_slices, cidr_slice_spill, mask, wildcard);
        i += 1;
    }
}

} // verus!
