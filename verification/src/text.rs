//! Character classification, digit-string parsing and segment rendering.
//!
//! Address, mask and wildcard segments are carried as text. This module
//! gives that text its numeric meaning: which characters are digits of a
//! protocol's radix, what value a digit string denotes, and how a segment
//! value is rendered back into display text.

use vstd::prelude::*;
use vstd::string::StrSliceExecFns;

use crate::IpVersion;

verus! {

/// A decimal digit.
pub open spec fn is_dec_digit(c: char) -> bool {
    '0' <= c && c <= '9'
}

/// A hexadecimal digit, either case.
pub open spec fn is_hex_digit(c: char) -> bool {
    is_dec_digit(c) || ('a' <= c && c <= 'f') || ('A' <= c && c <= 'F')
}

/// A digit of the protocol's radix: decimal for IPv4, hexadecimal for IPv6.
pub open spec fn is_radix_digit(ip_ver: IpVersion, c: char) -> bool {
    match ip_ver {
        IpVersion::IPv4 => is_dec_digit(c),
        IpVersion::IPv6 => is_hex_digit(c),
    }
}

/// Radix of a protocol's segment text.
pub open spec fn spec_radix(ip_ver: IpVersion) -> int {
    match ip_ver {
        IpVersion::IPv4 => 10,
        IpVersion::IPv6 => 16,
    }
}

/// Numeric value of a digit; hexadecimal letters of either case count from
/// ten. Characters that are no digit at all are given value zero.
pub open spec fn digit_val(c: char) -> int {
    if is_dec_digit(c) {
        c as u32 - '0' as u32
    } else if 'a' <= c && c <= 'f' {
        c as u32 - 'a' as u32 + 10
    } else if 'A' <= c && c <= 'F' {
        c as u32 - 'A' as u32 + 10
    } else {
        0
    }
}

pub fn check_dec_digit(c: char) -> (b: bool)
    ensures
        b == is_dec_digit(c),
{
    '0' <= c && c <= '9'
}

pub fn check_hex_digit(c: char) -> (b: bool)
    ensures
        b == is_hex_digit(c),
{
    ('0' <= c && c <= '9') || ('a' <= c && c <= 'f') || ('A' <= c && c <= 'F')
}

pub fn check_radix_digit(ip_ver: IpVersion, c: char) -> (b: bool)
    ensures
        b == is_radix_digit(ip_ver, c),
{
    match ip_ver {
        IpVersion::IPv4 => check_dec_digit(c),
        IpVersion::IPv6 => check_hex_digit(c),
    }
}

pub fn digit_value(c: char) -> (v: u32)
    requires
        is_hex_digit(c),
    ensures
        v == digit_val(c),
        v < 16,
{
    let u = c as u32;
    if '0' <= c && c <= '9' {
        u - ('0' as u32)
    } else if 'a' <= c && c <= 'f' {
        u - ('a' as u32) + 10
    } else {
        u - ('A' as u32) + 10
    }
}

/// Relies on String::push: it appends exactly the given character.
#[verifier::external_body]
pub(crate) fn push_char(s: &mut String, c: char)
    ensures
        final(s)@ == old(s)@.push(c),
{
    s.push(c);
}

/// Value of a digit string, read most-significant digit first.
pub open spec fn seq_val(s: Seq<char>, radix: int) -> int
    decreases s.len(),
{
    if s.len() == 0 {
        0
    } else {
        seq_val(s.drop_last(), radix) * radix + digit_val(s.last())
    }
}

/// Every character of `s` is a digit of the protocol's radix.
pub open spec fn all_radix_digits(ip_ver: IpVersion, s: Seq<char>) -> bool {
    forall|i: int| 0 <= i < s.len() ==> is_radix_digit(ip_ver, s[i])
}

/// The value a segment's text denotes, if it is a non-empty digit string of
/// the protocol's radix whose value is at most `max`; `None` otherwise.
pub open spec fn spec_parse_bounded(ip_ver: IpVersion, s: Seq<char>, max: int) -> Option<int> {
    if s.len() > 0 && all_radix_digits(ip_ver, s) && seq_val(s, spec_radix(ip_ver)) <= max {
        Some(seq_val(s, spec_radix(ip_ver)))
    } else {
        None
    }
}

/// The value a segment contributes to the canonical address: its denoted
/// value where the text parses and fits, and zero where it does not.
pub open spec fn spec_parse_or_zero(ip_ver: IpVersion, s: Seq<char>, max: int) -> int {
    match spec_parse_bounded(ip_ver, s, max) {
        Some(v) => v,
        None => 0,
    }
}

proof fn lemma_seq_val_nonneg(s: Seq<char>, radix: int)
    requires
        radix >= 1,
    ensures
        seq_val(s, radix) >= 0,
    decreases s.len(),
{
    if s.len() > 0 {
        lemma_seq_val_nonneg(s.drop_last(), radix);
        assert(seq_val(s.drop_last(), radix) * radix >= 0) by (nonlinear_arith)
            requires
                seq_val(s.drop_last(), radix) >= 0,
                radix >= 1,
        ;
    }
}

/// A digit string's value never falls when the string is extended to the
/// right: the value of any prefix bounds the value of the whole from below.
proof fn lemma_seq_val_prefix_le(s: Seq<char>, i: int, radix: int)
    requires
        0 <= i <= s.len(),
        radix >= 1,
    ensures
        seq_val(s.subrange(0, i), radix) <= seq_val(s, radix),
    decreases s.len() - i,
{
    if i == s.len() {
        assert(s.subrange(0, i) =~= s);
    } else {
        lemma_seq_val_prefix_le(s, i + 1, radix);
        let p = s.subrange(0, i);
        let q = s.subrange(0, i + 1);
        assert(q.drop_last() =~= p);
        lemma_seq_val_nonneg(p, radix);
        assert(seq_val(p, radix) * radix >= seq_val(p, radix)) by (nonlinear_arith)
            requires
                seq_val(p, radix) >= 0,
                radix >= 1,
        ;
    }
}

/// Parses segment text as a digit string of the protocol's radix, bounded
/// by `max`; returns `None` for empty text, a stray character, or a value
/// over the bound.
pub fn parse_bounded(ip_ver: IpVersion, s: &str, max: u32) -> (r: Option<u32>)
    requires
        max <= 0xffff,
    ensures
        match r {
            Some(v) => spec_parse_bounded(ip_ver, s@, max as int) == Some(v as int),
            None => spec_parse_bounded(ip_ver, s@, max as int) is None,
        },
{
    let n = s.unicode_len();
    if n == 0 {
        return None;
    }
    let mut i: usize = 0;
    while i < n
        invariant
            i <= n,
            n == s@.len(),
            forall|j: int| 0 <= j < i ==> is_radix_digit(ip_ver, s@[j]),
        decreases n - i,
    {
        if !check_radix_digit(ip_ver, s.get_char(i)) {
            return None;
        }
        i += 1;
    }
    let radix: u32 = match ip_ver {
        IpVersion::IPv4 => 10,
        IpVersion::IPv6 => 16,
    };
    let mut acc: u32 = 0;
    i = 0;
    while i < n
        invariant
            i <= n,
            n == s@.len(),
            max <= 0xffff,
            radix == spec_radix(ip_ver),
            all_radix_digits(ip_ver, s@),
            acc == seq_val(s@.subrange(0, i as int), radix as int),
            acc <= max,
        decreases n - i,
    {
        let c = s.get_char(i);
        proof {
            assert(is_radix_digit(ip_ver, s@[i as int]));
        }
        let d = digit_value(c);
        let next = acc * radix + d;
        proof {
            let q = s@.subrange(0, i + 1);
            assert(q.drop_last() =~= s@.subrange(0, i as int));
            assert(seq_val(q, radix as int) == acc * radix + digit_val(c));
        }
        if next > max {
            proof {
                lemma_seq_val_prefix_le(s@, i + 1, radix as int);
            }
            return None;
        }
        acc = next;
        i += 1;
    }
    proof {
        assert(s@.subrange(0, n as int) =~= s@);
    }
    Some(acc)
}

/// Digit character of a value below ten.
pub open spec fn dec_char(d: int) -> char {
    if d == 0 {
        '0'
    } else if d == 1 {
        '1'
    } else if d == 2 {
        '2'
    } else if d == 3 {
        '3'
    } else if d == 4 {
        '4'
    } else if d == 5 {
        '5'
    } else if d == 6 {
        '6'
    } else if d == 7 {
        '7'
    } else if d == 8 {
        '8'
    } else {
        '9'
    }
}

/// Lowercase hexadecimal character of a value below sixteen.
pub open spec fn hex_char(d: int) -> char {
    if d < 10 {
        dec_char(d)
    } else if d == 10 {
        'a'
    } else if d == 11 {
        'b'
    } else if d == 12 {
        'c'
    } else if d == 13 {
        'd'
    } else if d == 14 {
        'e'
    } else {
        'f'
    }
}

/// Decimal text of an octet value, without leading zeroes.
pub open spec fn spec_dec_string(v: int) -> Seq<char> {
    if v >= 100 {
        seq![dec_char(v / 100), dec_char(v / 10 % 10), dec_char(v % 10)]
    } else if v >= 10 {
        seq![dec_char(v / 10), dec_char(v % 10)]
    } else {
        seq![dec_char(v)]
    }
}

/// Four-digit lowercase hexadecimal text of a hextet value.
pub open spec fn spec_hex4_string(v: int) -> Seq<char> {
    seq![
        hex_char(v / 0x1000 % 16),
        hex_char(v / 0x100 % 16),
        hex_char(v / 0x10 % 16),
        hex_char(v % 16),
    ]
}

/// Display text of a derived segment value: decimal for an IPv4 octet,
/// zero-padded lowercase hexadecimal for an IPv6 hextet.
pub open spec fn spec_render_segment(ip_ver: IpVersion, v: int) -> Seq<char> {
    match ip_ver {
        IpVersion::IPv4 => spec_dec_string(v),
        IpVersion::IPv6 => spec_hex4_string(v),
    }
}

fn dec_char_of(d: u16) -> (c: char)
    requires
        d < 10,
    ensures
        c == dec_char(d as int),
{
    if d == 0 {
        '0'
    } else if d == 1 {
        '1'
    } else if d == 2 {
        '2'
    } else if d == 3 {
        '3'
    } else if d == 4 {
        '4'
    } else if d == 5 {
        '5'
    } else if d == 6 {
        '6'
    } else if d == 7 {
        '7'
    } else if d == 8 {
        '8'
    } else {
        '9'
    }
}

fn hex_char_of(d: u16) -> (c: char)
    requires
        d < 16,
    ensures
        c == hex_char(d as int),
{
    if d < 10 {
        dec_char_of(d)
    } else if d == 10 {
        'a'
    } else if d == 11 {
        'b'
    } else if d == 12 {
        'c'
    } else if d == 13 {
        'd'
    } else if d == 14 {
        'e'
    } else {
        'f'
    }
}

/// Renders a derived segment value as display text.
pub fn render_segment(ip_ver: IpVersion, v: u16) -> (r: String)
    requires
        v <= crate::spec_segment_max(ip_ver),
    ensures
        r@ == spec_render_segment(ip_ver, v as int),
{
    let mut out = String::new();
    match ip_ver {
        IpVersion::IPv4 => {
            if v >= 100 {
                push_char(&mut out, dec_char_of(v / 100));
                push_char(&mut out, dec_char_of(v / 10 % 10));
                push_char(&mut out, dec_char_of(v % 10));
                proof {
                    assert(out@ =~= spec_dec_string(v as int));
                }
            } else if v >= 10 {
                push_char(&mut out, dec_char_of(v / 10));
                push_char(&mut out, dec_char_of(v % 10));
                proof {
                    assert(out@ =~= spec_dec_string(v as int));
                }
            } else {
                push_char(&mut out, dec_char_of(v));
                proof {
                    assert(out@ =~= spec_dec_string(v as int));
                }
            }
        },
        IpVersion::IPv6 => {
            push_char(&mut out, hex_char_of(v / 0x1000 % 16));
            push_char(&mut out, hex_char_of(v / 0x100 % 16));
            push_char(&mut out, hex_char_of(v / 0x10 % 16));
            push_char(&mut out, hex_char_of(v % 16));
            proof {
                assert(out@ =~= spec_hex4_string(v as int));
            }
        },
    }
    out
}

} // verus!
