//! Segment validation: rewriting raw per-segment text to its longest legal
//! prefix for the active protocol.
//!
//! A segment is first truncated to the protocol's maximum segment length,
//! then swept once left to right. Every character that is no digit of the
//! protocol's radix is dropped, and the survivors keep their relative
//! order. For IPv4 two octet-range rules apply besides, judged against the
//! truncated text before any deletion: a leading digit above two is dropped
//! when three characters are present, and after a leading two the first
//! digit above five is dropped — only the first, which already brings a
//! three-character octet under 255; the single pass looks no further.
//! Surrounding whitespace is not treated specially: like any other
//! non-digit character it is dropped by the sweep.

use vstd::prelude::*;
use vstd::string::StrSliceExecFns;

use crate::IpVersion;
use crate::text::{
    check_dec_digit, check_hex_digit, digit_val, digit_value, is_dec_digit, is_hex_digit,
    push_char, seq_val,
};

verus! {

/// Per-segment text buffers of one calculation: four in use for IPv4,
/// all eight for IPv6.
pub struct AddrSliceStore {
    pub slice_a: String,
    pub slice_b: String,
    pub slice_c: String,
    pub slice_d: String,
    pub slice_e: String,
    pub slice_f: String,
    pub slice_g: String,
    pub slice_h: String,
}

impl View for AddrSliceStore {
    type V = Seq<Seq<char>>;

    open spec fn view(&self) -> Seq<Seq<char>> {
        seq![
            self.slice_a@,
            self.slice_b@,
            self.slice_c@,
            self.slice_d@,
            self.slice_e@,
            self.slice_f@,
            self.slice_g@,
            self.slice_h@,
        ]
    }
}

impl Default for AddrSliceStore {
    /// All eight segments start empty.
    fn default() -> (r: Self)
        ensures
            forall|i: int| 0 <= i < 8 ==> r@[i] == Seq::<char>::empty(),
    {
        Self {
            slice_a: String::new(),
            slice_b: String::new(),
            slice_c: String::new(),
            slice_d: String::new(),
            slice_e: String::new(),
            slice_f: String::new(),
            slice_g: String::new(),
            slice_h: String::new(),
        }
    }
}

/// Longest segment text the protocol accepts: three decimal characters for
/// an IPv4 octet, four hexadecimal characters for an IPv6 hextet.
pub open spec fn spec_max_segment_chars(ip_ver: IpVersion) -> int {
    match ip_ver {
        IpVersion::IPv4 => 3,
        IpVersion::IPv6 => 4,
    }
}

/// `s` cut down to its first `max` characters.
pub open spec fn spec_truncate(s: Seq<char>, max: int) -> Seq<char> {
    if s.len() > max {
        s.subrange(0, max)
    } else {
        s
    }
}

/// Basic survival rule for position `i` of the truncated IPv4 text `t`:
/// the character must be a decimal digit, and a leading digit above two is
/// dropped when three characters are present (no three-character octet may
/// start above two).
pub open spec fn ipv4_keep_basic(t: Seq<char>, i: int) -> bool {
    &&& is_dec_digit(t[i])
    &&& !(i == 0 && t.len() > 2 && digit_val(t[0]) > 2)
}

/// The "25x, x at most 5" rule fires at position `i`: after a leading two,
/// a digit above five.
pub open spec fn ipv4_over5_at(t: Seq<char>, i: int) -> bool {
    i > 0 && is_dec_digit(t[0]) && digit_val(t[0]) == 2 && is_dec_digit(t[i]) && digit_val(t[i])
        > 5
}

/// The IPv4 sweep over `t` from position `i` on. `over5_deleted` records
/// whether the leading-two rule has already deleted a digit above five:
/// that rule deletes only the first such digit.
pub open spec fn spec_ipv4_pass(t: Seq<char>, i: int, over5_deleted: bool) -> Seq<char>
    decreases t.len() - i,
{
    if i < 0 || i >= t.len() {
        Seq::empty()
    } else if !ipv4_keep_basic(t, i) {
        spec_ipv4_pass(t, i + 1, over5_deleted)
    } else if ipv4_over5_at(t, i) && !over5_deleted {
        spec_ipv4_pass(t, i + 1, true)
    } else {
        seq![t[i]] + spec_ipv4_pass(t, i + 1, over5_deleted)
    }
}

/// The hexadecimal digits among the first `i` characters of `t`, in order.
pub open spec fn spec_hex_filtered(t: Seq<char>, i: int) -> Seq<char>
    decreases i,
{
    if i <= 0 {
        Seq::empty()
    } else {
        let rest = spec_hex_filtered(t, i - 1);
        if is_hex_digit(t[i - 1]) {
            rest.push(t[i - 1])
        } else {
            rest
        }
    }
}

/// What segment validation leaves of raw text `s`: truncate to the
/// protocol's maximum length, then sweep once.
pub open spec fn spec_validate_segment(ip_ver: IpVersion, s: Seq<char>) -> Seq<char> {
    let t = spec_truncate(s, spec_max_segment_chars(ip_ver));
    match ip_ver {
        IpVersion::IPv4 => spec_ipv4_pass(t, 0, false),
        IpVersion::IPv6 => spec_hex_filtered(t, t.len() as int),
    }
}

proof fn lemma_ipv4_pass_len(t: Seq<char>, i: int, over5_deleted: bool)
    requires
        0 <= i <= t.len(),
    ensures
        spec_ipv4_pass(t, i, over5_deleted).len() <= t.len() - i,
    decreases t.len() - i,
{
    if i < t.len() {
        lemma_ipv4_pass_len(t, i + 1, over5_deleted);
        lemma_ipv4_pass_len(t, i + 1, true);
    }
}

proof fn lemma_ipv4_pass_digits(t: Seq<char>, i: int, over5_deleted: bool)
    requires
        0 <= i,
    ensures
        forall|j: int|
            0 <= j < spec_ipv4_pass(t, i, over5_deleted).len() ==> is_dec_digit(
                #[trigger] spec_ipv4_pass(t, i, over5_deleted)[j],
            ),
    decreases t.len() - i,
{
    if i < t.len() {
        lemma_ipv4_pass_digits(t, i + 1, over5_deleted);
        lemma_ipv4_pass_digits(t, i + 1, true);
        let out = spec_ipv4_pass(t, i, over5_deleted);
        assert forall|j: int| 0 <= j < out.len() implies is_dec_digit(#[trigger] out[j]) by {
            if !ipv4_keep_basic(t, i) {
                assert(out[j] == spec_ipv4_pass(t, i + 1, over5_deleted)[j]);
            } else if ipv4_over5_at(t, i) && !over5_deleted {
                assert(out[j] == spec_ipv4_pass(t, i + 1, true)[j]);
            } else {
                let rest = spec_ipv4_pass(t, i + 1, over5_deleted);
                if j == 0 {
                    assert(out[0] == t[i]);
                } else {
                    assert(out[j] == rest[j - 1]);
                }
            }
        }
    }
}

/// When nothing was dropped, the sweep is the identity and every position
/// passed its rules; starting with the leading-two rule unspent, no
/// position triggers it at all.
proof fn lemma_ipv4_pass_full(t: Seq<char>, i: int, over5_deleted: bool)
    requires
        0 <= i <= t.len(),
        spec_ipv4_pass(t, i, over5_deleted).len() == t.len() - i,
    ensures
        spec_ipv4_pass(t, i, over5_deleted) == t.subrange(i, t.len() as int),
        forall|j: int| i <= j < t.len() ==> ipv4_keep_basic(t, j),
        forall|j: int| i <= j < t.len() && !over5_deleted ==> !ipv4_over5_at(t, j),
    decreases t.len() - i,
{
    if i == t.len() {
        assert(spec_ipv4_pass(t, i, over5_deleted) =~= t.subrange(i, t.len() as int));
    } else {
        if !ipv4_keep_basic(t, i) || (ipv4_over5_at(t, i) && !over5_deleted) {
            lemma_ipv4_pass_len(t, i + 1, over5_deleted);
            lemma_ipv4_pass_len(t, i + 1, true);
            assert(false);
        }
        lemma_ipv4_pass_full(t, i + 1, over5_deleted);
        assert(spec_ipv4_pass(t, i, over5_deleted) =~= t.subrange(i, t.len() as int));
    }
}

proof fn lemma_hex_filtered_len(t: Seq<char>, i: int)
    requires
        0 <= i,
    ensures
        spec_hex_filtered(t, i).len() <= i,
    decreases i,
{
    if i > 0 {
        lemma_hex_filtered_len(t, i - 1);
    }
}

proof fn lemma_hex_filtered_digits(t: Seq<char>, i: int)
    requires
        0 <= i,
    ensures
        forall|j: int|
            0 <= j < spec_hex_filtered(t, i).len() ==> is_hex_digit(
                #[trigger] spec_hex_filtered(t, i)[j],
            ),
    decreases i,
{
    if i > 0 {
        lemma_hex_filtered_digits(t, i - 1);
        let rest = spec_hex_filtered(t, i - 1);
        if is_hex_digit(t[i - 1]) {
            let cur = spec_hex_filtered(t, i);
            assert forall|j: int| 0 <= j < cur.len() implies is_hex_digit(#[trigger] cur[j]) by {
                if j < rest.len() {
                    assert(cur[j] == rest[j]);
                } else {
                    assert(cur[j] == t[i - 1]);
                }
            }
        }
    }
}

proof fn lemma_seq_val_three(s: Seq<char>, radix: int)
    requires
        s.len() <= 3,
    ensures
        s.len() == 0 ==> seq_val(s, radix) == 0,
        s.len() == 1 ==> seq_val(s, radix) == digit_val(s[0]),
        s.len() == 2 ==> seq_val(s, radix) == digit_val(s[0]) * radix + digit_val(s[1]),
        s.len() == 3 ==> seq_val(s, radix) == (digit_val(s[0]) * radix + digit_val(s[1])) * radix
            + digit_val(s[2]),
{
    reveal_with_fuel(seq_val, 5);
    if s.len() == 1 {
        assert(s.drop_last() =~= Seq::<char>::empty());
    } else if s.len() == 2 {
        let p = s.drop_last();
        assert(p.drop_last() =~= Seq::<char>::empty());
        assert(p[0] == s[0] && p.last() == s[0]);
        assert(seq_val(p, radix) == digit_val(s[0]));
    } else if s.len() == 3 {
        let p = s.drop_last();
        let q = p.drop_last();
        assert(q.drop_last() =~= Seq::<char>::empty());
        assert(q.last() == s[0]);
        assert(seq_val(q, radix) == digit_val(s[0]));
        assert(p.last() == s[1]);
        assert(seq_val(p, radix) == digit_val(s[0]) * radix + digit_val(s[1]));
    }
}

/// Law: however ill-formed the raw text, a validated IPv4 segment has at
/// most three characters, holds decimal digits only, and denotes a value
/// of at most 255.
pub proof fn lemma_ipv4_segment_valid(s: Seq<char>)
    ensures
        spec_validate_segment(IpVersion::IPv4, s).len() <= 3,
        forall|i: int|
            0 <= i < spec_validate_segment(IpVersion::IPv4, s).len() ==> is_dec_digit(
                #[trigger] spec_validate_segment(IpVersion::IPv4, s)[i],
            ),
        seq_val(spec_validate_segment(IpVersion::IPv4, s), 10) <= 255,
{
    let t = spec_truncate(s, 3);
    let r = spec_validate_segment(IpVersion::IPv4, s);
    lemma_ipv4_pass_len(t, 0, false);
    lemma_ipv4_pass_digits(t, 0, false);
    lemma_seq_val_three(r, 10);
    if r.len() == 3 {
        lemma_ipv4_pass_full(t, 0, false);
        assert(r =~= t);
        assert(ipv4_keep_basic(t, 0) && t.len() > 2);
        assert(digit_val(t[0]) <= 2);
        if digit_val(t[0]) == 2 {
            assert(!ipv4_over5_at(t, 1) && !ipv4_over5_at(t, 2));
            assert(digit_val(t[1]) <= 5 && digit_val(t[2]) <= 5);
        } else {
            assert(digit_val(t[1]) <= 9 && digit_val(t[2]) <= 9);
        }
    }
}

/// Law: a validated IPv6 segment has at most four characters, holds
/// hexadecimal digits only, and denotes a value of at most 0xffff.
pub proof fn lemma_ipv6_segment_valid(s: Seq<char>)
    ensures
        spec_validate_segment(IpVersion::IPv6, s).len() <= 4,
        forall|i: int|
            0 <= i < spec_validate_segment(IpVersion::IPv6, s).len() ==> is_hex_digit(
                #[trigger] spec_validate_segment(IpVersion::IPv6, s)[i],
            ),
        seq_val(spec_validate_segment(IpVersion::IPv6, s), 16) <= 0xffff,
{
    let t = spec_truncate(s, 4);
    let r = spec_validate_segment(IpVersion::IPv6, s);
    lemma_hex_filtered_len(t, t.len() as int);
    lemma_hex_filtered_digits(t, t.len() as int);
    if r.len() == 4 {
        assert(seq_val(r, 16) == ((digit_val(r[0]) * 16 + digit_val(r[1])) * 16 + digit_val(
            r[2],
        )) * 16 + digit_val(r[3])) by {
            let p = r.drop_last();
            lemma_seq_val_three(p, 16);
            assert(p.len() == 3 && p[0] == r[0] && p[1] == r[1] && p[2] == r[2]);
            assert(r.last() == r[3]);
        }
        assert(digit_val(r[0]) <= 15 && digit_val(r[1]) <= 15 && digit_val(r[2]) <= 15
            && digit_val(r[3]) <= 15);
    } else {
        lemma_seq_val_three(r, 16);
        if r.len() == 3 {
            assert(digit_val(r[0]) <= 15 && digit_val(r[1]) <= 15 && digit_val(r[2]) <= 15);
        }
    }
}

fn sanitize_ipv4(s: &str) -> (out: String)
    ensures
        out@ == spec_validate_segment(IpVersion::IPv4, s@),
{
    let n = s.unicode_len();
    let m: usize = if n > 3 {
        3
    } else {
        n
    };
    let ghost t = spec_truncate(s@, 3);
    proof {
        assert(t.len() == m);
        assert(forall|j: int| 0 <= j < m ==> t[j] == s@[j]);
    }
    let mut out = String::new();
    let mut over5_deleted = false;
    let mut i: usize = 0;
    while i < m
        invariant
            i <= m,
            m <= n,
            n == s@.len(),
            t == spec_truncate(s@, 3),
            t.len() == m,
            forall|j: int| 0 <= j < m ==> t[j] == s@[j],
            spec_ipv4_pass(t, 0, false) == out@ + spec_ipv4_pass(t, i as int, over5_deleted),
        decreases m - i,
    {
        let ghost flag_before = over5_deleted;
        let c = s.get_char(i);
        let keep_basic: bool;
        if !check_dec_digit(c) {
            keep_basic = false;
        } else if i == 0 {
            keep_basic = !(m > 2 && digit_value(c) > 2);
        } else {
            keep_basic = true;
        }
        proof {
            assert(keep_basic == ipv4_keep_basic(t, i as int));
        }
        if keep_basic {
            let over5: bool;
            if i > 0 {
                let c0 = s.get_char(0);
                over5 = check_dec_digit(c0) && digit_value(c0) == 2 && digit_value(c) > 5;
            } else {
                over5 = false;
            }
            proof {
                assert(over5 == ipv4_over5_at(t, i as int));
            }
            if over5 && !over5_deleted {
                over5_deleted = true;
            } else {
                let ghost out_before = out@;
                push_char(&mut out, c);
                proof {
                    assert(out@ =~= out_before.push(c));
                    assert(out_before.push(c) + spec_ipv4_pass(t, i + 1, over5_deleted)
                        =~= out_before + (seq![t[i as int]] + spec_ipv4_pass(
                        t,
                        i + 1,
                        over5_deleted,
                    )));
                }
            }
        }
        proof {
            assert(spec_ipv4_pass(t, 0, false) == out@ + spec_ipv4_pass(t, i + 1, over5_deleted));
        }
        i += 1;
    }
    proof {
        assert(out@ + spec_ipv4_pass(t, m as int, over5_deleted) =~= out@);
    }
    out
}

fn sanitize_ipv6(s: &str) -> (out: String)
    ensures
        out@ == spec_validate_segment(IpVersion::IPv6, s@),
{
    let n = s.unicode_len();
    let m: usize = if n > 4 {
        4
    } else {
        n
    };
    let ghost t = spec_truncate(s@, 4);
    proof {
        assert(t.len() == m);
        assert(forall|j: int| 0 <= j < m ==> t[j] == s@[j]);
    }
    let mut out = String::new();
    let mut i: usize = 0;
    while i < m
        invariant
            i <= m,
            m <= n,
            n == s@.len(),
            t == spec_truncate(s@, 4),
            t.len() == m,
            forall|j: int| 0 <= j < m ==> t[j] == s@[j],
            out@ == spec_hex_filtered(t, i as int),
        decreases m - i,
    {
        let c = s.get_char(i);
        if check_hex_digit(c) {
            push_char(&mut out, c);
        }
        i += 1;
    }
    out
}

/// Rewrites one segment in place to its longest valid prefix for the
/// protocol. Never fails: the result may be empty, and is always legal
/// segment text.
pub fn validate_slice_contents(ip_ver: IpVersion, slice: &mut String)
    ensures
        final(slice)@ == spec_validate_segment(ip_ver, old(slice)@),
{
    match ip_ver {
        IpVersion::IPv4 => {
            *slice = sanitize_ipv4(slice.as_str());
        },
        IpVersion::IPv6 => {
            *slice = sanitize_ipv6(slice.as_str());
        },
    }
}

/// Validates every segment the protocol uses. For IPv4 the four unused
/// segments are left untouched.
pub fn validate_all_slice_contents(ip_ver: IpVersion, slice_store: &mut AddrSliceStore)
    ensures
        forall|i: int|
            0 <= i < 8 ==> final(slice_store)@[i] == (if i < crate::spec_segment_count(ip_ver) {
                spec_validate_segment(ip_ver, old(slice_store)@[i])
            } else {
                old(slice_store)@[i]
            }),
{
    validate_slice_contents(ip_ver, &mut slice_store.slice_a);
    validate_slice_contents(ip_ver, &mut slice_store.slice_b);
    validate_slice_contents(ip_ver, &mut slice_store.slice_c);
    validate_slice_contents(ip_ver, &mut slice_store.slice_d);
    if matches!(ip_ver, IpVersion::IPv6) {
        validate_slice_contents(ip_ver, &mut slice_store.slice_e);
        validate_slice_contents(ip_ver, &mut slice_store.slice_f);
        validate_slice_contents(ip_ver, &mut slice_store.slice_g);
        validate_slice_contents(ip_ver, &mut slice_store.slice_h);
    }
}

} // verus!
