//! The application state: every live calculation unit, keyed by a generated
//! identifier, with creation, the close-sweep, and the per-refresh
//! recomputation of each remaining unit.

use vstd::prelude::*;
use vstd::string::StringExecFns;

use crate::IpVersion;
use crate::window::{
    IpAddrValue, SubnetWindowStore, refresh_window, spec_refreshed_from,
};

verus! {

/// The top-level application state: one entry per live calculation unit.
pub struct SubnetCalculatorApp {
    pub label: String,
    pub window_store: Vec<(u128, SubnetWindowStore)>,
}

/// Relies on uuid::Uuid::new_v4 and uuid::Uuid::as_u128: a freshly
/// generated random identifier. Nothing is promised of its value; callers
/// must cope with any result, a collision included.
#[verifier::external_body]
fn fresh_window_id() -> u128 {
    uuid::Uuid::new_v4().as_u128()
}

/// No two entries carry the same identifier.
pub open spec fn spec_unique_ids(s: Seq<(u128, SubnetWindowStore)>) -> bool {
    forall|i: int, j: int| 0 <= i < j < s.len() ==> s[i].0 != s[j].0
}

/// The entries whose unit is still open, in order.
pub open spec fn spec_open_windows(s: Seq<(u128, SubnetWindowStore)>) -> Seq<
    (u128, SubnetWindowStore),
>
    decreases s.len(),
{
    if s.len() == 0 {
        Seq::empty()
    } else {
        let rest = spec_open_windows(s.drop_first());
        if s[0].1.is_window_open {
            seq![s[0]] + rest
        } else {
            rest
        }
    }
}

/// A unit as creation leaves it: IPv4, prefix length 32, every segment
/// buffer empty, the window open.
pub open spec fn spec_is_new_window(u: SubnetWindowStore) -> bool {
    &&& u.ip_version == IpVersion::IPv4
    &&& u.ip_addr == IpAddrValue::V4(0u8, 0u8, 0u8, 0u8)
    &&& u.mask == 32
    &&& u.is_window_open
    &&& forall|i: int| 0 <= i < 8 ==> u.addr_slice_store@[i] == Seq::<char>::empty()
    &&& forall|i: int| 0 <= i < 8 ==> u.mask_slice_store@[i] == Seq::<char>::empty()
    &&& forall|i: int| 0 <= i < 8 ==> u.wildcard_slice_store@[i] == Seq::<char>::empty()
}

/// Some identifier is present in the store.
pub open spec fn spec_has_window(s: Seq<(u128, SubnetWindowStore)>, id: u128) -> bool {
    exists|j: int| 0 <= j < s.len() && s[j].0 == id
}

/// How `t` relates to `s` after a fresh unit was filed under `id`: a new
/// entry at the end when the identifier was absent, otherwise the entry
/// with that identifier replaced, everything else untouched.
pub open spec fn spec_window_inserted(
    s: Seq<(u128, SubnetWindowStore)>,
    t: Seq<(u128, SubnetWindowStore)>,
    id: u128,
) -> bool {
    &&& (!spec_has_window(s, id) ==> {
        &&& t.len() == s.len() + 1
        &&& forall|j: int| 0 <= j < s.len() ==> t[j] == s[j]
        &&& t.last().0 == id
        &&& spec_is_new_window(t.last().1)
    })
    &&& (spec_has_window(s, id) ==> {
        &&& t.len() == s.len()
        &&& forall|j: int| 0 <= j < s.len() && s[j].0 != id ==> t[j] == s[j]
        &&& forall|j: int|
            0 <= j < s.len() && s[j].0 == id ==> t[j].0 == id && spec_is_new_window(t[j].1)
    })
}

impl SubnetCalculatorApp {
    /// Identifiers are unique and every unit's prefix length is in range.
    pub open spec fn wf(&self) -> bool {
        &&& spec_unique_ids(self.window_store@)
        &&& forall|i: int| 0 <= i < self.window_store@.len() ==> self.window_store@[i].1.wf()
    }

    fn find_window_index(&self, id: u128) -> (r: Option<usize>)
        ensures
            match r {
                Some(j) => j < self.window_store@.len() && self.window_store@[j as int].0 == id,
                None => forall|j: int|
                    0 <= j < self.window_store@.len() ==> self.window_store@[j].0 != id,
            },
    {
        let n = self.window_store.len();
        let mut j: usize = 0;
        while j < n
            invariant
                j <= n,
                n == self.window_store@.len(),
                forall|l: int| 0 <= l < j ==> self.window_store@[l].0 != id,
            decreases n - j,
        {
            if self.window_store[j].0 == id {
                return Some(j);
            }
            j += 1;
        }
        None
    }

    /// Opens a new calculation unit under a freshly generated identifier.
    /// Should the identifier already be in use, that entry is replaced, as
    /// an insertion into a map would.
    pub fn new_calculation_window(&mut self)
        requires
            old(self).wf(),
        ensures
            final(self).wf(),
            final(self).label@ == old(self).label@,
            exists|id: u128|
                #[trigger] spec_window_inserted(
                    old(self).window_store@,
                    final(self).window_store@,
                    id,
                ),
    {
        let window_id = fresh_window_id();
        let store = SubnetWindowStore::new_window();
        match self.find_window_index(window_id) {
            Some(j) => {
                let _stale = self.window_store.remove(j);
                self.window_store.insert(j, (window_id, store));
                proof {
                    assert(self.window_store@ =~= old(self).window_store@.update(
                        j as int,
                        (window_id, self.window_store@[j as int].1),
                    ));
                    assert(spec_window_inserted(
                        old(self).window_store@,
                        self.window_store@,
                        window_id,
                    ));
                }
            },
            None => {
                self.window_store.push((window_id, store));
                proof {
                    assert(spec_window_inserted(
                        old(self).window_store@,
                        self.window_store@,
                        window_id,
                    ));
                }
            },
        }
    }

    /// Removes every unit whose open flag has gone false, keeping the
    /// surviving entries in order.
    pub fn sweep_closed_windows(&mut self)
        requires
            old(self).wf(),
        ensures
            final(self).wf(),
            final(self).label@ == old(self).label@,
            final(self).window_store@ == spec_open_windows(old(self).window_store@),
    {
        let ghost orig = self.window_store@;
        let mut kept: Vec<(u128, SubnetWindowStore)> = Vec::new();
        while self.window_store.len() > 0
            invariant
                self.label@ == old(self).label@,
                spec_open_windows(orig) =~= kept@ + spec_open_windows(self.window_store@),
            decreases self.window_store@.len(),
        {
            let ghost before = self.window_store@;
            let pair = self.window_store.remove(0);
            proof {
                assert(self.window_store@ =~= before.drop_first());
            }
            if pair.1.is_window_open {
                kept.push(pair);
            }
        }
        proof {
            assert(spec_open_windows(orig) =~= kept@);
            lemma_open_windows_unique(orig);
            lemma_open_windows_wf(orig);
        }
        self.window_store = kept;
    }

    /// One refresh tick: sweep closed units, then run the full pipeline on
    /// every survivor. Identifiers and their order are kept.
    pub fn run_refresh_cycle(&mut self)
        requires
            old(self).wf(),
        ensures
            final(self).wf(),
            final(self).label@ == old(self).label@,
            ({
                let kept = spec_open_windows(old(self).window_store@);
                &&& final(self).window_store@.len() == kept.len()
                &&& forall|i: int|
                    0 <= i < kept.len() ==> (#[trigger] final(self).window_store@[i]).0
                        == kept[i].0 && spec_refreshed_from(
                        kept[i].1,
                        final(self).window_store@[i].1,
                    )
            }),
    {
        self.sweep_closed_windows();
        let ghost kept = self.window_store@;
        let n = self.window_store.len();
        let mut i: usize = 0;
        while i < n
            invariant
                i <= n,
                self.label@ == old(self).label@,
                n == self.window_store@.len(),
                n == kept.len(),
                spec_unique_ids(kept),
                forall|l: int| 0 <= l < kept.len() ==> (#[trigger] kept[l]).1.wf(),
                forall|l: int| i <= l < n ==> self.window_store@[l] == kept[l],
                forall|l: int|
                    0 <= l < i ==> (#[trigger] self.window_store@[l]).0 == kept[l].0
                        && spec_refreshed_from(kept[l].1, self.window_store@[l].1)
                        && self.window_store@[l].1.wf(),
            decreases n - i,
        {
            let ghost before = self.window_store@;
            let mut pair = self.window_store.remove(i);
            proof {
                assert(pair == before[i as int]);
                assert(before[i as int] == kept[i as int]);
                assert(kept[i as int].1.wf());
            }
            refresh_window(&mut pair.1);
            self.window_store.insert(i, pair);
            proof {
                assert(self.window_store@ =~= before.update(i as int, self.window_store@[i as int]));
            }
            i += 1;
        }
    }
}

impl Default for SubnetCalculatorApp {
    /// The initial state: no live calculation unit.
    fn default() -> (r: Self)
        ensures
            r.wf(),
            r.window_store@.len() == 0,
    {
        Self { label: String::from_str("Subnet Calculator"), window_store: Vec::new() }
    }
}

proof fn lemma_open_windows_no_key(s: Seq<(u128, SubnetWindowStore)>, id: u128)
    requires
        forall|i: int| 0 <= i < s.len() ==> s[i].0 != id,
    ensures
        forall|i: int|
            0 <= i < spec_open_windows(s).len() ==> (#[trigger] spec_open_windows(s)[i]).0 != id,
    decreases s.len(),
{
    if s.len() > 0 {
        lemma_open_windows_no_key(s.drop_first(), id);
        let rest = spec_open_windows(s.drop_first());
        let out = spec_open_windows(s);
        assert forall|i: int| 0 <= i < out.len() implies (#[trigger] out[i]).0 != id by {
            if s[0].1.is_window_open {
                if i == 0 {
                    assert(out[0] == s[0]);
                } else {
                    assert(out[i] == rest[i - 1]);
                }
            } else {
                assert(out[i] == rest[i]);
            }
        }
    }
}

proof fn lemma_open_windows_unique(s: Seq<(u128, SubnetWindowStore)>)
    requires
        spec_unique_ids(s),
    ensures
        spec_unique_ids(spec_open_windows(s)),
    decreases s.len(),
{
    if s.len() > 0 {
        let rest = s.drop_first();
        lemma_open_windows_unique(rest);
        assert(forall|i: int| 0 <= i < rest.len() ==> rest[i].0 != s[0].0);
        lemma_open_windows_no_key(rest, s[0].0);
    }
}

proof fn lemma_open_windows_wf(s: Seq<(u128, SubnetWindowStore)>)
    requires
        forall|i: int| 0 <= i < s.len() ==> (#[trigger] s[i]).1.wf(),
    ensures
        forall|i: int|
            0 <= i < spec_open_windows(s).len() ==> (#[trigger] spec_open_windows(s)[i]).1.wf(),
        forall|i: int|
            0 <= i < spec_open_windows(s).len() ==> (#[trigger] spec_open_windows(
                s,
            )[i]).1.is_window_open,
    decreases s.len(),
{
    if s.len() > 0 {
        lemma_open_windows_wf(s.drop_first());
    }
}

/// Law: once a unit's open flag is false, the sweep removes it: no entry of
/// the swept store carries its identifier, so it is absent from all later
/// output, the refresh cycle keeping identifiers as they are.
pub proof fn lemma_closed_window_removed(s: Seq<(u128, SubnetWindowStore)>, id: u128)
    requires
        spec_unique_ids(s),
        exists|k: int| 0 <= k < s.len() && (#[trigger] s[k]).0 == id && !s[k].1.is_window_open,
    ensures
        forall|i: int|
            0 <= i < spec_open_windows(s).len() ==> (#[trigger] spec_open_windows(s)[i]).0 != id,
    decreases s.len(),
{
    if s.len() > 0 {
        let k = choose|k: int|
            0 <= k < s.len() && (#[trigger] s[k]).0 == id && !s[k].1.is_window_open;
        let rest = s.drop_first();
        let out = spec_open_windows(s);
        let rest_out = spec_open_windows(rest);
        if k == 0 {
            assert(forall|i: int| 0 <= i < rest.len() ==> rest[i].0 != id);
            lemma_open_windows_no_key(rest, id);
        } else {
            assert(rest[k - 1].0 == id && !rest[k - 1].1.is_window_open);
            lemma_closed_window_removed(rest, id);
            assert(s[0].0 != id);
        }
        assert forall|i: int| 0 <= i < out.len() implies (#[trigger] out[i]).0 != id by {
            if s[0].1.is_window_open {
                if i == 0 {
                    assert(out[0] == s[0]);
                } else {
                    assert(out[i] == rest_out[i - 1]);
                }
            } else {
                assert(out[i] == rest_out[i]);
            }
        }
    }
}

} // verus!
