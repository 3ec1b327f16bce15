//! The holder cache: the per-identity record of last-known counts, with a
//! time-based freshness rule.
//!
//! Records live under their identity's text form.  A record's total always
//! equals the sum of its per-service counts; every operation here keeps
//! that invariant.

use vstd::prelude::*;

use crate::ids::IdentityRef;

verus! {

/// The last-known counts for one identity, and when they were taken.
#[derive(Clone, Copy, Debug)]
pub struct HolderInfo {
    pub daku_count: u64,
    pub gg_count: u64,
    pub total_count: u64,
    pub last_updated: u64,
}

/// The record invariant: the total equals the sum of the per-service
/// counts.
pub open spec fn holder_wf(h: HolderInfo) -> bool {
    h.total_count == h.daku_count + h.gg_count
}

impl HolderInfo {
    /// A record with the total computed, never set independently.
    pub fn make(daku_count: u64, gg_count: u64, last_updated: u64) -> (r: HolderInfo)
        requires
            daku_count + gg_count <= u64::MAX,
        ensures
            r.daku_count == daku_count,
            r.gg_count == gg_count,
            r.last_updated == last_updated,
            holder_wf(r),
    {
        HolderInfo { daku_count, gg_count, total_count: daku_count + gg_count, last_updated }
    }

    /// The default record: no holdings, never updated.
    pub fn zero() -> (r: HolderInfo)
        ensures
            r.daku_count == 0 && r.gg_count == 0 && r.total_count == 0 && r.last_updated == 0,
            holder_wf(r),
    {
        HolderInfo { daku_count: 0, gg_count: 0, total_count: 0, last_updated: 0 }
    }
}

/// The record stored under `key`, if any: the first entry whose identity
/// text equals the key.
pub open spec fn lookup(s: Seq<(IdentityRef, HolderInfo)>, key: Seq<char>) -> Option<HolderInfo>
    decreases s.len(),
{
    if s.len() == 0 {
        None
    } else if s[0].0.text@ == key {
        Some(s[0].1)
    } else {
        lookup(s.drop_first(), key)
    }
}

proof fn lemma_lookup_first_match(s: Seq<(IdentityRef, HolderInfo)>, key: Seq<char>, i: int)
    requires
        0 <= i < s.len(),
        s[i].0.text@ == key,
        forall|j: int| 0 <= j < i ==> (#[trigger] s[j]).0.text@ != key,
    ensures
        lookup(s, key) == Some(s[i].1),
    decreases i,
{
    if i > 0 {
        lemma_lookup_first_match(s.drop_first(), key, i - 1);
    }
}

proof fn lemma_lookup_no_match(s: Seq<(IdentityRef, HolderInfo)>, key: Seq<char>)
    requires
        forall|j: int| 0 <= j < s.len() ==> (#[trigger] s[j]).0.text@ != key,
    ensures
        lookup(s, key) is None,
    decreases s.len(),
{
    if s.len() > 0 {
        lemma_lookup_no_match(s.drop_first(), key);
    }
}

proof fn lemma_lookup_update_first(
    s: Seq<(IdentityRef, HolderInfo)>,
    key: Seq<char>,
    i: int,
    p: (IdentityRef, HolderInfo),
    k: Seq<char>,
)
    requires
        0 <= i < s.len(),
        s[i].0.text@ == key,
        forall|j: int| 0 <= j < i ==> (#[trigger] s[j]).0.text@ != key,
        p.0.text@ == key,
    ensures
        lookup(s.update(i, p), k) == if k == key {
            Some(p.1)
        } else {
            lookup(s, k)
        },
    decreases i,
{
    if i == 0 {
        assert(s.update(0, p)[0] == p);
        assert(s.update(0, p).drop_first() =~= s.drop_first());
    } else {
        assert(s.update(i, p).drop_first() =~= s.drop_first().update(i - 1, p));
        lemma_lookup_update_first(s.drop_first(), key, i - 1, p, k);
        assert(s.update(i, p)[0] == s[0]);
    }
}

proof fn lemma_lookup_push(
    s: Seq<(IdentityRef, HolderInfo)>,
    p: (IdentityRef, HolderInfo),
    k: Seq<char>,
)
    ensures
        lookup(s.push(p), k) == if lookup(s, k) is Some {
            lookup(s, k)
        } else if k == p.0.text@ {
            Some(p.1)
        } else {
            None::<HolderInfo>
        },
    decreases s.len(),
{
    if s.len() == 0 {
        assert(s.push(p).len() == 1);
        assert(s.push(p)[0] == p);
        assert(s.push(p).drop_first() =~= Seq::<(IdentityRef, HolderInfo)>::empty());
        assert(lookup(s, k) is None);
        assert(lookup(Seq::<(IdentityRef, HolderInfo)>::empty(), k) is None);
        if k == p.0.text@ {
            assert(lookup(s.push(p), k) == Some(p.1));
        } else {
            assert(lookup(s.push(p), k) == lookup(s.push(p).drop_first(), k));
        }
    } else {
        assert(s.push(p)[0] == s[0]);
        assert(s.push(p).drop_first() =~= s.drop_first().push(p));
        lemma_lookup_push(s.drop_first(), p, k);
        if s[0].0.text@ == k {
            assert(lookup(s.push(p), k) == Some(s[0].1));
            assert(lookup(s, k) == Some(s[0].1));
        } else {
            assert(lookup(s.push(p), k) == lookup(s.drop_first().push(p), k));
            assert(lookup(s, k) == lookup(s.drop_first(), k));
        }
    }
}

/// The process-wide cache of holder records, plus the time of the last
/// bulk refresh.
pub struct HolderStore {
    pub entries: Vec<(IdentityRef, HolderInfo)>,
    pub last_bulk_update: u64,
}

/// Whether the record under `key` exists and is no older than the cache
/// duration at time `now`.
pub open spec fn is_fresh_spec(store: HolderStore, key: Seq<char>, now: u64) -> bool {
    match lookup(store.entries@, key) {
        Some(h) => h.last_updated <= now && now - h.last_updated <= crate::CACHE_DURATION,
        None => false,
    }
}

impl HolderStore {
    /// Every key appears once.
    pub open spec fn distinct_keys(self) -> bool {
        forall|i: int, j: int|
            0 <= i < j < self.entries@.len() ==> (#[trigger] self.entries@[i]).0.text@ != (
            #[trigger] self.entries@[j]).0.text@
    }

    /// Keys are unique and every stored record meets its invariant.
    pub open spec fn wf(self) -> bool {
        self.distinct_keys() && forall|i: int|
            0 <= i < self.entries@.len() ==> holder_wf((#[trigger] self.entries@[i]).1)
    }

    /// The record stored for `key`, if any.
    pub open spec fn cached(self, key: Seq<char>) -> Option<HolderInfo> {
        lookup(self.entries@, key)
    }

    /// An empty store.
    pub fn new() -> (r: HolderStore)
        ensures
            r.wf(),
            r.entries@.len() == 0,
            r.last_bulk_update == 0,
            forall|k: Seq<char>| r.cached(k) is None,
    {
        let r = HolderStore { entries: Vec::new(), last_bulk_update: 0 };
        assert forall|k: Seq<char>| r.cached(k) is None by {
            assert(lookup(r.entries@, k) is None);
        }
        r
    }

    /// The position of the entry for `key`, if one exists.
    fn find_index(&self, key: &String) -> (r: Option<usize>)
        ensures
            match r {
                Some(i) => i < self.entries@.len() && self.entries@[i as int].0.text@ == key@
                    && (forall|j: int|
                    0 <= j < i ==> (#[trigger] self.entries@[j]).0.text@ != key@) && self.cached(
                    key@,
                ) == Some(self.entries@[i as int].1),
                None => (forall|j: int|
                    0 <= j < self.entries@.len() ==> (#[trigger] self.entries@[j]).0.text@
                        != key@) && self.cached(key@) is None,
            },
    {
        let n = self.entries.len();
        let mut i: usize = 0;
        while i < n
            invariant
                n == self.entries@.len(),
                0 <= i <= n,
                forall|j: int| 0 <= j < i ==> (#[trigger] self.entries@[j]).0.text@ != key@,
            decreases n - i,
        {
            let entry = &self.entries[i];
            if entry.0.text.eq(key) {
                proof {
                    lemma_lookup_first_match(self.entries@, key@, i as int);
                }
                return Some(i);
            }
            i = i + 1;
        }
        proof {
            lemma_lookup_no_match(self.entries@, key@);
        }
        None
    }

    /// The record for `key`, if one is stored.
    pub fn get(&self, key: &String) -> (r: Option<HolderInfo>)
        ensures
            r == self.cached(key@),
    {
        match self.find_index(key) {
            Some(i) => Some(self.entries[i].1),
            None => None,
        }
    }

    /// The record for `key`, or the default zero record when none is
    /// stored.  Never calls out.
    pub fn get_cached(&self, key: &String) -> (r: HolderInfo)
        ensures
            match self.cached(key@) {
                Some(h) => r == h,
                None => r == HolderInfo {
                    daku_count: 0,
                    gg_count: 0,
                    total_count: 0,
                    last_updated: 0,
                },
            },
    {
        match self.get(key) {
            Some(h) => h,
            None => HolderInfo::zero(),
        }
    }

    /// Whether the record under `key` is still fresh at time `now`.
    pub fn is_fresh(&self, key: &String, now: u64) -> (r: bool)
        ensures
            r == is_fresh_spec(*self, key@, now),
    {
        match self.get(key) {
            Some(h) => h.last_updated <= now && now - h.last_updated <= crate::CACHE_DURATION,
            None => false,
        }
    }

    /// Stores `info` under `identity`, overwriting any previous record for
    /// the same identity and touching no other.
    pub fn upsert(&mut self, identity: IdentityRef, info: HolderInfo)
        requires
            holder_wf(info),
            old(self).wf(),
        ensures
            final(self).wf(),
            final(self).last_bulk_update == old(self).last_bulk_update,
            forall|k: Seq<char>|
                final(self).cached(k) == if k == identity.text@ {
                    Some(info)
                } else {
                    old(self).cached(k)
                },
    {
        let ghost key = identity.text@;
        match self.find_index(&identity.text) {
            Some(i) => {
                let ghost olds = self.entries@;
                self.entries[i] = (identity, info);
                proof {
                    assert(self.entries@ =~= olds.update(i as int, (identity, info)));
                    assert forall|k: Seq<char>|
                        lookup(self.entries@, k) == if k == key {
                            Some(info)
                        } else {
                            lookup(olds, k)
                        } by {
                        lemma_lookup_update_first(olds, key, i as int, (identity, info), k);
                    }
                }
            },
            None => {
                let ghost olds = self.entries@;
                self.entries.push((identity, info));
                proof {
                    assert forall|k: Seq<char>|
                        lookup(self.entries@, k) == if k == key {
                            Some(info)
                        } else {
                            lookup(olds, k)
                        } by {
                        lemma_lookup_push(olds, (identity, info), k);
                        if k != key {
                            if lookup(olds, k) is None {
                            }
                        } else {
                            lemma_lookup_no_match(olds, key);
                        }
                    }
                }
            },
        }
    }

    /// Records the time of a completed bulk refresh; no record changes.
    pub fn set_last_bulk_update(&mut self, now: u64)
        ensures
            final(self).entries@ == old(self).entries@,
            final(self).last_bulk_update == now,
    {
        self.last_bulk_update = now;
    }
}

/// A record written at time `now` is fresh at `now`, and stops being fresh
/// as soon as more than the cache duration has passed.
pub proof fn lemma_freshness_window(store: HolderStore, key: Seq<char>, now: u64, later: u64)
    requires
        store.cached(key) matches Some(h) && h.last_updated == now,
    ensures
        is_fresh_spec(store, key, now),
        later >= now && later - now > crate::CACHE_DURATION ==> !is_fresh_spec(
            store,
            key,
            later,
        ),
{
}

} // verus!
