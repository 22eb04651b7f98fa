//! The hot tier: a bounded in-process cache with least-recently-used
//! eviction. Entries and their recency order live in one vector, least
//! recently used first, so a lookup and its reordering are one update.

use vstd::prelude::*;
use crate::entries::{
    copy_all, copy_matching, find_first, first_n, has_key, lemma_unique_push, lemma_unique_remove, lemma_unique_suffix,
    lemma_views_push, lemma_views_remove, lemma_views_subrange, lemma_without_key_absent,
    lemma_without_key_at, lemma_without_key_len, matching, unique_keys, views, without_key,
};
use crate::memory::{EntryView, Priority, TieredMemoryEntry, older_than};
use crate::text::str_eq;

verus! {

broadcast use vstd::string::group_string_axioms;

/// How many entries survive the eviction that precedes a store into a tier
/// of `cap` entries holding `n`.
pub open spec fn kept(n: nat, cap: nat) -> nat {
    if n < cap {
        n
    } else if cap == 0 {
        0
    } else {
        (cap - 1) as nat
    }
}

/// The entries left after evicting from the least recently used end.
pub open spec fn after_eviction(s: Seq<EntryView>, cap: nat) -> Seq<EntryView> {
    s.subrange(s.len() - kept(s.len(), cap), s.len() as int)
}

/// The recency list after storing `e` into a tier of capacity `cap`.
pub open spec fn stored(s: Seq<EntryView>, cap: nat, e: EntryView) -> Seq<EntryView> {
    without_key(after_eviction(s, cap), e.key).push(e)
}

/// The recency list after entry `i` is read: it moves to the most recent end.
pub open spec fn touched(s: Seq<EntryView>, i: int) -> Seq<EntryView> {
    s.remove(i).push(s[i])
}

/// Entries old enough to leave the hot tier: older than `days` at `now`,
/// and not `Critical`.
pub open spec fn promotable(s: Seq<EntryView>, now: i64, days: i64) -> Seq<EntryView>
    decreases s.len(),
{
    if s.len() == 0 {
        s
    } else {
        let rest = promotable(s.drop_last(), now, days);
        let e = s.last();
        if older_than(e.timestamp, now, days) && e.priority != Priority::Critical {
            rest.push(e)
        } else {
            rest
        }
    }
}

/// The bounded least-recently-used cache.
pub struct HotMemory {
    entries: Vec<TieredMemoryEntry>,
    max_entries: usize,
}

impl View for HotMemory {
    type V = Seq<EntryView>;

    /// The entries, least recently used first.
    closed spec fn view(&self) -> Seq<EntryView> {
        views(self.entries@)
    }
}

impl HotMemory {
    /// The capacity the tier was made with.
    pub closed spec fn capacity(&self) -> nat {
        self.max_entries as nat
    }

    /// Keys are unique.
    pub open spec fn wf(&self) -> bool {
        unique_keys(self@)
    }

    /// An empty tier of capacity `max_entries`.
    pub fn new(max_entries: usize) -> (r: Self)
        ensures
            r@ == Seq::<EntryView>::empty(),
            r.capacity() == max_entries,
            r.wf(),
    {
        let r = HotMemory { entries: Vec::new(), max_entries };
        assert(r@ =~= Seq::<EntryView>::empty());
        r
    }

    /// Position of the entry with key `key`, if any.
    fn find(&self, key: &str) -> (r: Option<usize>)
        requires
            self.wf(),
        ensures
            match r {
                None => !has_key(self@, key@),
                Some(i) => i < self@.len() && self@[i as int].key == key@,
            },
    {
        find_first(&self.entries, key)
    }

    /// Looks `key` up; on a hit the entry becomes the most recently used and
    /// a copy of it is returned.
    pub fn get(&mut self, key: &str) -> (r: Option<TieredMemoryEntry>)
        requires
            old(self).wf(),
        ensures
            final(self).wf(),
            final(self).capacity() == old(self).capacity(),
            match r {
                None => !has_key(old(self)@, key@) && final(self)@ == old(self)@,
                Some(e) => exists|i: int|
                    0 <= i < old(self)@.len() && #[trigger] old(self)@[i].key == key@ && e@ == old(self)@[i]
                        && final(self)@ == touched(old(self)@, i),
            },
    {
        match self.find(key) {
            None => None,
            Some(i) => {
                let ghost s = self@;
                proof {
                    lemma_views_remove(self.entries@, i as int);
                }
                let e = self.entries.remove(i);
                let copy = e.copy();
                proof {
                    lemma_views_push(self.entries@, e);
                }
                self.entries.push(e);
                proof {
                    assert(self@ =~= touched(s, i as int));
                    lemma_unique_remove(s, i as int);
                    lemma_unique_push(s.remove(i as int), s[i as int]);
                    assert(old(self)@[i as int].key == key@);
                }
                Some(copy)
            }
        }
    }

    /// Whether some entry has key `key`, without touching recency.
    pub fn contains_key(&self, key: &str) -> (r: bool)
        requires
            self.wf(),
        ensures
            r == has_key(self@, key@),
    {
        self.find(key).is_some()
    }

    /// Inserts or replaces the entry under its key. While the tier holds
    /// `capacity` entries or more, the least recently used one is evicted
    /// first; the stored entry becomes the most recently used.
    pub fn store(&mut self, entry: TieredMemoryEntry)
        requires
            old(self).wf(),
        ensures
            final(self).wf(),
            final(self).capacity() == old(self).capacity(),
            final(self)@ == stored(old(self)@, old(self).capacity(), entry@),
    {
        let ghost s = self@;
        let n = self.entries.len();
        let ghost cap = self.max_entries as nat;
        let evict: usize = if n < self.max_entries {
            0
        } else if self.max_entries == 0 {
            n
        } else {
            n - (self.max_entries - 1)
        };
        let rest = self.entries.split_off(evict);
        self.entries = rest;
        proof {
            lemma_views_subrange(old(self).entries@, evict as int);
        }
        assert(self@ == after_eviction(s, cap));
        proof {
            lemma_unique_suffix(s, n - self@.len());
        }
        let ghost base = self@;
        match self.find(entry.key.as_str()) {
            None => {
                proof {
                    lemma_without_key_absent(base, entry.key@);
                }
            },
            Some(i) => {
                proof {
                    lemma_views_remove(self.entries@, i as int);
                }
                self.entries.remove(i);
                proof {
                    lemma_without_key_at(base, entry.key@, i as int);
                    assert(self@ =~= base.remove(i as int));
                }
            },
        }
        proof {
            lemma_without_key_len(base, entry.key@);
            lemma_unique_push(self@, entry@);
            lemma_views_push(self.entries@, entry);
        }
        self.entries.push(entry);
        assert(self@ =~= without_key(base, entry@.key).push(entry@));
    }

    /// Deletes the entry under `key`; tells whether there was one.
    pub fn remove(&mut self, key: &str) -> (r: bool)
        requires
            old(self).wf(),
        ensures
            final(self).wf(),
            final(self).capacity() == old(self).capacity(),
            r == has_key(old(self)@, key@),
            final(self)@ == without_key(old(self)@, key@),
    {
        match self.find(key) {
            None => {
                proof {
                    lemma_without_key_absent(self@, key@);
                }
                false
            },
            Some(i) => {
                let ghost s = self@;
                proof {
                    lemma_views_remove(self.entries@, i as int);
                }
                self.entries.remove(i);
                proof {
                    lemma_without_key_at(s, key@, i as int);
                    assert(self@ =~= s.remove(i as int));
                    lemma_unique_remove(s, i as int);
                }
                true
            },
        }
    }

    /// A copy of every entry, least recently used first.
    pub fn get_all(&self) -> (r: Vec<TieredMemoryEntry>)
        ensures
            views(r@) == self@,
    {
        copy_all(&self.entries)
    }

    /// Entries older than `days` days at time `now` whose priority is not
    /// `Critical`, least recently used first.
    pub fn get_entries_for_promotion(&self, now: i64, days: i64) -> (r: Vec<TieredMemoryEntry>)
        ensures
            views(r@) == promotable(self@, now, days),
    {
        let mut r: Vec<TieredMemoryEntry> = Vec::new();
        let mut i: usize = 0;
        while i < self.entries.len()
            invariant
                i <= self.entries@.len(),
                self@ == views(self.entries@),
                views(r@) == promotable(self@.subrange(0, i as int), now, days),
            decreases self.entries@.len() - i,
        {
            let e = &self.entries[i];
            assert(self@.subrange(0, i + 1).drop_last() =~= self@.subrange(0, i as int));
            if e.should_promote_to_warm(now, days) && e.priority != Priority::Critical {
                let c = e.copy();
                proof {
                    lemma_views_push(r@, c);
                }
                r.push(c);
                assert(views(r@) =~= promotable(self@.subrange(0, i as int), now, days).push(e@));
            }
            i = i + 1;
        }
        assert(self@ =~= self@.subrange(0, i as int));
        r
    }

    /// Entries whose content holds `query`, case-insensitively, at most
    /// `limit` of them, least recently used first.
    pub fn search(&self, query: &str, limit: usize) -> (r: Vec<TieredMemoryEntry>)
        ensures
            views(r@) == first_n(matching(self@, query@), limit as nat),
    {
        copy_matching(&self.entries, query, limit)
    }

    /// Number of entries held.
    pub fn count(&self) -> (r: usize)
        ensures
            r == self@.len(),
    {
        self.entries.len()
    }

    /// Whether the tier is consistent: no key is held twice.
    pub fn health_check(&self) -> (r: bool)
        ensures
            r == unique_keys(self@),
    {
        let n = self.entries.len();
        let mut i: usize = 0;
        while i < n
            invariant
                n == self.entries@.len(),
                self@ == views(self.entries@),
                i <= n,
                forall|a: int, b: int| 0 <= a < b < n && a < i ==> #[trigger] self@[a].key != #[trigger] self@[b].key,
            decreases n - i,
        {
            let mut j: usize = i + 1;
            while j < n
                invariant
                    n == self.entries@.len(),
                    self@ == views(self.entries@),
                    i < n,
                    i + 1 <= j <= n,
                    forall|a: int, b: int| 0 <= a < b < n && a < i ==> #[trigger] self@[a].key != #[trigger] self@[b].key,
                    forall|b: int| i < b < j ==> self@[i as int].key != #[trigger] self@[b].key,
                decreases n - j,
            {
                if str_eq(self.entries[i].key.as_str(), self.entries[j].key.as_str()) {
                    assert(self@[i as int].key == self@[j as int].key);
                    return false;
                }
                j = j + 1;
            }
            i = i + 1;
        }
        true
    }
}

} // verus!

verus! {

/// Whatever the tier held before, a store into a tier of capacity `cap` of
/// at least one leaves at most `cap` entries.
pub proof fn lemma_store_within_capacity(s: Seq<EntryView>, cap: nat, e: EntryView)
    requires
        cap >= 1,
    ensures
        stored(s, cap, e).len() <= cap,
{
    lemma_without_key_len(after_eviction(s, cap), e.key);
}

/// Storing a new key into a full tier evicts exactly the least recently
/// used entry: the others keep their order and the new entry comes last.
pub proof fn lemma_store_evicts_least_recent(s: Seq<EntryView>, cap: nat, e: EntryView)
    requires
        cap >= 1,
        s.len() == cap,
        !has_key(s, e.key),
    ensures
        stored(s, cap, e) == s.subrange(1, s.len() as int).push(e),
{
    let t = s.subrange(1, s.len() as int);
    assert(after_eviction(s, cap) =~= t);
    assert(!has_key(t, e.key)) by {
        if has_key(t, e.key) {
            let i = choose|i: int| 0 <= i < t.len() && #[trigger] t[i].key == e.key;
            assert(s[i + 1].key == e.key);
        }
    }
    lemma_without_key_absent(t, e.key);
}

/// A read moves the entry read to the most recent end, so the next
/// eviction spares it: reading the least recently used entry of a full
/// tier, then storing a new key, evicts the entry that was second.
pub proof fn lemma_read_spares_from_eviction(s: Seq<EntryView>, cap: nat, e: EntryView)
    requires
        cap >= 2,
        s.len() == cap,
        !has_key(s, e.key),
    ensures
        stored(touched(s, 0), cap, e) == s.subrange(2, s.len() as int).push(s[0]).push(e),
{
    let t = touched(s, 0);
    assert(!has_key(t, e.key)) by {
        if has_key(t, e.key) {
            let i = choose|i: int| 0 <= i < t.len() && #[trigger] t[i].key == e.key;
            if i < t.len() - 1 {
                assert(t[i] == s[i + 1]);
            } else {
                assert(t[i] == s[0]);
            }
        }
    }
    lemma_store_evicts_least_recent(t, cap, e);
    assert(t.subrange(1, t.len() as int) =~= s.subrange(2, s.len() as int).push(s[0]));
}

} // verus!
