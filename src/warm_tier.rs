//! The warm tier: the mid-term store, one row per key, for entries aged out
//! of the hot tier. Rows keep the order in which they were last written.

use vstd::prelude::*;
use crate::entries::{
    copy_without_id, lemma_without_id_keeps, without_id,
    aged, copy_aged, copy_all, copy_matching, copy_without_key, find_first, first_n, has_key, lookup,
    matching, relabeled, unique_keys, views, without_key, lemma_views_push,
    lemma_without_key_len,
};
use crate::memory::{EntryView, MemoryTier, TieredMemoryEntry};

verus! {

/// The warm store.
pub struct WarmMemory {
    rows: Vec<TieredMemoryEntry>,
}

/// Rows after an upsert of `e`: the rows under its key or its identifier
/// are replaced, and the new row is the last written.
pub open spec fn upserted(s: Seq<EntryView>, e: EntryView) -> Seq<EntryView> {
    without_id(without_key(s, e.key), e.id).push(relabeled(e, MemoryTier::Warm))
}

/// Whether every row carries the warm label.
pub open spec fn all_warm(s: Seq<EntryView>) -> bool {
    forall|i: int| 0 <= i < s.len() ==> #[trigger] s[i].tier == MemoryTier::Warm
}

pub proof fn lemma_without_id_unique(s: Seq<EntryView>, id: Seq<char>)
    requires
        unique_keys(s),
    ensures
        unique_keys(without_id(s, id)),
        all_warm(s) ==> all_warm(without_id(s, id)),
    decreases s.len(),
{
    if s.len() > 0 {
        let d = s.drop_last();
        assert(unique_keys(d)) by {
            assert forall|a: int, b: int| 0 <= a < b < d.len() implies #[trigger] d[a].key != #[trigger] d[b].key by {
                assert(s[a].key != s[b].key);
            }
        }
        if all_warm(s) {
            assert(all_warm(d)) by {
                assert forall|i: int| 0 <= i < d.len() implies #[trigger] d[i].tier == MemoryTier::Warm by {
                    assert(s[i].tier == MemoryTier::Warm);
                }
            }
        }
        lemma_without_id_unique(d, id);
        lemma_without_id_keeps(d, id);
        let w = without_id(d, id);
        if s.last().id != id {
            assert forall|a: int, b: int| 0 <= a < b < w.push(s.last()).len() implies #[trigger] w.push(s.last())[a].key != #[trigger] w.push(s.last())[b].key by {
                if b == w.len() {
                    let x = w[a];
                    assert(d.contains(x));
                    let t = choose|t: int| 0 <= t < d.len() && d[t] == x;
                    assert(s[t].key != s[s.len() - 1].key);
                }
            }
            if all_warm(s) {
                assert(s[s.len() - 1].tier == MemoryTier::Warm);
            }
        }
    }
}

pub proof fn lemma_without_key_unique(s: Seq<EntryView>, k: Seq<char>)
    requires
        unique_keys(s),
    ensures
        unique_keys(without_key(s, k)),
        all_warm(s) ==> all_warm(without_key(s, k)),
    decreases s.len(),
{
    if s.len() > 0 {
        let d = s.drop_last();
        assert(unique_keys(d)) by {
            assert forall|a: int, b: int| 0 <= a < b < d.len() implies #[trigger] d[a].key != #[trigger] d[b].key by {
                assert(s[a].key != s[b].key);
            }
        }
        if all_warm(s) {
            assert(all_warm(d)) by {
                assert forall|i: int| 0 <= i < d.len() implies #[trigger] d[i].tier == MemoryTier::Warm by {
                    assert(s[i].tier == MemoryTier::Warm);
                }
            }
        }
        lemma_without_key_unique(d, k);
        lemma_without_key_len(d, k);
        let w = without_key(d, k);
        if s.last().key != k {
            assert forall|a: int, b: int| 0 <= a < b < w.push(s.last()).len() implies #[trigger] w.push(s.last())[a].key != #[trigger] w.push(s.last())[b].key by {
                if b == w.len() {
                    let x = w[a];
                    assert(d.contains(x));
                    let t = choose|t: int| 0 <= t < d.len() && d[t] == x;
                    assert(s[t].key != s[s.len() - 1].key);
                }
            }
            if all_warm(s) {
                assert(s[s.len() - 1].tier == MemoryTier::Warm);
            }
        }
    }
}

impl View for WarmMemory {
    type V = Seq<EntryView>;

    /// The rows, least recently written first.
    closed spec fn view(&self) -> Seq<EntryView> {
        views(self.rows@)
    }
}

impl WarmMemory {
    /// One row per key, each labelled warm.
    pub open spec fn wf(&self) -> bool {
        unique_keys(self@) && all_warm(self@)
    }

    /// An empty store.
    pub fn new() -> (r: Self)
        ensures
            r@ == Seq::<EntryView>::empty(),
            r.wf(),
    {
        let r = WarmMemory { rows: Vec::new() };
        assert(r@ =~= Seq::<EntryView>::empty());
        r
    }

    /// The row under `key`, if any.
    pub fn get(&self, key: &str) -> (r: Option<TieredMemoryEntry>)
        ensures
            match r {
                None => !has_key(self@, key@),
                Some(e) => lookup(self@, key@) == Some(e@),
            },
            r.is_some() == has_key(self@, key@),
    {
        match find_first(&self.rows, key) {
            None => None,
            Some(i) => Some(self.rows[i].copy()),
        }
    }

    /// Inserts `entry`, replacing the row with the same key.
    pub fn store(&mut self, entry: &TieredMemoryEntry)
        requires
            old(self).wf(),
        ensures
            final(self).wf(),
            final(self)@ == upserted(old(self)@, entry@),
    {
        let kept = copy_without_key(&self.rows, entry.key.as_str());
        let mut rows = copy_without_id(&kept, entry.id.as_str());
        let mut row = entry.copy();
        row.tier = MemoryTier::Warm;
        proof {
            let wk = without_key(old(self)@, entry@.key);
            lemma_without_key_unique(old(self)@, entry@.key);
            lemma_without_key_len(old(self)@, entry@.key);
            lemma_without_id_unique(wk, entry@.id);
            lemma_without_id_keeps(wk, entry@.id);
            lemma_views_push(rows@, row);
            assert(row@ == relabeled(entry@, MemoryTier::Warm));
        }
        rows.push(row);
        self.rows = rows;
        proof {
            let wk = without_key(old(self)@, entry@.key);
            let w = without_id(wk, entry@.id);
            assert forall|a: int, b: int| 0 <= a < b < self@.len() implies #[trigger] self@[a].key != #[trigger] self@[b].key by {
                if b == w.len() {
                    assert(self@[a] == w[a]);
                    assert(wk.contains(w[a]));
                    let t = choose|t: int| 0 <= t < wk.len() && wk[t] == w[a];
                    assert(wk[t].key != entry@.key);
                }
            }
            assert(self@ == upserted(old(self)@, entry@));
        }
    }

    /// Deletes the row under `key`; tells whether there was one.
    pub fn delete(&mut self, key: &str) -> (r: bool)
        requires
            old(self).wf(),
        ensures
            final(self).wf(),
            r == has_key(old(self)@, key@),
            final(self)@ == without_key(old(self)@, key@),
    {
        let found = find_first(&self.rows, key).is_some();
        self.rows = copy_without_key(&self.rows, key);
        proof {
            lemma_without_key_unique(old(self)@, key@);
        }
        found
    }

    /// Copies of every row, least recently written first.
    pub fn get_all(&self) -> (r: Vec<TieredMemoryEntry>)
        ensures
            views(r@) == self@,
    {
        copy_all(&self.rows)
    }

    /// Rows created more than `days` days before `now`.
    pub fn get_entries_for_archival(&self, now: i64, days: i64) -> (r: Vec<TieredMemoryEntry>)
        ensures
            views(r@) == aged(self@, now, days),
    {
        copy_aged(&self.rows, now, days)
    }

    /// Rows whose content holds `query`, case-insensitively, at most `limit`.
    pub fn search(&self, query: &str, limit: usize) -> (r: Vec<TieredMemoryEntry>)
        ensures
            views(r@) == first_n(matching(self@, query@), limit as nat),
    {
        copy_matching(&self.rows, query, limit)
    }

    /// Number of rows.
    pub fn count(&self) -> (r: usize)
        ensures
            r == self@.len(),
    {
        self.rows.len()
    }

    /// The in-process store is always reachable.
    pub fn health_check(&self) -> (r: bool)
        ensures
            r,
    {
        true
    }
}

} // verus!
