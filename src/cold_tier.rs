//! The cold tier: the terminal archive. A key may be archived more than
//! once; an identifier names one row. Rows keep the order of archival.

use vstd::prelude::*;
use crate::entries::{
    copy_without_id, without_id,
    copy_all, copy_matching, copy_without_key, find_first, first_n, has_key, lookup, matching,
    views, without_key, lemma_views_push,
};
use crate::memory::{EntryView, MemoryTier, TieredMemoryEntry, now_secs};
use crate::text::str_eq;

verus! {

/// How a row reads once archived at time `at`: labelled cold, its access
/// time is the archival time and its access count is not kept.
pub open spec fn archived(e: EntryView, at: i64) -> EntryView {
    EntryView { tier: MemoryTier::Cold, accessed_at: at, access_count: 0, ..e }
}

/// The cold archive.
pub struct ColdMemory {
    rows: Vec<TieredMemoryEntry>,
}

impl View for ColdMemory {
    type V = Seq<EntryView>;

    /// The rows, in order of archival.
    closed spec fn view(&self) -> Seq<EntryView> {
        views(self.rows@)
    }
}

impl ColdMemory {
    /// An empty archive.
    pub fn new() -> (r: Self)
        ensures
            r@ == Seq::<EntryView>::empty(),
    {
        let r = ColdMemory { rows: Vec::new() };
        assert(r@ =~= Seq::<EntryView>::empty());
        r
    }

    /// The earliest archived row under `key`, if any.
    pub fn get(&self, key: &str) -> (r: Option<TieredMemoryEntry>)
        ensures
            match r {
                None => !has_key(self@, key@),
                Some(e) => lookup(self@, key@) == Some(e@),
            },
            r.is_some() == has_key(self@, key@),
    {
        match find_first(&self.rows, key) {
            None => None,
            Some(i) => Some(self.rows[i].copy()),
        }
    }

    /// Archives `entry` at time `at`, replacing the row with the same
    /// identifier.
    pub fn archive_at(&mut self, entry: &TieredMemoryEntry, at: i64)
        ensures
            final(self)@ == without_id(old(self)@, entry@.id).push(archived(entry@, at)),
    {
        let mut rows = copy_without_id(&self.rows, entry.id.as_str());
        let mut row = entry.copy();
        row.tier = MemoryTier::Cold;
        row.accessed_at = at;
        row.access_count = 0;
        proof {
            lemma_views_push(rows@, row);
        }
        rows.push(row);
        self.rows = rows;
    }

    /// Archives `entry` now.
    pub fn archive(&mut self, entry: &TieredMemoryEntry)
        ensures
            exists|at: i64| final(self)@ == without_id(old(self)@, entry@.id).push(#[trigger] archived(entry@, at)),
    {
        let at = now_secs();
        self.archive_at(entry, at);
    }

    /// Deletes every row under `key`; tells whether there was one.
    pub fn delete(&mut self, key: &str) -> (r: bool)
        ensures
            r == has_key(old(self)@, key@),
            final(self)@ == without_key(old(self)@, key@),
    {
        let found = find_first(&self.rows, key).is_some();
        self.rows = copy_without_key(&self.rows, key);
        found
    }

    /// Copies of every row, in order of archival.
    pub fn get_all(&self) -> (r: Vec<TieredMemoryEntry>)
        ensures
            views(r@) == self@,
    {
        copy_all(&self.rows)
    }

    /// Rows whose content holds `query`, case-insensitively, at most `limit`.
    pub fn search(&self, query: &str, limit: usize) -> (r: Vec<TieredMemoryEntry>)
        ensures
            views(r@) == first_n(matching(self@, query@), limit as nat),
    {
        copy_matching(&self.rows, query, limit)
    }

    /// Number of rows.
    pub fn count(&self) -> (r: usize)
        ensures
            r == self@.len(),
    {
        self.rows.len()
    }

    /// The in-process archive is always reachable.
    pub fn health_check(&self) -> (r: bool)
        ensures
            r,
    {
        true
    }
}

} // verus!
