//! The facade over the three tiers: writes land in the hot tier, reads fall
//! through hot, warm and cold and promote what they find, and a maintenance
//! pass moves aged entries down the hierarchy.

use vstd::prelude::*;
use crate::cold_tier::{ColdMemory, archived};
use crate::entries::{
    without_id, lemma_without_id_keeps,
    aged, first_n, has_key, lookup, matching, relabeled, unique_keys, views, without_key,
    lemma_without_key_len,
};
use crate::hot_tier::{HotMemory, promotable, stored, touched};
use crate::memory::{
    EntryView, MaintenanceReport, MemoryTier, MigrationPolicy, Priority, TieredMemoryEntry, older_than,
    new_uuid, now_secs,
};
use crate::text::owned;
use crate::warm_tier::{WarmMemory, upserted};

verus! {

broadcast use vstd::string::group_string_axioms;

/// An access count after one more access; it stops at its largest value.
pub open spec fn bumped(n: u32) -> u32 {
    if n < u32::MAX {
        (n + 1) as u32
    } else {
        n
    }
}

/// An existing entry rewritten with new content at time `now`.
pub open spec fn updated(e: EntryView, content: Seq<char>, now: i64) -> EntryView {
    EntryView { content: content, accessed_at: now, access_count: bumped(e.access_count), ..e }
}

/// A new hot entry.
pub open spec fn fresh(
    key: Seq<char>,
    content: Seq<char>,
    priority: Priority,
    id: Seq<char>,
    now: i64,
) -> EntryView {
    EntryView {
        id: id,
        key: key,
        content: content,
        tier: MemoryTier::Hot,
        priority: priority,
        timestamp: now,
        accessed_at: now,
        access_count: 1,
        session_id: None,
        tags: Seq::empty(),
    }
}

/// The hot tier `h2` is `h` after remembering `content` under `key` at time
/// `now`, a new entry taking identifier `id`.
pub open spec fn remembered(
    h: Seq<EntryView>,
    cap: nat,
    key: Seq<char>,
    content: Seq<char>,
    priority: Priority,
    id: Seq<char>,
    now: i64,
    h2: Seq<EntryView>,
) -> bool {
    if has_key(h, key) {
        exists|i: int|
            0 <= i < h.len() && #[trigger] h[i].key == key && h2 == stored(
                touched(h, i),
                cap,
                updated(h[i], content, now),
            )
    } else {
        h2 == stored(h, cap, fresh(key, content, priority, id, now))
    }
}

/// Fan-out search: hot, then warm, then cold, up to `limit` in all.
pub open spec fn fan_out(
    h: Seq<EntryView>,
    w: Seq<EntryView>,
    c: Seq<EntryView>,
    q: Seq<char>,
    limit: nat,
) -> Seq<EntryView> {
    let a = first_n(matching(h, q), limit);
    let b = first_n(matching(w, q), (limit - a.len()) as nat);
    let d = first_n(matching(c, q), (limit - a.len() - b.len()) as nat);
    a + b + d
}

/// `s` after deleting the key of each entry of `p`, in order.
pub open spec fn remove_all(s: Seq<EntryView>, p: Seq<EntryView>) -> Seq<EntryView>
    decreases p.len(),
{
    if p.len() == 0 {
        s
    } else {
        without_key(remove_all(s, p.drop_last()), p.last().key)
    }
}

/// The warm rows after upserting each entry of `p`, in order.
pub open spec fn store_all(w: Seq<EntryView>, p: Seq<EntryView>) -> Seq<EntryView>
    decreases p.len(),
{
    if p.len() == 0 {
        w
    } else {
        upserted(store_all(w, p.drop_last()), p.last())
    }
}

/// The cold rows after archiving each entry of `a` at time `at`, in order.
pub open spec fn archive_all(c: Seq<EntryView>, a: Seq<EntryView>, at: i64) -> Seq<EntryView>
    decreases a.len(),
{
    if a.len() == 0 {
        c
    } else {
        without_id(archive_all(c, a.drop_last(), at), a.last().id).push(
            archived(a.last(), at),
        )
    }
}

/// Hot entries moved down by a maintenance pass at `now`.
pub open spec fn to_warm(h: Seq<EntryView>, now: i64, p: MigrationPolicy) -> Seq<EntryView> {
    promotable(h, now, p.hot_to_warm_days)
}

/// The warm rows once the hot entries have moved down, before archival.
pub open spec fn warm_filled(h: Seq<EntryView>, w: Seq<EntryView>, now: i64, p: MigrationPolicy) -> Seq<EntryView> {
    store_all(w, to_warm(h, now, p))
}

/// Warm rows archived by a maintenance pass at `now`.
pub open spec fn to_cold(h: Seq<EntryView>, w: Seq<EntryView>, now: i64, p: MigrationPolicy) -> Seq<EntryView> {
    aged(warm_filled(h, w, now, p), now, p.warm_to_cold_days)
}

/// The hot tier after a maintenance pass.
pub open spec fn hot_after(h: Seq<EntryView>, now: i64, p: MigrationPolicy) -> Seq<EntryView> {
    remove_all(h, to_warm(h, now, p))
}

/// The warm tier after a maintenance pass.
pub open spec fn warm_after(h: Seq<EntryView>, w: Seq<EntryView>, now: i64, p: MigrationPolicy) -> Seq<EntryView> {
    remove_all(warm_filled(h, w, now, p), to_cold(h, w, now, p))
}

/// The cold tier after a maintenance pass.
pub open spec fn cold_after(
    h: Seq<EntryView>,
    w: Seq<EntryView>,
    c: Seq<EntryView>,
    now: i64,
    p: MigrationPolicy,
) -> Seq<EntryView> {
    archive_all(c, to_cold(h, w, now, p), now)
}

/// The facade over the hot, warm and cold tiers.
pub struct TieredMemory {
    hot: HotMemory,
    warm: WarmMemory,
    cold: ColdMemory,
    policy: MigrationPolicy,
}

impl TieredMemory {
    pub closed spec fn hot_view(&self) -> Seq<EntryView> {
        self.hot@
    }

    pub closed spec fn warm_view(&self) -> Seq<EntryView> {
        self.warm@
    }

    pub closed spec fn cold_view(&self) -> Seq<EntryView> {
        self.cold@
    }

    pub closed spec fn policy_of(&self) -> MigrationPolicy {
        self.policy
    }

    pub closed spec fn wf(&self) -> bool {
        &&& self.hot.wf()
        &&& self.warm.wf()
        &&& self.hot.capacity() == self.policy.max_hot_entries
    }

    /// Empty tiers under `policy`; the hot tier holds at most
    /// `policy.max_hot_entries` entries.
    pub fn new(policy: MigrationPolicy) -> (r: Self)
        ensures
            r.wf(),
            r.policy_of() == policy,
            r.hot_view() == Seq::<EntryView>::empty(),
            r.warm_view() == Seq::<EntryView>::empty(),
            r.cold_view() == Seq::<EntryView>::empty(),
    {
        TieredMemory {
            hot: HotMemory::new(policy.max_hot_entries),
            warm: WarmMemory::new(),
            cold: ColdMemory::new(),
            policy,
        }
    }

    /// An empty hot tier under `policy` over existing warm and cold tiers.
    pub fn from_parts(policy: MigrationPolicy, warm: WarmMemory, cold: ColdMemory) -> (r: Self)
        requires
            warm.wf(),
        ensures
            r.wf(),
            r.policy_of() == policy,
            r.hot_view() == Seq::<EntryView>::empty(),
            r.warm_view() == warm@,
            r.cold_view() == cold@,
    {
        TieredMemory { hot: HotMemory::new(policy.max_hot_entries), warm, cold, policy }
    }

    /// The hot tier.
    pub fn hot(&self) -> (r: &HotMemory)
        ensures
            r@ == self.hot_view(),
            self.wf() ==> r.wf(),
    {
        &self.hot
    }

    /// The warm tier.
    pub fn warm(&self) -> (r: &WarmMemory)
        ensures
            r@ == self.warm_view(),
            self.wf() ==> r.wf(),
    {
        &self.warm
    }

    /// The cold tier.
    pub fn cold(&self) -> (r: &ColdMemory)
        ensures
            r@ == self.cold_view(),
    {
        &self.cold
    }

    /// Remembers `content` under `key` at time `now`. An entry already hot
    /// is rewritten in place; otherwise a new hot entry with identifier `id`
    /// and priority `priority` is made. Only the hot tier is written.
    pub fn remember_at(&mut self, key: &str, content: &str, priority: Priority, id: String, now: i64)
        requires
            old(self).wf(),
        ensures
            final(self).wf(),
            final(self).policy_of() == old(self).policy_of(),
            final(self).warm_view() == old(self).warm_view(),
            final(self).cold_view() == old(self).cold_view(),
            remembered(
                old(self).hot_view(),
                old(self).policy_of().max_hot_entries as nat,
                key@,
                content@,
                priority,
                id@,
                now,
                final(self).hot_view(),
            ),
    {
        match self.hot.get(key) {
            Some(e) => {
                let mut entry = e;
                entry.content = owned(content);
                entry.accessed_at = now;
                entry.access_count = if entry.access_count < u32::MAX {
                    entry.access_count + 1
                } else {
                    entry.access_count
                };
                let ghost mid = self.hot@;
                self.hot.store(entry);
                proof {
                    let i = choose|i: int|
                        0 <= i < old(self).hot@.len() && #[trigger] old(self).hot@[i].key == key@
                            && e@ == old(self).hot@[i] && mid == touched(old(self).hot@, i);
                    assert(entry@ == updated(old(self).hot@[i], content@, now));
                    assert(has_key(old(self).hot@, key@));
                }
            },
            None => {
                let entry = TieredMemoryEntry::with_identity(owned(key), owned(content), priority, id, now);
                proof {
                    assert(entry@.tags =~= Seq::<Seq<char>>::empty());
                    assert(entry@ == fresh(key@, content@, priority, id@, now));
                }
                self.hot.store(entry);
            },
        }
    }

    /// Remembers `content` under `key` now; a new entry gets a fresh
    /// `mem_` identifier.
    pub fn remember(&mut self, key: &str, content: &str, priority: Priority)
        requires
            old(self).wf(),
        ensures
            final(self).wf(),
            final(self).policy_of() == old(self).policy_of(),
            final(self).warm_view() == old(self).warm_view(),
            final(self).cold_view() == old(self).cold_view(),
            exists|id: Seq<char>, now: i64|
                #[trigger] remembered(
                    old(self).hot_view(),
                    old(self).policy_of().max_hot_entries as nat,
                    key@,
                    content@,
                    priority,
                    id,
                    now,
                    final(self).hot_view(),
                ),
    {
        let mut id = owned("mem_");
        let u = new_uuid();
        id.append(u.as_str());
        let now = now_secs();
        self.remember_at(key, content, priority, id, now);
    }

    /// Reads `key`: from the hot tier if it is there; else the warm row,
    /// else the earliest cold row, copied into the hot tier labelled hot.
    /// The colder copy stays where it was.
    pub fn recall(&mut self, key: &str) -> (r: Option<TieredMemoryEntry>)
        requires
            old(self).wf(),
        ensures
            final(self).wf(),
            final(self).policy_of() == old(self).policy_of(),
            final(self).warm_view() == old(self).warm_view(),
            final(self).cold_view() == old(self).cold_view(),
            ({
                let h = old(self).hot_view();
                let cap = old(self).policy_of().max_hot_entries as nat;
                if has_key(h, key@) {
                    exists|i: int|
                        0 <= i < h.len() && #[trigger] h[i].key == key@ && r.is_some() && r.unwrap()@ == h[i] && final(self).hot_view() == touched(h, i)
                } else if has_key(old(self).warm_view(), key@) {
                    let p = relabeled(lookup(old(self).warm_view(), key@).unwrap(), MemoryTier::Hot);
                    r.is_some() && r.unwrap()@ == p && final(self).hot_view() == stored(h, cap, p)
                } else if has_key(old(self).cold_view(), key@) {
                    let p = relabeled(lookup(old(self).cold_view(), key@).unwrap(), MemoryTier::Hot);
                    r.is_some() && r.unwrap()@ == p && final(self).hot_view() == stored(h, cap, p)
                } else {
                    r.is_none() && final(self).hot_view() == h
                }
            }),
    {
        match self.hot.get(key) {
            Some(e) => {
                return Some(e);
            },
            None => {},
        }
        match self.warm.get(key) {
            Some(e) => {
                let mut promoted = e;
                promoted.tier = MemoryTier::Hot;
                let result = promoted.copy();
                self.hot.store(promoted);
                return Some(result);
            },
            None => {},
        }
        match self.cold.get(key) {
            Some(e) => {
                let mut promoted = e;
                promoted.tier = MemoryTier::Hot;
                let result = promoted.copy();
                self.hot.store(promoted);
                Some(result)
            },
            None => None,
        }
    }

    /// Entries whose content holds `query`, case-insensitively: hot ones
    /// first, then warm, then cold, at most `limit` in all. Copies in more
    /// than one tier are all returned.
    pub fn search(&self, query: &str, limit: usize) -> (r: Vec<TieredMemoryEntry>)
        ensures
            views(r@) == fan_out(self.hot_view(), self.warm_view(), self.cold_view(), query@, limit as nat),
    {
        let mut results = self.hot.search(query, limit);
        let ghost a = views(results@);
        let mut more = self.warm.search(query, limit - results.len());
        let ghost b = views(more@);
        results.append(&mut more);
        proof {
            assert(views(results@) =~= a + b);
        }
        let mut rest = self.cold.search(query, limit - results.len());
        let ghost d = views(rest@);
        results.append(&mut rest);
        proof {
            assert(views(results@) =~= a + b + d);
        }
        results
    }

    /// Deletes `key` from every tier; tells whether any tier held it.
    pub fn forget(&mut self, key: &str) -> (r: bool)
        requires
            old(self).wf(),
        ensures
            final(self).wf(),
            final(self).policy_of() == old(self).policy_of(),
            r == (has_key(old(self).hot_view(), key@) || has_key(old(self).warm_view(), key@)
                || has_key(old(self).cold_view(), key@)),
            final(self).hot_view() == without_key(old(self).hot_view(), key@),
            final(self).warm_view() == without_key(old(self).warm_view(), key@),
            final(self).cold_view() == without_key(old(self).cold_view(), key@),
    {
        let a = self.hot.remove(key);
        let b = self.warm.delete(key);
        let c = self.cold.delete(key);
        a || b || c
    }

    /// Entries held in all tiers together, copies in several tiers counted
    /// each time; the sum stops at `usize::MAX`.
    pub fn count(&self) -> (r: usize)
        ensures
            r as int == if self.hot_view().len() + self.warm_view().len() + self.cold_view().len()
                <= usize::MAX {
                self.hot_view().len() + self.warm_view().len() + self.cold_view().len() as int
            } else {
                usize::MAX as int
            },
    {
        let h = self.hot.count();
        let w = self.warm.count();
        let c = self.cold.count();
        let hw = h.saturating_add(w);
        hw.saturating_add(c)
    }

    /// One maintenance pass at time `now`: each hot entry older than
    /// `hot_to_warm_days` and not `Critical` is written to the warm tier
    /// and removed from the hot tier; then each warm row older than
    /// `warm_to_cold_days` is archived and deleted from the warm tier.
    pub fn maintain_at(&mut self, now: i64) -> (r: MaintenanceReport)
        requires
            old(self).wf(),
        ensures
            final(self).wf(),
            final(self).policy_of() == old(self).policy_of(),
            ({
                let (h, w, c, p) = (old(self).hot_view(), old(self).warm_view(), old(self).cold_view(), old(self).policy_of());
                &&& final(self).hot_view() == hot_after(h, now, p)
                &&& final(self).warm_view() == warm_after(h, w, now, p)
                &&& final(self).cold_view() == cold_after(h, w, c, now, p)
                &&& r.hot_to_warm_migrated == to_warm(h, now, p).len()
                &&& r.warm_to_cold_migrated == to_cold(h, w, now, p).len()
                &&& r.cold_to_warm_promoted == 0
                &&& r.hot_evicted == 0
                &&& r.total_hot == hot_after(h, now, p).len()
                &&& r.total_warm == warm_after(h, w, now, p).len()
                &&& r.total_cold == cold_after(h, w, c, now, p).len()
            }),
    {
        let ghost h = self.hot@;
        let ghost w = self.warm@;
        let ghost c = self.cold@;
        let to_promote = self.hot.get_entries_for_promotion(now, self.policy.hot_to_warm_days);
        let ghost pr = views(to_promote@);
        let mut i: usize = 0;
        while i < to_promote.len()
            invariant
                self.wf(),
                self.policy == old(self).policy,
                pr == views(to_promote@),
                pr == to_warm(h, now, self.policy),
                i <= to_promote@.len(),
                self.hot@ == remove_all(h, pr.subrange(0, i as int)),
                self.warm@ == store_all(w, pr.subrange(0, i as int)),
                self.cold@ == c,
            decreases to_promote@.len() - i,
        {
            let entry = &to_promote[i];
            assert(pr.subrange(0, i + 1).drop_last() =~= pr.subrange(0, i as int));
            assert(pr.subrange(0, i + 1).last() == pr[i as int]);
            self.warm.store(entry);
            self.hot.remove(entry.key.as_str());
            i = i + 1;
        }
        assert(pr.subrange(0, i as int) =~= pr);
        let promoted_count = i;
        let to_archive = self.warm.get_entries_for_archival(now, self.policy.warm_to_cold_days);
        let ghost ar = views(to_archive@);
        let ghost w1 = self.warm@;
        let mut j: usize = 0;
        while j < to_archive.len()
            invariant
                self.wf(),
                self.policy == old(self).policy,
                ar == views(to_archive@),
                ar == aged(w1, now, self.policy.warm_to_cold_days),
                j <= to_archive@.len(),
                self.hot@ == hot_after(h, now, self.policy),
                self.warm@ == remove_all(w1, ar.subrange(0, j as int)),
                self.cold@ == archive_all(c, ar.subrange(0, j as int), now),
            decreases to_archive@.len() - j,
        {
            let entry = &to_archive[j];
            assert(ar.subrange(0, j + 1).drop_last() =~= ar.subrange(0, j as int));
            assert(ar.subrange(0, j + 1).last() == ar[j as int]);
            self.cold.archive_at(entry, now);
            self.warm.delete(entry.key.as_str());
            j = j + 1;
        }
        assert(ar.subrange(0, j as int) =~= ar);
        MaintenanceReport {
            hot_to_warm_migrated: promoted_count,
            warm_to_cold_migrated: j,
            cold_to_warm_promoted: 0,
            hot_evicted: 0,
            total_hot: self.hot.count(),
            total_warm: self.warm.count(),
            total_cold: self.cold.count(),
        }
    }

    /// One maintenance pass now; see `maintain_at`.
    pub fn maintain(&mut self) -> (r: MaintenanceReport)
        requires
            old(self).wf(),
        ensures
            final(self).wf(),
            final(self).policy_of() == old(self).policy_of(),
            r.cold_to_warm_promoted == 0,
            r.hot_evicted == 0,
            r.total_hot == final(self).hot_view().len(),
            r.total_warm == final(self).warm_view().len(),
            r.total_cold == final(self).cold_view().len(),
            exists|now: i64|
                #![trigger hot_after(old(self).hot_view(), now, old(self).policy_of())]
                {
                    &&& final(self).hot_view() == hot_after(old(self).hot_view(), now, old(self).policy_of())
                    &&& final(self).warm_view() == warm_after(old(self).hot_view(), old(self).warm_view(), now, old(self).policy_of())
                    &&& final(self).cold_view() == cold_after(old(self).hot_view(), old(self).warm_view(), old(self).cold_view(), now, old(self).policy_of())
                    &&& r.hot_to_warm_migrated == to_warm(old(self).hot_view(), now, old(self).policy_of()).len()
                    &&& r.warm_to_cold_migrated == to_cold(old(self).hot_view(), old(self).warm_view(), now, old(self).policy_of()).len()
                },
    {
        let now = now_secs();
        self.maintain_at(now)
    }

    /// Whether every tier is healthy.
    pub fn health_check(&self) -> (r: bool)
        ensures
            r == unique_keys(self.hot_view()),
    {
        self.hot.health_check() && self.warm.health_check() && self.cold.health_check()
    }
}

} // verus!

verus! {

/// Remembering `content` under `key` leaves that key in the hot tier, and
/// every hot entry under it holds `content`: a read that follows finds it.
pub proof fn lemma_remember_then_recall(
    h: Seq<EntryView>,
    cap: nat,
    key: Seq<char>,
    content: Seq<char>,
    priority: Priority,
    id: Seq<char>,
    now: i64,
    h2: Seq<EntryView>,
)
    requires
        remembered(h, cap, key, content, priority, id, now, h2),
    ensures
        has_key(h2, key),
        forall|i: int| 0 <= i < h2.len() && #[trigger] h2[i].key == key ==> h2[i].content == content,
{
    if has_key(h, key) {
        let i = choose|i: int|
            0 <= i < h.len() && #[trigger] h[i].key == key && h2 == stored(
                touched(h, i),
                cap,
                updated(h[i], content, now),
            );
        let e = updated(h[i], content, now);
        lemma_stored_holds_last(touched(h, i), cap, e);
    } else {
        lemma_stored_holds_last(h, cap, fresh(key, content, priority, id, now));
    }
}

/// After a store, the stored entry is the only one under its key.
pub proof fn lemma_stored_holds_last(s: Seq<EntryView>, cap: nat, e: EntryView)
    ensures
        has_key(stored(s, cap, e), e.key),
        stored(s, cap, e).last() == e,
        forall|i: int|
            0 <= i < stored(s, cap, e).len() && #[trigger] stored(s, cap, e)[i].key == e.key
                ==> stored(s, cap, e)[i] == e,
{
    let w = without_key(crate::hot_tier::after_eviction(s, cap), e.key);
    lemma_without_key_len(crate::hot_tier::after_eviction(s, cap), e.key);
    let t = stored(s, cap, e);
    assert(t[t.len() - 1] == e);
    assert forall|i: int| 0 <= i < t.len() && #[trigger] t[i].key == e.key implies t[i] == e by {
        if i < w.len() {
            assert(t[i] == w[i]);
        }
    }
}

/// A recall that promotes an entry from a colder tier leaves it in the hot
/// tier, so the next read of its key is served there.
pub proof fn lemma_promoted_entry_is_hot(h: Seq<EntryView>, cap: nat, p: EntryView)
    ensures
        has_key(stored(h, cap, p), p.key),
        lookup(stored(h, cap, p), p.key) == Some(p),
{
    lemma_stored_holds_last(h, cap, p);
    let t = stored(h, cap, p);
    let i = choose|i: int| 0 <= i < t.len() && #[trigger] t[i].key == p.key;
    lemma_first_exists(t, p.key, i);
    let k = choose|k: int| crate::entries::is_first_with_key(t, p.key, k);
    crate::entries::lemma_lookup_at(t, p.key, k);
}

/// If some entry has key `k`, a first one does.
pub proof fn lemma_first_exists(s: Seq<EntryView>, k: Seq<char>, i: int)
    requires
        0 <= i < s.len(),
        s[i].key == k,
    ensures
        exists|f: int| crate::entries::is_first_with_key(s, k, f),
    decreases i,
{
    if exists|j: int| 0 <= j < i && #[trigger] s[j].key == k {
        let j = choose|j: int| 0 <= j < i && #[trigger] s[j].key == k;
        lemma_first_exists(s, k, j);
    } else {
        assert(crate::entries::is_first_with_key(s, k, i));
    }
}

/// A fan-out search never returns more than `limit` entries, however many
/// match across the tiers.
pub proof fn lemma_search_within_limit(
    h: Seq<EntryView>,
    w: Seq<EntryView>,
    c: Seq<EntryView>,
    q: Seq<char>,
    limit: nat,
)
    ensures
        fan_out(h, w, c, q, limit).len() <= limit,
{
}

/// After `forget(k)` no tier holds `k`, so a recall that follows finds
/// nothing unless `k` is written again.
pub proof fn lemma_forget_complete(h: Seq<EntryView>, w: Seq<EntryView>, c: Seq<EntryView>, k: Seq<char>)
    ensures
        !has_key(without_key(h, k), k),
        !has_key(without_key(w, k), k),
        !has_key(without_key(c, k), k),
{
    lemma_without_key_len(h, k);
    lemma_without_key_len(w, k);
    lemma_without_key_len(c, k);
}

proof fn lemma_remove_all(s: Seq<EntryView>, p: Seq<EntryView>, x: EntryView)
    requires
        remove_all(s, p).contains(x),
    ensures
        s.contains(x),
        forall|j: int| 0 <= j < p.len() ==> #[trigger] p[j].key != x.key,
    decreases p.len(),
{
    if p.len() > 0 {
        let r0 = remove_all(s, p.drop_last());
        lemma_without_key_len(r0, p.last().key);
        let r = without_key(r0, p.last().key);
        let t = choose|t: int| 0 <= t < r.len() && r[t] == x;
        assert(r0.contains(r[t]));
        lemma_remove_all(s, p.drop_last(), x);
        assert forall|j: int| 0 <= j < p.len() implies #[trigger] p[j].key != x.key by {
            if j < p.len() - 1 {
                assert(p.drop_last()[j] == p[j]);
            }
        }
    }
}

proof fn lemma_promotable_contains(s: Seq<EntryView>, now: i64, d: i64, x: EntryView)
    requires
        s.contains(x),
        older_than(x.timestamp, now, d),
        x.priority != Priority::Critical,
    ensures
        promotable(s, now, d).contains(x),
    decreases s.len(),
{
    if s.last() == x {
        assert(promotable(s, now, d).last() == x);
    } else {
        let t = choose|t: int| 0 <= t < s.len() && s[t] == x;
        assert(s.drop_last()[t] == x);
        lemma_promotable_contains(s.drop_last(), now, d, x);
        let r = promotable(s.drop_last(), now, d);
        let u = choose|u: int| 0 <= u < r.len() && r[u] == x;
        assert(promotable(s, now, d)[u] == x);
    }
}

proof fn lemma_promotable_none(s: Seq<EntryView>, now: i64, d: i64)
    requires
        forall|x: EntryView| #[trigger] s.contains(x) ==> !(older_than(x.timestamp, now, d) && x.priority != Priority::Critical),
    ensures
        promotable(s, now, d).len() == 0,
    decreases s.len(),
{
    if s.len() > 0 {
        assert forall|x: EntryView| #[trigger] s.drop_last().contains(x) implies !(older_than(x.timestamp, now, d) && x.priority != Priority::Critical) by {
            let t = choose|t: int| 0 <= t < s.drop_last().len() && s.drop_last()[t] == x;
            assert(s[t] == x);
            assert(s.contains(x));
        }
        lemma_promotable_none(s.drop_last(), now, d);
        assert(s.contains(s[s.len() - 1]));
    }
}

proof fn lemma_aged_contains(s: Seq<EntryView>, now: i64, d: i64, x: EntryView)
    requires
        s.contains(x),
        older_than(x.timestamp, now, d),
    ensures
        aged(s, now, d).contains(x),
    decreases s.len(),
{
    if s.last() == x {
        assert(aged(s, now, d).last() == x);
    } else {
        let t = choose|t: int| 0 <= t < s.len() && s[t] == x;
        assert(s.drop_last()[t] == x);
        lemma_aged_contains(s.drop_last(), now, d, x);
        let r = aged(s.drop_last(), now, d);
        let u = choose|u: int| 0 <= u < r.len() && r[u] == x;
        assert(aged(s, now, d)[u] == x);
    }
}

proof fn lemma_aged_none(s: Seq<EntryView>, now: i64, d: i64)
    requires
        forall|x: EntryView| #[trigger] s.contains(x) ==> !older_than(x.timestamp, now, d),
    ensures
        aged(s, now, d).len() == 0,
    decreases s.len(),
{
    if s.len() > 0 {
        assert forall|x: EntryView| #[trigger] s.drop_last().contains(x) implies !older_than(x.timestamp, now, d) by {
            let t = choose|t: int| 0 <= t < s.drop_last().len() && s.drop_last()[t] == x;
            assert(s[t] == x);
            assert(s.contains(x));
        }
        lemma_aged_none(s.drop_last(), now, d);
        assert(s.contains(s[s.len() - 1]));
    }
}

/// No entry left by a pass at `now` crossed an age threshold of `p` by
/// `later`: a hot entry that was young enough to stay at `now` is still so
/// at `later`, and likewise a warm row.
pub open spec fn no_threshold_crossed(
    h: Seq<EntryView>,
    w: Seq<EntryView>,
    now: i64,
    later: i64,
    p: MigrationPolicy,
) -> bool {
    &&& forall|x: EntryView| #[trigger] hot_after(h, now, p).contains(x) && older_than(x.timestamp, later, p.hot_to_warm_days)
        ==> older_than(x.timestamp, now, p.hot_to_warm_days)
    &&& forall|x: EntryView| #[trigger] warm_after(h, w, now, p).contains(x) && older_than(x.timestamp, later, p.warm_to_cold_days)
        ==> older_than(x.timestamp, now, p.warm_to_cold_days)
}

/// A second maintenance pass with no write in between migrates nothing,
/// provided no entry's age crossed a threshold between the two passes (as
/// when both run at the same time): the first pass left no hot entry due
/// to move down and no warm row due for archival.
pub proof fn lemma_maintenance_idempotent(
    h: Seq<EntryView>,
    w: Seq<EntryView>,
    now: i64,
    later: i64,
    p: MigrationPolicy,
)
    requires
        no_threshold_crossed(h, w, now, later, p),
    ensures
        to_warm(hot_after(h, now, p), later, p).len() == 0,
        to_cold(hot_after(h, now, p), warm_after(h, w, now, p), later, p).len() == 0,
{
    let pr = to_warm(h, now, p);
    let h1 = hot_after(h, now, p);
    assert forall|x: EntryView| #[trigger] h1.contains(x) implies !(older_than(x.timestamp, later, p.hot_to_warm_days) && x.priority != Priority::Critical) by {
        lemma_remove_all(h, pr, x);
        if older_than(x.timestamp, later, p.hot_to_warm_days) && x.priority != Priority::Critical {
            assert(older_than(x.timestamp, now, p.hot_to_warm_days));
            lemma_promotable_contains(h, now, p.hot_to_warm_days, x);
            let u = choose|u: int| 0 <= u < pr.len() && pr[u] == x;
            assert(pr[u].key != x.key);
        }
    }
    lemma_promotable_none(h1, later, p.hot_to_warm_days);
    let w1 = warm_filled(h, w, now, p);
    let ar = to_cold(h, w, now, p);
    let w2 = warm_after(h, w, now, p);
    assert forall|x: EntryView| #[trigger] w2.contains(x) implies !older_than(x.timestamp, later, p.warm_to_cold_days) by {
        lemma_remove_all(w1, ar, x);
        if older_than(x.timestamp, later, p.warm_to_cold_days) {
            assert(older_than(x.timestamp, now, p.warm_to_cold_days));
            lemma_aged_contains(w1, now, p.warm_to_cold_days, x);
            let u = choose|u: int| 0 <= u < ar.len() && ar[u] == x;
            assert(ar[u].key != x.key);
        }
    }
    assert(warm_filled(h1, w2, later, p) == w2);
    lemma_aged_none(w2, later, p.warm_to_cold_days);
}

} // verus!

verus! {

/// Every identifier in `s` names one key.
pub open spec fn ids_agree(s: Seq<EntryView>) -> bool {
    forall|i: int, j: int| 0 <= i < s.len() && 0 <= j < s.len() && #[trigger] s[i].id == #[trigger] s[j].id ==> s[i].key == s[j].key
}

/// Some row of `u` carries the identifier and key of `x`.
pub open spec fn pair_in(u: Seq<EntryView>, x: EntryView) -> bool {
    exists|j: int| 0 <= j < u.len() && u[j].id == x.id && u[j].key == x.key
}

/// Every row of `s` carries an identifier and key that some row of `u` carries.
pub open spec fn pairs_from(s: Seq<EntryView>, u: Seq<EntryView>) -> bool {
    forall|i: int| 0 <= i < s.len() ==> pair_in(u, #[trigger] s[i])
}

proof fn lemma_without_key_keeps_other(s: Seq<EntryView>, k: Seq<char>, x: EntryView)
    requires
        s.contains(x),
        x.key != k,
    ensures
        without_key(s, k).contains(x),
    decreases s.len(),
{
    if s.last() == x {
        assert(without_key(s, k).last() == x);
    } else {
        let t = choose|t: int| 0 <= t < s.len() && s[t] == x;
        assert(s.drop_last()[t] == x);
        lemma_without_key_keeps_other(s.drop_last(), k, x);
        let r = without_key(s.drop_last(), k);
        let u = choose|u: int| 0 <= u < r.len() && r[u] == x;
        assert(without_key(s, k)[u] == x);
    }
}

proof fn lemma_without_id_keeps_other(s: Seq<EntryView>, id: Seq<char>, x: EntryView)
    requires
        s.contains(x),
        x.id != id,
    ensures
        without_id(s, id).contains(x),
    decreases s.len(),
{
    if s.last() == x {
        assert(without_id(s, id).last() == x);
    } else {
        let t = choose|t: int| 0 <= t < s.len() && s[t] == x;
        assert(s.drop_last()[t] == x);
        lemma_without_id_keeps_other(s.drop_last(), id, x);
        let r = without_id(s.drop_last(), id);
        let u = choose|u: int| 0 <= u < r.len() && r[u] == x;
        assert(without_id(s, id)[u] == x);
    }
}

/// A row leaves an upsert of `e` only when it carries `e`'s key, or
/// `e`'s identifier (and so, where identifiers agree, `e`'s key).
proof fn lemma_upserted_keys(s: Seq<EntryView>, e: EntryView, k: Seq<char>)
    requires
        forall|i: int| 0 <= i < s.len() && #[trigger] s[i].id == e.id ==> s[i].key == e.key,
    ensures
        has_key(upserted(s, e), k) <==> (has_key(s, k) || k == e.key),
        forall|i: int| 0 <= i < upserted(s, e).len() ==> (#[trigger] upserted(s, e)[i].id == e.id && upserted(s, e)[i].key == e.key)
            || s.contains(upserted(s, e)[i]),
{
    let wk = without_key(s, e.key);
    let w = without_id(wk, e.id);
    let u = upserted(s, e);
    lemma_without_key_len(s, e.key);
    lemma_without_id_keeps(wk, e.id);
    assert(u[u.len() - 1].key == e.key);
    if has_key(u, k) && k != e.key {
        let i = choose|i: int| 0 <= i < u.len() && #[trigger] u[i].key == k;
        assert(i < w.len());
        assert(wk.contains(w[i]));
        let t = choose|t: int| 0 <= t < wk.len() && wk[t] == w[i];
        assert(s.contains(wk[t]));
        let v = choose|v: int| 0 <= v < s.len() && s[v] == wk[t];
        assert(s[v].key == k);
    }
    if has_key(s, k) && k != e.key {
        let i = choose|i: int| 0 <= i < s.len() && #[trigger] s[i].key == k;
        assert(s.contains(s[i]));
        lemma_without_key_keeps_other(s, e.key, s[i]);
        lemma_without_id_keeps_other(wk, e.id, s[i]);
        let j = choose|j: int| 0 <= j < w.len() && w[j] == s[i];
        assert(u[j].key == k);
    }
    assert forall|i: int| 0 <= i < u.len() implies (#[trigger] u[i].id == e.id && u[i].key == e.key) || s.contains(u[i]) by {
        if i < w.len() {
            assert(wk.contains(w[i]));
            let t = choose|t: int| 0 <= t < wk.len() && wk[t] == w[i];
            assert(s.contains(wk[t]));
        }
    }
}

proof fn lemma_without_key_keys(s: Seq<EntryView>, k0: Seq<char>)
    ensures
        forall|k: Seq<char>| #[trigger] has_key(without_key(s, k0), k) <==> (has_key(s, k) && k != k0),
{
    lemma_without_key_len(s, k0);
    assert forall|k: Seq<char>| #[trigger] has_key(without_key(s, k0), k) <==> (has_key(s, k) && k != k0) by {
        let w = without_key(s, k0);
        if has_key(w, k) {
            let i = choose|i: int| 0 <= i < w.len() && #[trigger] w[i].key == k;
            assert(s.contains(w[i]));
            let t = choose|t: int| 0 <= t < s.len() && s[t] == w[i];
            assert(s[t].key == k);
        }
        if has_key(s, k) && k != k0 {
            let i = choose|i: int| 0 <= i < s.len() && #[trigger] s[i].key == k;
            assert(s.contains(s[i]));
            lemma_without_key_keeps_other(s, k0, s[i]);
            let j = choose|j: int| 0 <= j < w.len() && w[j] == s[i];
            assert(w[j].key == k);
        }
    }
}

proof fn lemma_contained_pairs(s: Seq<EntryView>, t: Seq<EntryView>, u: Seq<EntryView>)
    requires
        pairs_from(t, u),
        forall|i: int| 0 <= i < s.len() ==> t.contains(#[trigger] s[i]),
    ensures
        pairs_from(s, u),
        forall|k: Seq<char>| #[trigger] has_key(s, k) ==> has_key(t, k),
{
    assert forall|i: int| 0 <= i < s.len() implies pair_in(u, #[trigger] s[i]) by {
        assert(t.contains(s[i]));
        let a = choose|a: int| 0 <= a < t.len() && t[a] == s[i];
        let j = choose|j: int| 0 <= j < u.len() && u[j].id == #[trigger] t[a].id && u[j].key == t[a].key;
        assert(u[j].id == s[i].id && u[j].key == s[i].key);
    }
    assert forall|k: Seq<char>| #[trigger] has_key(s, k) implies has_key(t, k) by {
        let i = choose|i: int| 0 <= i < s.len() && #[trigger] s[i].key == k;
        assert(t.contains(s[i]));
        let a = choose|a: int| 0 <= a < t.len() && t[a] == s[i];
        assert(t[a].key == k);
    }
}

proof fn lemma_remove_all_keys(s: Seq<EntryView>, p: Seq<EntryView>, u: Seq<EntryView>)
    requires
        pairs_from(s, u),
    ensures
        forall|k: Seq<char>| #[trigger] has_key(remove_all(s, p), k) <==> (has_key(s, k) && !has_key(p, k)),
        pairs_from(remove_all(s, p), u),
    decreases p.len(),
{
    if p.len() > 0 {
        let d = p.drop_last();
        lemma_remove_all_keys(s, d, u);
        let r0 = remove_all(s, d);
        lemma_without_key_keys(r0, p.last().key);
        lemma_without_key_len(r0, p.last().key);
        lemma_contained_pairs(without_key(r0, p.last().key), r0, u);
        assert forall|k: Seq<char>| #[trigger] has_key(p, k) <==> (has_key(d, k) || k == p.last().key) by {
            if has_key(p, k) {
                let i = choose|i: int| 0 <= i < p.len() && #[trigger] p[i].key == k;
                if i < p.len() - 1 {
                    assert(d[i].key == k);
                }
            }
            if has_key(d, k) {
                let i = choose|i: int| 0 <= i < d.len() && #[trigger] d[i].key == k;
                assert(p[i].key == k);
            }
            if k == p.last().key {
                assert(p[p.len() - 1].key == k);
            }
        }
    }
}

proof fn lemma_store_all_keys(w: Seq<EntryView>, p: Seq<EntryView>, u: Seq<EntryView>)
    requires
        ids_agree(u),
        pairs_from(w, u),
        pairs_from(p, u),
    ensures
        forall|k: Seq<char>| #[trigger] has_key(store_all(w, p), k) <==> (has_key(w, k) || has_key(p, k)),
        pairs_from(store_all(w, p), u),
    decreases p.len(),
{
    if p.len() > 0 {
        let d = p.drop_last();
        let e = p.last();
        assert(pairs_from(d, u)) by {
            assert forall|i: int| 0 <= i < d.len() implies pair_in(u, #[trigger] d[i]) by {
                assert(d[i] == p[i]);
            }
        }
        lemma_store_all_keys(w, d, u);
        let s0 = store_all(w, d);
        assert(p[p.len() - 1] == e);
        let je = choose|j: int| 0 <= j < u.len() && u[j].id == p[p.len() - 1].id && u[j].key == p[p.len() - 1].key;
        assert forall|i: int| 0 <= i < s0.len() && #[trigger] s0[i].id == e.id implies s0[i].key == e.key by {
            let j = choose|j: int| 0 <= j < u.len() && u[j].id == s0[i].id && u[j].key == s0[i].key;
            assert(u[j].id == u[je].id);
        }
        lemma_upserted_keys(s0, e, e.key);
        assert forall|k: Seq<char>| #[trigger] has_key(store_all(w, p), k) <==> (has_key(w, k) || has_key(p, k)) by {
            lemma_upserted_keys(s0, e, k);
            if has_key(p, k) {
                let i = choose|i: int| 0 <= i < p.len() && #[trigger] p[i].key == k;
                if i < p.len() - 1 {
                    assert(d[i].key == k);
                }
            }
            if has_key(d, k) {
                let i = choose|i: int| 0 <= i < d.len() && #[trigger] d[i].key == k;
                assert(p[i].key == k);
            }
            if k == e.key {
                assert(p[p.len() - 1].key == k);
            }
        }
        let r = store_all(w, p);
        assert forall|i: int| 0 <= i < r.len() implies pair_in(u, #[trigger] r[i]) by {
            if r[i].id == e.id && r[i].key == e.key {
                assert(u[je].id == r[i].id);
            } else {
                assert(s0.contains(r[i]));
                let a = choose|a: int| 0 <= a < s0.len() && s0[a] == r[i];
                assert(s0[a].id == r[i].id);
            }
        }
    }
}

proof fn lemma_archive_all_keys(c: Seq<EntryView>, a: Seq<EntryView>, at: i64, u: Seq<EntryView>)
    requires
        ids_agree(u),
        pairs_from(c, u),
        pairs_from(a, u),
    ensures
        forall|k: Seq<char>| #[trigger] has_key(archive_all(c, a, at), k) <==> (has_key(c, k) || has_key(a, k)),
        pairs_from(archive_all(c, a, at), u),
    decreases a.len(),
{
    if a.len() > 0 {
        let d = a.drop_last();
        let e = a.last();
        assert(pairs_from(d, u)) by {
            assert forall|i: int| 0 <= i < d.len() implies pair_in(u, #[trigger] d[i]) by {
                assert(d[i] == a[i]);
            }
        }
        lemma_archive_all_keys(c, d, at, u);
        let s0 = archive_all(c, d, at);
        assert(a[a.len() - 1] == e);
        let je = choose|j: int| 0 <= j < u.len() && u[j].id == a[a.len() - 1].id && u[j].key == a[a.len() - 1].key;
        let w = without_id(s0, e.id);
        let r = archive_all(c, a, at);
        lemma_without_id_keeps(s0, e.id);
        assert(r == w.push(archived(e, at)));
        assert forall|k: Seq<char>| #[trigger] has_key(r, k) <==> (has_key(c, k) || has_key(a, k)) by {
            if has_key(a, k) {
                let i = choose|i: int| 0 <= i < a.len() && #[trigger] a[i].key == k;
                if i < a.len() - 1 {
                    assert(d[i].key == k);
                }
            }
            if has_key(d, k) {
                let i = choose|i: int| 0 <= i < d.len() && #[trigger] d[i].key == k;
                assert(a[i].key == k);
            }
            if k == e.key {
                assert(a[a.len() - 1].key == k);
                assert(r[r.len() - 1].key == k);
            }
            if has_key(r, k) && k != e.key {
                let i = choose|i: int| 0 <= i < r.len() && #[trigger] r[i].key == k;
                assert(i < w.len());
                assert(s0.contains(w[i]));
                let t = choose|t: int| 0 <= t < s0.len() && s0[t] == w[i];
                assert(s0[t].key == k);
            }
            if has_key(s0, k) && k != e.key {
                let i = choose|i: int| 0 <= i < s0.len() && #[trigger] s0[i].key == k;
                let j = choose|j: int| 0 <= j < u.len() && u[j].id == s0[i].id && u[j].key == s0[i].key;
                if s0[i].id == e.id {
                    assert(u[j].id == u[je].id);
                }
                assert(s0.contains(s0[i]));
                lemma_without_id_keeps_other(s0, e.id, s0[i]);
                let v = choose|v: int| 0 <= v < w.len() && w[v] == s0[i];
                assert(r[v].key == k);
            }
        }
        assert forall|i: int| 0 <= i < r.len() implies pair_in(u, #[trigger] r[i]) by {
            if i == w.len() {
                assert(u[je].id == r[i].id);
            } else {
                assert(s0.contains(w[i]));
                let t = choose|t: int| 0 <= t < s0.len() && s0[t] == w[i];
                assert(s0[t].id == r[i].id);
            }
        }
    }
}

proof fn lemma_promotable_within(s: Seq<EntryView>, now: i64, d: i64)
    ensures
        forall|i: int| 0 <= i < promotable(s, now, d).len() ==> s.contains(#[trigger] promotable(s, now, d)[i]),
    decreases s.len(),
{
    if s.len() > 0 {
        lemma_promotable_within(s.drop_last(), now, d);
        let r = promotable(s, now, d);
        let r0 = promotable(s.drop_last(), now, d);
        assert forall|i: int| 0 <= i < r.len() implies s.contains(#[trigger] r[i]) by {
            if i < r0.len() {
                assert(s.drop_last().contains(r0[i]));
                let t = choose|t: int| 0 <= t < s.drop_last().len() && s.drop_last()[t] == r0[i];
                assert(s[t] == r[i]);
            } else {
                assert(s[s.len() - 1] == r[i]);
            }
        }
    }
}

proof fn lemma_aged_within(s: Seq<EntryView>, now: i64, d: i64)
    ensures
        forall|i: int| 0 <= i < aged(s, now, d).len() ==> s.contains(#[trigger] aged(s, now, d)[i]),
    decreases s.len(),
{
    if s.len() > 0 {
        lemma_aged_within(s.drop_last(), now, d);
        let r = aged(s, now, d);
        let r0 = aged(s.drop_last(), now, d);
        assert forall|i: int| 0 <= i < r.len() implies s.contains(#[trigger] r[i]) by {
            if i < r0.len() {
                assert(s.drop_last().contains(r0[i]));
                let t = choose|t: int| 0 <= t < s.drop_last().len() && s.drop_last()[t] == r0[i];
                assert(s[t] == r[i]);
            } else {
                assert(s[s.len() - 1] == r[i]);
            }
        }
    }
}

/// Where every identifier names one key, a maintenance pass deletes no key:
/// the keys held in some tier are the same before and after. Keys moved
/// down leave the hot tier and are found in the warm or cold tier, and no
/// key archived to the cold tier stays in the warm tier.
pub proof fn lemma_maintenance_keeps_keys(
    h: Seq<EntryView>,
    w: Seq<EntryView>,
    c: Seq<EntryView>,
    now: i64,
    p: MigrationPolicy,
)
    requires
        ids_agree(h + w + c),
    ensures
        forall|k: Seq<char>|
            (#[trigger] has_key(h, k) || has_key(w, k) || has_key(c, k)) <==> (has_key(hot_after(h, now, p), k)
                || has_key(warm_after(h, w, now, p), k) || has_key(cold_after(h, w, c, now, p), k)),
        forall|k: Seq<char>|
            #[trigger] has_key(hot_after(h, now, p), k) <==> (has_key(h, k) && !has_key(to_warm(h, now, p), k)),
        forall|k: Seq<char>|
            #[trigger] has_key(to_warm(h, now, p), k) ==> (has_key(warm_after(h, w, now, p), k) || has_key(
                cold_after(h, w, c, now, p),
                k,
            )),
        forall|k: Seq<char>| #[trigger] has_key(to_cold(h, w, now, p), k) ==> !has_key(warm_after(h, w, now, p), k),
{
    let u = h + w + c;
    assert(pairs_from(h, u)) by {
        assert forall|i: int| 0 <= i < h.len() implies pair_in(u, #[trigger] h[i]) by {
            assert(u[i] == h[i]);
            assert(u[i].id == h[i].id && u[i].key == h[i].key);
        }
    }
    assert(pairs_from(w, u)) by {
        assert forall|i: int| 0 <= i < w.len() implies pair_in(u, #[trigger] w[i]) by {
            assert(u[h.len() + i] == w[i]);
            assert(u[h.len() + i].id == w[i].id && u[h.len() + i].key == w[i].key);
        }
    }
    assert(pairs_from(c, u)) by {
        assert forall|i: int| 0 <= i < c.len() implies pair_in(u, #[trigger] c[i]) by {
            assert(u[h.len() + w.len() + i] == c[i]);
            assert(u[h.len() + w.len() + i].id == c[i].id && u[h.len() + w.len() + i].key == c[i].key);
        }
    }
    let pr = to_warm(h, now, p);
    lemma_promotable_within(h, now, p.hot_to_warm_days);
    lemma_contained_pairs(pr, h, u);
    lemma_remove_all_keys(h, pr, u);
    lemma_store_all_keys(w, pr, u);
    let w1 = warm_filled(h, w, now, p);
    let ar = to_cold(h, w, now, p);
    lemma_aged_within(w1, now, p.warm_to_cold_days);
    lemma_contained_pairs(ar, w1, u);
    lemma_remove_all_keys(w1, ar, u);
    lemma_archive_all_keys(c, ar, now, u);
}

} // verus!
