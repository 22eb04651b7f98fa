//! Sequences of entries as the tiers hold them: the spec functions that
//! describe lookups, deletions and filters over them, the lemmas about
//! those, and the copying loops the tiers share.

use vstd::prelude::*;
use crate::memory::{EntryView, MemoryTier, TieredMemoryEntry, older_than};
use crate::text::{matches_text, matches_query, str_eq};

verus! {

broadcast use vstd::string::group_string_axioms;

/// No two entries share a key.
pub open spec fn unique_keys(s: Seq<EntryView>) -> bool {
    forall|i: int, j: int| 0 <= i < j < s.len() ==> #[trigger] s[i].key != #[trigger] s[j].key
}

/// Some entry has key `k`.
pub open spec fn has_key(s: Seq<EntryView>, k: Seq<char>) -> bool {
    exists|i: int| 0 <= i < s.len() && #[trigger] s[i].key == k
}

/// `s` without the entries whose key is `k`, order kept.
pub open spec fn without_key(s: Seq<EntryView>, k: Seq<char>) -> Seq<EntryView>
    decreases s.len(),
{
    if s.len() == 0 {
        s
    } else {
        let rest = without_key(s.drop_last(), k);
        if s.last().key == k {
            rest
        } else {
            rest.push(s.last())
        }
    }
}

/// Entries whose content matches `query`, case-insensitively, order kept.
pub open spec fn matching(s: Seq<EntryView>, query: Seq<char>) -> Seq<EntryView>
    decreases s.len(),
{
    if s.len() == 0 {
        s
    } else {
        let rest = matching(s.drop_last(), query);
        if matches_query(s.last().content, query) {
            rest.push(s.last())
        } else {
            rest
        }
    }
}

/// The first `n` items of `s`, or all of them when there are fewer.
pub open spec fn first_n(s: Seq<EntryView>, n: nat) -> Seq<EntryView> {
    if s.len() <= n {
        s
    } else {
        s.subrange(0, n as int)
    }
}

pub open spec fn views(v: Seq<TieredMemoryEntry>) -> Seq<EntryView> {
    v.map_values(|e: TieredMemoryEntry| e@)
}

pub proof fn lemma_views_push(v: Seq<TieredMemoryEntry>, c: TieredMemoryEntry)
    ensures
        views(v.push(c)) == views(v).push(c@),
{
    assert(views(v.push(c)) =~= views(v).push(c@));
}

pub proof fn lemma_views_subrange(v: Seq<TieredMemoryEntry>, a: int)
    requires
        0 <= a <= v.len(),
    ensures
        views(v.subrange(a, v.len() as int)) == views(v).subrange(a, v.len() as int),
{
    assert(views(v.subrange(a, v.len() as int)) =~= views(v).subrange(a, v.len() as int));
}

pub proof fn lemma_views_remove(v: Seq<TieredMemoryEntry>, i: int)
    requires
        0 <= i < v.len(),
    ensures
        views(v.remove(i)) == views(v).remove(i),
        views(v)[i] == v[i]@,
{
    assert(views(v.remove(i)) =~= views(v).remove(i));
}

pub proof fn lemma_without_key_absent(s: Seq<EntryView>, k: Seq<char>)
    requires
        !has_key(s, k),
    ensures
        without_key(s, k) == s,
    decreases s.len(),
{
    if s.len() > 0 {
        assert(!has_key(s.drop_last(), k)) by {
            if has_key(s.drop_last(), k) {
                let i = choose|i: int| 0 <= i < s.drop_last().len() && #[trigger] s.drop_last()[i].key == k;
                assert(s[i].key == k);
            }
        }
        lemma_without_key_absent(s.drop_last(), k);
        assert(s.last().key != k) by {
            assert(s[s.len() - 1].key == s.last().key);
        }
        assert(s.drop_last().push(s.last()) =~= s);
    }
}

pub proof fn lemma_without_key_at(s: Seq<EntryView>, k: Seq<char>, i: int)
    requires
        unique_keys(s),
        0 <= i < s.len(),
        s[i].key == k,
    ensures
        without_key(s, k) == s.remove(i),
    decreases s.len(),
{
    let d = s.drop_last();
    if i == s.len() - 1 {
        assert(!has_key(d, k)) by {
            if has_key(d, k) {
                let j = choose|j: int| 0 <= j < d.len() && #[trigger] d[j].key == k;
                assert(s[j].key == s[i].key);
            }
        }
        lemma_without_key_absent(d, k);
        assert(s.remove(i) =~= d);
    } else {
        assert(unique_keys(d)) by {
            assert forall|a: int, b: int| 0 <= a < b < d.len() implies #[trigger] d[a].key != #[trigger] d[b].key by {
                assert(s[a].key != s[b].key);
            }
        }
        assert(d[i].key == k);
        lemma_without_key_at(d, k, i);
        assert(s.last().key != k) by {
            assert(s[s.len() - 1].key != s[i].key);
        }
        assert(d.remove(i).push(s.last()) =~= s.remove(i));
    }
}

pub proof fn lemma_without_key_len(s: Seq<EntryView>, k: Seq<char>)
    ensures
        without_key(s, k).len() <= s.len(),
        forall|j: int| 0 <= j < without_key(s, k).len() ==> #[trigger] without_key(s, k)[j].key != k,
        forall|j: int| 0 <= j < without_key(s, k).len() ==> s.contains(#[trigger] without_key(s, k)[j]),
    decreases s.len(),
{
    if s.len() > 0 {
        let d = s.drop_last();
        lemma_without_key_len(d, k);
        let w = without_key(s, k);
        assert forall|j: int| 0 <= j < w.len() implies s.contains(#[trigger] w[j]) by {
            if j < without_key(d, k).len() {
                let x = without_key(d, k)[j];
                assert(d.contains(x));
                let t = choose|t: int| 0 <= t < d.len() && d[t] == x;
                assert(s[t] == x);
            } else {
                assert(s[s.len() - 1] == w[j]);
            }
        }
    }
}

pub proof fn lemma_unique_suffix(s: Seq<EntryView>, a: int)
    requires
        unique_keys(s),
        0 <= a <= s.len(),
    ensures
        unique_keys(s.subrange(a, s.len() as int)),
{
    let t = s.subrange(a, s.len() as int);
    assert forall|i: int, j: int| 0 <= i < j < t.len() implies #[trigger] t[i].key != #[trigger] t[j].key by {
        assert(s[a + i].key != s[a + j].key);
    }
}

pub proof fn lemma_unique_remove(s: Seq<EntryView>, i: int)
    requires
        unique_keys(s),
        0 <= i < s.len(),
    ensures
        unique_keys(s.remove(i)),
        forall|j: int| 0 <= j < s.remove(i).len() ==> #[trigger] s.remove(i)[j].key != s[i].key,
{
    let t = s.remove(i);
    assert forall|a: int, b: int| 0 <= a < b < t.len() implies #[trigger] t[a].key != #[trigger] t[b].key by {
        let sa = if a < i { a } else { a + 1 };
        let sb = if b < i { b } else { b + 1 };
        assert(t[a] == s[sa]);
        assert(t[b] == s[sb]);
    }
    assert forall|j: int| 0 <= j < t.len() implies #[trigger] t[j].key != s[i].key by {
        let sj = if j < i { j } else { j + 1 };
        assert(t[j] == s[sj]);
    }
}

pub proof fn lemma_unique_push(s: Seq<EntryView>, e: EntryView)
    requires
        unique_keys(s),
        forall|j: int| 0 <= j < s.len() ==> #[trigger] s[j].key != e.key,
    ensures
        unique_keys(s.push(e)),
{
    let t = s.push(e);
    assert forall|a: int, b: int| 0 <= a < b < t.len() implies #[trigger] t[a].key != #[trigger] t[b].key by {
        if b == s.len() {
            assert(t[a] == s[a]);
        } else {
            assert(s[a].key != s[b].key);
        }
    }
}

/// The entry with tier label `t`, other fields unchanged.
pub open spec fn relabeled(e: EntryView, t: MemoryTier) -> EntryView {
    EntryView { tier: t, ..e }
}

/// Entries older than `days` days at `now`, order kept.
pub open spec fn aged(s: Seq<EntryView>, now: i64, days: i64) -> Seq<EntryView>
    decreases s.len(),
{
    if s.len() == 0 {
        s
    } else {
        let rest = aged(s.drop_last(), now, days);
        if older_than(s.last().timestamp, now, days) {
            rest.push(s.last())
        } else {
            rest
        }
    }
}

/// Index of the first entry with key `k`.
pub open spec fn is_first_with_key(s: Seq<EntryView>, k: Seq<char>, i: int) -> bool {
    0 <= i < s.len() && s[i].key == k && forall|j: int| 0 <= j < i ==> #[trigger] s[j].key != k
}

/// The first entry with key `k`, if any.
pub open spec fn lookup(s: Seq<EntryView>, k: Seq<char>) -> Option<EntryView> {
    if has_key(s, k) {
        Some(s[choose|i: int| is_first_with_key(s, k, i)])
    } else {
        None
    }
}

pub proof fn lemma_lookup_at(s: Seq<EntryView>, k: Seq<char>, i: int)
    requires
        is_first_with_key(s, k, i),
    ensures
        lookup(s, k) == Some(s[i]),
{
    assert(has_key(s, k));
    let c = choose|c: int| is_first_with_key(s, k, c);
    assert(is_first_with_key(s, k, c));
    if c < i {
        assert(s[c].key != k);
    }
    if i < c {
        assert(s[i].key != k);
    }
    assert(c == i);
}

/// Position of the first entry with key `key` in `v`, if any.
pub fn find_first(v: &Vec<TieredMemoryEntry>, key: &str) -> (r: Option<usize>)
    ensures
        match r {
            None => !has_key(views(v@), key@) && lookup(views(v@), key@).is_none(),
            Some(i) => is_first_with_key(views(v@), key@, i as int) && lookup(views(v@), key@)
                == Some(views(v@)[i as int]),
        },
{
    let mut i: usize = 0;
    while i < v.len()
        invariant
            i <= v@.len(),
            forall|j: int| 0 <= j < i ==> #[trigger] views(v@)[j].key != key@,
        decreases v@.len() - i,
    {
        if str_eq(v[i].key.as_str(), key) {
            proof {
                lemma_lookup_at(views(v@), key@, i as int);
            }
            return Some(i);
        }
        i = i + 1;
    }
    None
}

/// Copies of all the entries of `v`, order kept.
pub fn copy_all(v: &Vec<TieredMemoryEntry>) -> (r: Vec<TieredMemoryEntry>)
    ensures
        views(r@) == views(v@),
{
    let mut r: Vec<TieredMemoryEntry> = Vec::new();
    let mut i: usize = 0;
    while i < v.len()
        invariant
            i <= v@.len(),
            views(r@) == views(v@).subrange(0, i as int),
        decreases v@.len() - i,
    {
        let c = v[i].copy();
        proof {
            lemma_views_push(r@, c);
        }
        r.push(c);
        assert(views(r@) =~= views(v@).subrange(0, i + 1));
        i = i + 1;
    }
    assert(views(v@) =~= views(v@).subrange(0, i as int));
    r
}

/// Copies of the entries of `v` whose key is not `key`, order kept.
pub fn copy_without_key(v: &Vec<TieredMemoryEntry>, key: &str) -> (r: Vec<TieredMemoryEntry>)
    ensures
        views(r@) == without_key(views(v@), key@),
{
    let mut r: Vec<TieredMemoryEntry> = Vec::new();
    let mut i: usize = 0;
    while i < v.len()
        invariant
            i <= v@.len(),
            views(r@) == without_key(views(v@).subrange(0, i as int), key@),
        decreases v@.len() - i,
    {
        assert(views(v@).subrange(0, i + 1).drop_last() =~= views(v@).subrange(0, i as int));
        if !str_eq(v[i].key.as_str(), key) {
            let c = v[i].copy();
            proof {
                lemma_views_push(r@, c);
            }
            r.push(c);
        }
        i = i + 1;
    }
    assert(views(v@) =~= views(v@).subrange(0, i as int));
    r
}

/// Copies of the entries of `v` older than `days` days at `now`, order kept.
pub fn copy_aged(v: &Vec<TieredMemoryEntry>, now: i64, days: i64) -> (r: Vec<TieredMemoryEntry>)
    ensures
        views(r@) == aged(views(v@), now, days),
{
    let mut r: Vec<TieredMemoryEntry> = Vec::new();
    let mut i: usize = 0;
    while i < v.len()
        invariant
            i <= v@.len(),
            views(r@) == aged(views(v@).subrange(0, i as int), now, days),
        decreases v@.len() - i,
    {
        assert(views(v@).subrange(0, i + 1).drop_last() =~= views(v@).subrange(0, i as int));
        if v[i].should_archive_to_cold(now, days) {
            let c = v[i].copy();
            proof {
                lemma_views_push(r@, c);
            }
            r.push(c);
        }
        i = i + 1;
    }
    assert(views(v@) =~= views(v@).subrange(0, i as int));
    r
}

/// Copies of the entries of `v` whose content matches `query`, at most `limit`.
pub fn copy_matching(v: &Vec<TieredMemoryEntry>, query: &str, limit: usize) -> (r: Vec<TieredMemoryEntry>)
    ensures
        views(r@) == first_n(matching(views(v@), query@), limit as nat),
{
    let mut r: Vec<TieredMemoryEntry> = Vec::new();
    let mut i: usize = 0;
    while i < v.len()
        invariant
            i <= v@.len(),
            views(r@) == first_n(matching(views(v@).subrange(0, i as int), query@), limit as nat),
        decreases v@.len() - i,
    {
        let ghost m = matching(views(v@).subrange(0, i as int), query@);
        assert(views(v@).subrange(0, i + 1).drop_last() =~= views(v@).subrange(0, i as int));
        if matches_text(v[i].content.as_str(), query) {
            if r.len() < limit {
                let c = v[i].copy();
                proof {
                    lemma_views_push(r@, c);
                }
                r.push(c);
                assert(views(r@) =~= first_n(m.push(views(v@)[i as int]), limit as nat));
            } else {
                assert(first_n(m.push(views(v@)[i as int]), limit as nat) =~= first_n(m, limit as nat));
            }
        }
        i = i + 1;
    }
    assert(views(v@) =~= views(v@).subrange(0, i as int));
    r
}

/// `s` without the rows whose identifier is `id`, order kept.
pub open spec fn without_id(s: Seq<EntryView>, id: Seq<char>) -> Seq<EntryView>
    decreases s.len(),
{
    if s.len() == 0 {
        s
    } else {
        let rest = without_id(s.drop_last(), id);
        if s.last().id == id {
            rest
        } else {
            rest.push(s.last())
        }
    }
}

/// Copies of the entries of `v` whose identifier is not `id`, order kept.
pub fn copy_without_id(v: &Vec<TieredMemoryEntry>, id: &str) -> (r: Vec<TieredMemoryEntry>)
    ensures
        views(r@) == without_id(views(v@), id@),
{
    let mut r: Vec<TieredMemoryEntry> = Vec::new();
    let mut i: usize = 0;
    while i < v.len()
        invariant
            i <= v@.len(),
            views(r@) == without_id(views(v@).subrange(0, i as int), id@),
        decreases v@.len() - i,
    {
        assert(views(v@).subrange(0, i + 1).drop_last() =~= views(v@).subrange(0, i as int));
        if !str_eq(v[i].id.as_str(), id) {
            let c = v[i].copy();
            proof {
                lemma_views_push(r@, c);
            }
            r.push(c);
        }
        i = i + 1;
    }
    assert(views(v@) =~= views(v@).subrange(0, i as int));
    r
}

pub proof fn lemma_without_id_keeps(s: Seq<EntryView>, id: Seq<char>)
    ensures
        without_id(s, id).len() <= s.len(),
        forall|j: int| 0 <= j < without_id(s, id).len() ==> #[trigger] without_id(s, id)[j].id != id,
        forall|j: int| 0 <= j < without_id(s, id).len() ==> s.contains(#[trigger] without_id(s, id)[j]),
    decreases s.len(),
{
    if s.len() > 0 {
        let d = s.drop_last();
        lemma_without_id_keeps(d, id);
        let w = without_id(s, id);
        assert forall|j: int| 0 <= j < w.len() implies s.contains(#[trigger] w[j]) by {
            if j < without_id(d, id).len() {
                let x = without_id(d, id)[j];
                assert(d.contains(x));
                let t = choose|t: int| 0 <= t < d.len() && d[t] == x;
                assert(s[t] == x);
            } else {
                assert(s[s.len() - 1] == w[j]);
            }
        }
    }
}

} // verus!
