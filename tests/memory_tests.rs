use nuclaw::cold_tier::ColdMemory;
use nuclaw::hot_tier::HotMemory;
use nuclaw::memory::{
    MemoryCategory, MemoryTier, MigrationPolicy, NoopMemory, Priority, TieredMemoryEntry,
};
use nuclaw::tiered::TieredMemory;
use nuclaw::warm_tier::WarmMemory;

const DAY: i64 = 86400;

fn entry_at(key: &str, content: &str, priority: Priority, timestamp: i64) -> TieredMemoryEntry {
    TieredMemoryEntry::with_identity(
        key.to_string(),
        content.to_string(),
        priority,
        format!("mem_{}", key),
        timestamp,
    )
}

#[test]
fn test_priority_from_category() {
    assert_eq!(Priority::from_category(&MemoryCategory::Core), Priority::Critical);
    assert_eq!(Priority::from_category(&MemoryCategory::Daily), Priority::High);
    assert_eq!(Priority::from_category(&MemoryCategory::Conversation), Priority::Normal);
}

#[test]
fn test_priority_from_str() {
    assert_eq!(Priority::from_str("critical"), Priority::Critical);
    assert_eq!(Priority::from_str("high"), Priority::High);
    assert_eq!(Priority::from_str("normal"), Priority::Normal);
    assert_eq!(Priority::from_str("low"), Priority::Low);
    assert_eq!(Priority::from_str("unknown"), Priority::Normal);
}

#[test]
fn test_priority_display() {
    assert_eq!(Priority::Critical.to_string(), "critical");
    assert_eq!(Priority::High.to_string(), "high");
    assert_eq!(Priority::Normal.to_string(), "normal");
    assert_eq!(Priority::Low.to_string(), "low");
}

#[test]
fn test_memory_tier_display() {
    assert_eq!(MemoryTier::Hot.to_string(), "hot");
    assert_eq!(MemoryTier::Warm.to_string(), "warm");
    assert_eq!(MemoryTier::Cold.to_string(), "cold");
}

#[test]
fn test_tiered_memory_entry_new() {
    let entry = TieredMemoryEntry::new(
        "test_key".to_string(),
        "test_content".to_string(),
        Priority::High,
    );

    assert!(entry.id.starts_with("mem_"));
    assert_eq!(entry.key, "test_key");
    assert_eq!(entry.content, "test_content");
    assert_eq!(entry.tier, MemoryTier::Hot);
    assert_eq!(entry.priority, Priority::High);
    assert_eq!(entry.access_count, 1);
    assert!(entry.session_id.is_none());
    assert!(entry.tags.is_empty());
}

#[test]
fn test_migration_policy_default() {
    let policy = MigrationPolicy::default();
    assert_eq!(policy.hot_to_warm_days, 7);
    assert_eq!(policy.warm_to_cold_days, 30);
    assert_eq!(policy.max_hot_entries, 1000);
}

#[test]
fn test_hot_memory_store_and_get() {
    let mut hot = HotMemory::new(100);
    let entry = TieredMemoryEntry::new("key1".to_string(), "content1".to_string(), Priority::Normal);

    hot.store(entry);
    let retrieved = hot.get("key1");

    assert!(retrieved.is_some());
    assert_eq!(retrieved.unwrap().content, "content1");
}

#[test]
fn test_hot_memory_remove() {
    let mut hot = HotMemory::new(100);
    let entry = TieredMemoryEntry::new("key1".to_string(), "content1".to_string(), Priority::Normal);

    hot.store(entry);
    assert!(hot.remove("key1"));
    assert!(hot.get("key1").is_none());
}

#[test]
fn test_hot_memory_count() {
    let mut hot = HotMemory::new(100);
    assert_eq!(hot.count(), 0);

    hot.store(TieredMemoryEntry::new("k1".to_string(), "c1".to_string(), Priority::Normal));
    hot.store(TieredMemoryEntry::new("k2".to_string(), "c2".to_string(), Priority::Normal));

    assert_eq!(hot.count(), 2);
}

#[test]
fn test_hot_memory_search() {
    let mut hot = HotMemory::new(100);
    hot.store(TieredMemoryEntry::new("k1".to_string(), "hello world".to_string(), Priority::Normal));
    hot.store(TieredMemoryEntry::new("k2".to_string(), "goodbye world".to_string(), Priority::Normal));

    let results = hot.search("hello", 10);
    assert_eq!(results.len(), 1);
    assert_eq!(results[0].key, "k1");
}

#[test]
fn test_hot_memory_health_check() {
    let hot = HotMemory::new(100);
    assert!(hot.health_check());
}

#[test]
fn test_hot_memory_lru_eviction() {
    let mut hot = HotMemory::new(2);

    hot.store(TieredMemoryEntry::new("k1".to_string(), "c1".to_string(), Priority::Normal));
    hot.store(TieredMemoryEntry::new("k2".to_string(), "c2".to_string(), Priority::Normal));
    hot.store(TieredMemoryEntry::new("k3".to_string(), "c3".to_string(), Priority::Normal));

    // k1 should be evicted
    assert!(hot.get("k1").is_none());
    assert!(hot.get("k2").is_some());
    assert!(hot.get("k3").is_some());
}

#[test]
fn test_warm_memory_operations() {
    let mut warm = WarmMemory::new();

    let entry = TieredMemoryEntry::new("warm_key".to_string(), "warm_content".to_string(), Priority::High);
    warm.store(&entry);

    let retrieved = warm.get("warm_key");
    assert!(retrieved.is_some());
    assert_eq!(retrieved.unwrap().content, "warm_content");

    assert_eq!(warm.count(), 1);

    assert!(warm.delete("warm_key"));
    assert_eq!(warm.count(), 0);
}

#[test]
fn test_warm_memory_search() {
    let mut warm = WarmMemory::new();

    warm.store(&TieredMemoryEntry::new("k1".to_string(), "hello world".to_string(), Priority::Normal));
    warm.store(&TieredMemoryEntry::new("k2".to_string(), "goodbye world".to_string(), Priority::Normal));

    let results = warm.search("hello", 10);
    assert_eq!(results.len(), 1);
}

#[test]
fn test_warm_memory_health_check() {
    let warm = WarmMemory::new();
    assert!(warm.health_check());
}

#[test]
fn test_cold_memory_operations() {
    let mut cold = ColdMemory::new();

    let entry = TieredMemoryEntry::new("cold_key".to_string(), "cold_content".to_string(), Priority::Low);
    cold.archive(&entry);

    let retrieved = cold.get("cold_key");
    assert!(retrieved.is_some());

    assert_eq!(cold.count(), 1);

    assert!(cold.delete("cold_key"));
}

#[test]
fn test_cold_memory_search() {
    let mut cold = ColdMemory::new();

    cold.archive(&TieredMemoryEntry::new("k1".to_string(), "archived content".to_string(), Priority::Low));

    let results = cold.search("archived", 10);
    assert_eq!(results.len(), 1);
}

#[test]
fn test_tiered_memory_remember_and_recall() {
    let mut tiered = TieredMemory::new(MigrationPolicy::default());

    tiered.remember("test_key", "test_content", Priority::High);

    let result = tiered.recall("test_key");
    assert!(result.is_some());
    assert_eq!(result.unwrap().content, "test_content");
}

#[test]
fn test_tiered_memory_search() {
    let mut tiered = TieredMemory::new(MigrationPolicy::default());

    tiered.remember("k1", "hello world", Priority::Normal);

    let results = tiered.search("hello", 10);
    assert_eq!(results.len(), 1);
}

#[test]
fn test_tiered_memory_forget() {
    let mut tiered = TieredMemory::new(MigrationPolicy::default());

    tiered.remember("to_delete", "content", Priority::Normal);
    assert!(tiered.forget("to_delete"));
}

#[test]
fn test_tiered_memory_health_check() {
    let tiered = TieredMemory::new(MigrationPolicy::default());

    assert!(tiered.hot().health_check());
    assert!(tiered.warm().health_check());
    assert!(tiered.cold().health_check());
    assert!(tiered.health_check());
}

#[test]
fn test_memory_category_from_str() {
    assert_eq!(MemoryCategory::from_str("core"), MemoryCategory::Core);
    assert_eq!(MemoryCategory::from_str("daily"), MemoryCategory::Daily);
    assert_eq!(MemoryCategory::from_str("conversation"), MemoryCategory::Conversation);
    assert_eq!(MemoryCategory::from_str("custom"), MemoryCategory::Custom("custom".to_string()));
}

#[test]
fn test_memory_category_display() {
    assert_eq!(MemoryCategory::Core.to_string(), "core");
    assert_eq!(MemoryCategory::Daily.to_string(), "daily");
    assert_eq!(MemoryCategory::Conversation.to_string(), "conversation");
    assert_eq!(MemoryCategory::Custom("custom".to_string()).to_string(), "custom");
}

#[test]
fn test_noop_memory_name() {
    let memory = NoopMemory;
    assert_eq!(memory.name(), "noop");
}

// ----- properties of the engine, on concrete values -----

#[test]
fn hot_count_never_exceeds_capacity() {
    for cap in 1..5usize {
        let mut hot = HotMemory::new(cap);
        for i in 0..12 {
            let key = format!("k{}", i % 7);
            hot.store(entry_at(&key, "c", Priority::Normal, 0));
            assert!(hot.count() <= cap);
        }
    }
}

#[test]
fn hot_capacity_zero_still_holds_the_last_entry() {
    let mut hot = HotMemory::new(0);
    hot.store(entry_at("a", "c", Priority::Normal, 0));
    hot.store(entry_at("b", "c", Priority::Normal, 0));
    assert_eq!(hot.count(), 1);
    assert!(hot.get("b").is_some());
}

#[test]
fn hot_read_spares_entry_from_eviction() {
    let mut hot = HotMemory::new(2);
    hot.store(entry_at("k1", "c1", Priority::Normal, 0));
    hot.store(entry_at("k2", "c2", Priority::Normal, 0));
    assert!(hot.get("k1").is_some());
    hot.store(entry_at("k3", "c3", Priority::Normal, 0));
    assert!(hot.get("k2").is_none());
    assert!(hot.get("k1").is_some());
    assert!(hot.get("k3").is_some());
}

#[test]
fn hot_critical_entries_are_evicted_too() {
    let mut hot = HotMemory::new(1);
    hot.store(entry_at("rule", "core", Priority::Critical, 0));
    hot.store(entry_at("note", "x", Priority::Low, 0));
    assert!(hot.get("rule").is_none());
}

#[test]
fn hot_store_replaces_same_key() {
    let mut hot = HotMemory::new(10);
    hot.store(entry_at("k", "old", Priority::Normal, 0));
    hot.store(entry_at("k", "new", Priority::Normal, 0));
    assert_eq!(hot.count(), 1);
    assert_eq!(hot.get("k").unwrap().content, "new");
}

#[test]
fn hot_search_is_case_insensitive_and_bounded() {
    let mut hot = HotMemory::new(10);
    hot.store(entry_at("a", "Hello World", Priority::Normal, 0));
    hot.store(entry_at("b", "say HELLO", Priority::Normal, 0));
    hot.store(entry_at("c", "bye", Priority::Normal, 0));
    assert_eq!(hot.search("hello", 10).len(), 2);
    assert_eq!(hot.search("hello", 1).len(), 1);
    assert_eq!(hot.search("hello", 0).len(), 0);
}

#[test]
fn promotion_eligibility_by_age_and_priority() {
    let now = 100 * DAY;
    let mut hot = HotMemory::new(10);
    hot.store(entry_at("normal", "n", Priority::Normal, now - 8 * DAY));
    hot.store(entry_at("critical", "c", Priority::Critical, now - 8 * DAY));
    hot.store(entry_at("young", "y", Priority::Normal, now - 6 * DAY));
    let eligible = hot.get_entries_for_promotion(now, 7);
    assert_eq!(eligible.len(), 1);
    assert_eq!(eligible[0].key, "normal");
}

#[test]
fn age_exactly_at_threshold_is_not_older() {
    let e = entry_at("k", "c", Priority::Normal, 0);
    assert!(!e.should_promote_to_warm(7 * DAY, 7));
    assert!(e.should_promote_to_warm(7 * DAY + 1, 7));
    assert!(e.should_archive_to_cold(30 * DAY + 1, 30));
}

#[test]
fn round_trip_remember_recall() {
    let mut tiered = TieredMemory::new(MigrationPolicy::default());
    tiered.remember("k", "v", Priority::Normal);
    assert_eq!(tiered.recall("k").unwrap().content, "v");
}

#[test]
fn remember_existing_key_updates_content_and_count() {
    let mut tiered = TieredMemory::new(MigrationPolicy::default());
    tiered.remember_at("k", "v1", Priority::Normal, "mem_1".to_string(), 10);
    tiered.remember_at("k", "v2", Priority::Low, "mem_2".to_string(), 20);
    let e = tiered.recall("k").unwrap();
    assert_eq!(e.content, "v2");
    assert_eq!(e.id, "mem_1");
    assert_eq!(e.priority, Priority::Normal);
    assert_eq!(e.timestamp, 10);
    assert_eq!(e.accessed_at, 20);
    assert_eq!(e.access_count, 2);
}

#[test]
fn recall_promotes_from_cold_into_hot() {
    let policy = MigrationPolicy { hot_to_warm_days: 7, warm_to_cold_days: 30, max_hot_entries: 10 };
    let mut tiered = TieredMemory::new(policy);
    let now = 100 * DAY;
    tiered.remember_at("old", "archived fact", Priority::Normal, "mem_old".to_string(), now - 40 * DAY);
    let report = tiered.maintain_at(now);
    assert_eq!(report.hot_to_warm_migrated, 1);
    assert_eq!(report.warm_to_cold_migrated, 1);
    assert_eq!(tiered.hot().count(), 0);
    assert_eq!(tiered.cold().count(), 1);

    let got = tiered.recall("old").unwrap();
    assert_eq!(got.tier, MemoryTier::Hot);
    assert_eq!(got.content, "archived fact");
    assert_eq!(got.access_count, 0);
    assert_eq!(tiered.hot().count(), 1);
    // the cold copy stays
    assert_eq!(tiered.cold().count(), 1);
    assert_eq!(tiered.count(), 2);
}

#[test]
fn recall_promotes_from_warm_into_hot() {
    let mut tiered = TieredMemory::new(MigrationPolicy::default());
    let now = 100 * DAY;
    tiered.remember_at("w", "warm fact", Priority::High, "mem_w".to_string(), now - 10 * DAY);
    let report = tiered.maintain_at(now);
    assert_eq!(report.hot_to_warm_migrated, 1);
    assert_eq!(report.warm_to_cold_migrated, 0);
    assert_eq!(report.total_warm, 1);
    let got = tiered.recall("w").unwrap();
    assert_eq!(got.tier, MemoryTier::Hot);
    assert_eq!(tiered.warm().count(), 1);
}

#[test]
fn maintenance_twice_migrates_nothing_the_second_time() {
    let mut tiered = TieredMemory::new(MigrationPolicy::default());
    let now = 100 * DAY;
    tiered.remember_at("a", "x", Priority::Normal, "mem_a".to_string(), now - 8 * DAY);
    tiered.remember_at("b", "y", Priority::Normal, "mem_b".to_string(), now - 40 * DAY);
    tiered.remember_at("c", "z", Priority::Critical, "mem_c".to_string(), now - 40 * DAY);
    let first = tiered.maintain_at(now);
    assert_eq!(first.hot_to_warm_migrated, 2);
    assert_eq!(first.warm_to_cold_migrated, 1);
    assert_eq!(first.cold_to_warm_promoted, 0);
    assert_eq!(first.hot_evicted, 0);
    assert_eq!((first.total_hot, first.total_warm, first.total_cold), (1, 1, 1));
    let second = tiered.maintain_at(now);
    assert_eq!(second.hot_to_warm_migrated, 0);
    assert_eq!(second.warm_to_cold_migrated, 0);
}

#[test]
fn search_never_exceeds_limit_across_tiers() {
    let mut tiered = TieredMemory::new(MigrationPolicy::default());
    let now = 100 * DAY;
    for i in 0..3 {
        tiered.remember_at(&format!("old{}", i), "match me", Priority::Normal, format!("mem_o{}", i), now - 40 * DAY);
    }
    tiered.maintain_at(now);
    for i in 0..3 {
        tiered.remember_at(&format!("new{}", i), "MATCH me too", Priority::Normal, format!("mem_n{}", i), now);
    }
    assert_eq!(tiered.search("match", 100).len(), 6);
    assert_eq!(tiered.search("match", 4).len(), 4);
    let first = tiered.search("match", 4);
    assert_eq!(first[0].tier, MemoryTier::Hot);
    assert_eq!(first[3].tier, MemoryTier::Cold);
}

#[test]
fn forget_removes_from_every_tier() {
    let mut tiered = TieredMemory::new(MigrationPolicy::default());
    let now = 100 * DAY;
    tiered.remember_at("k", "v", Priority::Normal, "mem_k".to_string(), now - 40 * DAY);
    tiered.maintain_at(now);
    assert!(tiered.recall("k").is_some());
    assert!(tiered.forget("k"));
    assert!(tiered.recall("k").is_none());
    assert!(!tiered.forget("k"));
    assert_eq!(tiered.count(), 0);
}

#[test]
fn small_hot_tier_scenario() {
    let policy = MigrationPolicy { hot_to_warm_days: 7, warm_to_cold_days: 30, max_hot_entries: 2 };
    let mut tiered = TieredMemory::new(policy);
    tiered.remember("a", "first", Priority::Normal);
    tiered.remember("b", "second", Priority::Normal);
    tiered.remember("c", "third", Priority::Normal);
    assert_eq!(tiered.hot().count(), 2);
    assert!(!tiered.hot().contains_key("a"));
    assert!(tiered.hot().contains_key("b"));
    assert!(tiered.hot().contains_key("c"));
}

#[test]
fn warm_store_upserts_by_key() {
    let mut warm = WarmMemory::new();
    warm.store(&entry_at("k", "one", Priority::Normal, 0));
    warm.store(&entry_at("k", "two", Priority::Normal, 0));
    assert_eq!(warm.count(), 1);
    let got = warm.get("k").unwrap();
    assert_eq!(got.content, "two");
    assert_eq!(got.tier, MemoryTier::Warm);
    assert_eq!(warm.get_all().len(), 1);
}

#[test]
fn warm_archival_selects_old_rows() {
    let mut warm = WarmMemory::new();
    let now = 100 * DAY;
    warm.store(&entry_at("old", "o", Priority::Normal, now - 31 * DAY));
    warm.store(&entry_at("new", "n", Priority::Normal, now - 29 * DAY));
    let old = warm.get_entries_for_archival(now, 30);
    assert_eq!(old.len(), 1);
    assert_eq!(old[0].key, "old");
}

#[test]
fn cold_keeps_several_rows_per_key() {
    let mut cold = ColdMemory::new();
    let mut a = entry_at("k", "first", Priority::Normal, 0);
    a.id = "id1".to_string();
    let mut b = entry_at("k", "second", Priority::Normal, 0);
    b.id = "id2".to_string();
    cold.archive_at(&a, 50);
    cold.archive_at(&b, 60);
    assert_eq!(cold.count(), 2);
    let got = cold.get("k").unwrap();
    assert_eq!(got.content, "first");
    assert_eq!(got.accessed_at, 50);
    assert_eq!(got.access_count, 0);
    assert_eq!(got.tier, MemoryTier::Cold);
    cold.archive_at(&a, 70);
    assert_eq!(cold.count(), 2);
    assert!(cold.delete("k"));
    assert_eq!(cold.count(), 0);
}

#[test]
fn warm_store_replaces_row_with_same_id() {
    let mut warm = WarmMemory::new();
    let mut a = entry_at("a", "first", Priority::Normal, 0);
    a.id = "same".to_string();
    let mut b = entry_at("b", "second", Priority::Normal, 0);
    b.id = "same".to_string();
    warm.store(&a);
    warm.store(&b);
    assert_eq!(warm.count(), 1);
    assert!(warm.get("a").is_none());
    assert_eq!(warm.get("b").unwrap().content, "second");
}

#[test]
fn maintenance_later_without_crossing_thresholds_migrates_nothing() {
    let mut tiered = TieredMemory::new(MigrationPolicy::default());
    let now = 100 * DAY;
    tiered.remember_at("a", "x", Priority::Normal, "mem_a".to_string(), now - 8 * DAY);
    tiered.remember_at("b", "y", Priority::Normal, "mem_b".to_string(), now - 2 * DAY);
    let first = tiered.maintain_at(now);
    assert_eq!(first.hot_to_warm_migrated, 1);
    let second = tiered.maintain_at(now + DAY);
    assert_eq!(second.hot_to_warm_migrated, 0);
    assert_eq!(second.warm_to_cold_migrated, 0);
    assert_eq!(second.total_hot, tiered.hot().count());
    assert_eq!(second.total_warm, tiered.warm().count());
    assert_eq!(second.total_cold, tiered.cold().count());
}

#[test]
fn maintain_reports_totals_after_the_pass() {
    let mut tiered = TieredMemory::new(MigrationPolicy::default());
    tiered.remember("k", "v", Priority::Normal);
    let r = tiered.maintain();
    assert_eq!(r.cold_to_warm_promoted, 0);
    assert_eq!(r.hot_evicted, 0);
    assert_eq!((r.total_hot, r.total_warm, r.total_cold), (1, 0, 0));
}

#[test]
fn maintenance_keeps_every_key() {
    let mut tiered = TieredMemory::new(MigrationPolicy::default());
    let now = 100 * DAY;
    tiered.remember_at("young", "a", Priority::Normal, "mem_1".to_string(), now - DAY);
    tiered.remember_at("week", "b", Priority::Normal, "mem_2".to_string(), now - 8 * DAY);
    tiered.remember_at("month", "c", Priority::Low, "mem_3".to_string(), now - 31 * DAY);
    tiered.remember_at("rule", "d", Priority::Critical, "mem_4".to_string(), now - 90 * DAY);
    tiered.maintain_at(now);
    assert!(tiered.hot().contains_key("young"));
    assert!(tiered.hot().contains_key("rule"));
    assert!(tiered.warm().get("week").is_some());
    assert!(tiered.warm().get("month").is_none());
    assert!(tiered.cold().get("month").is_some());
    assert_eq!(tiered.count(), 4);
}
