//! The memory entry, its priority and tier labels, the migration policy and
//! the report of one maintenance pass.

use vstd::prelude::*;
use crate::text::{owned, str_eq};
use vstd::string::*;

verus! {

broadcast use vstd::string::group_string_axioms;

/// Seconds in one day.
pub const SECS_PER_DAY: i64 = 86400;

/// Relies on `chrono::Utc::now` and `DateTime::timestamp`: the current time as
/// whole seconds since the Unix epoch. Nothing is promised of its value.
#[verifier::external_body]
pub(crate) fn now_secs() -> (r: i64) {
    chrono::Utc::now().timestamp()
}

/// Relies on `uuid::Uuid::new_v4` and its `Display`: a fresh random
/// identifier in text form. Nothing is promised of its value.
#[verifier::external_body]
pub(crate) fn new_uuid() -> (r: String) {
    uuid::Uuid::new_v4().to_string()
}

/// Tier that last touched an entry.
#[derive(Debug, Clone, Copy, PartialEq, Eq, Structural)]
pub enum MemoryTier {
    Hot,
    Warm,
    Cold,
}

impl MemoryTier {
    pub open spec fn name_of(self) -> Seq<char> {
        match self {
            MemoryTier::Hot => "hot"@,
            MemoryTier::Warm => "warm"@,
            MemoryTier::Cold => "cold"@,
        }
    }

    /// Lowercase name of the tier.
    pub fn to_string(&self) -> (r: String)
        ensures
            r@ == self.name_of(),
    {
        match self {
            MemoryTier::Hot => owned("hot"),
            MemoryTier::Warm => owned("warm"),
            MemoryTier::Cold => owned("cold"),
        }
    }
}

/// Priority of an entry; `Critical` entries never age out of the hot tier.
#[derive(Debug, Clone, Copy, PartialEq, Eq, Structural)]
pub enum Priority {
    Critical,
    High,
    Normal,
    Low,
}

/// Legacy category of a memory.
#[derive(Debug, Clone)]
pub enum MemoryCategory {
    Core,
    Daily,
    Conversation,
    Custom(String),
}

impl PartialEq for MemoryCategory {
    fn eq(&self, o: &MemoryCategory) -> (r: bool) {
        match (self, o) {
            (MemoryCategory::Core, MemoryCategory::Core) => true,
            (MemoryCategory::Daily, MemoryCategory::Daily) => true,
            (MemoryCategory::Conversation, MemoryCategory::Conversation) => true,
            (MemoryCategory::Custom(a), MemoryCategory::Custom(b)) => str_eq(a.as_str(), b.as_str()),
            _ => false,
        }
    }
}

impl vstd::std_specs::cmp::PartialEqSpecImpl for MemoryCategory {
    open spec fn obeys_eq_spec() -> bool {
        true
    }

    open spec fn eq_spec(&self, o: &MemoryCategory) -> bool {
        match (self, o) {
            (MemoryCategory::Core, MemoryCategory::Core) => true,
            (MemoryCategory::Daily, MemoryCategory::Daily) => true,
            (MemoryCategory::Conversation, MemoryCategory::Conversation) => true,
            (MemoryCategory::Custom(a), MemoryCategory::Custom(b)) => a@ == b@,
            _ => false,
        }
    }
}

impl MemoryCategory {
    pub open spec fn name_of(&self) -> Seq<char> {
        match self {
            MemoryCategory::Core => "core"@,
            MemoryCategory::Daily => "daily"@,
            MemoryCategory::Conversation => "conversation"@,
            MemoryCategory::Custom(n) => n@,
        }
    }

    /// Parses a category name; any other name is a custom category.
    pub fn from_str(s: &str) -> (r: MemoryCategory)
        ensures
            s@ == "core"@ ==> r is Core,
            s@ == "daily"@ ==> r is Daily,
            s@ == "conversation"@ ==> r is Conversation,
            s@ != "core"@ && s@ != "daily"@ && s@ != "conversation"@ ==> (r matches MemoryCategory::Custom(n) && n@ == s@),
    {
        proof {
            reveal_strlit("core");
            reveal_strlit("daily");
            reveal_strlit("conversation");
            assert("core"@ != "daily"@) by { assert("core"@.len() != "daily"@.len()); }
            assert("core"@ != "conversation"@) by { assert("core"@.len() != "conversation"@.len()); }
            assert("daily"@ != "conversation"@) by { assert("daily"@.len() != "conversation"@.len()); }
        }
        if str_eq(s, "core") {
            MemoryCategory::Core
        } else if str_eq(s, "daily") {
            MemoryCategory::Daily
        } else if str_eq(s, "conversation") {
            MemoryCategory::Conversation
        } else {
            MemoryCategory::Custom(owned(s))
        }
    }

    /// Name of the category (a custom category is its own name).
    pub fn to_string(&self) -> (r: String)
        ensures
            r@ == self.name_of(),
    {
        match self {
            MemoryCategory::Core => owned("core"),
            MemoryCategory::Daily => owned("daily"),
            MemoryCategory::Conversation => owned("conversation"),
            MemoryCategory::Custom(n) => n.clone(),
        }
    }
}

impl Priority {
    pub open spec fn name_of(self) -> Seq<char> {
        match self {
            Priority::Critical => "critical"@,
            Priority::High => "high"@,
            Priority::Normal => "normal"@,
            Priority::Low => "low"@,
        }
    }

    /// The priority a name stands for; an unknown name reads as `Normal`.
    pub open spec fn parse(s: Seq<char>) -> Priority {
        if s == "critical"@ {
            Priority::Critical
        } else if s == "high"@ {
            Priority::High
        } else if s == "low"@ {
            Priority::Low
        } else {
            Priority::Normal
        }
    }

    pub open spec fn of_category(c: MemoryCategory) -> Priority {
        match c {
            MemoryCategory::Core => Priority::Critical,
            MemoryCategory::Daily => Priority::High,
            _ => Priority::Normal,
        }
    }

    /// Priority that a legacy category stands for.
    pub fn from_category(category: &MemoryCategory) -> (r: Priority)
        ensures
            r == Priority::of_category(*category),
    {
        match category {
            MemoryCategory::Core => Priority::Critical,
            MemoryCategory::Daily => Priority::High,
            MemoryCategory::Conversation => Priority::Normal,
            MemoryCategory::Custom(_) => Priority::Normal,
        }
    }

    /// Parses a priority name; an unknown name reads as `Normal`.
    pub fn from_str(s: &str) -> (r: Priority)
        ensures
            r == Priority::parse(s@),
    {
        proof {
            reveal_strlit("critical");
            reveal_strlit("high");
            reveal_strlit("normal");
            reveal_strlit("low");
        }
        if str_eq(s, "critical") {
            Priority::Critical
        } else if str_eq(s, "high") {
            Priority::High
        } else if str_eq(s, "low") {
            Priority::Low
        } else {
            Priority::Normal
        }
    }

    /// Lowercase name of the priority.
    pub fn to_string(&self) -> (r: String)
        ensures
            r@ == self.name_of(),
    {
        match self {
            Priority::Critical => owned("critical"),
            Priority::High => owned("high"),
            Priority::Normal => owned("normal"),
            Priority::Low => owned("low"),
        }
    }
}

/// What a memory entry holds, as mathematical values.
pub struct EntryView {
    pub id: Seq<char>,
    pub key: Seq<char>,
    pub content: Seq<char>,
    pub tier: MemoryTier,
    pub priority: Priority,
    pub timestamp: i64,
    pub accessed_at: i64,
    pub access_count: u32,
    pub session_id: Option<Seq<char>>,
    pub tags: Seq<Seq<char>>,
}

/// A stored unit of knowledge. Times are whole seconds since the Unix epoch.
#[derive(Debug)]
pub struct TieredMemoryEntry {
    pub id: String,
    pub key: String,
    pub content: String,
    pub tier: MemoryTier,
    pub priority: Priority,
    pub timestamp: i64,
    pub accessed_at: i64,
    pub access_count: u32,
    pub session_id: Option<String>,
    pub tags: Vec<String>,
}

pub open spec fn opt_view(o: Option<String>) -> Option<Seq<char>> {
    match o {
        Some(s) => Some(s@),
        None => None,
    }
}

/// An entry whose age, at time `now`, exceeds `days` whole days.
pub open spec fn older_than(timestamp: i64, now: i64, days: i64) -> bool {
    now - timestamp > days * SECS_PER_DAY
}

/// Whether `now - timestamp` exceeds `days` days, computed without overflow.
pub fn age_exceeds(timestamp: i64, now: i64, days: i64) -> (r: bool)
    ensures
        r == older_than(timestamp, now, days),
{
    let age: i128 = now as i128 - timestamp as i128;
    let limit: i128 = days as i128 * SECS_PER_DAY as i128;
    age > limit
}

fn clone_tags(v: &Vec<String>) -> (r: Vec<String>)
    ensures
        r@ == v@,
{
    let mut r: Vec<String> = Vec::new();
    let mut i: usize = 0;
    while i < v.len()
        invariant
            i <= v@.len(),
            r@ == v@.subrange(0, i as int),
        decreases v@.len() - i,
    {
        r.push(v[i].clone());
        assert(r@ =~= v@.subrange(0, i + 1));
        i = i + 1;
    }
    assert(v@ =~= v@.subrange(0, v@.len() as int));
    r
}

impl View for TieredMemoryEntry {
    type V = EntryView;

    open spec fn view(&self) -> EntryView {
        EntryView {
            id: self.id@,
            key: self.key@,
            content: self.content@,
            tier: self.tier,
            priority: self.priority,
            timestamp: self.timestamp,
            accessed_at: self.accessed_at,
            access_count: self.access_count,
            session_id: opt_view(self.session_id),
            tags: self.tags@.map_values(|t: String| t@),
        }
    }
}

impl Clone for TieredMemoryEntry {
    fn clone(&self) -> (r: Self)
        ensures
            r@ == self@,
    {
        self.copy()
    }
}

impl TieredMemoryEntry {
    /// A field-by-field copy.
    pub fn copy(&self) -> (r: Self)
        ensures
            r@ == self@,
    {
        let session_id = match &self.session_id {
            Some(s) => Some(s.clone()),
            None => None,
        };
        let tags = clone_tags(&self.tags);
        assert(tags@.map_values(|t: String| t@) =~= self.tags@.map_values(|t: String| t@));
        TieredMemoryEntry {
            id: self.id.clone(),
            key: self.key.clone(),
            content: self.content.clone(),
            tier: self.tier,
            priority: self.priority,
            timestamp: self.timestamp,
            accessed_at: self.accessed_at,
            access_count: self.access_count,
            session_id,
            tags,
        }
    }
}

impl TieredMemoryEntry {
    /// A new hot entry created at time `now` under identifier `id`.
    pub fn with_identity(key: String, content: String, priority: Priority, id: String, now: i64) -> (r: Self)
        ensures
            r.id@ == id@,
            r.key@ == key@,
            r.content@ == content@,
            r.tier == MemoryTier::Hot,
            r.priority == priority,
            r.timestamp == now,
            r.accessed_at == now,
            r.access_count == 1,
            r.session_id.is_none(),
            r.tags@.len() == 0,
    {
        TieredMemoryEntry {
            id,
            key,
            content,
            tier: MemoryTier::Hot,
            priority,
            timestamp: now,
            accessed_at: now,
            access_count: 1,
            session_id: None,
            tags: Vec::new(),
        }
    }

    /// A new hot entry stamped with the current time and a fresh `mem_` identifier.
    pub fn new(key: String, content: String, priority: Priority) -> (r: Self)
        ensures
            starts_with_mem(r.id@),
            r.key@ == key@,
            r.content@ == content@,
            r.tier == MemoryTier::Hot,
            r.priority == priority,
            r.timestamp == r.accessed_at,
            r.access_count == 1,
            r.session_id.is_none(),
            r.tags@.len() == 0,
    {
        let mut id = owned("mem_");
        let u = new_uuid();
        id.append(u.as_str());
        proof {
            reveal_strlit("mem_");
            assert(id@.subrange(0, 4) =~= "mem_"@);
        }
        let now = now_secs();
        TieredMemoryEntry::with_identity(key, content, priority, id, now)
    }

    /// Whether the entry is older than `days` days at time `now`.
    pub fn should_promote_to_warm(&self, now: i64, days: i64) -> (r: bool)
        ensures
            r == older_than(self.timestamp, now, days),
    {
        age_exceeds(self.timestamp, now, days)
    }

    /// Whether the entry is older than `days` days at time `now`.
    pub fn should_archive_to_cold(&self, now: i64, days: i64) -> (r: bool)
        ensures
            r == older_than(self.timestamp, now, days),
    {
        age_exceeds(self.timestamp, now, days)
    }
}

pub open spec fn starts_with_mem(id: Seq<char>) -> bool {
    id.len() >= 4 && id.subrange(0, 4) == "mem_"@
}

/// Age thresholds and hot-tier capacity.
#[derive(Debug, Clone, Copy)]
pub struct MigrationPolicy {
    pub hot_to_warm_days: i64,
    pub warm_to_cold_days: i64,
    pub max_hot_entries: usize,
}

impl Default for MigrationPolicy {
    fn default() -> (r: Self)
        ensures
            r.hot_to_warm_days == 7,
            r.warm_to_cold_days == 30,
            r.max_hot_entries == 1000,
    {
        MigrationPolicy { hot_to_warm_days: 7, warm_to_cold_days: 30, max_hot_entries: 1000 }
    }
}

/// A memory that keeps nothing.
pub struct NoopMemory;

impl NoopMemory {
    pub fn name(&self) -> (r: &'static str)
        ensures
            r@ == "noop"@,
    {
        "noop"
    }
}

/// Counts produced by one maintenance pass over the tiers.
#[derive(Debug, Clone, Copy)]
pub struct MaintenanceReport {
    pub hot_to_warm_migrated: usize,
    pub warm_to_cold_migrated: usize,
    pub cold_to_warm_promoted: usize,
    pub hot_evicted: usize,
    pub total_hot: usize,
    pub total_warm: usize,
    pub total_cold: usize,
}

} // verus!
