//! Personal-assistant core: a tiered memory engine (hot LRU cache, warm store,
//! cold archive) and the small registries and policies around it.

pub mod text;
pub mod memory;
pub mod entries;
pub mod hot_tier;
pub mod warm_tier;
pub mod cold_tier;
pub mod tiered;
pub mod skills;
pub mod security;
pub mod channels;
pub mod observer;
pub mod maintenance;
pub mod config;
pub mod error;
pub mod providers;
pub mod agent_runner;
