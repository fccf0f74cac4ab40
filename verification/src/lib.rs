//! A budgeted, trust-tiered web crawl engine.
//!
//! The library holds the decision logic of a bounded crawl: the prioritized
//! frontier, trust classification of hosts, per-host politeness, dedup and
//! budget enforcement, content-extraction text processing, and report
//! rendering. Network transport and the language-model oracle live outside;
//! the crawl is driven as a state machine that tells its caller what to fetch
//! and what to ask, and is handed the outcomes back as plain values.

pub mod text;
pub mod trust;
pub mod urls;
pub mod openai;
pub mod extract;
pub mod spider;
pub mod report;
