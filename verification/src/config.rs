//! The configuration, as an operator writes it. What is left out is none here; the defaults are
//! applied when a policy is made of it.

use vstd::prelude::*;

verus! {

/// How the discovery methods are cached.
#[derive(Clone, Debug, PartialEq, Eq)]
pub struct DiscoveryConfig {
    pub cacheable: Option<bool>,
    /// In seconds.
    pub ttl: Option<i64>,
}

/// How the calls of one tool are cached.
#[derive(Clone, Debug, PartialEq, Eq)]
pub struct Tools0Config {
    pub cacheable: Option<bool>,
    pub name: String,
    pub scope: Option<String>,
    /// In seconds.
    pub ttl: i64,
}

/// The configuration of the cache.
#[derive(Clone, Debug, PartialEq, Eq)]
pub struct Config {
    pub discovery: DiscoveryConfig,
    pub distributed: Option<bool>,
    pub max_entries: Option<i64>,
    pub tools: Option<Vec<Tools0Config>>,
}

} // verus!
