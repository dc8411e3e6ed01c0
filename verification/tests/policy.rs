//! Configurations and what is decided about requests.

use mcp_response_cache_policy::annotations::{
    annotation_key, is_known_unsafe, markers_from_safety, record_from_list, ANNOTATION_TTL_SECS,
};
use mcp_response_cache_policy::config::{Config, DiscoveryConfig, Tools0Config};
use mcp_response_cache_policy::json::Json;
use mcp_response_cache_policy::key::{CacheScope, Identity};
use mcp_response_cache_policy::mcp::{McpRequest, RequestId};
use mcp_response_cache_policy::policy::{
    decide, namespace_ttl, to_millis, Decision, Policy, Setup,
};
use mcp_response_cache_policy::store::{
    now_secs, seconds_at, CacheStore, CachedEntry, GossipStore, LocalStore, Row, WriteMode,
    Written,
};
use serde_json::Value;
use std::cell::RefCell;
use std::collections::HashMap;
use std::time::{Duration, UNIX_EPOCH};

fn config(json: &str) -> Config {
    let v: Value = serde_json::from_str(json).expect("config must parse");
    let tool = |t: &Value| Tools0Config {
        cacheable: t["cacheable"].as_bool(),
        name: t["name"].as_str().expect("name").to_string(),
        scope: t["scope"].as_str().map(String::from),
        ttl: t["ttl"].as_i64().expect("ttl"),
    };
    Config {
        discovery: DiscoveryConfig {
            cacheable: v["discovery"]["cacheable"].as_bool(),
            ttl: v["discovery"]["ttl"].as_i64(),
        },
        distributed: v["distributed"].as_bool(),
        max_entries: v["maxEntries"].as_i64(),
        tools: v["tools"].as_array().map(|list| list.iter().map(tool).collect()),
    }
}

fn policy(json: &str) -> Policy {
    Policy::new(&config(json))
}

#[test]
fn parses_minimal_config_with_defaults() {
    let p = policy(r#"{"discovery":{}}"#);
    assert!(p.discovery_cacheable);
    assert_eq!(p.discovery_ttl, 60);
    assert!(p.tools.is_empty());
}

#[test]
fn parses_full_config() {
    let p = policy(
        r#"{
            "discovery": {"cacheable": false, "ttl": 30},
            "tools": [{"name": "search", "cacheable": true, "ttl": 120, "scope": "identity"}],
            "maxEntries": 500,
            "distributed": true
        }"#,
    );
    assert!(!p.discovery_cacheable);
    assert_eq!(p.discovery_ttl, 30);
    assert_eq!(p.tools.len(), 1);
    let search = p.tools.get("search").expect("search tool resolved");
    assert!(search.cacheable);
    assert_eq!(search.ttl, 120);
    assert_eq!(search.scope, CacheScope::Identity);
}

#[test]
fn tool_scope_defaults_to_shared() {
    let p = policy(r#"{"discovery":{},"tools":[{"name":"t","ttl":10}]}"#);
    let t = p.tools.get("t").expect("tool resolved");
    assert_eq!(t.scope, CacheScope::Shared);
    assert!(!t.cacheable);
}

#[test]
fn discovery_ttl_zero_disables_discovery() {
    let p = policy(r#"{"discovery":{"cacheable":true,"ttl":0}}"#);
    assert!(!p.discovery_cacheable);
}

// A backend in memory, asked by the rules of a store.

#[derive(Default)]
struct Memory {
    rows: RefCell<HashMap<String, CachedEntry>>,
    corrupt: RefCell<Vec<String>>,
    fail: bool,
}

impl Memory {
    fn row(&self, key: &str) -> Row {
        if self.fail {
            return Row::Failed;
        }
        if self.corrupt.borrow().iter().any(|k| k == key) {
            return Row::Unreadable;
        }
        match self.rows.borrow().get(key) {
            Some(entry) => Row::Entry(entry.clone()),
            None => Row::Missing,
        }
    }

    fn remove(&self, key: &str) {
        self.rows.borrow_mut().remove(key);
        self.corrupt.borrow_mut().retain(|k| k != key);
    }

    fn contains(&self, key: &str) -> bool {
        self.rows.borrow().contains_key(key)
    }
}

fn get_at<S: CacheStore>(store: &S, memory: &Memory, key: &str, now: u64) -> Option<CachedEntry> {
    let reading = store.get(memory.row(key), now);
    if reading.evict {
        memory.remove(key);
    }
    reading.entry
}

fn get<S: CacheStore>(store: &S, memory: &Memory, key: &str) -> Option<CachedEntry> {
    get_at(store, memory, key, now_secs())
}

fn put_as<S: CacheStore>(
    store: &S,
    memory: &Memory,
    kind: Written,
    key: &str,
    entry: &CachedEntry,
) {
    if store.put(kind) == WriteMode::Always || !memory.contains(key) {
        memory.rows.borrow_mut().insert(key.to_string(), entry.clone());
    }
}

fn put<S: CacheStore>(store: &S, memory: &Memory, key: &str, entry: &CachedEntry) {
    put_as(store, memory, Written::Response, key, entry)
}

#[test]
fn cached_entry_freshness() {
    let now = 1000;
    let fresh = CachedEntry { written_at: now, valid_until: now + 10, body: vec![1] };
    let stale = CachedEntry { written_at: now, valid_until: now, body: vec![1] };
    assert!(fresh.is_fresh(now + 5));
    assert!(!stale.is_fresh(now + 1));
}

#[test]
fn local_store_roundtrip_and_expiry() {
    let store = LocalStore::new(());
    let memory = Memory::default();
    let now = now_secs();
    let entry = CachedEntry { written_at: now, valid_until: now + 60, body: b"hi".to_vec() };
    put(&store, &memory, "k", &entry);
    let got = get(&store, &memory, "k").expect("hit");
    assert_eq!(got.body, b"hi");

    let stale = CachedEntry { written_at: now - 100, valid_until: now - 1, body: b"x".to_vec() };
    put(&store, &memory, "s", &stale);
    assert!(get(&store, &memory, "s").is_none());
    assert!(!memory.contains("s"));
}

#[test]
fn local_store_evicts_what_is_unreadable() {
    let store = LocalStore::new(());
    let memory = Memory::default();
    memory.corrupt.borrow_mut().push("c".to_string());
    assert!(get(&store, &memory, "c").is_none());
    assert!(memory.corrupt.borrow().is_empty());
    assert!(get(&store, &memory, "missing").is_none());
}

#[test]
fn local_store_last_writer_wins() {
    let store = LocalStore::new(());
    let memory = Memory::default();
    let entry = |body: &[u8]| CachedEntry { written_at: 5, valid_until: 9, body: body.to_vec() };
    put(&store, &memory, "k", &entry(b"first"));
    put(&store, &memory, "k", &entry(b"second"));
    assert_eq!(get_at(&store, &memory, "k", 8).unwrap().body, b"second");
    assert!(get_at(&store, &memory, "k", 9).is_none());
}

#[test]
fn reads_and_writes_leave_other_keys() {
    let store = LocalStore::new(());
    let memory = Memory::default();
    let entry = |until: u64| CachedEntry { written_at: 1, valid_until: until, body: vec![] };
    put(&store, &memory, "short", &entry(5));
    put(&store, &memory, "long", &entry(50));
    assert!(get_at(&store, &memory, "short", 7).is_none());
    assert_eq!(get_at(&store, &memory, "long", 7), Some(entry(50)));
    assert_eq!(get_at(&store, &memory, "long", 8), Some(entry(50)));
}

#[test]
fn gossip_store_roundtrip() {
    let store = GossipStore::new(());
    let memory = Memory::default();
    let now = now_secs();
    let entry = CachedEntry { written_at: now, valid_until: now + 60, body: b"hi".to_vec() };
    put(&store, &memory, "k", &entry);
    let got = get(&store, &memory, "k").expect("hit");
    assert_eq!(got.body, b"hi");
}

#[test]
fn gossip_store_stale_returns_none_without_tombstone() {
    let memory = Memory::default();
    let now = now_secs();
    let stale = CachedEntry { written_at: now - 100, valid_until: now - 1, body: b"x".to_vec() };
    memory.rows.borrow_mut().insert("s".to_string(), stale);
    let store = GossipStore::new(());
    assert!(get(&store, &memory, "s").is_none(), "stale entry is a miss");
    assert!(memory.contains("s"), "stale entry left in place for TTL eviction");
}

#[test]
fn gossip_store_first_writer_wins() {
    let store = GossipStore::new(());
    let memory = Memory::default();
    let now = now_secs();
    let first = CachedEntry { written_at: now, valid_until: now + 60, body: b"first".to_vec() };
    let second = CachedEntry { written_at: now, valid_until: now + 60, body: b"second".to_vec() };
    put(&store, &memory, "k", &first);
    put(&store, &memory, "k", &second);
    let got = get(&store, &memory, "k").expect("hit");
    assert_eq!(got.body, b"first", "first writer wins; concurrent put does not clobber");
}

#[test]
fn marks_are_refreshed_in_both_backends() {
    let list = br#"{"result":{"tools":[{"name":"writer"}]}}"#;
    let old = CachedEntry { written_at: 1, valid_until: 2, body: b"1".to_vec() };
    let memory = Memory::default();
    memory.rows.borrow_mut().insert(annotation_key("writer"), old.clone());
    let store = GossipStore::new(());
    assert!(!known_unsafe(&store, &memory, "writer"));
    record(&store, &memory, list);
    assert!(known_unsafe(&store, &memory, "writer"));
    let memory = Memory::default();
    memory.rows.borrow_mut().insert(annotation_key("writer"), old);
    let store = LocalStore::new(());
    record(&store, &memory, list);
    assert!(known_unsafe(&store, &memory, "writer"));
}

#[test]
fn gossip_store_get_error_is_miss() {
    let memory = Memory { fail: true, ..Memory::default() };
    let store = GossipStore::new(());
    assert!(get(&store, &memory, "k").is_none(), "storage error falls open to a miss");
}

#[test]
fn stores_hold_what_they_were_made_with() {
    assert_eq!(LocalStore::new(7).cache, 7);
    assert_eq!(GossipStore::new("x").storage, "x");
}

#[test]
fn seconds_are_counted_from_the_epoch() {
    assert_eq!(seconds_at(UNIX_EPOCH + Duration::from_millis(12_999)), 12);
    assert_eq!(seconds_at(UNIX_EPOCH), 0);
    assert_eq!(seconds_at(UNIX_EPOCH - Duration::from_secs(5)), 0);
    assert!(now_secs() > 1_700_000_000);
}

fn record<S: CacheStore>(store: &S, memory: &Memory, list: &[u8]) {
    for (key, entry) in record_from_list(list, now_secs()) {
        put_as(store, memory, Written::Mark, &key, &entry);
    }
}

fn known_unsafe<S: CacheStore>(store: &S, memory: &Memory, tool: &str) -> bool {
    is_known_unsafe(&get(store, memory, &annotation_key(tool)))
}

#[test]
fn records_and_reads_unsafe_tools() {
    let store = LocalStore::new(());
    let memory = Memory::default();
    let list = br#"{"jsonrpc":"2.0","id":1,"result":{"tools":[
        {"name":"safe","annotations":{"readOnlyHint":true}},
        {"name":"writer","annotations":{"destructiveHint":true}}
    ]}}"#;
    record(&store, &memory, list);
    assert!(known_unsafe(&store, &memory, "writer"));
    assert!(!known_unsafe(&store, &memory, "safe"));
    assert!(!known_unsafe(&store, &memory, "never-seen"));
}

#[test]
fn markers_have_their_exact_form() {
    assert_eq!(annotation_key("x y"), "ann:unsafe:x y");
    let list = vec![("a".to_string(), true), ("b".to_string(), false), ("b".to_string(), false)];
    let mark = CachedEntry { written_at: 10, valid_until: 310, body: b"1".to_vec() };
    let writes = markers_from_safety(&list, 10);
    assert_eq!(
        writes,
        vec![("ann:unsafe:b".to_string(), mark.clone()), ("ann:unsafe:b".to_string(), mark)]
    );
    assert_eq!(ANNOTATION_TTL_SECS, 300);
    assert!(record_from_list(b"nope", 10).is_empty());
}

// Decisions.

fn req(method: &str, tool: Option<&str>) -> McpRequest {
    McpRequest {
        id: RequestId::Number(1),
        method: method.to_string(),
        tool_name: tool.map(String::from),
    }
}

fn is_cache(d: &Decision) -> bool {
    matches!(d, Decision::Cache { .. })
}

fn anon() -> Identity<'static> {
    Identity { principal: None, session: None }
}

fn empty() -> Json {
    Json::Object(vec![])
}

#[test]
fn decide_notification_bypasses() {
    let p = policy(r#"{"discovery":{"cacheable":true,"ttl":60}}"#);
    let d = decide(&p, false, &req("notifications/initialized", None), &empty(), &anon());
    assert!(!is_cache(&d));
}

#[test]
fn decide_unknown_method_bypasses() {
    let p = policy(r#"{"discovery":{"cacheable":true,"ttl":60}}"#);
    let d = decide(&p, false, &req("initialize", None), &empty(), &anon());
    assert!(!is_cache(&d));
}

#[test]
fn decide_discovery_caches_when_enabled() {
    let p = policy(r#"{"discovery":{"cacheable":true,"ttl":45}}"#);
    for method in ["tools/list", "resources/list", "prompts/list"] {
        match decide(&p, false, &req(method, None), &empty(), &anon()) {
            Decision::Cache { key, ttl } => {
                assert_eq!(ttl, 45, "{method} uses discovery ttl");
                assert!(key.starts_with(&format!("{method}:")), "{method} key prefixed");
            }
            Decision::Bypass => panic!("{method} should cache when discovery enabled"),
        }
    }
}

#[test]
fn decide_discovery_bypasses_when_disabled() {
    let p = policy(r#"{"discovery":{"cacheable":false,"ttl":60}}"#);
    let d = decide(&p, false, &req("tools/list", None), &empty(), &anon());
    assert!(!is_cache(&d));
}

#[test]
fn decide_discovery_bypasses_when_ttl_zero() {
    let p = policy(r#"{"discovery":{"cacheable":true,"ttl":0}}"#);
    let d = decide(&p, false, &req("tools/list", None), &empty(), &anon());
    assert!(!is_cache(&d));
}

#[test]
fn decide_tools_call_allowlisted_caches() {
    let p = policy(
        r#"{"discovery":{},"tools":[{"name":"search","cacheable":true,"ttl":90,"scope":"shared"}]}"#,
    );
    let params = Json::Object(vec![("q".to_string(), Json::Text("x".to_string()))]);
    match decide(&p, false, &req("tools/call", Some("search")), &params, &anon()) {
        Decision::Cache { ttl, .. } => assert_eq!(ttl, 90),
        Decision::Bypass => panic!("allowlisted cacheable tool should cache"),
    }
}

#[test]
fn decide_tools_call_not_in_allowlist_bypasses() {
    let p = policy(r#"{"discovery":{},"tools":[{"name":"search","cacheable":true,"ttl":90}]}"#);
    let d = decide(&p, false, &req("tools/call", Some("other")), &empty(), &anon());
    assert!(!is_cache(&d));
}

#[test]
fn decide_tools_call_allowlisted_but_not_cacheable_bypasses() {
    let p = policy(r#"{"discovery":{},"tools":[{"name":"search","cacheable":false,"ttl":90}]}"#);
    let d = decide(&p, false, &req("tools/call", Some("search")), &empty(), &anon());
    assert!(!is_cache(&d));
}

#[test]
fn decide_tools_call_without_name_bypasses() {
    let p = policy(r#"{"discovery":{},"tools":[{"name":"search","cacheable":true,"ttl":90}]}"#);
    let d = decide(&p, false, &req("tools/call", None), &empty(), &anon());
    assert!(!is_cache(&d));
}

#[test]
fn decide_tools_call_observed_unsafe_bypasses_even_if_allowlisted() {
    let p = policy(r#"{"discovery":{},"tools":[{"name":"writer","cacheable":true,"ttl":90}]}"#);
    let store = LocalStore::new(());
    let memory = Memory::default();
    let list = br#"{"jsonrpc":"2.0","id":1,"result":{"tools":[
        {"name":"writer","annotations":{"destructiveHint":true}}
    ]}}"#;
    record(&store, &memory, list);
    let marked = known_unsafe(&store, &memory, "writer");
    let d = decide(&p, marked, &req("tools/call", Some("writer")), &empty(), &anon());
    assert!(!is_cache(&d), "observed-destructive tool must bypass despite allowlist");
    let d = decide(&p, false, &req("tools/call", Some("writer")), &empty(), &anon());
    assert!(is_cache(&d));
}

#[test]
fn decide_identity_scope_bypasses_without_principal_or_session() {
    let p = policy(
        r#"{"discovery":{},"tools":[{"name":"me","cacheable":true,"ttl":90,"scope":"identity"}]}"#,
    );
    let d = decide(&p, false, &req("tools/call", Some("me")), &empty(), &anon());
    assert!(!is_cache(&d), "identity scope with no principal/session must bypass");
}

#[test]
fn decide_identity_scope_caches_with_principal() {
    let p = policy(
        r#"{"discovery":{},"tools":[{"name":"me","cacheable":true,"ttl":90,"scope":"identity"}]}"#,
    );
    let id = Identity { principal: Some("alice"), session: None };
    let d = decide(&p, false, &req("tools/call", Some("me")), &empty(), &id);
    assert!(is_cache(&d), "identity scope with a principal should cache");
}

#[test]
fn times_are_raised_to_the_least() {
    let p = policy(
        r#"{"discovery":{"ttl":-5},"tools":[{"name":"a","ttl":0,"cacheable":true},{"name":"b","ttl":-9}]}"#,
    );
    assert_eq!(p.discovery_ttl, 0);
    assert!(!p.discovery_cacheable);
    assert_eq!(p.tools.get("a").unwrap().ttl, 1);
    assert_eq!(p.tools.get("b").unwrap().ttl, 1);
    assert!(p.tools.get("c").is_none());
}

#[test]
fn later_settings_of_a_tool_hold() {
    let p = policy(
        r#"{"discovery":{},"tools":[
            {"name":"a","ttl":5,"cacheable":true},
            {"name":"b","ttl":6},
            {"name":"a","ttl":7,"scope":"identity"}]}"#,
    );
    assert_eq!(p.tools.len(), 2);
    let a = p.tools.get("a").unwrap();
    assert_eq!((a.cacheable, a.ttl, a.scope), (false, 7, CacheScope::Identity));
    assert_eq!(p.tools.get("b").unwrap().ttl, 6);
}

#[test]
fn setup_applies_the_defaults() {
    let s = Setup::new(&config(r#"{"discovery":{}}"#));
    assert!(!s.distributed);
    assert_eq!(s.max_entries, 1000);
    assert_eq!(s.namespace_millis, 60_000);
    let s = Setup::new(&config(
        r#"{"discovery":{"ttl":90},"distributed":true,"maxEntries":-3,
            "tools":[{"name":"a","ttl":120},{"name":"b","ttl":100}]}"#,
    ));
    assert!(s.distributed);
    assert_eq!(s.max_entries, 1);
    assert_eq!(namespace_ttl(&s.policy), 120);
    assert_eq!(s.namespace_millis, 120_000);
    assert_eq!(Setup::new(&config(r#"{"discovery":{},"maxEntries":500}"#)).max_entries, 500);
    let wide = Setup::new(&config(r#"{"discovery":{},"maxEntries":4294967296}"#));
    assert_eq!(wide.max_entries, u32::MAX);
    let widest = Setup::new(&config(r#"{"discovery":{},"maxEntries":4294967295}"#));
    assert_eq!(widest.max_entries, u32::MAX);
}

#[test]
fn milliseconds_saturate() {
    assert_eq!(to_millis(4_294_967), 4_294_967_000);
    assert_eq!(to_millis(4_294_968), u32::MAX);
    assert_eq!(to_millis(4_294_967_296), u32::MAX);
    assert_eq!(to_millis(u64::MAX), u32::MAX);
    assert_eq!(to_millis(0), 0);
}
