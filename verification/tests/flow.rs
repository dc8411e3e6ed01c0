//! Requests and responses on their way through the cache.

use mcp_response_cache_policy::config::{Config, DiscoveryConfig, Tools0Config};
use mcp_response_cache_policy::flow::{
    after_entry, after_marker, plan_response, start, start_from_json, Answer, Disposition, MissCtx,
    RequestHead, Step, HEADER,
};
use mcp_response_cache_policy::policy::Policy;
use mcp_response_cache_policy::store::{
    CacheStore, CachedEntry, GossipStore, LocalStore, Row, WriteMode, Written,
};
use mcp_response_cache_policy::wire::parse_json;
use std::collections::HashMap;

fn tool(name: &str, scope: Option<&str>) -> Tools0Config {
    Tools0Config {
        cacheable: Some(true),
        name: name.to_string(),
        scope: scope.map(String::from),
        ttl: 90,
    }
}

fn policy() -> Policy {
    Policy::new(&Config {
        discovery: DiscoveryConfig { cacheable: None, ttl: None },
        distributed: None,
        max_entries: None,
        tools: Some(vec![tool("search", None), tool("me", Some("identity"))]),
    })
}

fn head() -> RequestHead {
    RequestHead {
        http_method: "POST".to_string(),
        content_type: Some("application/json; charset=utf-8".to_string()),
        cache_control: None,
        principal: None,
        session: None,
    }
}

fn fresh() -> RequestHead {
    RequestHead { cache_control: Some("max-age=0, no-cache".to_string()), ..head() }
}

fn user(name: &str) -> RequestHead {
    RequestHead { principal: Some(name.to_string()), ..head() }
}

/// Requests and responses against a store in memory.
struct Gateway<S: CacheStore> {
    policy: Policy,
    store: S,
    rows: HashMap<String, CachedEntry>,
}

impl<S: CacheStore> Gateway<S> {
    fn new(store: S) -> Self {
        Gateway { policy: policy(), store, rows: HashMap::new() }
    }

    fn get(&mut self, key: &str, now: u64) -> Option<CachedEntry> {
        let row = match self.rows.get(key) {
            Some(entry) => Row::Entry(entry.clone()),
            None => Row::Missing,
        };
        let reading = self.store.get(row, now);
        if reading.evict {
            self.rows.remove(key);
        }
        reading.entry
    }

    fn request(&mut self, head: &RequestHead, body: &str, now: u64) -> Result<Answer, MissCtx> {
        let mut step = start(&self.policy, head, body.as_bytes());
        loop {
            step = match step {
                Step::Forward(ctx) => return Err(ctx),
                Step::Answer(answer) => return Ok(answer),
                Step::ReadMarker { key, pending } => after_marker(&self.get(&key, now), pending),
                Step::ReadEntry(pending) => {
                    let entry = self.get(&pending.key, now);
                    after_entry(&entry, pending)
                }
            };
        }
    }

    fn response(&mut self, ctx: &MissCtx, body: &str, now: u64) -> &'static str {
        let plan = plan_response(ctx, body.as_bytes(), now);
        for (kind, writes) in [(Written::Mark, plan.marks), (Written::Response, plan.entries)] {
            for (key, entry) in writes {
                if self.store.put(kind) == WriteMode::Always || !self.rows.contains_key(&key) {
                    self.rows.insert(key, entry);
                }
            }
        }
        plan.disposition.header_value()
    }
}

fn list(id: u32) -> String {
    format!(r#"{{"jsonrpc":"2.0","id":{id},"method":"tools/list","params":{{}}}}"#)
}

fn call(id: u32, tool: &str, rest: &str) -> String {
    format!(
        r#"{{"jsonrpc":"2.0","id":{id},"method":"tools/call","params":{{"name":"{tool}"{rest}}}}}"#
    )
}

fn text(answer: Answer) -> String {
    String::from_utf8(answer.body).unwrap()
}

#[test]
fn discovery_is_a_miss_and_then_a_hit() {
    let mut g = Gateway::new(LocalStore::new(()));
    let ctx = g.request(&head(), &list(1), 1000).unwrap_err();
    assert_eq!(ctx.disposition, Disposition::Miss);
    assert_eq!(ctx.ttl, 60);
    assert_eq!(ctx.method, "tools/list");
    assert_eq!(g.response(&ctx, r#"{"jsonrpc":"2.0","id":1,"result":{"tools":[]}}"#, 1000), "miss");
    let answer = g.request(&head(), &list(2), 1059).unwrap();
    assert_eq!(answer.status, 200);
    assert_eq!(
        answer.headers,
        vec![
            ("content-type".to_string(), "application/json".to_string()),
            ("x-mcp-cache".to_string(), "hit".to_string()),
        ]
    );
    assert_eq!(text(answer), r#"{"id":2,"jsonrpc":"2.0","result":{"tools":[]}}"#);
    assert!(g.request(&head(), &list(3), 1060).is_err());
    assert!(g.rows.is_empty());
}

#[test]
fn tool_call_is_answered_whatever_the_order_of_members() {
    let mut g = Gateway::new(GossipStore::new(()));
    let ctx = g.request(&head(), &call(1, "search", r#","q":{"a":1,"b":2}"#), 5).unwrap_err();
    let framed = "event: message\ndata: {\"jsonrpc\":\"2.0\",\"id\":1,\"result\":7}\n\n";
    assert_eq!(g.response(&ctx, framed, 5), "miss");
    let answer = g.request(&head(), &call(9, "search", r#","q":{"b":2,"a":1}"#), 6).unwrap();
    assert_eq!(text(answer), r#"{"id":9,"jsonrpc":"2.0","result":7}"#);
    assert!(g.request(&head(), &call(9, "search", r#","q":{"b":1,"a":2}"#), 6).is_err());
}

#[test]
fn other_traffic_is_bypassed() {
    let mut g = Gateway::new(LocalStore::new(()));
    let bypassed = |r: Result<Answer, MissCtx>, method: &str| {
        let ctx = r.unwrap_err();
        assert_eq!(ctx.disposition, Disposition::Bypass);
        assert_eq!(ctx.key, None);
        assert_eq!(ctx.ttl, 0);
        assert_eq!(ctx.method, method);
    };
    let get = RequestHead { http_method: "GET".to_string(), ..head() };
    bypassed(g.request(&get, &list(1), 1), "");
    let plain = RequestHead { content_type: Some("text/plain".to_string()), ..head() };
    bypassed(g.request(&plain, &list(1), 1), "");
    let bare = RequestHead { content_type: None, ..head() };
    bypassed(g.request(&bare, &list(1), 1), "");
    bypassed(g.request(&head(), r#"{"kind":"not-jsonrpc"}"#, 1), "");
    bypassed(g.request(&head(), "oops", 1), "");
    bypassed(g.request(&head(), r#"{"jsonrpc":"2.0","id":1,"method":"initialize"}"#, 1), "initialize");
    bypassed(g.request(&head(), &call(1, "other", ""), 1), "tools/call");
    bypassed(g.request(&head(), &call(1, "me", ""), 1), "tools/call");
}

#[test]
fn messages_without_an_id_are_bypassed() {
    let mut g = Gateway::new(LocalStore::new(()));
    let ctx = g.request(&head(), &list(1), 1).unwrap_err();
    g.response(&ctx, r#"{"id":1,"result":{}}"#, 1);
    for head in [head(), fresh()] {
        let ctx = g.request(&head, r#"{"jsonrpc":"2.0","method":"tools/list","params":{}}"#, 2);
        let ctx = ctx.unwrap_err();
        assert_eq!((ctx.disposition, ctx.key), (Disposition::Bypass, None));
        assert_eq!(ctx.method, "tools/list");
    }
    let null = r#"{"jsonrpc":"2.0","id":null,"method":"tools/list","params":{}}"#;
    assert_eq!(text(g.request(&head(), null, 2).unwrap()), r#"{"id":null,"result":{}}"#);
}

#[test]
fn hits_carry_the_id_of_the_request_whatever_it_is() {
    let mut g = Gateway::new(LocalStore::new(()));
    let with_id = |id: &str| {
        format!(r#"{{"jsonrpc":"2.0","id":{id},"method":"tools/list","params":{{}}}}"#)
    };
    let ctx = g.request(&head(), &with_id("1.5"), 1).unwrap_err();
    assert_eq!(ctx.disposition, Disposition::Miss);
    assert_eq!(g.response(&ctx, r#"{"id":1.5,"result":{}}"#, 1), "miss");
    let ids = [
        "-3", "9223372036854775807", "\"x\"", "null", "1.5", "9223372036854775808", "true", "[1]",
        r#"{"a":1,"b":2}"#,
    ];
    for id in ids {
        let answer = g.request(&head(), &with_id(id), 2).unwrap();
        assert_eq!(text(answer), format!(r#"{{"id":{id},"result":{{}}}}"#));
    }
}

#[test]
fn responses_may_arrive_in_any_order() {
    let mut g = Gateway::new(LocalStore::new(()));
    let one = g.request(&head(), &call(1, "search", ""), 1).unwrap_err();
    let two = g.request(&head(), &call(2, "search", ""), 2).unwrap_err();
    g.response(&two, r#"{"id":2,"result":"two"}"#, 3);
    g.response(&one, r#"{"id":1,"result":"one"}"#, 50);
    let answer = g.request(&head(), &call(3, "search", ""), 139).unwrap();
    assert_eq!(text(answer), r#"{"id":3,"result":"one"}"#);
    assert!(g.request(&head(), &call(3, "search", ""), 140).is_err());

    let mut g = Gateway::new(GossipStore::new(()));
    g.response(&two, r#"{"id":2,"result":"two"}"#, 3);
    g.response(&one, r#"{"id":1,"result":"one"}"#, 4);
    let answer = g.request(&head(), &call(3, "search", ""), 5).unwrap();
    assert_eq!(text(answer), r#"{"id":3,"result":"two"}"#);
}

#[test]
fn only_json_is_looked_at() {
    let head_of = |content_type: &str| RequestHead {
        content_type: Some(content_type.to_string()),
        ..head()
    };
    for yes in ["application/json", "Application/JSON", " application/json ;charset=utf-8", "application/json;"] {
        assert!(head_of(yes).is_candidate(), "{yes}");
    }
    for no in ["text/json", "application/json-patch+json", "application/ld+json", "", ";application/json"] {
        assert!(!head_of(no).is_candidate(), "{no}");
    }
}

#[test]
fn shared_entries_answer_every_caller() {
    let mut g = Gateway::new(LocalStore::new(()));
    let other = RequestHead { session: Some("s2".to_string()), ..user("bob") };
    let ctx = g.request(&user("alice"), &list(1), 1).unwrap_err();
    g.response(&ctx, r#"{"id":1,"result":[]}"#, 1);
    assert_eq!(text(g.request(&other, &list(7), 2).unwrap()), r#"{"id":7,"result":[]}"#);
    let ctx = g.request(&user("alice"), &call(1, "search", ""), 1).unwrap_err();
    g.response(&ctx, r#"{"id":1,"result":3}"#, 1);
    assert_eq!(text(g.request(&other, &call(8, "search", ""), 2).unwrap()), r#"{"id":8,"result":3}"#);
}

#[test]
fn callers_are_kept_apart() {
    let mut g = Gateway::new(LocalStore::new(()));
    let ctx = g.request(&user("alice"), &call(1, "me", ""), 1).unwrap_err();
    assert_eq!(g.response(&ctx, r#"{"id":1,"result":"alice"}"#, 1), "miss");
    assert!(g.request(&user("alice"), &call(2, "me", ""), 2).is_ok());
    assert!(g.request(&user("bob"), &call(1, "me", ""), 2).is_err());
    let ctx = g.request(&user("bob"), &call(3, "me", ""), 2).unwrap_err();
    assert_eq!(ctx.disposition, Disposition::Miss);
}

#[test]
fn fresh_answers_are_fetched_and_kept() {
    let mut g = Gateway::new(LocalStore::new(()));
    for id in 1..=2 {
        let ctx = g.request(&fresh(), &list(id), 1).unwrap_err();
        assert_eq!(ctx.disposition, Disposition::Bypass);
        assert!(ctx.key.is_some());
        let body = format!(r#"{{"id":{id},"result":{id}}}"#);
        assert_eq!(g.response(&ctx, &body, 1), "bypass");
    }
    assert_eq!(text(g.request(&head(), &list(5), 2).unwrap()), r#"{"id":5,"result":2}"#);
    let ctx = g.request(&fresh(), &call(1, "other", ""), 1).unwrap_err();
    assert_eq!(ctx.key, None);
}

#[test]
fn only_successes_are_kept() {
    let mut g = Gateway::new(LocalStore::new(()));
    let ctx = g.request(&head(), &list(1), 1).unwrap_err();
    assert_eq!(g.response(&ctx, r#"{"id":1,"error":{"code":1}}"#, 1), "miss");
    assert_eq!(g.response(&ctx, r#"{"id":1,"result":{"isError":true}}"#, 1), "miss");
    let asks = "data: {\"id\":9,\"method\":\"sampling/createMessage\"}\n\ndata: {\"id\":1,\"result\":1}\n\n";
    assert_eq!(g.response(&ctx, asks, 1), "miss");
    assert_eq!(g.response(&ctx, "<html>", 1), "bypass");
    assert_eq!(g.response(&ctx, "", 1), "bypass");
    assert!(g.rows.is_empty());
}

const TOOLS: &str = r#"{"id":1,"result":{"tools":[
    {"name":"search","annotations":{"destructiveHint":true}},
    {"name":"me","annotations":{"readOnlyHint":true}}]}}"#;

#[test]
fn unsafe_tools_are_bypassed_while_they_are_marked() {
    let mut g = Gateway::new(LocalStore::new(()));
    let ctx = g.request(&head(), &list(1), 100).unwrap_err();
    assert_eq!(g.response(&ctx, TOOLS, 100), "miss");
    assert_eq!(g.rows.len(), 2);
    let ctx = g.request(&head(), &call(1, "search", ""), 399).unwrap_err();
    assert_eq!((ctx.disposition, ctx.key), (Disposition::Bypass, None));
    let ctx = g.request(&head(), &call(1, "search", ""), 400).unwrap_err();
    assert_eq!(ctx.disposition, Disposition::Miss);
    let ctx = g.request(&user("u"), &call(1, "me", ""), 101).unwrap_err();
    assert_eq!(ctx.disposition, Disposition::Miss);
}

#[test]
fn tools_are_observed_even_where_discovery_is_not_cached() {
    let ctx = MissCtx::bypass("tools/list".to_string());
    assert!(ctx.needs_body());
    let plan = plan_response(&ctx, TOOLS.as_bytes(), 100);
    assert_eq!(plan.disposition, Disposition::Bypass);
    let mark = CachedEntry { written_at: 100, valid_until: 400, body: b"1".to_vec() };
    assert_eq!(plan.marks, vec![("ann:unsafe:search".to_string(), mark)]);
    assert!(plan.entries.is_empty());
}

#[test]
fn bodies_of_other_bypassed_responses_do_not_matter() {
    let ctx = MissCtx::bypass("initialize".to_string());
    assert!(!ctx.needs_body());
    let plan = plan_response(&ctx, b"oops", 1);
    assert_eq!(plan.disposition, Disposition::Bypass);
    assert!(plan.marks.is_empty() && plan.entries.is_empty());
}

#[test]
fn kept_bodies_that_are_no_objects_are_a_miss() {
    let p = policy();
    let json = parse_json(list(4).as_bytes()).unwrap();
    let pending = match start_from_json(&p, &head(), &json) {
        Step::ReadEntry(pending) => pending,
        other => panic!("{other:?}"),
    };
    let entry = CachedEntry { written_at: 1, valid_until: 2, body: b"[]".to_vec() };
    match after_entry(&Some(entry), pending) {
        Step::Forward(ctx) => assert_eq!(ctx.disposition, Disposition::Miss),
        other => panic!("{other:?}"),
    }
}

#[test]
fn header_values() {
    assert_eq!(HEADER, "x-mcp-cache");
    assert_eq!(Disposition::Miss.header_value(), "miss");
    assert_eq!(Disposition::Bypass.header_value(), "bypass");
}
