//! Cache keys.

use mcp_response_cache_policy::json::Json;
use mcp_response_cache_policy::key::{
    base_key, cache_key, canonicalize, partitioned_key, CacheScope, Identity, PartitionSource,
};
use mcp_response_cache_policy::wire::parse_json;

fn object(members: Vec<(&str, Json)>) -> Json {
    Json::Object(members.into_iter().map(|(k, v)| (k.to_string(), v)).collect())
}

fn number(n: u64) -> Json {
    Json::Unsigned(n)
}

#[test]
fn canonicalize_is_order_independent() {
    let a = object(vec![
        ("b", number(1)),
        ("a", number(2)),
        ("nested", object(vec![("y", number(1)), ("x", number(2))])),
    ]);
    let b = object(vec![
        ("a", number(2)),
        ("b", number(1)),
        ("nested", object(vec![("x", number(2)), ("y", number(1))])),
    ]);
    assert_eq!(canonicalize(&a), canonicalize(&b));
}

#[test]
fn canonicalize_distinguishes_values() {
    assert_ne!(
        canonicalize(&object(vec![("a", number(1))])),
        canonicalize(&object(vec![("a", number(2))]))
    );
}

#[test]
fn shared_key_is_deterministic_and_prefixed() {
    let p = object(vec![("q", Json::Text("hi".to_string()))]);
    let id = Identity { principal: None, session: None };
    let k1 = cache_key("tools/call", &p, CacheScope::Shared, &id).unwrap();
    let k2 = cache_key("tools/call", &p, CacheScope::Shared, &id).unwrap();
    assert_eq!(k1, k2);
    assert!(k1.starts_with("tools/call:"));
}

#[test]
fn identity_key_partitions_by_principal() {
    let p = object(vec![]);
    let a = Identity { principal: Some("alice"), session: None };
    let b = Identity { principal: Some("bob"), session: None };
    let ka = cache_key("tools/call", &p, CacheScope::Identity, &a).unwrap();
    let kb = cache_key("tools/call", &p, CacheScope::Identity, &b).unwrap();
    assert_ne!(ka, kb);
}

#[test]
fn identity_key_absent_when_no_principal_or_session() {
    let id = Identity { principal: None, session: None };
    assert!(cache_key("tools/call", &object(vec![]), CacheScope::Identity, &id).is_none());
}

#[test]
fn identity_key_present_with_only_session() {
    let id = Identity { principal: None, session: Some("s1") };
    assert!(cache_key("tools/call", &object(vec![]), CacheScope::Identity, &id).is_some());
}

const ALICE: &str = "2bd806c97f0e00af1a1fc3328fa763a9269723c8db8fac4f93af71db186d6e90";
const S1: &str = "e8bc163c82eee18733288c7d4ac636db3a6deb013ef2d37b68322be20edc45cc";
const NOTHING: &str = "e3b0c44298fc1c149afbf4c8996fb92427ae41e4649b934ca495991b7852b855";

#[test]
fn keys_have_their_exact_form() {
    let list = "tools/list:65b8085b45c8067d4df00b3b94253cbc7744eee6e73b2f1411f0338c69fb80d2";
    let empty = object(vec![]);
    assert_eq!(base_key("tools/list", &empty), list);
    let key = |principal, session| {
        cache_key("tools/list", &empty, CacheScope::Identity, &Identity { principal, session })
    };
    assert_eq!(key(Some("alice"), Some("s1")), Some(format!("{list}:{ALICE}:{S1}")));
    assert_eq!(key(Some("alice"), None), Some(format!("{list}:{ALICE}:{NOTHING}")));
    assert_eq!(key(None, Some("s1")), Some(format!("{list}:{NOTHING}:{S1}")));
    assert_eq!(key(Some(""), None), Some(format!("{list}:{NOTHING}:{NOTHING}")));
}

#[test]
fn parameters_enter_the_key_in_canonical_form() {
    let params = object(vec![
        ("b", object(vec![("y", Json::Text("é".to_string())), ("x", Json::Null)])),
        ("a", Json::Array(vec![number(3), number(1)])),
    ]);
    assert_eq!(canonicalize(&params), r#"{"a":[3,1],"b":{"x":null,"y":"é"}}"#);
    assert_eq!(
        base_key("tools/call", &params),
        "tools/call:d732ea81759f210ef366b0ec3b3ed50a23a48c2c3a396c4832d212900d535e55"
    );
    assert_eq!(
        base_key("tools/call", &Json::Null),
        "tools/call:6d7d9966b366b0f65b4650c895eae9afc8bb44df5c7b110e7c944d6f8935f217"
    );
}

#[test]
fn arrays_keep_their_order() {
    let a = Json::Array(vec![number(1), number(2)]);
    let b = Json::Array(vec![number(2), number(1)]);
    assert_eq!(canonicalize(&a), "[1,2]");
    assert_ne!(canonicalize(&a), canonicalize(&b));
}

#[test]
fn shared_key_disregards_the_caller() {
    let p = object(vec![]);
    let nobody = Identity { principal: None, session: None };
    let alice = Identity { principal: Some("alice"), session: Some("s1") };
    assert_eq!(
        cache_key("m", &p, CacheScope::Shared, &nobody),
        cache_key("m", &p, CacheScope::Shared, &alice)
    );
}

#[test]
fn parts_are_hashed_in_order() {
    let p = object(vec![]);
    let base = base_key("m", &p);
    let parts = |list: &[&str]| list.iter().map(|s| s.to_string()).collect::<Vec<String>>();
    assert_eq!(partitioned_key("m", &p, &parts(&[])), None);
    assert_eq!(partitioned_key("m", &p, &parts(&["alice"])), Some(format!("{base}:{ALICE}")));
    assert_eq!(
        partitioned_key("m", &p, &parts(&["s1", "alice", ""])),
        Some(format!("{base}:{S1}:{ALICE}:{NOTHING}"))
    );
}

#[test]
fn scopes_are_read() {
    assert_eq!(CacheScope::parse(Some("identity")), CacheScope::Identity);
    assert_eq!(CacheScope::parse(Some("shared")), CacheScope::Shared);
    assert_eq!(CacheScope::parse(Some("Identity")), CacheScope::Shared);
    assert_eq!(CacheScope::parse(None), CacheScope::Shared);
    assert_eq!(CacheScope::default(), CacheScope::Shared);
}

#[test]
fn partition_sources_are_read() {
    let header = |name: &str| Some(PartitionSource::Header(name.to_string()));
    assert_eq!(PartitionSource::parse(" Principal\t"), Some(PartitionSource::Principal));
    assert_eq!(PartitionSource::parse("SESSION"), Some(PartitionSource::Session));
    assert_eq!(PartitionSource::parse("header:X-Tenant"), header("x-tenant"));
    assert_eq!(PartitionSource::parse(" Header:  X-É\u{a0}"), header("x-É"));
    assert_eq!(PartitionSource::parse("HEADER:a"), header("a"));
    assert_eq!(PartitionSource::parse("header:  "), None);
    assert_eq!(PartitionSource::parse("header"), None);
    assert_eq!(PartitionSource::parse("header :x"), None);
    assert_eq!(PartitionSource::parse(""), None);
    assert_eq!(PartitionSource::parse("principals"), None);
}

#[test]
fn canonical_form_is_its_own_canonical_form() {
    let inner = object(vec![("d", Json::Null), ("c", number(2))]);
    let params = object(vec![("b", number(1)), ("a", inner)]);
    let once = canonicalize(&params);
    let read = parse_json(once.as_bytes()).expect("what is written is read");
    assert_eq!(canonicalize(&read), once);
    assert_eq!(once, r#"{"a":{"c":2,"d":null},"b":1}"#);
}

#[test]
fn callers_are_known_by_hashes_only() {
    let p = object(vec![]);
    let key = |principal, session| {
        cache_key("m", &p, CacheScope::Identity, &Identity { principal, session }).unwrap()
    };
    assert_eq!(key(None, Some("s1")), key(Some(""), Some("s1")));
    assert_ne!(key(Some("a"), Some("b")), key(Some("b"), Some("a")));
    assert_ne!(key(Some("a"), Some("b")), key(Some("a"), Some("c")));
    assert!(!key(Some("alice"), None).contains("alice"));
}

#[test]
fn texts_are_equal_exactly_for_equal_values() {
    let deep = |inner: Json| (0..200).fold(inner, |v, _| Json::Array(vec![v]));
    assert_eq!(canonicalize(&deep(number(1))), canonicalize(&deep(number(1))));
    assert_ne!(canonicalize(&deep(number(1))), canonicalize(&deep(number(2))));
    let pair = |a: &str, b: &str| {
        Json::Array(vec![object(vec![(a, number(1)), (b, number(2))]), Json::Text("1".to_string())])
    };
    assert_ne!(canonicalize(&pair("x", "y")), canonicalize(&pair("y", "x")));
    assert_ne!(canonicalize(&number(1)), canonicalize(&Json::Text("1".to_string())));
    assert_ne!(canonicalize(&Json::Array(vec![])), canonicalize(&object(vec![])));
}
