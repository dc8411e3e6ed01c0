//! Requests, responses and event streams.

use mcp_response_cache_policy::json::Json;
use mcp_response_cache_policy::mcp::{
    classify_event, collapse, event_from_json, extract_cacheable_json, is_cacheable_response,
    is_discovery_method, is_notification, json_is_success, parse_request, reads_as_json_rpc,
    request_from_json, restamp_id, restamp_json, restamp_value, safety_from_json, tool_safety_from_list,
    RequestId, RpcEvent, TOOLS_CALL, TOOLS_LIST,
};
use mcp_response_cache_policy::sse::{events, lines, looks_like_sse};
use mcp_response_cache_policy::wire::{json_to_string, parse_json};
use serde_json::Value;

#[test]
fn parses_tools_list() {
    let body = br#"{"jsonrpc":"2.0","id":1,"method":"tools/list","params":{}}"#;
    let req = parse_request(body).expect("must parse");
    assert_eq!(req.id, RequestId::Number(1));
    assert_eq!(req.method, TOOLS_LIST);
    assert!(req.tool_name.is_none());
    assert!(is_discovery_method(&req.method));
}

#[test]
fn parses_tools_call_with_name() {
    let body = br#"{"jsonrpc":"2.0","id":"a","method":"tools/call","params":{"name":"search"}}"#;
    let req = parse_request(body).expect("must parse");
    assert_eq!(req.id, RequestId::String("a".into()));
    assert_eq!(req.method, TOOLS_CALL);
    assert_eq!(req.tool_name.as_deref(), Some("search"));
    assert!(!is_discovery_method(&req.method));
}

#[test]
fn notification_detected() {
    let body = br#"{"jsonrpc":"2.0","method":"notifications/initialized"}"#;
    let req = parse_request(body).expect("must parse");
    assert!(is_notification(&req.method));
    assert_eq!(req.id, RequestId::Null);
}

#[test]
fn rejects_non_jsonrpc() {
    assert!(parse_request(br#"{"foo":"bar"}"#).is_none());
    assert!(parse_request(b"not json").is_none());
}

#[test]
fn cacheable_response_accepts_result() {
    let ok = br#"{"jsonrpc":"2.0","id":1,"result":{"tools":[]}}"#;
    assert!(is_cacheable_response(ok));
}

#[test]
fn extract_cacheable_json_from_sse_event() {
    let body =
        b"event: message\ndata: {\"jsonrpc\":\"2.0\",\"id\":3,\"result\":{\"ok\":true}}\n\n";
    let json = extract_cacheable_json(body).expect("single event must extract");
    let v: Value = serde_json::from_slice(&json).unwrap();
    assert_eq!(v["id"], Value::from(3));
    assert_eq!(v["result"]["ok"], Value::from(true));
    assert!(is_cacheable_response(&json));
}

#[test]
fn extract_cacheable_json_passes_bare_json_through() {
    let body = br#"{"jsonrpc":"2.0","id":1,"result":{"tools":[]}}"#;
    let json = extract_cacheable_json(body).expect("bare json object passes through");
    assert_eq!(json, body.to_vec());
}

#[test]
fn extract_cacheable_json_joins_multiline_data() {
    let body =
        b"event: message\ndata: {\"jsonrpc\":\"2.0\",\"id\":1,\ndata: \"result\":{\"v\":2}}\n\n";
    let json = extract_cacheable_json(body).expect("multiline single event extracts");
    let v: Value = serde_json::from_slice(&json).unwrap();
    assert_eq!(v["result"]["v"], Value::from(2));
}

#[test]
fn extract_cacheable_json_multi_event_progress_then_result() {
    let body = b"event: message\ndata: {\"jsonrpc\":\"2.0\",\"method\":\"notifications/progress\",\"params\":{\"progress\":0.3}}\n\nevent: message\ndata: {\"jsonrpc\":\"2.0\",\"method\":\"notifications/progress\",\"params\":{\"progress\":0.7}}\n\nevent: message\ndata: {\"jsonrpc\":\"2.0\",\"id\":1,\"result\":{\"ok\":true}}\n\n";
    let json = extract_cacheable_json(body).expect("progress+result stream extracts terminal");
    let v: Value = serde_json::from_slice(&json).unwrap();
    assert_eq!(v["id"], Value::from(1));
    assert_eq!(v["result"]["ok"], Value::from(true));
    assert!(is_cacheable_response(&json));
}

#[test]
fn extract_cacheable_json_rejects_server_request_in_stream() {
    let body = b"event: message\ndata: {\"jsonrpc\":\"2.0\",\"id\":99,\"method\":\"sampling/createMessage\",\"params\":{}}\n\nevent: message\ndata: {\"jsonrpc\":\"2.0\",\"id\":1,\"result\":{\"ok\":true}}\n\n";
    assert!(extract_cacheable_json(body).is_none());
}

#[test]
fn extract_cacheable_json_rejects_multiple_results() {
    let body = b"event: message\ndata: {\"jsonrpc\":\"2.0\",\"id\":1,\"result\":{\"a\":1}}\n\nevent: message\ndata: {\"jsonrpc\":\"2.0\",\"id\":2,\"result\":{\"b\":2}}\n\n";
    assert!(extract_cacheable_json(body).is_none());
}

#[test]
fn extract_cacheable_json_rejects_notifications_only() {
    let body = b"event: message\ndata: {\"jsonrpc\":\"2.0\",\"method\":\"notifications/progress\",\"params\":{\"progress\":0.5}}\n\n";
    assert!(extract_cacheable_json(body).is_none());
}

#[test]
fn extract_cacheable_json_rejects_non_object_payload() {
    let arr = b"event: message\ndata: [1,2,3]\n\n";
    let scalar = b"event: message\ndata: 42\n\n";
    let garbage = b"event: message\ndata: not json\n\n";
    assert!(extract_cacheable_json(arr).is_none());
    assert!(extract_cacheable_json(scalar).is_none());
    assert!(extract_cacheable_json(garbage).is_none());
}

#[test]
fn cacheable_response_rejects_error_and_iserror() {
    let err = br#"{"jsonrpc":"2.0","id":1,"error":{"code":-32601,"message":"x"}}"#;
    let tool_err = br#"{"jsonrpc":"2.0","id":1,"result":{"isError":true,"content":[]}}"#;
    let no_result = br#"{"jsonrpc":"2.0","id":1}"#;
    assert!(!is_cacheable_response(err));
    assert!(!is_cacheable_response(tool_err));
    assert!(!is_cacheable_response(no_result));
}

#[test]
fn restamp_replaces_id() {
    let stored = br#"{"jsonrpc":"2.0","id":1,"result":{"ok":true}}"#;
    let out = restamp_id(stored, &RequestId::String("live".into())).unwrap();
    let v: Value = serde_json::from_slice(&out).unwrap();
    assert_eq!(v["id"], Value::from("live"));
    assert_eq!(v["result"]["ok"], Value::from(true));
}

#[test]
fn restamp_null_id() {
    let stored = br#"{"jsonrpc":"2.0","id":7,"result":{}}"#;
    let out = restamp_id(stored, &RequestId::Null).unwrap();
    let v: Value = serde_json::from_slice(&out).unwrap();
    assert_eq!(v["id"], Value::Null);
}

#[test]
fn tool_safety_extraction() {
    let body = br#"{"jsonrpc":"2.0","id":1,"result":{"tools":[
            {"name":"safe","annotations":{"readOnlyHint":true}},
            {"name":"writer","annotations":{"readOnlyHint":true,"destructiveHint":true}},
            {"name":"unknown"}
        ]}}"#;
    let map: std::collections::HashMap<_, _> = tool_safety_from_list(body).into_iter().collect();
    assert_eq!(map.get("safe"), Some(&true));
    assert_eq!(map.get("writer"), Some(&false));
    assert_eq!(map.get("unknown"), Some(&false));
}

fn text(s: &str) -> Json {
    Json::Text(s.to_string())
}

fn object(members: Vec<(&str, Json)>) -> Json {
    Json::Object(members.into_iter().map(|(k, v)| (k.to_string(), v)).collect())
}

#[test]
fn methods_are_told_apart() {
    for method in ["tools/list", "resources/list", "prompts/list"] {
        assert!(is_discovery_method(method));
        assert!(!is_notification(method));
    }
    assert!(!is_discovery_method("tools/list "));
    assert!(!is_discovery_method(""));
    assert!(is_notification("notifications/"));
    assert!(!is_notification("notifications"));
    assert!(!is_notification("x/notifications/"));
}

#[test]
fn request_needs_the_version_and_a_method() {
    assert!(parse_request(br#"{"jsonrpc":"1.0","method":"tools/list"}"#).is_none());
    assert!(parse_request(br#"{"jsonrpc":2.0,"method":"tools/list"}"#).is_none());
    assert!(parse_request(br#"{"jsonrpc":"2.0"}"#).is_none());
    assert!(parse_request(br#"{"jsonrpc":"2.0","method":""}"#).is_none());
    assert!(parse_request(br#"{"jsonrpc":"2.0","method":7}"#).is_none());
    assert!(parse_request(br#"[{"jsonrpc":"2.0","method":"tools/list"}]"#).is_none());
    assert!(parse_request(b"").is_none());
}

#[test]
fn ids_outside_an_i64_count_as_null() {
    let id = |id: &str| {
        let body = format!(r#"{{"jsonrpc":"2.0","id":{id},"method":"m"}}"#);
        parse_request(body.as_bytes()).expect("must parse").id
    };
    assert_eq!(id("9223372036854775807"), RequestId::Number(i64::MAX));
    assert_eq!(id("9223372036854775808"), RequestId::Null);
    assert_eq!(id("-9223372036854775808"), RequestId::Number(i64::MIN));
    assert_eq!(id("-1"), RequestId::Number(-1));
    assert_eq!(id("1.5"), RequestId::Null);
    assert_eq!(id("1e3"), RequestId::Null);
    assert_eq!(id("true"), RequestId::Null);
    assert_eq!(id("null"), RequestId::Null);
    assert_eq!(id("\"\""), RequestId::String(String::new()));
}

#[test]
fn only_tool_calls_name_a_tool() {
    let tool = |body: &str| parse_request(body.as_bytes()).expect("must parse").tool_name;
    let call = r#"{"jsonrpc":"2.0","method":"tools/call","params":"#;
    assert_eq!(tool(&format!("{call}{{\"name\":\"a\"}}}}")), Some("a".to_string()));
    assert_eq!(tool(&format!("{call}{{\"name\":\"\"}}}}")), None);
    assert_eq!(tool(&format!("{call}{{\"name\":3}}}}")), None);
    assert_eq!(tool(&format!("{call}[\"name\"]}}")), None);
    assert_eq!(tool(r#"{"jsonrpc":"2.0","method":"tools/call"}"#), None);
    assert_eq!(tool(r#"{"jsonrpc":"2.0","method":"x","params":{"name":"a"}}"#), None);
}

#[test]
fn request_is_read_from_a_tree() {
    let json = object(vec![
        ("jsonrpc", text("2.0")),
        ("id", Json::Negative(-5)),
        ("method", text("tools/call")),
        ("params", object(vec![("name", text("t"))])),
    ]);
    let req = request_from_json(&json).expect("a request");
    assert_eq!(req.id, RequestId::Number(-5));
    assert_eq!(req.method, "tools/call");
    assert_eq!(req.tool_name.as_deref(), Some("t"));
    assert!(request_from_json(&Json::Null).is_none());
}

#[test]
fn last_of_two_members_of_one_name_holds() {
    let req = parse_request(br#"{"jsonrpc":"2.0","id":1,"method":"a","id":2,"method":"b"}"#)
        .expect("must parse");
    assert_eq!(req.id, RequestId::Number(2));
    assert_eq!(req.method, "b");
}

#[test]
fn events_are_classified() {
    let terminal = br#"{"id":1,"result":null}"#;
    assert_eq!(classify_event(terminal), RpcEvent::Terminal(terminal.to_vec()));
    assert_eq!(classify_event(br#"{"method":"m"}"#), RpcEvent::Notification);
    assert_eq!(classify_event(br#"{"method":"m","id":null}"#), RpcEvent::Notification);
    assert_eq!(classify_event(br#"{"method":"m","id":0}"#), RpcEvent::Unsafe);
    assert_eq!(classify_event(br#"{"id":1,"error":{}}"#), RpcEvent::Unsafe);
    assert_eq!(classify_event(br#"{"id":1,"result":1,"error":null}"#), RpcEvent::Unsafe);
    assert_eq!(classify_event(br#"{"id":null,"result":1}"#), RpcEvent::Unsafe);
    assert_eq!(classify_event(br#"{"id":1}"#), RpcEvent::Unsafe);
    assert_eq!(classify_event(b"{}"), RpcEvent::Unsafe);
    assert_eq!(classify_event(b"nope"), RpcEvent::Unsafe);
    let json = object(vec![("id", Json::Unsigned(1)), ("result", Json::Null)]);
    assert_eq!(event_from_json(&json, b"xyz"), RpcEvent::Terminal(b"xyz".to_vec()));
}

#[test]
fn streams_collapse_to_their_one_response() {
    let one = || RpcEvent::Terminal(b"1".to_vec());
    assert_eq!(collapse(&vec![one()]), Some(b"1".to_vec()));
    assert_eq!(collapse(&vec![one(), RpcEvent::Notification]), Some(b"1".to_vec()));
    assert_eq!(
        collapse(&vec![RpcEvent::Notification, one(), RpcEvent::Notification]),
        Some(b"1".to_vec())
    );
    assert_eq!(collapse(&vec![]), None);
    assert_eq!(collapse(&vec![RpcEvent::Notification]), None);
    assert_eq!(collapse(&vec![one(), one()]), None);
    assert_eq!(collapse(&vec![one(), RpcEvent::Unsafe]), None);
    assert_eq!(collapse(&vec![RpcEvent::Unsafe, one()]), None);
}

#[test]
fn lines_end_at_newlines() {
    let split = |s: &str| -> Vec<String> {
        lines(s.as_bytes()).into_iter().map(|l| String::from_utf8(l).unwrap()).collect()
    };
    for s in ["", "\n", "a", "a\n", "a\n\nb", "a\r\nb\r", "\r\n\r\n", "a\rb\n", "\r\r\n", "é\n\u{85}x"] {
        let expected: Vec<String> = s.lines().map(String::from).collect();
        assert_eq!(split(s), expected, "{s:?}");
    }
}

#[test]
fn payloads_are_the_data_of_events() {
    let payloads = |s: &str| -> Vec<String> {
        events(&lines(s.as_bytes())).into_iter().map(|l| String::from_utf8(l).unwrap()).collect()
    };
    assert_eq!(payloads("data: a\n\ndata:b\n\n"), vec!["a", "b"]);
    assert_eq!(payloads("data:  a\ndata:\ndata: c"), vec![" a\n\nc"]);
    assert_eq!(payloads(": note\nid: 7\nretry: 1\n\n\n"), Vec::<String>::new());
    assert_eq!(payloads("data: a\nid: 7\ndata: b\r\n\r\ndata: c"), vec!["a\nb", "c"]);
    assert_eq!(payloads(" data: a\nDATA: b\n"), Vec::<String>::new());
    assert!(looks_like_sse(&lines(b"x\nevent:\n")));
    assert!(looks_like_sse(&lines(b"data:")));
    assert!(!looks_like_sse(&lines(b" data:\nid: 1\n: data:\n")));
}

#[test]
fn bodies_that_are_no_text_carry_nothing() {
    assert!(extract_cacheable_json(&[0xff, 0xfe]).is_none());
    assert!(extract_cacheable_json(b"data: {\"id\":1,\"result\":1}\n\n\xff").is_none());
    assert!(extract_cacheable_json(b"[1]").is_none());
    assert!(extract_cacheable_json(b"").is_none());
    assert_eq!(extract_cacheable_json(b"{}"), Some(b"{}".to_vec()));
}

#[test]
fn unreadable_bodies_are_recognised() {
    assert!(reads_as_json_rpc(b"{}"));
    assert!(!reads_as_json_rpc(b"[]"));
    assert!(!reads_as_json_rpc(b"oops"));
    assert!(!reads_as_json_rpc(&[0xff]));
    assert!(reads_as_json_rpc(b"data: {\"id\":1,\"method\":\"m\"}\n\n"));
    assert!(reads_as_json_rpc(b"data: {}\n\ndata: {}\n\n"));
    assert!(!reads_as_json_rpc(b"data: {}\n\ndata: 1\n\n"));
    assert!(!reads_as_json_rpc(b"event: ping\n\n"));
}

#[test]
fn success_is_told_from_a_tree() {
    let result = |r: Json| object(vec![("id", Json::Unsigned(1)), ("result", r)]);
    assert!(json_is_success(&result(Json::Null)));
    assert!(json_is_success(&result(object(vec![("isError", Json::Bool(false))]))));
    assert!(json_is_success(&result(object(vec![("isError", text("true"))]))));
    assert!(!json_is_success(&result(object(vec![("isError", Json::Bool(true))]))));
    assert!(!json_is_success(&object(vec![("result", Json::Null), ("error", Json::Null)])));
    assert!(!json_is_success(&Json::Array(vec![])));
    assert!(!is_cacheable_response(b"nope"));
    assert!(!is_cacheable_response(b"[]"));
}

#[test]
fn restamp_keeps_everything_else() {
    let stored = r#"{"result":{"b":[1,-2,"é"],"a":1.5},"jsonrpc":"2.0"}"#.as_bytes();
    let out = restamp_id(stored, &RequestId::Number(-7)).unwrap();
    assert_eq!(
        String::from_utf8(out).unwrap(),
        r#"{"id":-7,"jsonrpc":"2.0","result":{"a":1.5,"b":[1,-2,"é"]}}"#
    );
    assert!(restamp_id(b"[1]", &RequestId::Null).is_none());
    assert!(restamp_id(b"{", &RequestId::Null).is_none());
}

#[test]
fn last_restamp_holds() {
    let stored = br#"{"id":1,"result":{}}"#;
    let once = restamp_id(stored, &RequestId::Number(2)).unwrap();
    let twice = restamp_id(&once, &RequestId::String("x".into())).unwrap();
    assert_eq!(twice, restamp_id(stored, &RequestId::String("x".into())).unwrap());
    assert!(is_cacheable_response(&twice));
    let stamped = restamp_json(object(vec![("id", Json::Null)]), Json::Unsigned(3)).unwrap();
    assert_eq!(json_to_string(&stamped), r#"{"id":3}"#);
    assert!(restamp_json(Json::Bool(true), Json::Null).is_none());
}

#[test]
fn tools_without_a_name_are_left_out() {
    let json = parse_json(
        br#"{"result":{"tools":[{"name":"a","annotations":{"readOnlyHint":true}},{"x":1},7,
            {"name":3},{"name":"","annotations":{"readOnlyHint":"true"}},
            {"name":"a","annotations":{"readOnlyHint":true,"destructiveHint":false}}]}}"#,
    )
    .unwrap();
    assert_eq!(
        safety_from_json(&json),
        vec![("a".to_string(), true), (String::new(), false), ("a".to_string(), true)]
    );
    assert_eq!(tool_safety_from_list(b"{"), vec![]);
    assert_eq!(tool_safety_from_list(br#"{"result":{"tools":{}}}"#), vec![]);
    assert_eq!(tool_safety_from_list(br#"{"tools":[{"name":"a"}]}"#), vec![]);
}

#[test]
fn json_is_read_and_written() {
    let deep = |n: usize| [vec![b'['; n], vec![b']'; n]].concat();
    assert!(parse_json(&deep(127)).is_some());
    assert!(parse_json(&deep(128)).is_none());
    let text = r#" {"b":[true,null,18446744073709551615,-3],"a":"é"} "#;
    let json = parse_json(text.as_bytes()).unwrap();
    assert_eq!(json_to_string(&json), r#"{"a":"é","b":[true,null,18446744073709551615,-3]}"#);
    assert_eq!(parse_json(json_to_string(&json).as_bytes()), Some(json));
    assert!(parse_json(b"{} {}").is_none());
}

#[test]
fn extraction_is_idempotent() {
    let bodies: [&[u8]; 3] = [
        b"{\n \"id\": 1,\r\n\"result\": {}}",
        b"data: {\"id\":1,\ndata:\"result\":\"data:\"}\n\n",
        b"event: message\ndata: {\"method\":\"m\"}\n\ndata: {\"id\":\"event:\",\"result\":[]}",
    ];
    for body in bodies {
        let once = extract_cacheable_json(body).expect("a message");
        assert_eq!(extract_cacheable_json(&once), Some(once.clone()));
    }
    assert_eq!(parse_json(b"{\"a\":\"x\ndata: y\"}"), None);
}

#[test]
fn any_value_can_be_an_id() {
    let stored = br#"{"id":1,"result":{}}"#;
    let stamped = |id: &Json| String::from_utf8(restamp_value(stored, id).unwrap()).unwrap();
    assert_eq!(stamped(&parse_json(b"1.5").unwrap()), r#"{"id":1.5,"result":{}}"#);
    assert_eq!(stamped(&Json::Bool(true)), r#"{"id":true,"result":{}}"#);
    let nested = object(vec![("b", Json::Array(vec![Json::Null])), ("a", Json::Negative(-1))]);
    assert_eq!(stamped(&nested), r#"{"id":{"a":-1,"b":[null]},"result":{}}"#);
    assert_eq!(nested.copied(), nested);
    assert!(restamp_value(b"3", &Json::Null).is_none());
}
