//! MCP messages: JSON-RPC 2.0 envelopes, their method names, and what a response says about
//! being cached.
//!
//! A response carries no method name, so what is known of the request has to be kept for it.

use crate::json::{
    canonical, canonical_members, field, field_in, get_in, holds_true, is_canonical, is_float_free,
    is_true, items_model, law_canonical_values_stay, law_set_field, lemma_canonical_containers,
    lemma_canonical_kind, lemma_containers, lemma_order_is_unique, lookup, members_model,
    nested_at_most, optional_model, with_field, Json, JsonModel,
};
use crate::sse::{
    begins, byte_strings, data_mark, events, frames, is_framed, is_one_line, law_frames_are_read,
    lines, lines_of, looks_like_sse, stream_events,
};
use crate::text::{is_utf8, occurs_at, optional_text, same_text, starts_with};
use crate::wire::{
    is_bare_text, json_read, json_text, json_to_bytes, parse_json, reads_back, NESTING_LIMIT,
};
use vstd::prelude::*;
use vstd::slice::slice_to_vec;
use vstd::utf8::*;

verus! {

// ---------------------------------------------------------------------------------------------
// Methods
// ---------------------------------------------------------------------------------------------

pub const TOOLS_LIST: &'static str = "tools/list";

pub const RESOURCES_LIST: &'static str = "resources/list";

pub const PROMPTS_LIST: &'static str = "prompts/list";

pub const TOOLS_CALL: &'static str = "tools/call";

/// The method lists what a server offers; its whole result is cached as one.
pub open spec fn is_discovery(method: Seq<char>) -> bool {
    method == TOOLS_LIST@ || method == RESOURCES_LIST@ || method == PROMPTS_LIST@
}

/// The method is that of a notification, which is never answered.
pub open spec fn is_notice(method: Seq<char>) -> bool {
    occurs_at(method, "notifications/"@, 0)
}

/// Whether the method lists what a server offers; its whole result is cached as one.
pub fn is_discovery_method(method: &str) -> (discovery: bool)
    ensures
        discovery == is_discovery(method@),
{
    same_text(method, TOOLS_LIST) || same_text(method, RESOURCES_LIST) || same_text(
        method,
        PROMPTS_LIST,
    )
}

/// Whether the method is that of a notification: it has no `id` and is never answered.
pub fn is_notification(method: &str) -> (notification: bool)
    ensures
        notification == is_notice(method@),
{
    starts_with(method, "notifications/")
}

// ---------------------------------------------------------------------------------------------
// Requests
// ---------------------------------------------------------------------------------------------

/// What a `RequestId` stands for.
pub enum IdModel {
    Number(int),
    Text(Seq<char>),
    Null,
}

/// The id of a JSON-RPC request, kept so that a cached result can be given the id of the request
/// that it answers.
#[derive(Debug, Clone, PartialEq, Eq)]
pub enum RequestId {
    Number(i64),
    String(String),
    Null,
}

impl View for RequestId {
    type V = IdModel;

    open spec fn view(&self) -> IdModel {
        match self {
            RequestId::Number(n) => IdModel::Number(*n as int),
            RequestId::String(s) => IdModel::Text(s@),
            RequestId::Null => IdModel::Null,
        }
    }
}

/// What an `McpRequest` stands for.
pub struct RequestModel {
    pub id: IdModel,
    pub method: Seq<char>,
    pub tool_name: Option<Seq<char>>,
}

/// What the cache has to know of a JSON-RPC request.
#[derive(Debug, Clone, PartialEq, Eq)]
pub struct McpRequest {
    pub id: RequestId,
    pub method: String,
    /// The tool that a `tools/call` names in `params.name`.
    pub tool_name: Option<String>,
}

impl View for McpRequest {
    type V = RequestModel;

    open spec fn view(&self) -> RequestModel {
        RequestModel {
            id: self.id@,
            method: self.method@,
            tool_name: optional_text(self.tool_name),
        }
    }
}

/// The id that a message carries. An id that is neither a text nor an integer that an `i64` holds
/// counts as null, and so does a missing one.
pub open spec fn id_in(found: Option<JsonModel>) -> IdModel {
    match found {
        Some(JsonModel::Int(n)) => if i64::MIN <= n <= i64::MAX {
            IdModel::Number(n)
        } else {
            IdModel::Null
        },
        Some(JsonModel::Text(text)) => IdModel::Text(text),
        _ => IdModel::Null,
    }
}

/// The text under a name, where there is one and it is not empty.
pub open spec fn some_text(found: Option<JsonModel>) -> Option<Seq<char>> {
    match found {
        Some(JsonModel::Text(text)) => if text.len() > 0 {
            Some(text)
        } else {
            None
        },
        _ => None,
    }
}

/// The request that a JSON value is: an object with the version `2.0` and a method that is not
/// empty. Only a `tools/call` names a tool.
pub open spec fn request_in(model: JsonModel) -> Option<RequestModel> {
    match some_text(field(model, "method"@)) {
        Some(method) => if field(model, "jsonrpc"@) == Some(JsonModel::Text("2.0"@)) {
            Some(
                RequestModel {
                    id: id_in(field(model, "id"@)),
                    method,
                    tool_name: if method == TOOLS_CALL@ {
                        some_text(field_in(field(model, "params"@), "name"@))
                    } else {
                        None
                    },
                },
            )
        } else {
            None
        },
        None => None,
    }
}

/// The request that the bytes of a body are.
pub open spec fn request_of(body: Seq<u8>) -> Option<RequestModel> {
    match json_read(body) {
        Some(model) => request_in(model),
        None => None,
    }
}

/// What an optional request stands for.
pub open spec fn optional_request(request: Option<McpRequest>) -> Option<RequestModel> {
    match request {
        Some(r) => Some(r@),
        None => None,
    }
}

/// The id in a message.
fn id_from_json(found: Option<&Json>) -> (id: RequestId)
    ensures
        id@ == id_in(optional_model(found)),
{
    match found {
        Some(Json::Unsigned(n)) => if *n <= i64::MAX as u64 {
            RequestId::Number(*n as i64)
        } else {
            RequestId::Null
        },
        Some(Json::Negative(n)) => RequestId::Number(*n),
        Some(Json::Float(n)) => match n.as_i64() {
            Some(i) => RequestId::Number(i),
            None => RequestId::Null,
        },
        Some(Json::Text(s)) => RequestId::String(s.clone()),
        _ => RequestId::Null,
    }
}

/// The text under a name, where there is one and it is not empty.
fn text_from_json(found: Option<&Json>) -> (text: Option<String>)
    ensures
        optional_text(text) == some_text(optional_model(found)),
{
    match found {
        Some(Json::Text(s)) => if s.as_str().is_empty() {
            None
        } else {
            Some(s.clone())
        },
        _ => None,
    }
}

/// The request that a JSON value is; none where it is no JSON-RPC 2.0 request.
pub fn request_from_json(json: &Json) -> (request: Option<McpRequest>)
    ensures
        optional_request(request) == request_in(json@),
{
    let version: bool = match json.get("jsonrpc") {
        Some(Json::Text(v)) => same_text(v.as_str(), "2.0"),
        _ => false,
    };
    let method: Option<String> = text_from_json(json.get("method"));
    match method {
        Some(method) => if version {
            let tool_name: Option<String> = if same_text(method.as_str(), TOOLS_CALL) {
                text_from_json(get_in(json.get("params"), "name"))
            } else {
                None
            };
            Some(McpRequest { id: id_from_json(json.get("id")), method, tool_name })
        } else {
            None
        },
        None => None,
    }
}

/// Reads a JSON-RPC 2.0 request. A body that is none gives `None`, and is passed on untouched.
pub fn parse_request(body: &[u8]) -> (request: Option<McpRequest>)
    ensures
        optional_request(request) == request_of(body@),
{
    match parse_json(body) {
        Some(json) => request_from_json(&json),
        None => None,
    }
}

// ---------------------------------------------------------------------------------------------
// Events of a response stream
// ---------------------------------------------------------------------------------------------

/// What an `RpcEvent` stands for.
pub enum EventModel {
    Terminal(Seq<u8>),
    Notification,
    Unsafe,
}

/// One JSON-RPC message in an event stream.
#[derive(Debug, PartialEq, Eq)]
pub enum RpcEvent {
    /// A response that reports success, with the bytes of the message.
    Terminal(Vec<u8>),
    /// A notification, which may be dropped when the response is given again.
    Notification,
    /// Anything that forbids reducing the stream to one message: a request of the server, an
    /// error, or a payload that is no such message.
    Unsafe,
}

impl View for RpcEvent {
    type V = EventModel;

    open spec fn view(&self) -> EventModel {
        match self {
            RpcEvent::Terminal(bytes) => EventModel::Terminal(bytes@),
            RpcEvent::Notification => EventModel::Notification,
            RpcEvent::Unsafe => EventModel::Unsafe,
        }
    }
}

/// The message has an id, and it is not null.
pub open spec fn has_id(model: JsonModel) -> bool {
    field(model, "id"@) is Some && field(model, "id"@) != Some(JsonModel::Null)
}

/// What a message in a stream is: a notification has a method and no id, a successful response
/// has an id and a result, and neither a method nor an error. Every other message is unsafe.
pub open spec fn event_in(model: JsonModel, payload: Seq<u8>) -> EventModel {
    if field(model, "method"@) is Some {
        if has_id(model) {
            EventModel::Unsafe
        } else {
            EventModel::Notification
        }
    } else if has_id(model) && field(model, "error"@) is None && field(model, "result"@) is Some {
        EventModel::Terminal(payload)
    } else {
        EventModel::Unsafe
    }
}

/// What the payload of an event is.
pub open spec fn event_of(payload: Seq<u8>) -> EventModel {
    match json_read(payload) {
        Some(model) => event_in(model, payload),
        None => EventModel::Unsafe,
    }
}

/// What a message in a stream is.
pub fn event_from_json(json: &Json, payload: &[u8]) -> (event: RpcEvent)
    ensures
        event@ == event_in(json@, payload@),
{
    let with_id: bool = match json.get("id") {
        Some(Json::Null) => false,
        Some(_) => true,
        None => false,
    };
    let with_method: bool = json.get("method").is_some();
    if with_method {
        if with_id {
            RpcEvent::Unsafe
        } else {
            RpcEvent::Notification
        }
    } else if with_id && json.get("error").is_none() && json.get("result").is_some() {
        RpcEvent::Terminal(slice_to_vec(payload))
    } else {
        RpcEvent::Unsafe
    }
}

/// What the payload of an event is.
pub fn classify_event(payload: &[u8]) -> (event: RpcEvent)
    ensures
        event@ == event_of(payload@),
        event is Terminal ==> is_bare_text(payload@),
{
    match parse_json(payload) {
        Some(json) => event_from_json(&json, payload),
        None => RpcEvent::Unsafe,
    }
}

/// The stream is made of notifications and of one successful response, at index `at`.
pub open spec fn collapses_at(events: Seq<EventModel>, at: int) -> bool {
    &&& 0 <= at < events.len()
    &&& events[at] is Terminal
    &&& forall|i: int|
        0 <= i < events.len() && i != at ==> #[trigger] events[i] is Notification
}

/// The one successful response in a stream that has nothing beside it but notifications.
pub open spec fn sole_terminal(events: Seq<EventModel>) -> Option<Seq<u8>> {
    if exists|at: int| collapses_at(events, at) {
        Some(events[choose|at: int| collapses_at(events, at)]->Terminal_0)
    } else {
        None
    }
}

/// A stream that is made of notifications and one successful response is reduced to that
/// response.
pub proof fn law_stream_collapses(events: Seq<EventModel>, at: int)
    requires
        collapses_at(events, at),
    ensures
        sole_terminal(events) == Some(events[at]->Terminal_0),
{
    let other = choose|at: int| collapses_at(events, at);
    if other != at {
        assert(events[other] is Terminal);
        assert(events[other] is Notification);
    }
}

/// A stream with an unsafe event, with two responses, or with no response at all is reduced to
/// nothing.
pub proof fn law_unsafe_streams_do_not_collapse(events: Seq<EventModel>)
    requires
        (exists|i: int| 0 <= i < events.len() && #[trigger] events[i] is Unsafe) || (exists|
            i: int,
            j: int,
        |
            0 <= i < j < events.len() && #[trigger] events[i] is Terminal && #[trigger] events[j]
                is Terminal) || (forall|i: int|
            0 <= i < events.len() ==> #[trigger] events[i] is Notification),
    ensures
        sole_terminal(events) is None,
{
    if exists|at: int| collapses_at(events, at) {
        let at = choose|at: int| collapses_at(events, at);
        assert(events[at] is Terminal);
        assert(forall|i: int|
            0 <= i < events.len() && i != at ==> #[trigger] events[i] is Notification);
    }
}

/// What a list of events stands for.
pub open spec fn event_models(events: Seq<RpcEvent>) -> Seq<EventModel> {
    events.map_values(|event: RpcEvent| event@)
}

/// What an optional byte string stands for.
pub open spec fn optional_bytes(bytes: Option<Vec<u8>>) -> Option<Seq<u8>> {
    match bytes {
        Some(b) => Some(b@),
        None => None,
    }
}

/// Reduces a stream to its one successful response, where everything else in it is a
/// notification.
pub fn collapse(events: &Vec<RpcEvent>) -> (terminal: Option<Vec<u8>>)
    ensures
        optional_bytes(terminal) == sole_terminal(event_models(events@)),
{
    let ghost all = event_models(events@);
    let mut found: Option<usize> = None;
    let mut i: usize = 0;
    while i < events.len()
        invariant
            all == event_models(events@),
            i <= events@.len(),
            match found {
                Some(at) => at < i && all[at as int] is Terminal && forall|j: int|
                    0 <= j < i && j != at ==> #[trigger] all[j] is Notification,
                None => forall|j: int| 0 <= j < i ==> #[trigger] all[j] is Notification,
            },
        decreases events@.len() - i,
    {
        assert(all[i as int] == events@[i as int]@);
        match &events[i] {
            RpcEvent::Notification => {},
            RpcEvent::Terminal(_) => {
                if let Some(at) = found {
                    proof {
                        assert(all[at as int] is Terminal && all[i as int] is Terminal);
                        law_unsafe_streams_do_not_collapse(all);
                    }
                    return None;
                }
                found = Some(i);
            },
            RpcEvent::Unsafe => {
                proof {
                    law_unsafe_streams_do_not_collapse(all);
                }
                return None;
            },
        }
        i += 1;
    }
    match found {
        Some(at) => {
            proof {
                law_stream_collapses(all, at as int);
                assert(all[at as int] == events@[at as int]@);
            }
            match &events[at] {
                RpcEvent::Terminal(bytes) => Some(slice_to_vec(bytes.as_slice())),
                _ => None,
            }
        },
        None => {
            proof {
                law_unsafe_streams_do_not_collapse(all);
            }
            None
        },
    }
}

// ---------------------------------------------------------------------------------------------
// Responses
// ---------------------------------------------------------------------------------------------

/// The message that a response body carries and that may be kept: a bare JSON object as it
/// stands, or the one successful response of an event stream that has nothing beside it but
/// notifications.
pub open spec fn extracted(body: Seq<u8>) -> Option<Seq<u8>> {
    if !valid_utf8(body) {
        None
    } else if is_framed(lines_of(body)) {
        sole_terminal(stream_events(body).map_values(|payload: Seq<u8>| event_of(payload)))
    } else if json_read(body) matches Some(model) && model is Object {
        Some(body)
    } else {
        None
    }
}

/// The body can be read as JSON-RPC: a bare JSON object, or an event stream with at least one
/// payload and nothing but JSON objects for payloads.
pub open spec fn is_readable(body: Seq<u8>) -> bool {
    valid_utf8(body) && if is_framed(lines_of(body)) {
        stream_events(body).len() > 0 && forall|i: int|
            0 <= i < stream_events(body).len() ==> is_object_text(
                #[trigger] stream_events(body)[i],
            )
    } else {
        is_object_text(body)
    }
}

/// The bytes are the text of a JSON object.
pub open spec fn is_object_text(bytes: Seq<u8>) -> bool {
    json_read(bytes) matches Some(model) && model is Object
}

/// Whether the bytes are the text of a JSON object.
fn reads_as_object(bytes: &[u8]) -> (object: bool)
    ensures
        object == is_object_text(bytes@),
        object ==> is_bare_text(bytes@),
{
    match parse_json(bytes) {
        Some(json) => json.is_object(),
        None => false,
    }
}

/// Classifies the payloads of a stream, in order.
fn classify_all(payloads: &Vec<Vec<u8>>) -> (list: Vec<RpcEvent>)
    ensures
        event_models(list@) == byte_strings(payloads@).map_values(
            |payload: Seq<u8>| event_of(payload),
        ),
        forall|i: int|
            0 <= i < payloads@.len() && event_of(#[trigger] payloads@[i]@) is Terminal
                ==> is_bare_text(payloads@[i]@),
{
    let mut list: Vec<RpcEvent> = Vec::new();
    let mut i: usize = 0;
    while i < payloads.len()
        invariant
            i <= payloads@.len(),
            list@.len() == i,
            forall|j: int| 0 <= j < i ==> (#[trigger] list@[j])@ == event_of(payloads@[j]@),
            forall|j: int|
                0 <= j < i && event_of(#[trigger] payloads@[j]@) is Terminal ==> is_bare_text(
                    payloads@[j]@,
                ),
        decreases payloads@.len() - i,
    {
        list.push(classify_event(payloads[i].as_slice()));
        i += 1;
    }
    proof {
        assert(event_models(list@) =~= byte_strings(payloads@).map_values(
            |payload: Seq<u8>| event_of(payload),
        ));
    }
    list
}

/// Takes the message out of a response body: a bare JSON object is taken as it stands, an event
/// stream is reduced to its one successful response. Where the stream cannot be reduced, nothing
/// is taken. What is taken is bare JSON: it is taken again as it stands.
pub fn extract_cacheable_json(body: &[u8]) -> (json: Option<Vec<u8>>)
    ensures
        optional_bytes(json) == extracted(body@),
        json matches Some(j) ==> extracted(j@) == Some(j@),
{
    if !is_utf8(body) {
        return None;
    }
    let list: Vec<Vec<u8>> = lines(body);
    if !looks_like_sse(&list) {
        return if reads_as_object(body) {
            Some(slice_to_vec(body))
        } else {
            None
        };
    }
    let payloads: Vec<Vec<u8>> = events(&list);
    let classified: Vec<RpcEvent> = classify_all(&payloads);
    proof {
        let all = event_models(classified@);
        if exists|at: int| collapses_at(all, at) {
            let at = choose|at: int| collapses_at(all, at);
            assert(all[at] == event_of(payloads@[at]@));
            assert(is_bare_text(payloads@[at]@));
            assert(extracted(body@) == Some(payloads@[at]@));
            law_extraction_is_idempotent(body@);
        }
    }
    collapse(&classified)
}

/// Whether a response body can be read as JSON-RPC.
pub fn reads_as_json_rpc(body: &[u8]) -> (readable: bool)
    ensures
        readable == is_readable(body@),
{
    if !is_utf8(body) {
        return false;
    }
    let list: Vec<Vec<u8>> = lines(body);
    if !looks_like_sse(&list) {
        return reads_as_object(body);
    }
    let payloads: Vec<Vec<u8>> = events(&list);
    let ghost all = stream_events(body@);
    let mut i: usize = 0;
    while i < payloads.len()
        invariant
            i <= payloads@.len(),
            all == byte_strings(payloads@),
            all == stream_events(body@),
            is_framed(lines_of(body@)),
            forall|j: int| 0 <= j < i ==> is_object_text(#[trigger] all[j]),
        decreases payloads@.len() - i,
    {
        assert(all[i as int] == payloads@[i as int]@);
        if !reads_as_object(payloads[i].as_slice()) {
            return false;
        }
        i += 1;
    }
    assert(all.len() == payloads@.len());
    payloads.len() > 0
}

/// What is taken out of a response body is the text of a JSON object, and the body can be read as
/// JSON-RPC.
pub proof fn law_extracted_is_an_object(body: Seq<u8>)
    ensures
        extracted(body) matches Some(json) ==> is_object_text(json) && is_readable(body),
{
    if valid_utf8(body) && is_framed(lines_of(body)) {
        let payloads = stream_events(body);
        let all = payloads.map_values(|payload: Seq<u8>| event_of(payload));
        if exists|at: int| collapses_at(all, at) {
            let at = choose|at: int| collapses_at(all, at);
            assert(all[at] == event_of(payloads[at]));
            assert forall|i: int| 0 <= i < payloads.len() implies is_object_text(
                #[trigger] payloads[i],
            ) by {
                assert(all[i] == event_of(payloads[i]));
                if i != at {
                    assert(all[i] is Notification);
                }
            }
        }
    }
}

/// What is taken out of a response body, and is bare text as all JSON is, is taken out of itself
/// as it stands.
pub proof fn law_extraction_is_idempotent(body: Seq<u8>)
    requires
        extracted(body) is Some,
        is_bare_text(extracted(body)->0),
    ensures
        extracted(extracted(body)->0) == extracted(body),
{
    law_extracted_is_an_object(body);
}

/// What is taken out of an event stream is a response to a request, and reports success: it has an
/// id and a result, and neither a method nor an error.
pub proof fn law_extracted_from_a_stream(body: Seq<u8>)
    requires
        is_framed(lines_of(body)),
        extracted(body) is Some,
    ensures
        json_read(extracted(body)->0) matches Some(model) && {
            &&& has_id(model)
            &&& field(model, "result"@) is Some
            &&& field(model, "error"@) is None
            &&& field(model, "method"@) is None
        },
{
    let payloads = stream_events(body);
    let all = payloads.map_values(|payload: Seq<u8>| event_of(payload));
    let at = choose|at: int| collapses_at(all, at);
    assert(all[at] == event_of(payloads[at]));
}

/// A stream that a server frames event by event, made of notifications and of one response that
/// reports success, is reduced to that response; so is a response framed as a single event.
pub proof fn law_framed_response_is_extracted(head: Seq<u8>, payloads: Seq<Seq<u8>>, at: int)
    requires
        is_one_line(head),
        head.len() > 0,
        !begins(head, data_mark()),
        forall|i: int| 0 <= i < payloads.len() ==> is_one_line(#[trigger] payloads[i]),
        collapses_at(payloads.map_values(|payload: Seq<u8>| event_of(payload)), at),
        valid_utf8(frames(head, payloads)),
    ensures
        extracted(frames(head, payloads)) == Some(payloads[at]),
{
    law_frames_are_read(head, payloads);
    let all = payloads.map_values(|payload: Seq<u8>| event_of(payload));
    law_stream_collapses(all, at);
    assert(all[at] == event_of(payloads[at]));
}

/// The message is a JSON-RPC success: it has a result and no error, and the result is not marked
/// as the error of a tool.
pub open spec fn is_success(model: JsonModel) -> bool {
    &&& field(model, "error"@) is None
    &&& field(model, "result"@) is Some
    &&& !is_true(field_in(field(model, "result"@), "isError"@))
}

/// The body is the text of a JSON-RPC success.
pub open spec fn is_cacheable(body: Seq<u8>) -> bool {
    json_read(body) matches Some(model) && is_success(model)
}

/// Whether a message is a JSON-RPC success.
pub fn json_is_success(json: &Json) -> (success: bool)
    ensures
        success == is_success(json@),
{
    json.get("error").is_none() && json.get("result").is_some() && !holds_true(
        get_in(json.get("result"), "isError"),
    )
}

/// Whether a response may be kept: a JSON-RPC success that is not the error of a tool.
pub fn is_cacheable_response(body: &[u8]) -> (cacheable: bool)
    ensures
        cacheable == is_cacheable(body@),
{
    match parse_json(body) {
        Some(json) => json_is_success(&json),
        None => false,
    }
}

// ---------------------------------------------------------------------------------------------
// Answering with another id
// ---------------------------------------------------------------------------------------------

/// The JSON value that an id is written as.
pub open spec fn id_value(id: IdModel) -> JsonModel {
    match id {
        IdModel::Number(n) => JsonModel::Int(n),
        IdModel::Text(text) => JsonModel::Text(text),
        IdModel::Null => JsonModel::Null,
    }
}

/// The message with its id replaced.
pub open spec fn with_id(model: JsonModel, id: JsonModel) -> JsonModel {
    with_field(model, "id"@, id)
}

/// The bytes of the message in `body` with its id replaced; none where `body` is no JSON object.
pub open spec fn restamped(body: Seq<u8>, id: JsonModel) -> Option<Seq<u8>> {
    match json_read(body) {
        Some(model) => if model is Object {
            Some(encode_utf8(json_text(with_id(model, canonical(id)))))
        } else {
            None
        },
        None => None,
    }
}

/// The id as a JSON value.
fn id_to_json(id: &RequestId) -> (json: Json)
    ensures
        json@ == id_value(id@),
{
    match id {
        RequestId::Number(n) => if *n >= 0 {
            Json::Unsigned(*n as u64)
        } else {
            Json::Negative(*n)
        },
        RequestId::String(s) => Json::Text(s.clone()),
        RequestId::Null => Json::Null,
    }
}

/// One more member makes an object floating or deep only where its value is.
#[verifier::spinoff_prover]
proof fn lemma_one_more_member(
    fewer: Seq<(Seq<char>, JsonModel)>,
    more: Seq<(Seq<char>, JsonModel)>,
    limit: int,
)
    requires
        more.len() == fewer.len() + 1,
        forall|i: int| 0 <= i < fewer.len() ==> #[trigger] more[i] == fewer[i],
    ensures
        is_float_free(JsonModel::Object(fewer)) && is_float_free(more.last().1) ==> is_float_free(
            JsonModel::Object(more),
        ),
        nested_at_most(JsonModel::Object(fewer), limit) && nested_at_most(
            more.last().1,
            limit - 1,
        ) ==> nested_at_most(JsonModel::Object(more), limit),
{
    let before = JsonModel::Object(fewer);
    let after = JsonModel::Object(more);
    assert(before->Object_0 == fewer && after->Object_0 == more);
    if is_float_free(before) && is_float_free(more.last().1) {
        assert forall|i: int| 0 <= i < more.len() implies is_float_free(
            (#[trigger] more[i]).1,
        ) by {
            if i < fewer.len() {
                let member = fewer[i];
                assert(is_float_free(member.1));
                assert(more[i] == member);
            }
        }
        assert(is_float_free(after));
    }
    if nested_at_most(before, limit) && nested_at_most(more.last().1, limit - 1) {
        assert forall|i: int| 0 <= i < more.len() implies nested_at_most(
            (#[trigger] more[i]).1,
            limit - 1,
        ) by {
            if i < fewer.len() {
                let member = fewer[i];
                assert(nested_at_most(member.1, limit - 1));
                assert(more[i] == member);
            }
        }
        assert(nested_at_most(after, limit));
    }
}

/// The message with the id `id`; none where it is no object. The id is put behind the other
/// members, where it counts: of two members of one name the last one holds.
pub fn restamp_json(json: Json, id: Json) -> (stamped: Option<Json>)
    ensures
        stamped is Some <==> json@ is Object,
        stamped matches Some(s) ==> canonical(s@) == with_id(canonical(json@), canonical(id@)),
        stamped matches Some(s) ==> (is_float_free(json@) && is_float_free(id@) ==> is_float_free(
            s@,
        )),
        stamped matches Some(s) ==> forall|limit: int|
            nested_at_most(json@, limit) && nested_at_most(id@, limit - 1)
                ==> #[trigger] nested_at_most(s@, limit),
{
    match json {
        Json::Object(members) => {
            let ghost before = members;
            let ghost value = id@;
            let mut members: Vec<(String, Json)> = members;
            members.push(("id".to_owned(), id));
            proof {
                lemma_containers(arbitrary(), before);
                lemma_containers(arbitrary(), members);
                let fewer = members_model(before@);
                let more = members_model(members@);
                lemma_canonical_containers(Seq::empty(), fewer);
                lemma_canonical_containers(Seq::empty(), more);
                assert(canonical_members(more).drop_last() =~= canonical_members(fewer));
                assert(more.last() == ("id"@, value));
                assert(canonical_members(more).last() == ("id"@, canonical(value)));
                lemma_one_more_member(fewer, more, 0);
                assert forall|limit: int|
                    nested_at_most(json@, limit) && nested_at_most(
                        value,
                        limit - 1,
                    ) implies #[trigger] nested_at_most(JsonModel::Object(more), limit) by {
                    lemma_one_more_member(fewer, more, limit);
                }
            }
            Some(Json::Object(members))
        },
        _ => None,
    }
}

/// Replaces the id of a stored response by the one given, whatever JSON value that is. A stored
/// body that is no JSON object gives `None`. What is written is read back as the message with the
/// new id, where no number in it is a floating-point one and the id is not nested too deep.
pub fn restamp_value(body: &[u8], id: &Json) -> (stamped: Option<Vec<u8>>)
    ensures
        optional_bytes(stamped) == restamped(body@, id@),
        json_read(body@) matches Some(model) ==> is_canonical(model),
        json_read(body@) matches Some(model) ==> (model is Object && is_float_free(model)
            && is_float_free(id@) && nested_at_most(id@, NESTING_LIMIT - 1) ==> reads_back(
            with_id(model, canonical(id@)),
        )),
{
    match parse_json(body) {
        Some(json) => {
            let ghost model = json@;
            proof {
                law_canonical_values_stay(model);
            }
            match restamp_json(json, id.copied()) {
                Some(stamped) => {
                    let bytes: Vec<u8> = json_to_bytes(&stamped);
                    Some(bytes)
                },
                None => None,
            }
        },
        None => None,
    }
}

/// Replaces the id of a stored response by that of the request it is to answer. A stored body
/// that is no JSON object gives `None`. What is written is read back as the message with the new
/// id, where no number in it is a floating-point one.
pub fn restamp_id(body: &[u8], id: &RequestId) -> (stamped: Option<Vec<u8>>)
    ensures
        optional_bytes(stamped) == restamped(body@, id_value(id@)),
        json_read(body@) matches Some(model) ==> is_canonical(model),
        json_read(body@) matches Some(model) ==> (model is Object && is_float_free(model)
            ==> reads_back(with_id(model, id_value(id@)))),
{
    proof {
        lemma_canonical_kind(id_value(id@));
    }
    restamp_value(body, &id_to_json(id))
}

/// A message with its id replaced has the new id, and under every other name what it had before.
pub proof fn law_restamp_changes_the_id_only(model: JsonModel, id: JsonModel)
    requires
        model is Object,
    ensures
        field(with_id(model, id), "id"@) == Some(id),
        forall|name: Seq<char>|
            name != "id"@ ==> #[trigger] field(with_id(model, id), name) == field(model, name),
{
    law_set_field(model, "id"@, id);
}

/// Replacing the id of a success leaves it a success.
pub proof fn law_restamp_keeps_success(model: JsonModel, id: JsonModel)
    requires
        model is Object,
    ensures
        is_success(with_id(model, id)) == is_success(model),
{
    law_restamp_changes_the_id_only(model, id);
    reveal_strlit("id");
    reveal_strlit("error");
    reveal_strlit("result");
    assert("id"@.len() != "error"@.len() && "id"@.len() != "result"@.len());
}

/// An id that is replaced twice is the last one.
pub proof fn law_last_restamp_holds(model: JsonModel, first: JsonModel, second: JsonModel)
    requires
        model is Object,
        is_canonical(model),
        is_canonical(first),
        is_canonical(second),
    ensures
        with_id(with_id(model, first), second) == with_id(model, second),
{
    law_set_field(model, "id"@, first);
    law_set_field(model, "id"@, second);
    law_set_field(with_id(model, first), "id"@, second);
    let a = with_id(with_id(model, first), second);
    let b = with_id(model, second);
    assert forall|name: Seq<char>| lookup(a->Object_0, name) == #[trigger] lookup(
        b->Object_0,
        name,
    ) by {
        assert(field(a, name) == field(b, name)) by {
            if name != "id"@ {
                assert(field(with_id(model, first), name) == field(model, name));
            }
        }
    }
    lemma_order_is_unique(a->Object_0, b->Object_0);
}

/// The id that is written is the one that is read: a message that was given the id of a request
/// carries the id of that request.
pub proof fn law_restamped_id_is_read(model: JsonModel, id: RequestId)
    requires
        model is Object,
    ensures
        id_in(field(with_id(model, id_value(id@)), "id"@)) == id@,
{
    law_restamp_changes_the_id_only(model, id_value(id@));
}

// ---------------------------------------------------------------------------------------------
// Tool annotations
// ---------------------------------------------------------------------------------------------

/// The tools in the result of a `tools/list`; none where it has no such list.
pub open spec fn listed_tools(model: JsonModel) -> Seq<JsonModel> {
    match field_in(field(model, "result"@), "tools"@) {
        Some(JsonModel::Array(tools)) => tools,
        _ => Seq::empty(),
    }
}

/// The tool says that it only reads, and does not say that it destroys.
pub open spec fn is_safe_tool(tool: JsonModel) -> bool {
    is_true(field_in(field(tool, "annotations"@), "readOnlyHint"@)) && !is_true(
        field_in(field(tool, "annotations"@), "destructiveHint"@),
    )
}

/// The names of the tools in a list, in order, with whether each is safe. A tool without a name
/// is left out.
pub open spec fn tool_safety(tools: Seq<JsonModel>) -> Seq<(Seq<char>, bool)>
    decreases tools.len(),
{
    if tools.len() == 0 {
        Seq::empty()
    } else {
        let rest = tool_safety(tools.drop_last());
        match field(tools.last(), "name"@) {
            Some(JsonModel::Text(name)) => rest.push((name, is_safe_tool(tools.last()))),
            _ => rest,
        }
    }
}

/// What the body of a `tools/list` response says of the safety of its tools.
pub open spec fn safety_of(body: Seq<u8>) -> Seq<(Seq<char>, bool)> {
    match json_read(body) {
        Some(model) => tool_safety(listed_tools(model)),
        None => Seq::empty(),
    }
}

/// What a list of names and marks stands for.
pub open spec fn safety_model(list: Seq<(String, bool)>) -> Seq<(Seq<char>, bool)> {
    list.map_values(|entry: (String, bool)| (entry.0@, entry.1))
}

/// The names of the tools in a `tools/list` response, with whether each is safe.
pub fn safety_from_json(json: &Json) -> (list: Vec<(String, bool)>)
    ensures
        safety_model(list@) == tool_safety(listed_tools(json@)),
{
    let mut list: Vec<(String, bool)> = Vec::new();
    let found: Option<&Json> = get_in(json.get("result"), "tools");
    if let Some(Json::Array(tools)) = found {
        let ghost all = listed_tools(json@);
        proof {
            lemma_containers(*tools, arbitrary());
            assert(all.take(0) =~= Seq::empty());
            assert(safety_model(list@) =~= Seq::empty());
        }
        let mut i: usize = 0;
        while i < tools.len()
            invariant
                i <= tools@.len(),
                all == items_model(tools@),
                safety_model(list@) == tool_safety(all.take(i as int)),
            decreases tools@.len() - i,
        {
            let tool: &Json = &tools[i];
            let ghost before = list@;
            proof {
                assert(all.take(i + 1).drop_last() =~= all.take(i as int));
                assert(all.take(i + 1).last() == tool@);
            }
            if let Some(Json::Text(name)) = tool.get("name") {
                let annotations: Option<&Json> = tool.get("annotations");
                let safe: bool = holds_true(get_in(annotations, "readOnlyHint")) && !holds_true(
                    get_in(annotations, "destructiveHint"),
                );
                list.push((name.clone(), safe));
                assert(safety_model(list@) =~= safety_model(before).push((name@, safe)));
            }
            i += 1;
        }
        assert(all.take(all.len() as int) =~= all);
    } else {
        assert(listed_tools(json@) =~= Seq::empty());
        assert(safety_model(list@) =~= Seq::empty());
    }
    list
}

/// The names of the tools in the body of a `tools/list` response, with whether each is safe: it
/// declares `readOnlyHint: true` and does not declare `destructiveHint: true`. A tool without
/// annotations is not safe.
pub fn tool_safety_from_list(result_body: &[u8]) -> (list: Vec<(String, bool)>)
    ensures
        safety_model(list@) == safety_of(result_body@),
{
    match parse_json(result_body) {
        Some(json) => safety_from_json(&json),
        None => {
            let list: Vec<(String, bool)> = Vec::new();
            assert(safety_model(list@) =~= Seq::empty());
            list
        },
    }
}

} // verus!
