//! What the operations mean, said of messages, headers and configurations themselves.
//!
//! The contracts of the functions speak of spec functions. The laws here say of those what comes
//! in and what comes out: which members of a message decide, which words of a header, and what
//! exactly is kept, marked and answered.

use crate::annotations::{
    law_marker_keys_differ, lemma_markers, marker_key, markers, writes_model,
};
use crate::config::Config;
use crate::flow::{
    asks_for_fresh, bypassed, entries_from, header_text, hit, is_candidate, kept, marks_from,
    media_type, params_in, response_disposition, Answer, AnswerModel, CtxModel, Disposition,
    HeadModel, MissCtx, Pending, PendingModel, RequestHead, Step, StepModel,
};
use crate::guarantees::{id_of, is_marked, law_outcome_follows_the_decision, outcome};
use crate::json::{canonical, field, field_in, law_set_field, with_field, JsonModel};
use crate::key::{key_of, CacheScope, IdentityModel};
use crate::mcp::{
    collapses_at, event_models, event_of, extracted, is_cacheable, is_discovery, is_notice,
    is_object_text, is_readable, law_extracted_is_an_object, law_stream_collapses, listed_tools,
    optional_bytes, optional_request, request_in, request_of, restamped, safety_model, safety_of,
    sole_terminal, tool_safety, EventModel, IdModel, McpRequest, RequestId, RequestModel, RpcEvent,
};
use crate::policy::{
    configured_tools, decision, entries_in, flag_or, in_millis, is_longest,
    law_later_settings_hold, law_only_listed_tools, lemma_methods, placement, resolves, Decision,
    DecisionModel, Policy, DEFAULT_DISTRIBUTED,
};
use crate::sse::{byte_strings, is_framed, lines_of, stream_events};
use crate::store::{
    after_get, duration_secs, elapsed_since_epoch, entry_at, epoch_seconds, optional_entry,
    row_model, CacheStore, CachedEntry, EntryModel, GossipStore, LocalStore, Row, RowModel, Written,
};
use crate::text::{
    ascii_lower, before_char, has_no_outer_space, is_blank, law_before_char,
    law_before_char_is_found, law_lower_case, law_occurrence_splits_the_text,
    law_start_splits_the_text, law_trimming_finds_the_text, law_trimming_takes_outer_space,
    optional_text, trimmed,
};
use crate::wire::{json_read, json_text};
use vstd::prelude::*;
use vstd::utf8::*;

verus! {

// ---------------------------------------------------------------------------------------------
// Requests
// ---------------------------------------------------------------------------------------------

/// A message is a request exactly where its `jsonrpc` is the text `2.0` and its `method` is a text
/// that is not empty; that text is its method. It names a tool exactly where the method is
/// `tools/call` and `name` in its `params` is a text that is not empty, and then it names that.
pub proof fn law_what_a_request_is(model: JsonModel, text: Seq<char>)
    ensures
        request_in(model) is Some <==> {
            &&& field(model, "jsonrpc"@) == Some(JsonModel::Text("2.0"@))
            &&& field(model, "method"@) matches Some(JsonModel::Text(method))
            &&& method.len() > 0
        },
        request_in(model) matches Some(request) ==> field(model, "method"@) == Some(
            JsonModel::Text(request.method),
        ),
        request_in(model) matches Some(request) ==> (request.tool_name == Some(text)
            <==> request.method == "tools/call"@ && text.len() > 0 && field_in(
            field(model, "params"@),
            "name"@,
        ) == Some(JsonModel::Text(text))),
{
}

/// The id of a request is its `id` where that is a text or an integer that an `i64` holds, and null
/// otherwise.
pub proof fn law_what_the_id_is(model: JsonModel, text: Seq<char>, n: int)
    requires
        request_in(model) is Some,
    ensures
        request_in(model)->0.id == IdModel::Text(text) <==> field(model, "id"@) == Some(
            JsonModel::Text(text),
        ),
        request_in(model)->0.id == IdModel::Number(n) <==> field(model, "id"@) == Some(
            JsonModel::Int(n),
        ) && -0x8000_0000_0000_0000 <= n <= 0x7fff_ffff_ffff_ffff,
{
}

/// Bytes are a request exactly where they are the JSON text of one, and then they are that one.
pub proof fn law_what_is_read(body: Seq<u8>)
    ensures
        json_read(body) is None ==> request_of(body) is None,
        json_read(body) matches Some(model) ==> request_of(body) == request_in(model),
{
}

/// The methods of discovery are three, and a method is that of a notification exactly where it
/// starts with `notifications/`.
pub proof fn law_what_methods_are(method: Seq<char>)
    ensures
        is_discovery(method) <==> method == "tools/list"@ || method == "resources/list"@ || method
            == "prompts/list"@,
        is_notice(method) <==> exists|behind: Seq<char>| method == #[trigger] ("notifications/"@
            + behind),
{
    law_start_splits_the_text(method, "notifications/"@);
}

/// The parameters of a request are all that stands under `params`, and null where there is nothing.
pub proof fn law_what_the_parameters_are(model: JsonModel)
    ensures
        field(model, "params"@) matches Some(params) ==> params_in(model) == params,
        field(model, "params"@) is None ==> params_in(model) == JsonModel::Null,
{
}

// ---------------------------------------------------------------------------------------------
// Responses
// ---------------------------------------------------------------------------------------------

/// In a stream, a payload is a notification exactly where it has a method and no id, or a null one;
/// it is a response that may be kept exactly where it has an id that is not null, a result, no
/// error and no method, and then it is kept as it stands. Anything else forbids the stream.
pub proof fn law_what_an_event_is(payload: Seq<u8>)
    ensures
        json_read(payload) is None ==> event_of(payload) is Unsafe,
        json_read(payload) matches Some(model) ==> {
            let with_id = field(model, "id"@) is Some && field(model, "id"@) != Some(
                JsonModel::Null,
            );
            &&& event_of(payload) is Notification <==> field(model, "method"@) is Some && !with_id
            &&& event_of(payload) is Terminal <==> with_id && field(model, "result"@) is Some
                && field(model, "error"@) is None && field(model, "method"@) is None
        },
        event_of(payload) matches EventModel::Terminal(bytes) ==> bytes == payload,
{
}

/// A stream is reduced to a response exactly where that is the one response in it and everything
/// else is a notification.
pub proof fn law_what_a_stream_is_reduced_to(events: Seq<EventModel>, bytes: Seq<u8>)
    ensures
        sole_terminal(events) == Some(bytes) <==> exists|at: int|
            0 <= at < events.len() && #[trigger] events[at] == EventModel::Terminal(bytes)
                && forall|i: int|
                0 <= i < events.len() && i != at ==> #[trigger] events[i] is Notification,
{
    if sole_terminal(events) == Some(bytes) {
        let at = choose|at: int| collapses_at(events, at);
        assert(collapses_at(events, at));
        assert(events[at] == EventModel::Terminal(bytes));
    }
    if exists|at: int|
        0 <= at < events.len() && #[trigger] events[at] == EventModel::Terminal(bytes)
            && forall|i: int|
            0 <= i < events.len() && i != at ==> #[trigger] events[i] is Notification {
        let at = choose|at: int|
            0 <= at < events.len() && #[trigger] events[at] == EventModel::Terminal(bytes)
                && forall|i: int|
                0 <= i < events.len() && i != at ==> #[trigger] events[i] is Notification;
        assert(collapses_at(events, at));
        law_stream_collapses(events, at);
    }
}

/// What is taken out of a body: nothing where it is no text; all of it where it is no event stream
/// and is the text of a JSON object, and otherwise nothing; and of an event stream exactly the
/// payload that is the one response in it, where everything else is a notification.
pub proof fn law_what_is_taken_out(body: Seq<u8>, json: Seq<u8>)
    ensures
        !valid_utf8(body) ==> extracted(body) is None,
        valid_utf8(body) && !is_framed(lines_of(body)) ==> (extracted(body) == Some(json) <==> json
            == body && (json_read(body) matches Some(model) && model is Object)),
        valid_utf8(body) && is_framed(lines_of(body)) ==> (extracted(body) == Some(json)
            <==> exists|at: int|
            0 <= at < stream_events(body).len() && #[trigger] stream_events(body)[at] == json
                && event_of(json) is Terminal && forall|i: int|
                0 <= i < stream_events(body).len() && i != at ==> event_of(
                    #[trigger] stream_events(body)[i],
                ) is Notification),
{
    let payloads = stream_events(body);
    let all = payloads.map_values(|payload: Seq<u8>| event_of(payload));
    law_what_a_stream_is_reduced_to(all, json);
    if valid_utf8(body) && is_framed(lines_of(body)) {
        if extracted(body) == Some(json) {
            let at = choose|at: int|
                0 <= at < all.len() && #[trigger] all[at] == EventModel::Terminal(json)
                    && forall|i: int|
                    0 <= i < all.len() && i != at ==> #[trigger] all[i] is Notification;
            assert(all[at] == event_of(payloads[at]));
            law_what_an_event_is(payloads[at]);
            assert forall|i: int| 0 <= i < payloads.len() && i != at implies event_of(
                #[trigger] payloads[i],
            ) is Notification by {
                assert(all[i] == event_of(payloads[i]));
                assert(all[i] is Notification);
            }
            assert(payloads[at] == json);
        }
        if exists|at: int|
            0 <= at < payloads.len() && #[trigger] payloads[at] == json && event_of(json)
                is Terminal && forall|i: int|
                0 <= i < payloads.len() && i != at ==> event_of(#[trigger] payloads[i])
                    is Notification {
            let at = choose|at: int|
                0 <= at < payloads.len() && #[trigger] payloads[at] == json && event_of(json)
                    is Terminal && forall|i: int|
                    0 <= i < payloads.len() && i != at ==> event_of(#[trigger] payloads[i])
                        is Notification;
            law_what_an_event_is(json);
            assert(all[at] == event_of(payloads[at]));
            assert(all[at] == EventModel::Terminal(json));
            assert forall|i: int| 0 <= i < all.len() && i != at implies #[trigger] all[i]
                is Notification by {
                assert(all[i] == event_of(payloads[i]));
            }
        }
    }
}

/// A message may be kept exactly where it has a result and no error, and the result does not hold
/// `isError` as true, whatever else it holds.
pub proof fn law_what_a_success_is(body: Seq<u8>)
    ensures
        is_cacheable(body) <==> (json_read(body) matches Some(model) && field(model, "error"@)
            is None && field(model, "result"@) is Some && field_in(
            field(model, "result"@),
            "isError"@,
        ) != Some(JsonModel::Bool(true))),
{
}

/// Exactly one entry is kept of a response to a request with a key, and none of any other: the
/// message that was taken out, with the time it arrived and the time until which it is valid, where
/// it has a result and no error, and its result is not marked as the error of a tool.
pub proof fn law_what_is_kept(ctx: CtxModel, body: Seq<u8>, now: int)
    ensures
        ctx.key is None ==> entries_from(ctx, body, now).len() == 0,
        extracted(body) is None ==> entries_from(ctx, body, now).len() == 0,
        extracted(body) matches Some(json) ==> {
            let model = json_read(json)->0;
            &&& json_read(json) is None ==> entries_from(ctx, body, now).len() == 0
            &&& field(model, "error"@) is Some ==> entries_from(ctx, body, now).len() == 0
            &&& field(model, "result"@) is None ==> entries_from(ctx, body, now).len() == 0
            &&& field_in(field(model, "result"@), "isError"@) == Some(JsonModel::Bool(true))
                ==> entries_from(ctx, body, now).len() == 0
            &&& ctx.key is Some && json_read(json) is Some && field(model, "error"@) is None
                && field(model, "result"@) is Some && field_in(
                field(model, "result"@),
                "isError"@,
            ) != Some(JsonModel::Bool(true)) ==> entries_from(ctx, body, now) == seq![
                (
                    ctx.key->0,
                    EntryModel { written_at: now, valid_until: now + ctx.ttl, body: json },
                ),
            ]
        },
{
    if let Some(json) = extracted(body) {
        law_what_a_success_is(json);
    }
}

/// A tool's error is never kept: no entry is written for a body whose message has a result with
/// `isError` as true.
pub proof fn law_tool_errors_are_not_kept(
    ctx: CtxModel,
    body: Seq<u8>,
    now: int,
    model: JsonModel,
)
    requires
        extracted(body) is Some ==> json_read(extracted(body)->0) == Some(model),
        field_in(field(model, "result"@), "isError"@) == Some(JsonModel::Bool(true)),
    ensures
        entries_from(ctx, body, now) == Seq::<(Seq<char>, EntryModel)>::empty(),
{
    law_what_is_kept(ctx, body, now);
}

/// A body can be read where it is the text of a JSON object, or an event stream with a payload
/// whose payloads are all texts of JSON objects. Where the body of a response matters and cannot be
/// read, the header says `bypass`; otherwise it says what was done with the request.
pub proof fn law_what_the_header_says(ctx: CtxModel, body: Seq<u8>)
    ensures
        header_text(Disposition::Miss) == "miss"@,
        header_text(Disposition::Bypass) == "bypass"@,
        ctx.key is None && ctx.method != "tools/list"@ ==> response_disposition(ctx, body)
            == ctx.disposition,
        extracted(body) is Some ==> response_disposition(ctx, body) == ctx.disposition,
        (ctx.key is Some || ctx.method == "tools/list"@) && !valid_utf8(body)
            ==> response_disposition(ctx, body) == Disposition::Bypass,
        valid_utf8(body) && !is_framed(lines_of(body)) ==> (is_readable(body) <==> (json_read(
            body,
        ) matches Some(model) && model is Object)),
        valid_utf8(body) && is_framed(lines_of(body)) ==> (is_readable(body) <==> stream_events(
            body,
        ).len() > 0 && forall|i: int|
            0 <= i < stream_events(body).len() ==> (json_read(
                #[trigger] stream_events(body)[i],
            ) matches Some(model) && model is Object)),
        (ctx.key is Some || ctx.method == "tools/list"@) && !is_readable(body)
            ==> response_disposition(ctx, body) == Disposition::Bypass,
        is_readable(body) ==> response_disposition(ctx, body) == ctx.disposition,
{
    law_extracted_is_an_object(body);
    let payloads = stream_events(body);
    assert(forall|i: int|
        0 <= i < payloads.len() ==> (is_object_text(#[trigger] payloads[i]) <==> (json_read(
            payloads[i],
        ) matches Some(model) && model is Object)));
}

// ---------------------------------------------------------------------------------------------
// Answers
// ---------------------------------------------------------------------------------------------

/// A stored message is answered as it is, with nothing but its `id` replaced: the answer is the
/// text of a message that has the new id, and under every other name what the stored one has. A
/// body that is no JSON object is not answered.
pub proof fn law_what_is_answered(body: Seq<u8>, id: JsonModel)
    ensures
        json_read(body) is None ==> restamped(body, id) is None,
        json_read(body) matches Some(model) ==> (model is Object <==> restamped(body, id) is Some),
        json_read(body) matches Some(model) ==> (model is Object ==> {
            let sent = with_field(model, "id"@, canonical(id));
            &&& restamped(body, id) == Some(encode_utf8(json_text(sent)))
            &&& field(sent, "id"@) == Some(canonical(id))
            &&& forall|name: Seq<char>|
                name != "id"@ ==> #[trigger] field(sent, name) == field(model, name)
        }),
{
    if let Some(model) = json_read(body) {
        if model is Object {
            law_set_field(model, "id"@, canonical(id));
        }
    }
}

/// A response from the cache has the status 200, is JSON, and says that it is a hit.
pub proof fn law_what_a_hit_is(body: Seq<u8>)
    ensures
        hit(body).status == 200,
        hit(body).headers.len() == 2,
        hit(body).headers[0] == ("content-type"@, "application/json"@),
        hit(body).headers[1] == ("x-mcp-cache"@, "hit"@),
        hit(body).body == body,
{
}

/// The answer to a request is the very message that the valid entry under its key holds, with the
/// id of the request and nothing else replaced. It is given wherever the request is a candidate
/// with an id, caching is decided, the tool is not marked and the header does not ask for a fresh
/// answer.
pub proof fn law_valid_entry_answers(
    policy: Policy,
    head: HeadModel,
    body: Seq<u8>,
    contents: Map<Seq<char>, RowModel>,
    now: int,
    key: Seq<char>,
    ttl: int,
    entry: EntryModel,
    model: JsonModel,
)
    requires
        is_candidate(head),
        head.cache_control matches Some(value) ==> forall|before: Seq<char>, behind: Seq<char>|
            value != #[trigger] (before + "no-cache"@ + behind),
        json_read(body) is Some,
        request_in(json_read(body)->0) is Some,
        id_of(body) is Some,
        decision(
            policy,
            is_marked(request_in(json_read(body)->0)->0, contents, now),
            request_in(json_read(body)->0)->0,
            params_in(json_read(body)->0),
            head.identity,
        ) == (DecisionModel::Cache { key, ttl }),
        contents.contains_key(key),
        contents[key] == RowModel::Entry(entry),
        now < entry.valid_until,
        json_read(entry.body) == Some(model),
        model is Object,
    ensures
        outcome(policy, head, body, contents, now) == StepModel::Answer(
            AnswerModel {
                status: 200,
                headers: seq![
                    ("content-type"@, "application/json"@),
                    ("x-mcp-cache"@, "hit"@),
                ],
                body: encode_utf8(
                    json_text(with_field(model, "id"@, canonical(id_of(body)->0))),
                ),
            },
        ),
{
    law_who_asks_for_a_fresh_answer(head);
    law_outcome_follows_the_decision(policy, head, body, contents, now);
    law_what_is_answered(entry.body, id_of(body)->0);
    let text = encode_utf8(json_text(with_field(model, "id"@, canonical(id_of(body)->0))));
    law_what_a_hit_is(text);
    assert(hit(text).headers =~= seq![
        ("content-type"@, "application/json"@),
        ("x-mcp-cache"@, "hit"@),
    ]);
}

/// Where there is no entry, or it is no longer valid, or what it holds is no JSON object, the
/// request is forwarded as a miss, and its response is kept under its key.
pub proof fn law_no_valid_entry_is_a_miss(
    policy: Policy,
    head: HeadModel,
    body: Seq<u8>,
    contents: Map<Seq<char>, RowModel>,
    now: int,
    key: Seq<char>,
    ttl: int,
)
    requires
        is_candidate(head),
        head.cache_control matches Some(value) ==> forall|before: Seq<char>, behind: Seq<char>|
            value != #[trigger] (before + "no-cache"@ + behind),
        json_read(body) is Some,
        request_in(json_read(body)->0) is Some,
        id_of(body) is Some,
        decision(
            policy,
            is_marked(request_in(json_read(body)->0)->0, contents, now),
            request_in(json_read(body)->0)->0,
            params_in(json_read(body)->0),
            head.identity,
        ) == (DecisionModel::Cache { key, ttl }),
        contents.contains_key(key) ==> (contents[key] matches RowModel::Entry(entry)
            ==> entry.valid_until <= now || !(json_read(entry.body) matches Some(model) && model
            is Object)),
    ensures
        outcome(policy, head, body, contents, now) == StepModel::Forward(
            CtxModel {
                disposition: Disposition::Miss,
                key: Some(key),
                ttl,
                method: request_in(json_read(body)->0)->0.method,
            },
        ),
{
    law_who_asks_for_a_fresh_answer(head);
    law_outcome_follows_the_decision(policy, head, body, contents, now);
    if let Some(entry) = entry_at(contents, key, now) {
        law_what_is_answered(entry.body, id_of(body)->0);
    }
}

// ---------------------------------------------------------------------------------------------
// Headers of a request
// ---------------------------------------------------------------------------------------------

/// A caller asks for a fresh answer exactly where the header `cache-control` is there and
/// `no-cache` stands somewhere in it.
pub proof fn law_who_asks_for_a_fresh_answer(head: HeadModel)
    ensures
        asks_for_fresh(head) <==> (head.cache_control matches Some(value) && exists|
            before: Seq<char>,
            behind: Seq<char>,
        |
            value == #[trigger] (before + "no-cache"@ + behind)),
{
    if let Some(value) = head.cache_control {
        law_occurrence_splits_the_text(value, "no-cache"@);
    }
}

/// A request whose header `cache-control` holds `no-cache`, whatever stands around it, is never
/// answered from the cache: it is forwarded, as bypassed.
pub proof fn law_no_cache_forwards(
    policy: Policy,
    head: HeadModel,
    before: Seq<char>,
    behind: Seq<char>,
    body: Seq<u8>,
    contents: Map<Seq<char>, RowModel>,
    now: int,
)
    requires
        head.cache_control == Some(before + "no-cache"@ + behind),
    ensures
        outcome(policy, head, body, contents, now) matches StepModel::Forward(ctx)
            && ctx.disposition == Disposition::Bypass,
{
    law_who_asks_for_a_fresh_answer(head);
    lemma_methods();
}

/// A request is a candidate exactly where it is a POST and its content type is `application/json`
/// in any case of letters, with white space around it or not, and with parameters behind a
/// semicolon or not.
pub proof fn law_who_is_a_candidate(head: HeadModel)
    ensures
        is_candidate(head) <==> head.http_method == "POST"@ && (head.content_type matches Some(
            value,
        ) && exists|before: Seq<char>, name: Seq<char>, behind: Seq<char>|
            {
                &&& is_blank(before)
                &&& is_blank(behind)
                &&& ascii_lower(name) == "application/json"@
                &&& value == #[trigger] (before + name + behind) || exists|parameters: Seq<char>|
                    value == #[trigger] ((before + name + behind).push(';') + parameters)
            }),
{
    if let Some(value) = head.content_type {
        let part = before_char(value, ';');
        law_before_char(value, ';');
        law_trimming_takes_outer_space(part);
        if media_type(value) == "application/json"@ {
            let name = trimmed(part);
            let (before, behind) = choose|before: Seq<char>, behind: Seq<char>|
                is_blank(before) && is_blank(behind) && part == #[trigger] (before + trimmed(part)
                    + behind);
            assert(part == before + name + behind);
            if part != value {
                let parameters = choose|rest: Seq<char>| value == #[trigger] (part.push(';')
                    + rest);
                assert(value == (before + name + behind).push(';') + parameters);
            }
        }
        if exists|before: Seq<char>, name: Seq<char>, behind: Seq<char>|
            {
                &&& is_blank(before)
                &&& is_blank(behind)
                &&& ascii_lower(name) == "application/json"@
                &&& value == #[trigger] (before + name + behind) || exists|parameters: Seq<char>|
                    value == #[trigger] ((before + name + behind).push(';') + parameters)
            } {
            let (before, name, behind) = choose|
                before: Seq<char>,
                name: Seq<char>,
                behind: Seq<char>,
            |
                {
                    &&& is_blank(before)
                    &&& is_blank(behind)
                    &&& ascii_lower(name) == "application/json"@
                    &&& value == #[trigger] (before + name + behind) || exists|
                        parameters: Seq<char>,
                    |
                        value == #[trigger] ((before + name + behind).push(';') + parameters)
                };
            let whole = before + name + behind;
            lemma_json_name(name);
            assert forall|i: int| 0 <= i < whole.len() implies #[trigger] whole[i] != ';' by {
                if i < before.len() {
                    assert(whole[i] == before[i]);
                } else if i < before.len() + name.len() {
                    assert(whole[i] == name[i - before.len()]);
                } else {
                    assert(whole[i] == behind[i - before.len() - name.len()]);
                }
            }
            if value != whole {
                let parameters = choose|parameters: Seq<char>|
                    value == #[trigger] ((before + name + behind).push(';') + parameters);
                law_before_char_is_found(whole, ';', parameters);
            } else {
                law_before_char_is_found(whole, ';', Seq::empty());
            }
            law_trimming_finds_the_text(before, name, behind);
        }
    }
}

/// The name of the media type holds neither white space at its ends nor a semicolon.
proof fn lemma_json_name(name: Seq<char>)
    requires
        ascii_lower(name) == "application/json"@,
    ensures
        has_no_outer_space(name),
        forall|i: int| 0 <= i < name.len() ==> #[trigger] name[i] != ';',
{
    reveal_strlit("application/json");
    law_lower_case(name);
    assert(name.len() == 16);
    assert(ascii_lower(name)[0] == 'a');
    assert(ascii_lower(name)[15] == 'n');
    assert forall|i: int| 0 <= i < name.len() implies #[trigger] name[i] != ';' by {
        assert(ascii_lower(name)[i] == "application/json"@[i]);
        assert("application/json"@[i] != ';');
    }
}

// ---------------------------------------------------------------------------------------------
// Tools
// ---------------------------------------------------------------------------------------------

/// What a list of tools says, tool by tool: one whose `name` is a text is reported under it, as
/// safe exactly where its `annotations` hold `readOnlyHint` as true and do not hold
/// `destructiveHint` as true; one without such a name is left out.
pub proof fn law_what_a_list_says(tools: Seq<JsonModel>, tool: JsonModel)
    ensures
        tool_safety(Seq::empty()) == Seq::<(Seq<char>, bool)>::empty(),
        field(tool, "name"@) matches Some(JsonModel::Text(name)) ==> tool_safety(tools.push(tool))
            == tool_safety(tools).push(
            (
                name,
                field_in(field(tool, "annotations"@), "readOnlyHint"@) == Some(
                    JsonModel::Bool(true),
                ) && field_in(field(tool, "annotations"@), "destructiveHint"@) != Some(
                    JsonModel::Bool(true),
                ),
            ),
        ),
        !(field(tool, "name"@) matches Some(JsonModel::Text(_))) ==> tool_safety(tools.push(tool))
            == tool_safety(tools),
{
    assert(tools.push(tool).drop_last() =~= tools);
}

/// The list is the array under `tools` in the `result` of the message.
pub proof fn law_where_the_list_stands(body: Seq<u8>, model: JsonModel)
    requires
        json_read(body) == Some(model),
    ensures
        field_in(field(model, "result"@), "tools"@) matches Some(JsonModel::Array(tools))
            ==> safety_of(body) == tool_safety(tools),
        !(field_in(field(model, "result"@), "tools"@) matches Some(JsonModel::Array(_)))
            ==> safety_of(body) == Seq::<(Seq<char>, bool)>::empty(),
{
}

/// A tool with a name is in what the list says, at some place.
proof fn lemma_listed_tool(tools: Seq<JsonModel>, i: int) -> (n: int)
    requires
        0 <= i < tools.len(),
        field(tools[i], "name"@) matches Some(JsonModel::Text(_)),
    ensures
        0 <= n < tool_safety(tools).len(),
        tool_safety(tools)[n] == (
            field(tools[i], "name"@)->0->Text_0,
            field_in(field(tools[i], "annotations"@), "readOnlyHint"@) == Some(
                JsonModel::Bool(true),
            ) && field_in(field(tools[i], "annotations"@), "destructiveHint"@) != Some(
                JsonModel::Bool(true),
            ),
        ),
    decreases tools.len(),
{
    let fewer = tools.drop_last();
    let last = tools.last();
    assert(tools =~= fewer.push(last));
    law_what_a_list_says(fewer, last);
    if i == tools.len() - 1 {
        tool_safety(fewer).len() as int
    } else {
        assert(fewer[i] == tools[i]);
        let n = lemma_listed_tool(fewer, i);
        assert(tool_safety(tools)[n] == tool_safety(fewer)[n]);
        n
    }
}

/// What the list says of a tool, it says of one that is in it.
proof fn lemma_told_tool(tools: Seq<JsonModel>, n: int) -> (i: int)
    requires
        0 <= n < tool_safety(tools).len(),
    ensures
        0 <= i < tools.len(),
        field(tools[i], "name"@) == Some(JsonModel::Text(tool_safety(tools)[n].0)),
        tool_safety(tools)[n].1 == (field_in(field(tools[i], "annotations"@), "readOnlyHint"@)
            == Some(JsonModel::Bool(true)) && field_in(
            field(tools[i], "annotations"@),
            "destructiveHint"@,
        ) != Some(JsonModel::Bool(true))),
    decreases tools.len(),
{
    let fewer = tools.drop_last();
    let last = tools.last();
    if tools.len() == 0 {
        law_what_a_list_says(Seq::empty(), JsonModel::Null);
        assert(tools =~= Seq::empty());
        0
    } else {
        assert(tools =~= fewer.push(last));
        law_what_a_list_says(fewer, last);
        if n < tool_safety(fewer).len() {
            let i = lemma_told_tool(fewer, n);
            assert(fewer[i] == tools[i]);
            i
        } else {
            tools.len() - 1
        }
    }
}

proof fn lemma_mark_is_set(list: Seq<(Seq<char>, bool)>, n: int, now: int) -> (i: int)
    requires
        0 <= n < list.len(),
        !list[n].1,
    ensures
        0 <= i < markers(list, now).len(),
        markers(list, now)[i] == (
            "ann:unsafe:"@ + list[n].0,
            EntryModel { written_at: now, valid_until: now + 300, body: seq![49u8] },
        ),
    decreases list.len(),
{
    let fewer = list.drop_last();
    if n == list.len() - 1 {
        markers(fewer, now).len() as int
    } else {
        assert(fewer[n] == list[n]);
        let i = lemma_mark_is_set(fewer, n, now);
        i
    }
}

/// A tool that does not say that it only reads, or says that it destroys, is marked: where a
/// `tools/list` response has, in the list of its result, a tool with a name and with anything but
/// true for `readOnlyHint`, or with true for `destructiveHint`, the mark of that name is written
/// for three hundred seconds.
pub proof fn law_tools_that_write_are_marked(
    ctx: CtxModel,
    body: Seq<u8>,
    now: int,
    model: JsonModel,
    tools: Seq<JsonModel>,
    i: int,
    name: Seq<char>,
)
    requires
        ctx.method == "tools/list"@,
        extracted(body) is Some,
        json_read(extracted(body)->0) == Some(model),
        field_in(field(model, "result"@), "tools"@) == Some(JsonModel::Array(tools)),
        0 <= i < tools.len(),
        field(tools[i], "name"@) == Some(JsonModel::Text(name)),
        field_in(field(tools[i], "annotations"@), "readOnlyHint"@) != Some(JsonModel::Bool(true))
            || field_in(field(tools[i], "annotations"@), "destructiveHint"@) == Some(
            JsonModel::Bool(true),
        ),
    ensures
        marks_from(ctx, body, now).contains(
            (
                "ann:unsafe:"@ + name,
                EntryModel { written_at: now, valid_until: now + 300, body: seq![49u8] },
            ),
        ),
{
    let json = extracted(body)->0;
    law_where_the_list_stands(json, model);
    let n = lemma_listed_tool(tools, i);
    let at = lemma_mark_is_set(safety_of(json), n, now);
    assert(marks_from(ctx, body, now)[at] == markers(safety_of(json), now)[at]);
}

/// Every mark that a response sets is that of a tool in the list of its result that does not say
/// that it only reads, or says that it destroys. Only a `tools/list` response sets marks.
pub proof fn law_only_tools_that_write_are_marked(ctx: CtxModel, body: Seq<u8>, now: int, n: int)
    requires
        0 <= n < marks_from(ctx, body, now).len(),
    ensures
        ctx.method == "tools/list"@,
        extracted(body) is Some,
        json_read(extracted(body)->0) is Some,
        field_in(
            field(json_read(extracted(body)->0)->0, "result"@),
            "tools"@,
        ) matches Some(JsonModel::Array(tools)) && exists|i: int|
            0 <= i < tools.len() && (field(#[trigger] tools[i], "name"@) matches Some(
                JsonModel::Text(name),
            ) && marks_from(ctx, body, now)[n].0 == "ann:unsafe:"@ + name) && (field_in(
                field(tools[i], "annotations"@),
                "readOnlyHint"@,
            ) != Some(JsonModel::Bool(true)) || field_in(
                field(tools[i], "annotations"@),
                "destructiveHint"@,
            ) == Some(JsonModel::Bool(true))),
{
    let json = extracted(body)->0;
    let list = safety_of(json);
    let at = lemma_markers(list, now, n);
    let model = json_read(json)->0;
    law_where_the_list_stands(json, model);
    let tools = listed_tools(model);
    let i = lemma_told_tool(tools, at);
    assert(tools[i] == tools[i]);
}

/// The mark of a tool stands under the tool's name behind `ann:unsafe:`. While it is valid, a call
/// of the tool is forwarded, as bypassed, and nothing is kept of its response, whatever the policy
/// allows and whatever else the backend holds.
pub proof fn law_marked_tool_is_bypassed(
    policy: Policy,
    head: HeadModel,
    body: Seq<u8>,
    contents: Map<Seq<char>, RowModel>,
    now: int,
    tool: Seq<char>,
    mark: EntryModel,
)
    requires
        json_read(body) is Some,
        field(json_read(body)->0, "method"@) == Some(JsonModel::Text("tools/call"@)),
        field_in(field(json_read(body)->0, "params"@), "name"@) == Some(JsonModel::Text(tool)),
        contents.contains_key("ann:unsafe:"@ + tool),
        contents["ann:unsafe:"@ + tool] == RowModel::Entry(mark),
        now < mark.valid_until,
    ensures
        outcome(policy, head, body, contents, now) matches StepModel::Forward(ctx)
            && ctx.disposition == Disposition::Bypass && ctx.key is None,
{
    lemma_methods();
    assert(entry_at(contents, marker_key(tool), now) == Some(mark));
}

/// A tool that says that it only reads and does not say that it destroys is not marked by the
/// response that says so, where no other tool of its name stands in the list.
pub proof fn law_tools_that_only_read_are_not_marked(
    ctx: CtxModel,
    body: Seq<u8>,
    now: int,
    tools: Seq<JsonModel>,
    name: Seq<char>,
    n: int,
)
    requires
        extracted(body) is Some,
        json_read(extracted(body)->0) is Some,
        field_in(field(json_read(extracted(body)->0)->0, "result"@), "tools"@) == Some(
            JsonModel::Array(tools),
        ),
        forall|i: int|
            0 <= i < tools.len() && field(#[trigger] tools[i], "name"@) == Some(
                JsonModel::Text(name),
            ) ==> field_in(field(tools[i], "annotations"@), "readOnlyHint"@) == Some(
                JsonModel::Bool(true),
            ) && field_in(field(tools[i], "annotations"@), "destructiveHint"@) != Some(
                JsonModel::Bool(true),
            ),
        0 <= n < marks_from(ctx, body, now).len(),
    ensures
        marks_from(ctx, body, now)[n].0 != "ann:unsafe:"@ + name,
{
    let json = extracted(body)->0;
    let list = safety_of(json);
    let at = lemma_markers(list, now, n);
    law_where_the_list_stands(json, json_read(json)->0);
    let i = lemma_told_tool(tools, at);
    assert(tools[i] == tools[i]);
    if marks_from(ctx, body, now)[n].0 == "ann:unsafe:"@ + name {
        law_marker_keys_differ(list[at].0, name);
    }
}

// ---------------------------------------------------------------------------------------------
// Configurations and decisions
// ---------------------------------------------------------------------------------------------

/// What a configuration comes to: discovery is cached where that is not switched off and its time
/// is above zero, which is sixty seconds where none is given; a tool is found under its name where
/// it is listed, with the later of two settings; it is cached where it is switched on, kept for the
/// time given and for a second at least, and belongs to an identity where its scope says so.
pub proof fn law_what_a_configuration_means(policy: Policy, config: Config, i: int)
    requires
        resolves(policy, config),
    ensures
        config.discovery.ttl is None ==> policy.discovery_ttl == 60,
        config.discovery.ttl matches Some(ttl) ==> policy.discovery_ttl == if ttl < 0 {
            0
        } else {
            ttl as int
        },
        policy.discovery_cacheable <==> config.discovery.cacheable != Some(false)
            && policy.discovery_ttl > 0,
        config.tools matches Some(tools) ==> (0 <= i < tools@.len() && (forall|j: int|
            i < j < tools@.len() ==> (#[trigger] tools@[j]).name@ != tools@[i].name@) ==> {
            let tool = tools@[i];
            &&& policy.tools@.contains_key(tool.name@)
            &&& policy.tools@[tool.name@].cacheable == (tool.cacheable == Some(true))
            &&& policy.tools@[tool.name@].ttl == if tool.ttl < 1 {
                1
            } else {
                tool.ttl as int
            }
            &&& policy.tools@[tool.name@].scope == CacheScope::Identity <==> (tool.scope
                matches Some(scope) && scope@ == "identity"@)
        }),
        forall|name: Seq<char>| #[trigger]
            policy.tools@.contains_key(name) ==> (config.tools matches Some(tools) && exists|j: int|
                0 <= j < tools@.len() && (#[trigger] tools@[j]).name@ == name),
{
    if let Some(tools) = config.tools {
        if 0 <= i < tools@.len() && (forall|j: int|
            i < j < tools@.len() ==> (#[trigger] tools@[j]).name@ != tools@[i].name@) {
            law_later_settings_hold(tools@, i);
        }
    }
    assert forall|name: Seq<char>| #[trigger] policy.tools@.contains_key(name) implies (config.tools
        matches Some(tools) && exists|j: int|
        0 <= j < tools@.len() && (#[trigger] tools@[j]).name@ == name) by {
        law_only_listed_tools(configured_tools(config), name);
    }
}

/// A flag is what is given, and otherwise its default; entries are shared by replicas only where
/// that is switched on. What a distributed storage holds is kept as long as the policy keeps
/// anything, and sixty seconds at least: the longest of these times, and no other.
pub proof fn law_what_defaults_mean(flag: bool, default: bool, policy: Policy, seconds: int)
    ensures
        flag_or(Some(flag), default) == flag,
        flag_or(None, default) == default,
        DEFAULT_DISTRIBUTED == false,
        is_longest(policy, seconds) <==> {
            &&& seconds >= 60
            &&& seconds >= policy.discovery_ttl
            &&& forall|name: Seq<char>| #[trigger]
                policy.tools@.contains_key(name) ==> policy.tools@[name].ttl <= seconds
            &&& seconds == 60 || seconds == policy.discovery_ttl || exists|name: Seq<char>|
                #[trigger]
                policy.tools@.contains_key(name) && policy.tools@[name].ttl == seconds
        },
{
}

/// How many entries a local cache holds and how long a distributed storage keeps its rows: what is
/// configured, within one and what a `u32` holds, a thousand where nothing is said; and a thousand
/// milliseconds for each second, as far as a `u32` holds them.
pub proof fn law_what_sizes_mean(m: i64, seconds: int)
    requires
        seconds >= 0,
    ensures
        entries_in(None) == 1000,
        1 <= m <= 0xffff_ffff ==> entries_in(Some(m)) == m,
        m < 1 ==> entries_in(Some(m)) == 1,
        m > 0xffff_ffff ==> entries_in(Some(m)) == 0xffff_ffff,
        seconds * 1000 <= 0xffff_ffff ==> in_millis(seconds) == seconds * 1000,
        seconds * 1000 > 0xffff_ffff ==> in_millis(seconds) == 0xffff_ffff,
{
}

/// A discovery request is cached for all callers and for the time of discovery exactly where
/// discovery is cached; the call of a tool for the time and in the scope of the tool exactly where
/// the tool is listed, switched on and not known to be unsafe, and there is a key; and no other
/// request is.
pub proof fn law_what_is_decided(
    policy: Policy,
    known_unsafe: bool,
    request: RequestModel,
    params: JsonModel,
    identity: IdentityModel,
    key: Seq<char>,
    ttl: int,
)
    ensures
        decision(policy, known_unsafe, request, params, identity) == (DecisionModel::Cache {
            key,
            ttl,
        }) <==> {
            ||| {
                &&& request.method == "tools/list"@ || request.method == "resources/list"@
                    || request.method == "prompts/list"@
                &&& policy.discovery_cacheable
                &&& ttl == policy.discovery_ttl
                &&& key_of(request.method, params, CacheScope::Shared, identity) == Some(key)
            }
            ||| {
                &&& request.method == "tools/call"@
                &&& request.tool_name matches Some(name)
                &&& policy.tools@.contains_key(name)
                &&& policy.tools@[name].cacheable
                &&& !known_unsafe
                &&& ttl == policy.tools@[name].ttl
                &&& key_of(request.method, params, policy.tools@[name].scope, identity) == Some(
                    key,
                )
            }
        },
{
    lemma_methods();
    law_what_methods_are(request.method);
    let place = placement(policy, known_unsafe, request.method, request.tool_name);
    assert(is_discovery(request.method) ==> place == if policy.discovery_cacheable {
        Some((policy.discovery_ttl, CacheScope::Shared))
    } else {
        None
    });
    if request.method == "tools/call"@ {
        assert(!is_discovery(request.method) && !is_notice(request.method));
    }
}

// ---------------------------------------------------------------------------------------------
// Backends
// ---------------------------------------------------------------------------------------------

/// The local backend removes what is not usable and replaces what is there; the gossip backend
/// removes nothing, and replaces nothing but marks.
pub proof fn law_what_the_backends_do<C, S>(local: LocalStore<C>, gossip: GossipStore<S>)
    ensures
        local.evicts(),
        local.overwrites(Written::Response),
        local.overwrites(Written::Mark),
        !gossip.evicts(),
        !gossip.overwrites(Written::Response),
        gossip.overwrites(Written::Mark),
{
}

/// A reader gets an entry exactly where it stands under the key and the time until which it is
/// valid has not come. A read removes a row exactly where the backend evicts and the row is no such
/// entry; nothing that failed or is missing is removed.
pub proof fn law_what_a_reader_gets(
    contents: Map<Seq<char>, RowModel>,
    key: Seq<char>,
    now: int,
    entry: EntryModel,
    evicts: bool,
    other: Seq<char>,
)
    ensures
        entry_at(contents, key, now) == Some(entry) <==> contents.contains_key(key) && contents[key]
            == RowModel::Entry(entry) && now < entry.valid_until,
        after_get(contents, evicts, key, now).contains_key(other) <==> contents.contains_key(other)
            && !(evicts && other == key && !(contents[key] matches RowModel::Entry(found) && now
            < found.valid_until)),
        after_get(contents, evicts, key, now).contains_key(other) ==> after_get(
            contents,
            evicts,
            key,
            now,
        )[other] == contents[other],
{
}

/// What was found under a key: nothing where nothing is there and where the backend failed, and
/// otherwise a row, which is the entry itself or no entry.
pub proof fn law_what_was_found(row: Row)
    ensures
        row is Missing || row is Failed <==> row_model(row) is None,
        row is Unreadable <==> row_model(row) == Some(RowModel::Unreadable),
        row matches Row::Entry(found) ==> row_model(row) == Some(
            RowModel::Entry(
                EntryModel {
                    written_at: found.written_at as int,
                    valid_until: found.valid_until as int,
                    body: found.body@,
                },
            ),
        ),
{
}

/// A point in time is the whole seconds that have gone by since the epoch, and zero before it.
pub proof fn law_what_the_time_is(time: std::time::SystemTime)
    ensures
        elapsed_since_epoch(time) is None ==> epoch_seconds(time) == 0,
        elapsed_since_epoch(time) matches Some(elapsed) ==> epoch_seconds(time) == duration_secs(
            elapsed,
        ),
{
}

// ---------------------------------------------------------------------------------------------
// What values stand for
// ---------------------------------------------------------------------------------------------

/// The head of a request stands for its method and headers, each for itself: the principal is the
/// header of the forwarded user, and the session that of the session.
pub proof fn law_what_a_head_is(head: RequestHead, text: Seq<char>)
    ensures
        head@.http_method == head.http_method@,
        head@.content_type == Some(text) <==> (head.content_type matches Some(t) && t@ == text),
        head@.cache_control == Some(text) <==> (head.cache_control matches Some(t) && t@ == text),
        head@.identity.principal == Some(text) <==> (head.principal matches Some(t) && t@ == text),
        head@.identity.session == Some(text) <==> (head.session matches Some(t) && t@ == text),
{
}

/// What is kept of a request, and what is answered, stand for what their fields hold.
pub proof fn law_what_contexts_and_answers_are(
    ctx: MissCtx,
    answer: Answer,
    text: Seq<char>,
    i: int,
)
    ensures
        ctx@.disposition == ctx.disposition,
        ctx@.key == Some(text) <==> (ctx.key matches Some(t) && t@ == text),
        ctx@.ttl == ctx.ttl,
        ctx@.method == ctx.method@,
        answer@.status == answer.status,
        answer@.headers.len() == answer.headers@.len(),
        0 <= i < answer.headers@.len() ==> answer@.headers[i] == (
            answer.headers@[i].0@,
            answer.headers@[i].1@,
        ),
        answer@.body == answer.body@,
{
}

/// A request stands for its id, its method and the tool it names.
pub proof fn law_what_requests_stand_for(request: McpRequest, text: Seq<char>, n: int)
    ensures
        request@.method == request.method@,
        request@.tool_name == Some(text) <==> (request.tool_name matches Some(t) && t@ == text),
        request@.id == IdModel::Number(n) <==> (request.id matches RequestId::Number(m) && m == n),
        request@.id == IdModel::Text(text) <==> (request.id matches RequestId::String(t) && t@
            == text),
{
}

/// An event and a step stand for what they are and hold.
pub proof fn law_what_events_and_steps_stand_for(event: RpcEvent, decided: Decision, step: Step)
    ensures
        event@ is Notification <==> event is Notification,
        event@ is Unsafe <==> event is Unsafe,
        event matches RpcEvent::Terminal(bytes) ==> event@ == EventModel::Terminal(bytes@),
        decided@ is Bypass <==> decided is Bypass,
        decided matches Decision::Cache { key, ttl } ==> decided@ == (DecisionModel::Cache {
            key: key@,
            ttl: ttl as int,
        }),
        step matches Step::Forward(ctx) ==> step@ == StepModel::Forward(ctx@),
        step matches Step::Answer(answer) ==> step@ == StepModel::Answer(answer@),
        step matches Step::ReadEntry(pending) ==> step@ == StepModel::ReadEntry(pending@),
        step matches Step::ReadMarker { key, pending } ==> step@ == (StepModel::ReadMarker {
            key: key@,
            pending: pending@,
        }),
{
}

/// A request that waits for what is read stands for what its fields hold.
pub proof fn law_what_pending_requests_stand_for(pending: Pending)
    ensures
        pending@.id == pending.id@,
        pending@.method == pending.method@,
        pending@.key == pending.key@,
        pending@.ttl == pending.ttl,
        pending@.fresh == pending.fresh,
{
}

/// A list stands for its items, one by one and in order.
pub proof fn law_what_lists_stand_for(
    writes: Seq<(String, CachedEntry)>,
    safety: Seq<(String, bool)>,
    bytes: Seq<Vec<u8>>,
    events: Seq<RpcEvent>,
    i: int,
)
    ensures
        writes_model(writes).len() == writes.len(),
        0 <= i < writes.len() ==> writes_model(writes)[i] == (writes[i].0@, writes[i].1@),
        safety_model(safety).len() == safety.len(),
        0 <= i < safety.len() ==> safety_model(safety)[i] == (safety[i].0@, safety[i].1),
        byte_strings(bytes).len() == bytes.len(),
        0 <= i < bytes.len() ==> byte_strings(bytes)[i] == bytes[i]@,
        event_models(events).len() == events.len(),
        0 <= i < events.len() ==> event_models(events)[i] == events[i]@,
{
}

/// What may be missing stands for what is there, where it is there.
pub proof fn law_what_options_stand_for(
    text: Option<String>,
    bytes: Option<Vec<u8>>,
    entry: Option<CachedEntry>,
    request: Option<McpRequest>,
)
    ensures
        optional_text(text) is Some <==> text is Some,
        text matches Some(t) ==> optional_text(text) == Some(t@),
        optional_bytes(bytes) is Some <==> bytes is Some,
        bytes matches Some(b) ==> optional_bytes(bytes) == Some(b@),
        optional_entry(entry) is Some <==> entry is Some,
        entry matches Some(e) ==> optional_entry(entry) == Some(e@),
        optional_request(request) is Some <==> request is Some,
        request matches Some(r) ==> optional_request(request) == Some(r@),
{
}

/// A request that is bypassed leaves a context without a key, so that nothing is kept; one that is
/// forwarded with a key leaves that key, its time and its method.
pub proof fn law_what_a_context_holds(
    method: Seq<char>,
    pending: PendingModel,
    disposition: Disposition,
)
    ensures
        bypassed(method).disposition == Disposition::Bypass,
        bypassed(method).key is None,
        bypassed(method).method == method,
        kept(pending, disposition).disposition == disposition,
        kept(pending, disposition).key == Some(pending.key),
        kept(pending, disposition).ttl == pending.ttl,
        kept(pending, disposition).method == pending.method,
{
}

} // verus!
