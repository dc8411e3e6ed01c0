//! What the cache promises as a whole: what becomes of a request, given what the backend holds,
//! and how a response that was kept answers later requests.

use crate::annotations::{
    law_unsafe_tool_is_remembered, lemma_markers, marker_key, markers, ANNOTATION_TTL_SECS,
};
use crate::flow::{
    asks_for_fresh, bypassed, entries_from, entry_step, first_step, hit, is_candidate, kept,
    marker_step, marks_from, params_in, CtxModel, Disposition, HeadModel,
    PendingModel, StepModel,
};
use crate::json::{
    canonical, field, field_in, lemma_canonical_kind, same_up_to_member_order, JsonModel,
};
use crate::key::{
    key_of, law_identity_key_partitions, law_key_disregards_member_order, law_key_names_the_method,
    or_empty, sha256, CacheScope, IdentityModel,
};
use crate::mcp::{
    extracted, is_cacheable, is_discovery, is_success, law_extracted_is_an_object,
    law_restamp_changes_the_id_only, law_restamp_keeps_success, request_in, restamped, safety_of,
    with_id, RequestModel, PROMPTS_LIST, RESOURCES_LIST, TOOLS_CALL, TOOLS_LIST,
};
use crate::policy::{decision, lemma_methods, placement, DecisionModel, Policy};
use crate::store::{
    after_get, after_put, after_puts, entry_at, lemma_puts_elsewhere, row_at, EntryModel, RowModel,
};
use crate::wire::{json_read, json_text};
use vstd::prelude::*;
use vstd::utf8::*;

verus! {

// ---------------------------------------------------------------------------------------------
// What becomes of a request
// ---------------------------------------------------------------------------------------------

/// A step that asks for an entry, with the entry that the backend gives.
pub open spec fn with_entry(
    step: StepModel,
    contents: Map<Seq<char>, RowModel>,
    now: int,
) -> StepModel {
    match step {
        StepModel::ReadEntry(pending) => entry_step(
            entry_at(contents, pending.key, now),
            pending,
        ),
        other => other,
    }
}

/// A step that asks for a mark, with the mark that the backend gives.
pub open spec fn with_marker(
    step: StepModel,
    contents: Map<Seq<char>, RowModel>,
    now: int,
) -> StepModel {
    match step {
        StepModel::ReadMarker { key, pending } => marker_step(
            entry_at(contents, key, now) is Some,
            pending,
        ),
        other => other,
    }
}

/// What becomes of a request at `now`, where the backend holds `contents`.
pub open spec fn outcome(
    policy: Policy,
    head: HeadModel,
    body: Seq<u8>,
    contents: Map<Seq<char>, RowModel>,
    now: int,
) -> StepModel {
    with_entry(with_marker(first_step(policy, head, body), contents, now), contents, now)
}

/// The tool that a request calls is marked.
pub open spec fn is_marked(
    request: RequestModel,
    contents: Map<Seq<char>, RowModel>,
    now: int,
) -> bool {
    &&& request.method == TOOLS_CALL@
    &&& request.tool_name matches Some(tool)
    &&& entry_at(contents, marker_key(tool), now) is Some
}

/// Every request is either forwarded or answered: the cache blocks nothing.
pub proof fn law_every_request_goes_on(
    policy: Policy,
    head: HeadModel,
    body: Seq<u8>,
    contents: Map<Seq<char>, RowModel>,
    now: int,
)
    ensures
        outcome(policy, head, body, contents, now) is Forward || outcome(
            policy,
            head,
            body,
            contents,
            now,
        ) is Answer,
{
}

/// A request that is no POST of JSON, or whose body is no JSON-RPC 2.0 request, is forwarded, and
/// nothing is kept of its response.
pub proof fn law_other_traffic_passes(
    policy: Policy,
    head: HeadModel,
    body: Seq<u8>,
    contents: Map<Seq<char>, RowModel>,
    now: int,
)
    requires
        !is_candidate(head) || json_read(body) is None || request_in(json_read(body)->0) is None,
    ensures
        outcome(policy, head, body, contents, now) == StepModel::Forward(bypassed(Seq::empty())),
{
}

/// The id of a message.
pub open spec fn id_of(body: Seq<u8>) -> Option<JsonModel> {
    field_in(json_read(body), "id"@)
}

/// A message without an id is never cached and never answered: it is forwarded, and nothing is
/// kept of its response.
pub proof fn law_message_without_id_passes(
    policy: Policy,
    head: HeadModel,
    body: Seq<u8>,
    contents: Map<Seq<char>, RowModel>,
    now: int,
)
    requires
        id_of(body) is None,
    ensures
        outcome(policy, head, body, contents, now) matches StepModel::Forward(ctx) && ctx.key
            is None && ctx.disposition == Disposition::Bypass,
        is_candidate(head) && json_read(body) is Some && request_in(
            json_read(body)->0,
        ) is Some ==> outcome(policy, head, body, contents, now) == StepModel::Forward(
            bypassed(request_in(json_read(body)->0)->0.method),
        ),
{
}

/// What becomes of a request with an id follows what is decided about it, the mark of its tool
/// considered: it is bypassed, or forwarded for a fresh answer, or looked up.
pub proof fn law_outcome_follows_the_decision(
    policy: Policy,
    head: HeadModel,
    body: Seq<u8>,
    contents: Map<Seq<char>, RowModel>,
    now: int,
)
    requires
        is_candidate(head),
        json_read(body) is Some,
        request_in(json_read(body)->0) is Some,
        id_of(body) is Some,
    ensures
        ({
            let request = request_in(json_read(body)->0)->0;
            let marked = is_marked(request, contents, now);
            let params = params_in(json_read(body)->0);
            outcome(policy, head, body, contents, now) == match decision(
                policy,
                marked,
                request,
                params,
                head.identity,
            ) {
                DecisionModel::Bypass => StepModel::Forward(bypassed(request.method)),
                DecisionModel::Cache { key, ttl } => {
                    let pending = PendingModel {
                        id: id_of(body)->0,
                        method: request.method,
                        key,
                        ttl,
                        fresh: asks_for_fresh(head),
                    };
                    if asks_for_fresh(head) {
                        StepModel::Forward(kept(pending, Disposition::Bypass))
                    } else {
                        entry_step(entry_at(contents, key, now), pending)
                    }
                },
            }
        }),
{
    lemma_methods();
}

/// A caller that asks for a fresh answer gets one: the request is forwarded and marked as
/// bypassed. Where its answer may be cached at all, it is kept.
pub proof fn law_fresh_answer_is_fetched_and_kept(
    policy: Policy,
    head: HeadModel,
    body: Seq<u8>,
    contents: Map<Seq<char>, RowModel>,
    now: int,
)
    requires
        asks_for_fresh(head),
    ensures
        outcome(policy, head, body, contents, now) matches StepModel::Forward(ctx)
            && ctx.disposition == Disposition::Bypass,
        is_candidate(head) && json_read(body) is Some && request_in(
            json_read(body)->0,
        ) is Some && id_of(body) is Some ==> {
            let request = request_in(json_read(body)->0)->0;
            decision(
                policy,
                is_marked(request, contents, now),
                request,
                params_in(json_read(body)->0),
                head.identity,
            ) matches DecisionModel::Cache { key, ttl } ==> outcome(
                policy,
                head,
                body,
                contents,
                now,
            )->Forward_0 == (CtxModel {
                disposition: Disposition::Bypass,
                key: Some(key),
                ttl,
                method: request.method,
            })
        },
{
    lemma_methods();
}

// ---------------------------------------------------------------------------------------------
// What is kept
// ---------------------------------------------------------------------------------------------

/// Nothing is kept of the response to a request that was bypassed.
pub proof fn law_bypassed_response_is_not_kept(method: Seq<char>, body: Seq<u8>, now: int)
    ensures
        entries_from(bypassed(method), body, now) == Seq::<(Seq<char>, EntryModel)>::empty(),
{
}

/// An error, a tool's error, a stream that cannot be reduced to one message, and anything that is
/// no JSON-RPC response are not kept.
pub proof fn law_only_successes_are_kept(ctx: CtxModel, body: Seq<u8>, now: int)
    requires
        extracted(body) matches Some(json) ==> !is_cacheable(json),
    ensures
        entries_from(ctx, body, now) == Seq::<(Seq<char>, EntryModel)>::empty(),
{
}

proof fn lemma_first_letters()
    ensures
        TOOLS_LIST@.len() > 0 && TOOLS_LIST@[0] == 't',
        TOOLS_CALL@.len() > 0 && TOOLS_CALL@[0] == 't',
        RESOURCES_LIST@.len() > 0 && RESOURCES_LIST@[0] == 'r',
        PROMPTS_LIST@.len() > 0 && PROMPTS_LIST@[0] == 'p',
        forall|tool: Seq<char>| (#[trigger] marker_key(tool)).len() > 0 && marker_key(tool)[0]
            == 'a',
        TOOLS_LIST@ != TOOLS_CALL@,
{
    reveal_strlit("tools/list");
    reveal_strlit("tools/call");
    reveal_strlit("resources/list");
    reveal_strlit("prompts/list");
    reveal_strlit("ann:unsafe:");
    assert(TOOLS_LIST@[6] == 'l' && TOOLS_CALL@[6] == 'c');
}

/// The key of an answer is never the key of a mark.
pub proof fn law_keys_and_marks_do_not_meet(
    method: Seq<char>,
    params: JsonModel,
    scope: CacheScope,
    identity: IdentityModel,
    tool: Seq<char>,
)
    requires
        is_discovery(method) || method == TOOLS_CALL@,
    ensures
        key_of(method, params, scope, identity) != Some(marker_key(tool)),
{
    lemma_first_letters();
    law_key_names_the_method(method, params, scope, identity);
    if let Some(key) = key_of(method, params, scope, identity) {
        assert(key.subrange(0, method.len() as int + 1)[0] == method.push(':')[0]);
        assert(key[0] == method[0]);
        assert(marker_key(tool)[0] == 'a');
    }
}

/// A context that keeps its answer keeps it under the key of its request.
proof fn lemma_kept_key(
    policy: Policy,
    head: HeadModel,
    body: Seq<u8>,
    contents: Map<Seq<char>, RowModel>,
    now: int,
    ctx: CtxModel,
)
    requires
        outcome(policy, head, body, contents, now) == StepModel::Forward(ctx),
        ctx.key is Some,
    ensures
        is_candidate(head),
        json_read(body) is Some,
        request_in(json_read(body)->0) is Some,
        id_of(body) is Some,
        ({
            let request = request_in(json_read(body)->0)->0;
            let params = params_in(json_read(body)->0);
            &&& ctx.method == request.method
            &&& !is_marked(request, contents, now)
            &&& is_discovery(request.method) || request.method == TOOLS_CALL@
            &&& decision(policy, false, request, params, head.identity) == (DecisionModel::Cache {
                key: ctx.key->0,
                ttl: ctx.ttl,
            })
        }),
{
    lemma_methods();
}

proof fn lemma_kept_key_is_no_marker(
    policy: Policy,
    head: HeadModel,
    body: Seq<u8>,
    contents: Map<Seq<char>, RowModel>,
    now: int,
    ctx: CtxModel,
    tool: Seq<char>,
)
    requires
        outcome(policy, head, body, contents, now) == StepModel::Forward(ctx),
    ensures
        ctx.key != Some(marker_key(tool)),
{
    if ctx.key is Some {
        lemma_kept_key(policy, head, body, contents, now, ctx);
        let request = request_in(json_read(body)->0)->0;
        let params = params_in(json_read(body)->0);
        let place = placement(policy, false, request.method, request.tool_name)->0;
        law_keys_and_marks_do_not_meet(request.method, params, place.1, head.identity, tool);
    }
}

/// What a backend holds after a response: its marks are written, in every backend in place of
/// those that were there, and then the entry. `overwrites` says whether the backend replaces a
/// response that is there.
pub open spec fn after_response(
    contents: Map<Seq<char>, RowModel>,
    overwrites: bool,
    ctx: CtxModel,
    body: Seq<u8>,
    now: int,
) -> Map<Seq<char>, RowModel> {
    after_puts(
        after_puts(contents, true, marks_from(ctx, body, now)),
        overwrites,
        entries_from(ctx, body, now),
    )
}

/// What the backend holds under a mark's key after a response is what the marks of the response
/// leave there.
proof fn lemma_marks_last(
    contents: Map<Seq<char>, RowModel>,
    overwrites: bool,
    ctx: CtxModel,
    body: Seq<u8>,
    now: int,
    tool: Seq<char>,
)
    requires
        ctx.key != Some(marker_key(tool)),
    ensures
        row_at(after_response(contents, overwrites, ctx, body, now), marker_key(tool)) == row_at(
            after_puts(contents, true, marks_from(ctx, body, now)),
            marker_key(tool),
        ),
{
    lemma_puts_elsewhere(
        after_puts(contents, true, marks_from(ctx, body, now)),
        overwrites,
        entries_from(ctx, body, now),
        marker_key(tool),
    );
}

/// Two callers share the entry for a request: they are the same, or the request is cached for all
/// callers.
pub open spec fn share_entry(
    policy: Policy,
    request: RequestModel,
    a: IdentityModel,
    b: IdentityModel,
) -> bool {
    a == b || (placement(policy, false, request.method, request.tool_name) matches Some(place)
        && place.1 == CacheScope::Shared)
}

/// The two messages are requests for the same method and tool, and their parameters differ at most
/// in the order of members.
pub open spec fn ask_the_same(a: Seq<u8>, b: Seq<u8>) -> bool {
    &&& json_read(a) is Some
    &&& json_read(b) is Some
    &&& request_in(json_read(a)->0) is Some
    &&& request_in(json_read(b)->0) is Some
    &&& request_in(json_read(a)->0)->0.method == request_in(json_read(b)->0)->0.method
    &&& request_in(json_read(a)->0)->0.tool_name == request_in(json_read(b)->0)->0.tool_name
    &&& same_up_to_member_order(params_in(json_read(a)->0), params_in(json_read(b)->0))
}

/// What was kept answers later requests like it. A request was forwarded, whatever the backend held
/// then. When its response was kept, at `now`, a request that asks the same is answered with it and
/// with its own id, as long as the entry is valid and the tool is not marked: whoever sends it,
/// where the method is one of discovery or the tool is shared, and otherwise for the same principal
/// and session. In a backend that does not overwrite, nothing may have been there when the response
/// arrived.
pub proof fn law_kept_response_answers_later_requests(
    policy: Policy,
    first: HeadModel,
    first_body: Seq<u8>,
    before: Map<Seq<char>, RowModel>,
    asked: int,
    second: HeadModel,
    second_body: Seq<u8>,
    contents: Map<Seq<char>, RowModel>,
    overwrites: bool,
    ctx: CtxModel,
    response: Seq<u8>,
    now: int,
    later: int,
)
    requires
        outcome(policy, first, first_body, before, asked) == StepModel::Forward(ctx),
        ctx.key is Some,
        overwrites || !contents.contains_key(ctx.key->0),
        extracted(response) matches Some(json) && is_cacheable(json),
        is_candidate(second),
        !asks_for_fresh(second),
        ask_the_same(first_body, second_body),
        id_of(second_body) is Some,
        share_entry(
            policy,
            request_in(json_read(first_body)->0)->0,
            first.identity,
            second.identity,
        ),
        !is_marked(request_in(json_read(second_body)->0)->0, contents, later),
        later < now + ctx.ttl,
    ensures
        restamped(extracted(response)->0, id_of(second_body)->0) is Some,
        outcome(
            policy,
            second,
            second_body,
            after_response(contents, overwrites, ctx, response, now),
            later,
        ) == StepModel::Answer(
            hit(restamped(extracted(response)->0, id_of(second_body)->0)->0),
        ),
{
    lemma_kept_key(policy, first, first_body, before, asked, ctx);
    lemma_methods();
    lemma_first_letters();
    law_extracted_is_an_object(response);
    let json = extracted(response)->0;
    let key = ctx.key->0;
    let one = request_in(json_read(first_body)->0)->0;
    let two = request_in(json_read(second_body)->0)->0;
    let marks = marks_from(ctx, response, now);
    let entry = EntryModel { written_at: now, valid_until: now + ctx.ttl, body: json };
    let all = entries_from(ctx, response, now);
    assert(all =~= seq![(key, entry)]);
    assert(all.drop_last() =~= Seq::empty());
    let marked = after_puts(contents, true, marks);
    let after = after_response(contents, overwrites, ctx, response, now);
    assert(after_puts(marked, overwrites, all.drop_last()) == marked);
    assert(after == after_put(marked, overwrites, key, entry));
    // No mark stands under the key, so the entry is written.
    assert forall|i: int| 0 <= i < marks.len() implies (#[trigger] marks[i]).0 != key by {
        let n = lemma_markers(safety_of(json), now, i);
        lemma_kept_key_is_no_marker(
            policy,
            first,
            first_body,
            before,
            asked,
            ctx,
            safety_of(json)[n].0,
        );
    }
    lemma_puts_elsewhere(contents, true, marks, key);
    assert(entry_at(after, key, later) == Some(entry));
    // The key is that of the second request too.
    let place = placement(policy, false, one.method, one.tool_name)->0;
    law_key_disregards_member_order(
        one.method,
        params_in(json_read(first_body)->0),
        params_in(json_read(second_body)->0),
        place.1,
        first.identity,
    );
    // The tool is not marked now either, for only `tools/list` responses set marks.
    if two.method == TOOLS_CALL@ {
        assert(marks =~= Seq::empty());
        if let Some(tool) = two.tool_name {
            lemma_kept_key_is_no_marker(policy, first, first_body, before, asked, ctx, tool);
            assert(row_at(after, marker_key(tool)) == row_at(contents, marker_key(tool)));
            assert(entry_at(after, marker_key(tool), later) is None);
        }
    }
    law_outcome_follows_the_decision(policy, second, second_body, after, later);
}

/// What was kept answers the next request like it. Where nothing else happened between a request,
/// its response and the next request, the tool is not marked in between.
pub proof fn law_kept_response_answers_the_next_request(
    policy: Policy,
    first: HeadModel,
    first_body: Seq<u8>,
    second: HeadModel,
    second_body: Seq<u8>,
    contents: Map<Seq<char>, RowModel>,
    overwrites: bool,
    ctx: CtxModel,
    response: Seq<u8>,
    now: int,
    later: int,
)
    requires
        outcome(policy, first, first_body, contents, now) == StepModel::Forward(ctx),
        ctx.key is Some,
        overwrites || !contents.contains_key(ctx.key->0),
        extracted(response) matches Some(json) && is_cacheable(json),
        is_candidate(second),
        !asks_for_fresh(second),
        ask_the_same(first_body, second_body),
        id_of(second_body) is Some,
        share_entry(
            policy,
            request_in(json_read(first_body)->0)->0,
            first.identity,
            second.identity,
        ),
        now <= later < now + ctx.ttl,
    ensures
        restamped(extracted(response)->0, id_of(second_body)->0) is Some,
        outcome(
            policy,
            second,
            second_body,
            after_response(contents, overwrites, ctx, response, now),
            later,
        ) == StepModel::Answer(
            hit(restamped(extracted(response)->0, id_of(second_body)->0)->0),
        ),
{
    lemma_kept_key(policy, first, first_body, contents, now, ctx);
    law_kept_response_answers_later_requests(
        policy,
        first,
        first_body,
        contents,
        now,
        second,
        second_body,
        contents,
        overwrites,
        ctx,
        response,
        now,
        later,
    );
}

/// Callers of a tool whose entries belong to an identity are kept apart: what is kept for one
/// caller, whenever the response arrives, changes nothing for another whose principal or session
/// has another hash, and who asks the same.
pub proof fn law_callers_are_kept_apart(
    policy: Policy,
    first: HeadModel,
    first_body: Seq<u8>,
    before: Map<Seq<char>, RowModel>,
    asked: int,
    second: HeadModel,
    second_body: Seq<u8>,
    contents: Map<Seq<char>, RowModel>,
    overwrites: bool,
    ctx: CtxModel,
    response: Seq<u8>,
    tool: Seq<char>,
    now: int,
    later: int,
)
    requires
        outcome(policy, first, first_body, before, asked) == StepModel::Forward(ctx),
        is_candidate(first),
        ask_the_same(first_body, second_body),
        request_in(json_read(first_body)->0)->0.method == TOOLS_CALL@,
        request_in(json_read(first_body)->0)->0.tool_name == Some(tool),
        policy.tools@.contains_key(tool) ==> policy.tools@[tool].scope == CacheScope::Identity,
        identity_hash(first.identity.principal) != identity_hash(second.identity.principal)
            || identity_hash(first.identity.session) != identity_hash(second.identity.session),
    ensures
        outcome(
            policy,
            second,
            second_body,
            after_response(contents, overwrites, ctx, response, now),
            later,
        ) == outcome(policy, second, second_body, contents, later),
{
    lemma_methods();
    lemma_first_letters();
    let method = TOOLS_CALL@;
    let params = params_in(json_read(first_body)->0);
    let others = params_in(json_read(second_body)->0);
    let all = entries_from(ctx, response, now);
    let after = after_response(contents, overwrites, ctx, response, now);
    assert(ctx.method == TOOLS_CALL@);
    assert(marks_from(ctx, response, now) =~= Seq::empty());
    if all.len() == 0 {
        assert(after == contents);
    } else {
        let key = ctx.key->0;
        assert(all.len() == 1 && all[0].0 == key);
        lemma_kept_key(policy, first, first_body, before, asked, ctx);
        lemma_kept_key_is_no_marker(policy, first, first_body, before, asked, ctx, tool);
        lemma_puts_elsewhere(contents, overwrites, all, marker_key(tool));
        law_key_disregards_member_order(
            method,
            params,
            others,
            CacheScope::Identity,
            second.identity,
        );
        let other = key_of(method, others, CacheScope::Identity, second.identity);
        if other is Some {
            law_identity_key_partitions(method, params, first.identity, second.identity);
            lemma_puts_elsewhere(contents, overwrites, all, other->0);
        }
    }
}

/// The hash by which a key knows a principal or a session.
pub open spec fn identity_hash(text: Option<Seq<char>>) -> Seq<u8> {
    sha256(encode_utf8(or_empty(text)))
}

/// Once a `tools/list` response was seen that reports a tool as not safe, calls of that tool are
/// neither answered nor kept for as long as the mark lasts, even where the tool is listed, and
/// whatever the backend held when the list was asked for and when it arrived.
pub proof fn law_unsafe_tool_is_never_cached(
    policy: Policy,
    first: HeadModel,
    first_body: Seq<u8>,
    before: Map<Seq<char>, RowModel>,
    asked: int,
    second: HeadModel,
    second_body: Seq<u8>,
    contents: Map<Seq<char>, RowModel>,
    overwrites: bool,
    ctx: CtxModel,
    response: Seq<u8>,
    n: int,
    now: int,
    later: int,
)
    requires
        outcome(policy, first, first_body, before, asked) == StepModel::Forward(ctx),
        ctx.method == TOOLS_LIST@,
        extracted(response) is Some,
        0 <= n < safety_of(extracted(response)->0).len(),
        !safety_of(extracted(response)->0)[n].1,
        is_candidate(second),
        json_read(second_body) is Some,
        request_in(json_read(second_body)->0) is Some,
        request_in(json_read(second_body)->0)->0.method == TOOLS_CALL@,
        request_in(json_read(second_body)->0)->0.tool_name == Some(
            safety_of(extracted(response)->0)[n].0,
        ),
        later < now + ANNOTATION_TTL_SECS,
    ensures
        outcome(
            policy,
            second,
            second_body,
            after_response(contents, overwrites, ctx, response, now),
            later,
        ) == StepModel::Forward(bypassed(TOOLS_CALL@)),
{
    let list = safety_of(extracted(response)->0);
    let tool = list[n].0;
    let after = after_response(contents, overwrites, ctx, response, now);
    lemma_methods();
    assert(marks_from(ctx, response, now) == markers(list, now));
    law_unsafe_tool_is_remembered(contents, list, n, now, later);
    lemma_kept_key_is_no_marker(policy, first, first_body, before, asked, ctx, tool);
    lemma_marks_last(contents, overwrites, ctx, response, now, tool);
    assert(entry_at(after, marker_key(tool), later) is Some);
    if id_of(second_body) is Some {
        law_outcome_follows_the_decision(policy, second, second_body, after, later);
    }
}

// ---------------------------------------------------------------------------------------------
// What an answer is
// ---------------------------------------------------------------------------------------------

/// A request is answered from the cache only where that is decided about it and the caller does
/// not ask for a fresh answer; the answer is the valid entry under the key of the request, with
/// the id of the request.
pub proof fn law_answer_is_the_entry_of_the_request(
    policy: Policy,
    head: HeadModel,
    body: Seq<u8>,
    contents: Map<Seq<char>, RowModel>,
    now: int,
)
    requires
        outcome(policy, head, body, contents, now) is Answer,
    ensures
        is_candidate(head),
        !asks_for_fresh(head),
        json_read(body) is Some,
        request_in(json_read(body)->0) is Some,
        id_of(body) is Some,
        ({
            let request = request_in(json_read(body)->0)->0;
            let decided = decision(
                policy,
                is_marked(request, contents, now),
                request,
                params_in(json_read(body)->0),
                head.identity,
            );
            &&& decided is Cache
            &&& entry_at(contents, decided->key, now) matches Some(entry)
            &&& restamped(entry.body, id_of(body)->0) matches Some(answer)
            &&& outcome(policy, head, body, contents, now) == StepModel::Answer(hit(answer))
        }),
{
    lemma_answered_is_read(policy, head, body, contents, now);
    law_outcome_follows_the_decision(policy, head, body, contents, now);
}

/// Only what is read as a request is answered.
proof fn lemma_answered_is_read(
    policy: Policy,
    head: HeadModel,
    body: Seq<u8>,
    contents: Map<Seq<char>, RowModel>,
    now: int,
)
    requires
        outcome(policy, head, body, contents, now) is Answer,
    ensures
        is_candidate(head),
        json_read(body) is Some,
        request_in(json_read(body)->0) is Some,
        id_of(body) is Some,
{
}

/// Every entry that the backend holds, but for marks, is the text of a JSON-RPC success.
pub open spec fn holds_successes(contents: Map<Seq<char>, RowModel>) -> bool {
    forall|key: Seq<char>| #[trigger]
        contents.contains_key(key) ==> is_success_or_mark(key, contents[key])
}

/// The row is a mark, or no entry, or the text of a JSON-RPC success.
pub open spec fn is_success_or_mark(key: Seq<char>, row: RowModel) -> bool {
    (exists|tool: Seq<char>| key == #[trigger] marker_key(tool)) || (row matches RowModel::Entry(
        entry,
    ) ==> is_cacheable(entry.body))
}

/// Reads and responses keep it so that every entry, but for marks, is the text of a JSON-RPC
/// success; a backend that holds nothing starts that way.
pub proof fn law_only_successes_are_held(
    contents: Map<Seq<char>, RowModel>,
    overwrites: bool,
    evicts: bool,
    ctx: CtxModel,
    body: Seq<u8>,
    key: Seq<char>,
    now: int,
)
    requires
        holds_successes(contents),
    ensures
        holds_successes(Map::empty()),
        holds_successes(after_get(contents, evicts, key, now)),
        holds_successes(after_response(contents, overwrites, ctx, body, now)),
{
    let after = after_get(contents, evicts, key, now);
    assert forall|k: Seq<char>| #[trigger] after.contains_key(k) implies is_success_or_mark(
        k,
        after[k],
    ) by {
        assert(contents.contains_key(k));
    }
    let marks = marks_from(ctx, body, now);
    let entries = entries_from(ctx, body, now);
    assert forall|i: int| 0 <= i < marks.len() implies is_success_or_mark(
        (#[trigger] marks[i]).0,
        RowModel::Entry(marks[i].1),
    ) by {
        let n = lemma_markers(safety_of(extracted(body)->0), now, i);
        assert(marks[i].0 == marker_key(safety_of(extracted(body)->0)[n].0));
    }
    assert forall|i: int| 0 <= i < entries.len() implies is_success_or_mark(
        (#[trigger] entries[i]).0,
        RowModel::Entry(entries[i].1),
    ) by {}
    lemma_successes_are_put(contents, true, marks);
    lemma_successes_are_put(after_puts(contents, true, marks), overwrites, entries);
}

proof fn lemma_successes_are_put(
    contents: Map<Seq<char>, RowModel>,
    overwrites: bool,
    writes: Seq<(Seq<char>, EntryModel)>,
)
    requires
        holds_successes(contents),
        forall|i: int|
            0 <= i < writes.len() ==> is_success_or_mark(
                (#[trigger] writes[i]).0,
                RowModel::Entry(writes[i].1),
            ),
    ensures
        holds_successes(after_puts(contents, overwrites, writes)),
    decreases writes.len(),
{
    if writes.len() > 0 {
        let fewer = writes.drop_last();
        assert forall|i: int| 0 <= i < fewer.len() implies is_success_or_mark(
            (#[trigger] fewer[i]).0,
            RowModel::Entry(fewer[i].1),
        ) by {
            assert(fewer[i] == writes[i]);
        }
        lemma_successes_are_put(contents, overwrites, fewer);
        let before = after_puts(contents, overwrites, fewer);
        let after = after_puts(contents, overwrites, writes);
        let last = writes[writes.len() - 1];
        assert(is_success_or_mark(last.0, RowModel::Entry(last.1)));
        assert forall|k: Seq<char>| #[trigger] after.contains_key(k) implies is_success_or_mark(
            k,
            after[k],
        ) by {
            if k != last.0 {
                assert(before.contains_key(k));
            } else if before.contains_key(k) {
                assert(is_success_or_mark(k, before[k]));
            }
        }
    }
}

/// Every answer from the cache is a JSON-RPC success with the very id of the request that it
/// answers, whatever JSON value that is, and with everything else as it was kept. Only where the id
/// is an array or an object are the members of objects in it put in key order.
pub proof fn law_answers_are_successes(
    policy: Policy,
    head: HeadModel,
    body: Seq<u8>,
    contents: Map<Seq<char>, RowModel>,
    now: int,
)
    requires
        holds_successes(contents),
        outcome(policy, head, body, contents, now) is Answer,
    ensures
        id_of(body) matches Some(id) && (id is Array || id is Object || canonical(id) == id),
        exists|model: JsonModel|
            {
                &&& model is Object
                &&& is_success(model)
                &&& is_success(with_id(model, canonical(id_of(body)->0)))
                &&& field(
                    with_id(model, canonical(id_of(body)->0)),
                    "id"@,
                ) == Some(canonical(id_of(body)->0))
                &&& forall|name: Seq<char>|
                    name != "id"@ ==> #[trigger] field(
                        with_id(model, canonical(id_of(body)->0)),
                        name,
                    ) == field(model, name)
                &&& outcome(policy, head, body, contents, now) == StepModel::Answer(
                    hit(
                        encode_utf8(
                            json_text(
                                #[trigger] with_id(model, canonical(id_of(body)->0)),
                            ),
                        ),
                    ),
                )
            },
{
    law_answer_is_the_entry_of_the_request(policy, head, body, contents, now);
    lemma_methods();
    let request = request_in(json_read(body)->0)->0;
    let params = params_in(json_read(body)->0);
    let marked = is_marked(request, contents, now);
    let place = placement(policy, marked, request.method, request.tool_name)->0;
    let key = decision(policy, marked, request, params, head.identity)->key;
    let entry = entry_at(contents, key, now)->0;
    assert(contents.contains_key(key));
    assert(is_success_or_mark(key, contents[key]));
    if exists|tool: Seq<char>| key == #[trigger] marker_key(tool) {
        let tool = choose|tool: Seq<char>| key == #[trigger] marker_key(tool);
        law_keys_and_marks_do_not_meet(request.method, params, place.1, head.identity, tool);
    }
    let model = json_read(entry.body)->0;
    lemma_canonical_kind(id_of(body)->0);
    law_restamp_keeps_success(model, canonical(id_of(body)->0));
    law_restamp_changes_the_id_only(model, canonical(id_of(body)->0));
    assert(restamped(entry.body, id_of(body)->0) == Some(
        encode_utf8(json_text(with_id(model, canonical(id_of(body)->0)))),
    ));
}

} // verus!
