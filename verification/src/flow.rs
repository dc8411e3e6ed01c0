//! The way of a request and of its response through the cache.
//!
//! The request is handled in steps. A step says what is to be done: forward the request, answer
//! it, or read something from the backend first; what was read is handed to the next step. When
//! the response to a forwarded request arrives, the context that was kept for it says what is
//! written to the backend.

use crate::annotations::{
    annotation_key, is_known_unsafe, marker_key, markers, record_from_list, writes_model,
    ANNOTATION_TTL_SECS,
};
use crate::json::{field, Json, JsonModel};
use crate::key::{optional_str, Identity, IdentityModel};
use crate::mcp::{
    extract_cacheable_json, extracted, is_cacheable, is_cacheable_response, is_readable,
    reads_as_json_rpc, request_from_json, request_in, restamp_value, restamped, safety_of,
    McpRequest, RequestModel, TOOLS_CALL, TOOLS_LIST,
};
use crate::policy::{decide, decision, Decision, DecisionModel, Policy};
use crate::store::{optional_entry, CachedEntry, EntryModel};
use crate::text::{
    ascii_lower, before, before_char, contains, occurs_in, optional_text, same_ignoring_case,
    same_text, trim, trimmed,
};
use crate::wire::{json_read, parse_json};
use vstd::prelude::*;

verus! {

/// The response header that tells what the cache did.
pub const HEADER: &'static str = "x-mcp-cache";

// ---------------------------------------------------------------------------------------------
// What is kept between a request and its response
// ---------------------------------------------------------------------------------------------

/// What the cache did with a request that was forwarded.
#[derive(Clone, Copy, PartialEq, Eq, Debug, Structural)]
pub enum Disposition {
    Miss,
    Bypass,
}

/// The value of the response header for a forwarded request.
pub open spec fn header_text(disposition: Disposition) -> Seq<char> {
    match disposition {
        Disposition::Miss => "miss"@,
        Disposition::Bypass => "bypass"@,
    }
}

impl Disposition {
    /// The value of the response header.
    pub fn header_value(self) -> (value: &'static str)
        ensures
            value@ == header_text(self),
    {
        match self {
            Disposition::Miss => "miss",
            Disposition::Bypass => "bypass",
        }
    }
}

/// What a `MissCtx` stands for.
pub struct CtxModel {
    pub disposition: Disposition,
    pub key: Option<Seq<char>>,
    pub ttl: int,
    pub method: Seq<char>,
}

/// What is kept of a forwarded request for its response.
#[derive(Clone, Debug)]
pub struct MissCtx {
    pub disposition: Disposition,
    /// The key under which the response is kept; none where it is not kept.
    pub key: Option<String>,
    /// How long it is kept, in seconds.
    pub ttl: u64,
    /// The method, which the response does not name.
    pub method: String,
}

impl View for MissCtx {
    type V = CtxModel;

    open spec fn view(&self) -> CtxModel {
        CtxModel {
            disposition: self.disposition,
            key: optional_text(self.key),
            ttl: self.ttl as int,
            method: self.method@,
        }
    }
}

/// The context of a request that the cache has nothing to do with.
pub open spec fn bypassed(method: Seq<char>) -> CtxModel {
    CtxModel { disposition: Disposition::Bypass, key: None, ttl: 0, method }
}

impl MissCtx {
    /// The context of a request that the cache has nothing to do with.
    pub fn bypass(method: String) -> (ctx: Self)
        ensures
            ctx@ == bypassed(method@),
    {
        MissCtx { disposition: Disposition::Bypass, key: None, ttl: 0, method }
    }
}

// ---------------------------------------------------------------------------------------------
// What a request and an answer are
// ---------------------------------------------------------------------------------------------

/// What a `RequestHead` stands for.
pub struct HeadModel {
    pub http_method: Seq<char>,
    pub content_type: Option<Seq<char>>,
    pub cache_control: Option<Seq<char>>,
    pub identity: IdentityModel,
}

/// What the cache reads of the head of a request.
#[derive(Clone, Debug)]
pub struct RequestHead {
    pub http_method: String,
    /// The header `content-type`.
    pub content_type: Option<String>,
    /// The header `cache-control`.
    pub cache_control: Option<String>,
    /// The header `x-forwarded-user`.
    pub principal: Option<String>,
    /// The header `mcp-session-id`.
    pub session: Option<String>,
}

impl View for RequestHead {
    type V = HeadModel;

    open spec fn view(&self) -> HeadModel {
        HeadModel {
            http_method: self.http_method@,
            content_type: optional_text(self.content_type),
            cache_control: optional_text(self.cache_control),
            identity: IdentityModel {
                principal: optional_text(self.principal),
                session: optional_text(self.session),
            },
        }
    }
}

/// The header is there and its value contains `part`.
pub open spec fn mentions(header: Option<Seq<char>>, part: Seq<char>) -> bool {
    header matches Some(value) && occurs_in(value, part)
}

/// The media type in a content type: what stands before the parameters, without white space around
/// it, and in lower case.
pub open spec fn media_type(content_type: Seq<char>) -> Seq<char> {
    ascii_lower(trimmed(before_char(content_type, ';')))
}

/// The request may be an MCP request: a POST of `application/json`.
pub open spec fn is_candidate(head: HeadModel) -> bool {
    head.http_method == "POST"@ && (head.content_type matches Some(content_type) && media_type(
        content_type,
    ) == "application/json"@)
}

/// The caller asks not to be answered from the cache.
pub open spec fn asks_for_fresh(head: HeadModel) -> bool {
    mentions(head.cache_control, "no-cache"@)
}

/// Whether a header is there and its value contains `part`.
fn header_mentions(header: &Option<String>, part: &str) -> (found: bool)
    ensures
        found == mentions(optional_text(*header), part@),
{
    match header {
        Some(value) => contains(value.as_str(), part),
        None => false,
    }
}

/// A part of a text that may be missing, borrowed.
fn borrowed(text: &Option<String>) -> (part: Option<&str>)
    ensures
        optional_str(part) == optional_text(*text),
{
    match text {
        Some(t) => Some(t.as_str()),
        None => None,
    }
}

impl RequestHead {
    /// Whether the request may be an MCP request. Any other is forwarded, whatever its body is.
    pub fn is_candidate(&self) -> (candidate: bool)
        ensures
            candidate == is_candidate(self@),
    {
        let json: bool = match &self.content_type {
            Some(content_type) => {
                let name: &str = trim(before(content_type.as_str(), ';'));
                proof {
                    reveal_strlit("application/json");
                    assert(ascii_lower("application/json"@) =~= "application/json"@);
                }
                same_ignoring_case(name, "application/json")
            },
            None => false,
        };
        json && same_text(self.http_method.as_str(), "POST")
    }

    /// Whether the caller asks not to be answered from the cache.
    pub fn asks_for_fresh(&self) -> (fresh: bool)
        ensures
            fresh == asks_for_fresh(self@),
    {
        header_mentions(&self.cache_control, "no-cache")
    }

    /// Who sends the request.
    pub fn identity(&self) -> (identity: Identity<'_>)
        ensures
            identity@ == self@.identity,
    {
        Identity { principal: borrowed(&self.principal), session: borrowed(&self.session) }
    }
}

/// What an `Answer` stands for.
pub struct AnswerModel {
    pub status: int,
    pub headers: Seq<(Seq<char>, Seq<char>)>,
    pub body: Seq<u8>,
}

/// A response from the cache.
#[derive(Debug)]
pub struct Answer {
    pub status: u32,
    pub headers: Vec<(String, String)>,
    pub body: Vec<u8>,
}

/// What a list of headers stands for.
pub open spec fn headers_model(headers: Seq<(String, String)>) -> Seq<(Seq<char>, Seq<char>)> {
    headers.map_values(|header: (String, String)| (header.0@, header.1@))
}

impl View for Answer {
    type V = AnswerModel;

    open spec fn view(&self) -> AnswerModel {
        AnswerModel {
            status: self.status as int,
            headers: headers_model(self.headers@),
            body: self.body@,
        }
    }
}

/// The response from the cache with this body.
pub open spec fn hit(body: Seq<u8>) -> AnswerModel {
    AnswerModel {
        status: 200,
        headers: seq![("content-type"@, "application/json"@), (HEADER@, "hit"@)],
        body,
    }
}

impl Answer {
    /// The response from the cache with this body.
    pub fn hit(body: Vec<u8>) -> (answer: Self)
        ensures
            answer@ == hit(body@),
    {
        let mut headers: Vec<(String, String)> = Vec::new();
        headers.push(("content-type".to_owned(), "application/json".to_owned()));
        headers.push((HEADER.to_owned(), "hit".to_owned()));
        assert(headers_model(headers@) =~= hit(body@).headers);
        Answer { status: 200, headers, body }
    }
}

// ---------------------------------------------------------------------------------------------
// The steps of a request
// ---------------------------------------------------------------------------------------------

/// What a `Pending` stands for.
pub struct PendingModel {
    pub id: JsonModel,
    pub method: Seq<char>,
    pub key: Seq<char>,
    pub ttl: int,
    pub fresh: bool,
}

/// A request that may be answered from the cache.
#[derive(Debug)]
pub struct Pending {
    /// The id, as the request has it.
    pub id: Json,
    pub method: String,
    /// The key under which its answer is kept.
    pub key: String,
    /// How long its answer is kept, in seconds.
    pub ttl: u64,
    /// Whether the caller asks not to be answered from the cache.
    pub fresh: bool,
}

impl View for Pending {
    type V = PendingModel;

    open spec fn view(&self) -> PendingModel {
        PendingModel {
            id: self.id@,
            method: self.method@,
            key: self.key@,
            ttl: self.ttl as int,
            fresh: self.fresh,
        }
    }
}

/// What a `Step` stands for.
pub enum StepModel {
    Forward(CtxModel),
    ReadMarker { key: Seq<char>, pending: PendingModel },
    ReadEntry(PendingModel),
    Answer(AnswerModel),
}

/// What is to be done next about a request.
#[derive(Debug)]
pub enum Step {
    /// Forward it, and keep the context for the response.
    Forward(MissCtx),
    /// Read the mark of the tool under `key`, and go on with `after_marker`.
    ReadMarker { key: String, pending: Pending },
    /// Read the entry under the key of the request, and go on with `after_entry`.
    ReadEntry(Pending),
    /// Answer it, and do not forward it.
    Answer(Answer),
}

impl View for Step {
    type V = StepModel;

    open spec fn view(&self) -> StepModel {
        match self {
            Step::Forward(ctx) => StepModel::Forward(ctx@),
            Step::ReadMarker { key, pending } => StepModel::ReadMarker {
                key: key@,
                pending: pending@,
            },
            Step::ReadEntry(pending) => StepModel::ReadEntry(pending@),
            Step::Answer(answer) => StepModel::Answer(answer@),
        }
    }
}

/// The parameters of a request; null where it has none.
pub open spec fn params_in(model: JsonModel) -> JsonModel {
    match field(model, "params"@) {
        Some(params) => params,
        None => JsonModel::Null,
    }
}

/// The context of a request that is forwarded and whose answer is kept.
pub open spec fn kept(pending: PendingModel, disposition: Disposition) -> CtxModel {
    CtxModel {
        disposition,
        key: Some(pending.key),
        ttl: pending.ttl,
        method: pending.method,
    }
}

/// A request that may be answered from the cache is looked up there, unless the caller asks for a
/// fresh answer; then it is forwarded, and the answer is kept.
pub open spec fn looked_up(pending: PendingModel) -> StepModel {
    if pending.fresh {
        StepModel::Forward(kept(pending, Disposition::Bypass))
    } else {
        StepModel::ReadEntry(pending)
    }
}

/// The first step for a request that was read. The call of a tool first asks for the mark of the
/// tool. `id` is the id of the request, which its answer carries.
pub open spec fn step_for(
    policy: Policy,
    head: HeadModel,
    request: RequestModel,
    params: JsonModel,
    id: JsonModel,
) -> StepModel {
    match decision(policy, false, request, params, head.identity) {
        DecisionModel::Cache { key, ttl } => {
            let pending = PendingModel {
                id,
                method: request.method,
                key,
                ttl,
                fresh: asks_for_fresh(head),
            };
            match request.tool_name {
                Some(tool) => if request.method == TOOLS_CALL@ {
                    StepModel::ReadMarker { key: marker_key(tool), pending }
                } else {
                    looked_up(pending)
                },
                None => looked_up(pending),
            }
        },
        DecisionModel::Bypass => StepModel::Forward(bypassed(request.method)),
    }
}

/// The first step for a body that is JSON. One that is no MCP request is forwarded, and so is a
/// message without an id, which expects no answer.
pub open spec fn json_step(policy: Policy, head: HeadModel, model: JsonModel) -> StepModel {
    match request_in(model) {
        Some(request) => match field(model, "id"@) {
            Some(id) => step_for(policy, head, request, params_in(model), id),
            None => StepModel::Forward(bypassed(request.method)),
        },
        None => StepModel::Forward(bypassed(Seq::empty())),
    }
}

/// The first step for a request. One that cannot be an MCP request is forwarded.
pub open spec fn first_step(policy: Policy, head: HeadModel, body: Seq<u8>) -> StepModel {
    if !is_candidate(head) {
        StepModel::Forward(bypassed(Seq::empty()))
    } else {
        match json_read(body) {
            Some(model) => json_step(policy, head, model),
            None => StepModel::Forward(bypassed(Seq::empty())),
        }
    }
}

/// The step after the mark of the tool was read.
pub open spec fn marker_step(marked: bool, pending: PendingModel) -> StepModel {
    if marked {
        StepModel::Forward(bypassed(pending.method))
    } else {
        looked_up(pending)
    }
}

/// The step after the entry was read: it answers the request, with the id of the request. Where
/// there is none, or what it holds is no JSON object, the request is forwarded.
pub open spec fn entry_step(entry: Option<EntryModel>, pending: PendingModel) -> StepModel {
    match entry {
        Some(found) => match restamped(found.body, pending.id) {
            Some(body) => StepModel::Answer(hit(body)),
            None => StepModel::Forward(kept(pending, Disposition::Miss)),
        },
        None => StepModel::Forward(kept(pending, Disposition::Miss)),
    }
}

/// The first step for a request that was read.
fn step_with_params(
    policy: &Policy,
    head: &RequestHead,
    request: McpRequest,
    params: &Json,
    id: Json,
) -> (step: Step)
    ensures
        step@ == step_for(*policy, head@, request@, params@, id@),
{
    match decide(policy, false, &request, params, &head.identity()) {
        Decision::Cache { key, ttl } => {
            let calls_tool: bool = same_text(request.method.as_str(), TOOLS_CALL);
            let pending: Pending = Pending {
                id,
                method: request.method,
                key,
                ttl,
                fresh: head.asks_for_fresh(),
            };
            match request.tool_name {
                Some(tool) => if calls_tool {
                    Step::ReadMarker { key: annotation_key(tool.as_str()), pending }
                } else {
                    look_up(pending)
                },
                None => look_up(pending),
            }
        },
        Decision::Bypass => Step::Forward(MissCtx::bypass(request.method)),
    }
}

/// Looks the request up in the cache, unless the caller asks for a fresh answer.
fn look_up(pending: Pending) -> (step: Step)
    ensures
        step@ == looked_up(pending@),
{
    if pending.fresh {
        Step::Forward(forwarded(pending, Disposition::Bypass))
    } else {
        Step::ReadEntry(pending)
    }
}

/// The context of a request that is forwarded and whose answer is kept.
fn forwarded(pending: Pending, disposition: Disposition) -> (ctx: MissCtx)
    ensures
        ctx@ == kept(pending@, disposition),
{
    MissCtx { disposition, key: Some(pending.key), ttl: pending.ttl, method: pending.method }
}

/// A text of no characters.
fn no_text() -> (text: String)
    ensures
        text@ == Seq::<char>::empty(),
{
    let text: String = String::new();
    assert(text@ =~= Seq::empty());
    text
}

/// The first step for a body that is JSON.
pub fn start_from_json(policy: &Policy, head: &RequestHead, json: &Json) -> (step: Step)
    ensures
        step@ == json_step(*policy, head@, json@),
{
    match request_from_json(json) {
        Some(request) => match json.get("id") {
            Some(id) => match json.get("params") {
                Some(params) => step_with_params(policy, head, request, params, id.copied()),
                None => step_with_params(policy, head, request, &Json::Null, id.copied()),
            },
            None => Step::Forward(MissCtx::bypass(request.method)),
        },
        None => Step::Forward(MissCtx::bypass(no_text())),
    }
}

/// The first step for a request.
pub fn start(policy: &Policy, head: &RequestHead, body: &[u8]) -> (step: Step)
    ensures
        step@ == first_step(*policy, head@, body@),
{
    if !head.is_candidate() {
        return Step::Forward(MissCtx::bypass(no_text()));
    }
    match parse_json(body) {
        Some(json) => start_from_json(policy, head, &json),
        None => Step::Forward(MissCtx::bypass(no_text())),
    }
}

/// The step after the mark of the tool was read: a marked tool is not cached.
pub fn after_marker(marker: &Option<CachedEntry>, pending: Pending) -> (step: Step)
    ensures
        step@ == marker_step(marker is Some, pending@),
{
    if is_known_unsafe(marker) {
        Step::Forward(MissCtx::bypass(pending.method))
    } else {
        look_up(pending)
    }
}

/// The step after the entry was read.
pub fn after_entry(entry: &Option<CachedEntry>, pending: Pending) -> (step: Step)
    ensures
        step@ == entry_step(optional_entry(*entry), pending@),
{
    match entry {
        Some(found) => match restamp_value(found.body.as_slice(), &pending.id) {
            Some(body) => Step::Answer(Answer::hit(body)),
            None => Step::Forward(forwarded(pending, Disposition::Miss)),
        },
        None => Step::Forward(forwarded(pending, Disposition::Miss)),
    }
}

// ---------------------------------------------------------------------------------------------
// The response
// ---------------------------------------------------------------------------------------------

/// The body of the response matters: it may be kept, or it tells of tools.
pub open spec fn needs_body(ctx: CtxModel) -> bool {
    ctx.key is Some || ctx.method == TOOLS_LIST@
}

/// What the response header says: what the cache did, but for a body that matters and cannot be
/// read as JSON-RPC, which is bypassed.
pub open spec fn response_disposition(ctx: CtxModel, body: Seq<u8>) -> Disposition {
    if needs_body(ctx) && !is_readable(body) {
        Disposition::Bypass
    } else {
        ctx.disposition
    }
}

/// The marks that a response gives rise to: those for the tools in a `tools/list` that are not
/// safe, whether or not the response is kept.
pub open spec fn marks_from(ctx: CtxModel, body: Seq<u8>, now: int) -> Seq<
    (Seq<char>, EntryModel),
> {
    match extracted(body) {
        Some(json) => if ctx.method == TOOLS_LIST@ {
            markers(safety_of(json), now)
        } else {
            Seq::empty()
        },
        None => Seq::empty(),
    }
}

/// The entry that is kept of a response: a success, under the key of the request.
pub open spec fn entries_from(ctx: CtxModel, body: Seq<u8>, now: int) -> Seq<
    (Seq<char>, EntryModel),
> {
    match (ctx.key, extracted(body)) {
        (Some(key), Some(json)) => if is_cacheable(json) {
            seq![
                (
                    key,
                    EntryModel { written_at: now, valid_until: now + ctx.ttl, body: json },
                ),
            ]
        } else {
            Seq::empty()
        },
        _ => Seq::empty(),
    }
}

/// What is done about a response.
#[derive(Debug)]
pub struct ResponsePlan {
    /// What the response header says.
    pub disposition: Disposition,
    /// The marks that are written to the backend, in order.
    pub marks: Vec<(String, CachedEntry)>,
    /// The entry that is written to the backend, where the response is kept.
    pub entries: Vec<(String, CachedEntry)>,
}

impl MissCtx {
    /// Whether the body of the response matters. Where it does not, the header says what the cache
    /// did and nothing is written.
    pub fn needs_body(&self) -> (needed: bool)
        ensures
            needed == needs_body(self@),
    {
        self.key.is_some() || same_text(self.method.as_str(), TOOLS_LIST)
    }
}

/// The entry to keep for a message that was taken out of a response, where it is kept.
fn entry_for(ctx: &MissCtx, json: Vec<u8>, now: u64) -> (writes: Vec<(String, CachedEntry)>)
    requires
        now + ctx.ttl <= u64::MAX,
    ensures
        writes_model(writes@) == if ctx.key is Some && is_cacheable(json@) {
            seq![
                (
                    ctx.key->0@,
                    EntryModel {
                        written_at: now as int,
                        valid_until: now + ctx.ttl,
                        body: json@,
                    },
                ),
            ]
        } else {
            Seq::empty()
        },
{
    let mut writes: Vec<(String, CachedEntry)> = Vec::new();
    assert(writes_model(writes@) =~= Seq::empty());
    if let Some(key) = &ctx.key {
        if is_cacheable_response(json.as_slice()) {
            let entry: CachedEntry = CachedEntry {
                written_at: now,
                valid_until: now + ctx.ttl,
                body: json,
            };
            writes.push((key.clone(), entry));
            assert(writes_model(writes@) =~= seq![(key@, entry@)]);
        }
    }
    writes
}

/// Plans what is done about a response that arrived at `now`.
pub fn plan_response(ctx: &MissCtx, body: &[u8], now: u64) -> (plan: ResponsePlan)
    requires
        now + ctx.ttl <= u64::MAX,
        now + ANNOTATION_TTL_SECS <= u64::MAX,
    ensures
        plan.disposition == response_disposition(ctx@, body@),
        writes_model(plan.marks@) == marks_from(ctx@, body@, now as int),
        writes_model(plan.entries@) == entries_from(ctx@, body@, now as int),
{
    let disposition: Disposition = if ctx.needs_body() && !reads_as_json_rpc(body) {
        Disposition::Bypass
    } else {
        ctx.disposition
    };
    let mut marks: Vec<(String, CachedEntry)> = Vec::new();
    let mut entries: Vec<(String, CachedEntry)> = Vec::new();
    assert(writes_model(marks@) =~= Seq::empty());
    assert(writes_model(entries@) =~= Seq::empty());
    if let Some(json) = extract_cacheable_json(body) {
        if same_text(ctx.method.as_str(), TOOLS_LIST) {
            marks = record_from_list(json.as_slice(), now);
        }
        entries = entry_for(ctx, json, now);
    }
    ResponsePlan { disposition, marks, entries }
}

} // verus!
