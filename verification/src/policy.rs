//! The policy that a configuration comes to, and what it decides about a request.

use crate::config::{Config, Tools0Config};
use crate::json::{Json, JsonModel};
use crate::key::{cache_key, key_of, scope_in, CacheScope, Identity, IdentityModel};
use crate::mcp::{
    is_discovery, is_discovery_method, is_notice, is_notification, McpRequest, RequestModel,
    PROMPTS_LIST, RESOURCES_LIST, TOOLS_CALL, TOOLS_LIST,
};
use crate::text::{optional_text, same_text};
use vstd::prelude::*;

verus! {

pub const POLICY_NAME: &'static str = "mcp-response-cache-policy";

/// The name of the cache, and of the namespace of the distributed storage.
pub const CACHE_ID: &'static str = "mcp-response-cache";

pub const DEFAULT_DISCOVERY_CACHEABLE: bool = true;

/// In seconds.
pub const DEFAULT_DISCOVERY_TTL: u64 = 60;

pub const DEFAULT_MAX_ENTRIES: u32 = 1000;

pub const DEFAULT_DISTRIBUTED: bool = false;

pub const DEFAULT_TOOL_CACHEABLE: bool = false;

/// The shortest time, in seconds, that the distributed storage keeps its rows.
pub const NAMESPACE_TTL_FLOOR: u64 = 60;

// ---------------------------------------------------------------------------------------------
// Tools
// ---------------------------------------------------------------------------------------------

/// How the calls of a tool are cached, with the defaults applied.
#[derive(Clone, Copy, PartialEq, Eq, Debug, Structural)]
pub struct ToolConfig {
    pub cacheable: bool,
    /// In seconds.
    pub ttl: u64,
    pub scope: CacheScope,
}

/// The tools of a policy, by name. A name occurs once.
#[derive(Debug)]
pub struct ToolTable {
    entries: Vec<(String, ToolConfig)>,
}

spec fn names_once(entries: Seq<(String, ToolConfig)>) -> bool {
    forall|i: int, j: int|
        0 <= i < j < entries.len() ==> (#[trigger] entries[i]).0@ != (#[trigger] entries[j]).0@
}

spec fn table_map(entries: Seq<(String, ToolConfig)>) -> Map<Seq<char>, ToolConfig>
    decreases entries.len(),
{
    if entries.len() == 0 {
        Map::empty()
    } else {
        table_map(entries.drop_last()).insert(entries.last().0@, entries.last().1)
    }
}

proof fn lemma_names_once(entries: Seq<(String, ToolConfig)>)
    requires
        names_once(entries),
        entries.len() > 0,
    ensures
        names_once(entries.drop_last()),
{
    let fewer = entries.drop_last();
    assert forall|i: int, j: int| 0 <= i < j < fewer.len() implies (#[trigger] fewer[i]).0@ != (
    #[trigger] fewer[j]).0@ by {
        assert(fewer[i] == entries[i] && fewer[j] == entries[j]);
    }
}

proof fn lemma_table_map(entries: Seq<(String, ToolConfig)>)
    requires
        names_once(entries),
    ensures
        forall|i: int|
            0 <= i < entries.len() ==> table_map(entries).contains_key((#[trigger] entries[i]).0@)
                && table_map(entries)[entries[i].0@] == entries[i].1,
        forall|name: Seq<char>| #[trigger]
            table_map(entries).contains_key(name) ==> exists|i: int|
                0 <= i < entries.len() && (#[trigger] entries[i]).0@ == name,
        table_map(entries).dom().finite(),
        table_map(entries).dom().len() == entries.len(),
    decreases entries.len(),
{
    if entries.len() > 0 {
        let fewer = entries.drop_last();
        let last = entries.last();
        lemma_names_once(entries);
        lemma_table_map(fewer);
        assert forall|i: int| 0 <= i < entries.len() implies table_map(entries).contains_key(
            (#[trigger] entries[i]).0@,
        ) && table_map(entries)[entries[i].0@] == entries[i].1 by {
            if i < fewer.len() {
                assert(fewer[i] == entries[i]);
                assert(entries[i].0@ != entries[entries.len() - 1].0@);
            }
        }
        assert forall|name: Seq<char>| #[trigger]
            table_map(entries).contains_key(name) implies exists|i: int|
            0 <= i < entries.len() && (#[trigger] entries[i]).0@ == name by {
            if name == last.0@ {
                assert(entries[entries.len() - 1].0@ == name);
            } else {
                assert(table_map(fewer).contains_key(name));
                let i = choose|i: int| 0 <= i < fewer.len() && (#[trigger] fewer[i]).0@ == name;
                assert(entries[i].0@ == name);
            }
        }
        if table_map(fewer).contains_key(last.0@) {
            let i = choose|i: int| 0 <= i < fewer.len() && (#[trigger] fewer[i]).0@ == last.0@;
            assert(fewer[i] == entries[i]);
            assert(entries[i].0@ != entries[entries.len() - 1].0@);
        }
        assert(table_map(entries).dom() =~= table_map(fewer).dom().insert(last.0@));
    } else {
        assert(table_map(entries).dom() =~= Set::empty());
    }
}

impl View for ToolTable {
    type V = Map<Seq<char>, ToolConfig>;

    closed spec fn view(&self) -> Map<Seq<char>, ToolConfig> {
        table_map(self.entries@)
    }
}

impl ToolTable {
    #[verifier::type_invariant]
    spec fn well_formed(self) -> bool {
        names_once(self.entries@)
    }

    /// A table without tools.
    pub fn new() -> (table: Self)
        ensures
            table@ == Map::<Seq<char>, ToolConfig>::empty(),
    {
        ToolTable { entries: Vec::new() }
    }

    /// How many tools there are.
    pub fn len(&self) -> (count: usize)
        ensures
            self@.dom().finite(),
            count == self@.dom().len(),
    {
        proof {
            use_type_invariant(self);
            lemma_table_map(self.entries@);
        }
        self.entries.len()
    }

    /// Whether there are no tools.
    pub fn is_empty(&self) -> (empty: bool)
        ensures
            empty == (self@ == Map::<Seq<char>, ToolConfig>::empty()),
    {
        proof {
            use_type_invariant(self);
            lemma_table_map(self.entries@);
            if self.entries@.len() > 0 {
                assert(self@.contains_key(self.entries@[0].0@));
            }
        }
        self.entries.len() == 0
    }

    /// Where the tool stands; the number of tools where it is not there.
    fn position(&self, name: &str) -> (at: usize)
        ensures
            at <= self.entries@.len(),
            at < self.entries@.len() ==> self.entries@[at as int].0@ == name@,
            at == self.entries@.len() ==> forall|i: int|
                0 <= i < self.entries@.len() ==> (#[trigger] self.entries@[i]).0@ != name@,
    {
        let mut i: usize = 0;
        while i < self.entries.len()
            invariant
                i <= self.entries@.len(),
                forall|j: int| 0 <= j < i ==> (#[trigger] self.entries@[j]).0@ != name@,
            decreases self.entries@.len() - i,
        {
            if same_text(self.entries[i].0.as_str(), name) {
                return i;
            }
            i += 1;
        }
        i
    }

    /// The settings of a tool.
    pub fn get(&self, name: &str) -> (tool: Option<&ToolConfig>)
        ensures
            tool is Some <==> self@.contains_key(name@),
            tool matches Some(t) ==> *t == self@[name@],
    {
        proof {
            use_type_invariant(self);
            lemma_table_map(self.entries@);
        }
        let at: usize = self.position(name);
        if at < self.entries.len() {
            Some(&self.entries[at].1)
        } else {
            proof {
                if self@.contains_key(name@) {
                    let i = choose|i: int|
                        0 <= i < self.entries@.len() && (#[trigger] self.entries@[i]).0@ == name@;
                    assert(self.entries@[i].0@ != name@);
                }
            }
            None
        }
    }

    /// The table with the settings of one tool set, in place of those it had.
    pub fn with(self, name: String, tool: ToolConfig) -> (table: Self)
        ensures
            table@ == self@.insert(name@, tool),
    {
        proof {
            use_type_invariant(&self);
        }
        let ghost before = self.entries@;
        let at: usize = self.position(name.as_str());
        let mut entries: Vec<(String, ToolConfig)> = self.entries;
        let ghost key = name@;
        if at < entries.len() {
            entries.set(at, (name, tool));
        } else {
            entries.push((name, tool));
        }
        proof {
            assert forall|i: int, j: int| 0 <= i < j < entries@.len() implies (
            #[trigger] entries@[i]).0@ != (#[trigger] entries@[j]).0@ by {
                if j < before.len() {
                    assert(before[i].0@ != before[j].0@);
                } else {
                    assert(before[i].0@ != key);
                }
            }
            lemma_table_map(before);
            lemma_table_map(entries@);
            let old_map = table_map(before);
            let new_map = table_map(entries@);
            assert(entries@[at as int].0@ == key);
            assert forall|n: Seq<char>| new_map.contains_key(n) == (old_map.contains_key(n) || n
                == key) by {
                if new_map.contains_key(n) {
                    let i = choose|i: int|
                        0 <= i < entries@.len() && (#[trigger] entries@[i]).0@ == n;
                    if i < before.len() && i != at {
                        assert(before[i].0@ == n);
                    }
                }
                if old_map.contains_key(n) {
                    let i = choose|i: int| 0 <= i < before.len() && (#[trigger] before[i]).0@ == n;
                    if i != at {
                        assert(entries@[i].0@ == n);
                    }
                }
            }
            assert forall|n: Seq<char>| new_map.contains_key(n) implies new_map[n]
                == old_map.insert(key, tool)[n] by {
                let i = choose|i: int| 0 <= i < entries@.len() && (#[trigger] entries@[i]).0@ == n;
                assert(new_map[entries@[i].0@] == entries@[i].1);
                if n != key {
                    assert(i != at);
                    assert(before[i] == entries@[i]);
                    assert(old_map[before[i].0@] == before[i].1);
                }
            }
            assert(new_map =~= old_map.insert(key, tool));
        }
        ToolTable { entries }
    }

    /// The longest time that a tool's entries are kept, and `least` where none is kept longer.
    pub fn longest_ttl(&self, least: u64) -> (ttl: u64)
        ensures
            ttl >= least,
            forall|name: Seq<char>| #[trigger]
                self@.contains_key(name) ==> self@[name].ttl <= ttl,
            ttl == least || exists|name: Seq<char>| #[trigger]
                self@.contains_key(name) && self@[name].ttl == ttl,
    {
        proof {
            use_type_invariant(self);
            lemma_table_map(self.entries@);
        }
        let mut ttl: u64 = least;
        let ghost mut from: int = -1;
        let mut i: usize = 0;
        while i < self.entries.len()
            invariant
                i <= self.entries@.len(),
                ttl >= least,
                forall|j: int| 0 <= j < i ==> (#[trigger] self.entries@[j]).1.ttl <= ttl,
                -1 <= from < i,
                from == -1 ==> ttl == least,
                from >= 0 ==> self.entries@[from].1.ttl == ttl,
            decreases self.entries@.len() - i,
        {
            if self.entries[i].1.ttl > ttl {
                ttl = self.entries[i].1.ttl;
                proof {
                    from = i as int;
                }
            }
            i += 1;
        }
        proof {
            assert forall|name: Seq<char>| #[trigger] self@.contains_key(name) implies self@[
                name
            ].ttl <= ttl by {
                let j = choose|j: int|
                    0 <= j < self.entries@.len() && (#[trigger] self.entries@[j]).0@ == name;
                assert(self@[self.entries@[j].0@] == self.entries@[j].1);
            }
            if from >= 0 {
                assert(self@.contains_key(self.entries@[from].0@));
                assert(self@[self.entries@[from].0@].ttl == ttl);
            }
        }
        ttl
    }
}

// ---------------------------------------------------------------------------------------------
// The policy
// ---------------------------------------------------------------------------------------------

/// What is cached, and for how long.
#[derive(Debug)]
pub struct Policy {
    /// Whether the discovery methods are cached.
    pub discovery_cacheable: bool,
    /// How long their results are kept, in seconds.
    pub discovery_ttl: u64,
    /// The tools whose calls may be cached.
    pub tools: ToolTable,
}

/// A number of seconds, raised to a least one.
pub open spec fn at_least(seconds: i64, least: int) -> int {
    if seconds < least {
        least
    } else {
        seconds as int
    }
}

/// How long the results of the discovery methods are kept: sixty seconds where nothing is said,
/// and not at all for a negative number.
pub open spec fn discovery_ttl_in(ttl: Option<i64>) -> int {
    match ttl {
        Some(t) => at_least(t, 0),
        None => DEFAULT_DISCOVERY_TTL as int,
    }
}

/// A flag, where it is given.
pub open spec fn flag_or(flag: Option<bool>, default: bool) -> bool {
    match flag {
        Some(f) => f,
        None => default,
    }
}

/// The settings of a tool with the defaults applied: it is not cached where nothing is said, kept
/// for a second at least, and shared where no other scope is named.
pub open spec fn resolved_tool(tool: Tools0Config) -> ToolConfig {
    ToolConfig {
        cacheable: flag_or(tool.cacheable, DEFAULT_TOOL_CACHEABLE),
        ttl: at_least(tool.ttl, 1) as u64,
        scope: scope_in(optional_text(tool.scope)),
    }
}

/// The tools of a configuration, by name. Where a name occurs twice the later one holds.
pub open spec fn resolved_tools(list: Seq<Tools0Config>) -> Map<Seq<char>, ToolConfig>
    decreases list.len(),
{
    if list.len() == 0 {
        Map::empty()
    } else {
        resolved_tools(list.drop_last()).insert(list.last().name@, resolved_tool(list.last()))
    }
}

/// The tools that a configuration lists.
pub open spec fn configured_tools(config: Config) -> Seq<Tools0Config> {
    match config.tools {
        Some(tools) => tools@,
        None => Seq::empty(),
    }
}

/// The policy is what the configuration comes to.
pub open spec fn resolves(policy: Policy, config: Config) -> bool {
    &&& policy.discovery_ttl == discovery_ttl_in(config.discovery.ttl)
    &&& policy.discovery_cacheable == (flag_or(
        config.discovery.cacheable,
        DEFAULT_DISCOVERY_CACHEABLE,
    ) && policy.discovery_ttl > 0)
    &&& policy.tools@ == resolved_tools(configured_tools(config))
}

/// What is cached is kept for a second at least, and no time is longer than a configuration can
/// write.
pub open spec fn has_sound_times(policy: Policy) -> bool {
    &&& policy.discovery_cacheable ==> policy.discovery_ttl > 0
    &&& policy.discovery_ttl <= i64::MAX
    &&& forall|name: Seq<char>| #[trigger]
        policy.tools@.contains_key(name) ==> 1 <= policy.tools@[name].ttl <= i64::MAX
}

proof fn lemma_resolved_times(list: Seq<Tools0Config>)
    ensures
        forall|name: Seq<char>| #[trigger]
            resolved_tools(list).contains_key(name) ==> 1 <= resolved_tools(list)[name].ttl
                <= i64::MAX,
    decreases list.len(),
{
    if list.len() > 0 {
        lemma_resolved_times(list.drop_last());
        let fewer = resolved_tools(list.drop_last());
        let last = list.last();
        assert forall|name: Seq<char>| #[trigger] resolved_tools(list).contains_key(name) implies 1
            <= resolved_tools(list)[name].ttl <= i64::MAX by {
            if name != last.name@ {
                assert(fewer.contains_key(name));
            }
        }
    }
}

/// A number of seconds, raised to a least one.
fn seconds_at_least(seconds: i64, least: i64) -> (raised: u64)
    requires
        least >= 0,
    ensures
        raised == at_least(seconds, least as int),
{
    if seconds < least {
        least as u64
    } else {
        seconds as u64
    }
}

/// The settings of a tool with the defaults applied.
fn resolve_tool(tool: &Tools0Config) -> (resolved: ToolConfig)
    ensures
        resolved == resolved_tool(*tool),
{
    let cacheable: bool = match tool.cacheable {
        Some(c) => c,
        None => DEFAULT_TOOL_CACHEABLE,
    };
    let scope: CacheScope = match &tool.scope {
        Some(s) => CacheScope::parse(Some(s.as_str())),
        None => CacheScope::parse(None),
    };
    ToolConfig { cacheable, ttl: seconds_at_least(tool.ttl, 1), scope }
}

impl Policy {
    /// Applies the defaults to a configuration. A time of zero switches the caching of the
    /// discovery methods off.
    pub fn new(config: &Config) -> (policy: Self)
        ensures
            resolves(policy, *config),
            has_sound_times(policy),
    {
        let discovery_cacheable: bool = match config.discovery.cacheable {
            Some(c) => c,
            None => DEFAULT_DISCOVERY_CACHEABLE,
        };
        let discovery_ttl: u64 = match config.discovery.ttl {
            Some(ttl) => seconds_at_least(ttl, 0),
            None => DEFAULT_DISCOVERY_TTL,
        };
        let ghost all = configured_tools(*config);
        let mut tools: ToolTable = ToolTable::new();
        if let Some(list) = &config.tools {
            let mut i: usize = 0;
            assert(all.take(0) =~= Seq::empty());
            while i < list.len()
                invariant
                    i <= list@.len(),
                    all == list@,
                    tools@ == resolved_tools(all.take(i as int)),
                decreases list@.len() - i,
            {
                tools = tools.with(list[i].name.clone(), resolve_tool(&list[i]));
                assert(all.take(i + 1).drop_last() =~= all.take(i as int));
                i += 1;
            }
            assert(all.take(all.len() as int) =~= all);
        }
        proof {
            lemma_resolved_times(all);
        }
        Policy {
            discovery_cacheable: discovery_cacheable && discovery_ttl > 0,
            discovery_ttl,
            tools,
        }
    }
}

// ---------------------------------------------------------------------------------------------
// The setup
// ---------------------------------------------------------------------------------------------

/// Everything that a configuration comes to.
#[derive(Debug)]
pub struct Setup {
    pub policy: Policy,
    /// Whether the entries are shared by replicas.
    pub distributed: bool,
    /// How many entries a local cache holds.
    pub max_entries: u32,
    /// How long a distributed storage keeps its rows, in milliseconds.
    pub namespace_millis: u32,
}

/// A number, as far as a `u32` holds it.
pub open spec fn within_u32(n: int) -> int {
    if n > u32::MAX {
        u32::MAX as int
    } else {
        n
    }
}

/// How many entries a local cache holds: as many as are configured, at least one and at most what
/// a `u32` holds.
pub open spec fn entries_in(max_entries: Option<i64>) -> int {
    match max_entries {
        Some(m) => within_u32(at_least(m, 1)),
        None => DEFAULT_MAX_ENTRIES as int,
    }
}

/// `seconds` is the longest time that the policy keeps anything, and sixty seconds at least.
pub open spec fn is_longest(policy: Policy, seconds: int) -> bool {
    &&& seconds >= NAMESPACE_TTL_FLOOR
    &&& seconds >= policy.discovery_ttl
    &&& forall|name: Seq<char>| #[trigger]
        policy.tools@.contains_key(name) ==> policy.tools@[name].ttl <= seconds
    &&& seconds == NAMESPACE_TTL_FLOOR || seconds == policy.discovery_ttl || exists|
        name: Seq<char>,
    | #[trigger]
        policy.tools@.contains_key(name) && policy.tools@[name].ttl == seconds
}

/// A time in milliseconds, as far as a `u32` holds it.
pub open spec fn in_millis(seconds: int) -> int {
    within_u32(seconds * 1000)
}

/// A number, as far as a `u32` holds it.
fn saturated(n: u64) -> (held: u32)
    ensures
        held == within_u32(n as int),
{
    if n > 0xffff_ffff {
        u32::MAX
    } else {
        n as u32
    }
}

/// How long a distributed storage keeps its rows, in seconds: as long as the policy keeps
/// anything, and sixty seconds at least.
pub fn namespace_ttl(policy: &Policy) -> (seconds: u64)
    ensures
        is_longest(*policy, seconds as int),
{
    let least: u64 = if policy.discovery_ttl < NAMESPACE_TTL_FLOOR {
        NAMESPACE_TTL_FLOOR
    } else {
        policy.discovery_ttl
    };
    policy.tools.longest_ttl(least)
}

/// A time in milliseconds, as far as a `u32` holds it.
pub fn to_millis(seconds: u64) -> (millis: u32)
    ensures
        millis == in_millis(seconds as int),
{
    match seconds.checked_mul(1000) {
        Some(millis) => saturated(millis),
        None => u32::MAX,
    }
}

impl Setup {
    /// Applies the defaults to a configuration.
    pub fn new(config: &Config) -> (setup: Self)
        ensures
            resolves(setup.policy, *config),
            has_sound_times(setup.policy),
            setup.distributed == flag_or(config.distributed, DEFAULT_DISTRIBUTED),
            setup.max_entries == entries_in(config.max_entries),
            exists|seconds: int| #[trigger]
                is_longest(setup.policy, seconds) && setup.namespace_millis == in_millis(seconds),
    {
        let policy: Policy = Policy::new(config);
        let distributed: bool = match config.distributed {
            Some(d) => d,
            None => DEFAULT_DISTRIBUTED,
        };
        let max_entries: u32 = match config.max_entries {
            Some(m) => saturated(seconds_at_least(m, 1)),
            None => DEFAULT_MAX_ENTRIES,
        };
        let longest: u64 = namespace_ttl(&policy);
        let namespace_millis: u32 = to_millis(longest);
        let setup: Setup = Setup { policy, distributed, max_entries, namespace_millis };
        assert(is_longest(setup.policy, longest as int));
        setup
    }
}

/// There is one longest time.
pub proof fn law_longest_is_one(policy: Policy, a: int, b: int)
    requires
        is_longest(policy, a),
        is_longest(policy, b),
    ensures
        a == b,
{
}

// ---------------------------------------------------------------------------------------------
// Decisions
// ---------------------------------------------------------------------------------------------

/// What a `Decision` stands for.
pub enum DecisionModel {
    Cache { key: Seq<char>, ttl: int },
    Bypass,
}

/// What to do about a request.
#[derive(Debug)]
pub enum Decision {
    /// Answer from the cache, or keep the answer, under this key and for so many seconds.
    Cache { key: String, ttl: u64 },
    /// Have nothing to do with it.
    Bypass,
}

impl View for Decision {
    type V = DecisionModel;

    open spec fn view(&self) -> DecisionModel {
        match self {
            Decision::Cache { key, ttl } => DecisionModel::Cache { key: key@, ttl: *ttl as int },
            Decision::Bypass => DecisionModel::Bypass,
        }
    }
}

/// How long the answer to a request is kept and who shares it; none where it is not cached. A
/// discovery method is cached for all where that is switched on, and the call of a tool where the
/// tool is listed, switched on and not known to be unsafe. Nothing else is cached.
pub open spec fn placement(
    policy: Policy,
    known_unsafe: bool,
    method: Seq<char>,
    tool_name: Option<Seq<char>>,
) -> Option<(u64, CacheScope)> {
    if is_notice(method) {
        None
    } else if is_discovery(method) {
        if policy.discovery_cacheable {
            Some((policy.discovery_ttl, CacheScope::Shared))
        } else {
            None
        }
    } else if method == TOOLS_CALL@ {
        match tool_name {
            Some(name) => if policy.tools@.contains_key(name) && policy.tools@[name].cacheable
                && !known_unsafe {
                Some((policy.tools@[name].ttl, policy.tools@[name].scope))
            } else {
                None
            },
            None => None,
        }
    } else {
        None
    }
}

/// What to do about a request.
pub open spec fn decision(
    policy: Policy,
    known_unsafe: bool,
    request: RequestModel,
    params: JsonModel,
    identity: IdentityModel,
) -> DecisionModel {
    match placement(policy, known_unsafe, request.method, request.tool_name) {
        Some((ttl, scope)) => match key_of(request.method, params, scope, identity) {
            Some(key) => DecisionModel::Cache { key, ttl: ttl as int },
            None => DecisionModel::Bypass,
        },
        None => DecisionModel::Bypass,
    }
}

/// How long the answer to a request is kept and who shares it; none where it is not cached.
fn place(policy: &Policy, known_unsafe: bool, req: &McpRequest) -> (place: Option<
    (u64, CacheScope),
>)
    ensures
        place == placement(*policy, known_unsafe, req.method@, optional_text(req.tool_name)),
{
    if is_notification(req.method.as_str()) {
        return None;
    }
    if is_discovery_method(req.method.as_str()) {
        return if policy.discovery_cacheable {
            Some((policy.discovery_ttl, CacheScope::Shared))
        } else {
            None
        };
    }
    if !same_text(req.method.as_str(), TOOLS_CALL) {
        return None;
    }
    match &req.tool_name {
        Some(name) => match policy.tools.get(name.as_str()) {
            Some(tool) => if tool.cacheable && !known_unsafe {
                Some((tool.ttl, tool.scope))
            } else {
                None
            },
            None => None,
        },
        None => None,
    }
}

/// Decides about a request. `known_unsafe` says whether the tool that it calls was seen to be
/// unsafe; such a call is not cached, even where the tool is listed.
pub fn decide(
    policy: &Policy,
    known_unsafe: bool,
    req: &McpRequest,
    params: &Json,
    identity: &Identity<'_>,
) -> (decided: Decision)
    ensures
        decided@ == decision(*policy, known_unsafe, req@, params@, identity@),
{
    match place(policy, known_unsafe, req) {
        Some((ttl, scope)) => match cache_key(req.method.as_str(), params, scope, identity) {
            Some(key) => Decision::Cache { key, ttl },
            None => Decision::Bypass,
        },
        None => Decision::Bypass,
    }
}

// ---------------------------------------------------------------------------------------------
// Laws
// ---------------------------------------------------------------------------------------------

/// Notifications, and methods that neither discover nor call a tool, are not cached.
pub proof fn law_other_methods_bypass(
    policy: Policy,
    known_unsafe: bool,
    request: RequestModel,
    params: JsonModel,
    identity: IdentityModel,
)
    requires
        is_notice(request.method) || (!is_discovery(request.method) && request.method
            != TOOLS_CALL@),
    ensures
        decision(policy, known_unsafe, request, params, identity) is Bypass,
{
}

/// The call of a tool that is not listed, or not switched on, or has no name, is not cached.
pub proof fn law_unlisted_tool_bypasses(
    policy: Policy,
    known_unsafe: bool,
    request: RequestModel,
    params: JsonModel,
    identity: IdentityModel,
)
    requires
        request.method == TOOLS_CALL@,
        request.tool_name matches Some(name) ==> !policy.tools@.contains_key(name)
            || !policy.tools@[name].cacheable,
    ensures
        decision(policy, known_unsafe, request, params, identity) is Bypass,
{
    lemma_methods();
}

/// The call of a tool that was seen to be unsafe is not cached, even where the tool is listed.
pub proof fn law_unsafe_tool_bypasses(
    policy: Policy,
    request: RequestModel,
    params: JsonModel,
    identity: IdentityModel,
)
    requires
        request.method == TOOLS_CALL@,
    ensures
        decision(policy, true, request, params, identity) is Bypass,
{
    lemma_methods();
}

/// The methods of discovery, of tool calls and of notifications are all different.
pub proof fn lemma_methods()
    ensures
        !is_discovery(TOOLS_CALL@),
        !is_notice(TOOLS_CALL@),
        forall|method: Seq<char>| #[trigger] is_discovery(method) ==> !is_notice(method),
{
    reveal_strlit("tools/call");
    reveal_strlit("tools/list");
    reveal_strlit("resources/list");
    reveal_strlit("prompts/list");
    reveal_strlit("notifications/");
    assert(TOOLS_CALL@[6] == 'c');
    assert(TOOLS_LIST@[6] == 'l');
    assert("notifications/"@[0] == 'n');
    assert(TOOLS_CALL@.len() == 10);
    assert forall|method: Seq<char>| is_notice(method) implies method[0] == 'n' by {
        assert(method.subrange(0, "notifications/"@.len() as int)[0] == method[0]);
    }
    assert(RESOURCES_LIST@[0] == 'r');
    assert(PROMPTS_LIST@[0] == 'p');
    assert(TOOLS_LIST@[0] == 't');
}

/// What is cached is kept for a second at least.
pub proof fn law_cached_for_a_second(
    policy: Policy,
    known_unsafe: bool,
    request: RequestModel,
    params: JsonModel,
    identity: IdentityModel,
)
    requires
        has_sound_times(policy),
    ensures
        decision(policy, known_unsafe, request, params, identity) matches DecisionModel::Cache {
            key,
            ttl,
        } ==> 1 <= ttl <= i64::MAX,
{
}

/// Where a name is listed twice the later settings hold, and every listed tool is found.
pub proof fn law_later_settings_hold(list: Seq<Tools0Config>, i: int)
    requires
        0 <= i < list.len(),
        forall|j: int| i < j < list.len() ==> (#[trigger] list[j]).name@ != list[i].name@,
    ensures
        resolved_tools(list).contains_key(list[i].name@),
        resolved_tools(list)[list[i].name@] == resolved_tool(list[i]),
    decreases list.len(),
{
    if i < list.len() - 1 {
        let fewer = list.drop_last();
        assert(list[list.len() - 1].name@ != list[i].name@);
        assert(fewer[i] == list[i]);
        assert forall|j: int| i < j < fewer.len() implies (#[trigger] fewer[j]).name@
            != fewer[i].name@ by {
            assert(fewer[j] == list[j]);
        }
        law_later_settings_hold(fewer, i);
    }
}

/// A tool that is not listed has no settings.
pub proof fn law_only_listed_tools(list: Seq<Tools0Config>, name: Seq<char>)
    requires
        resolved_tools(list).contains_key(name),
    ensures
        exists|i: int| 0 <= i < list.len() && (#[trigger] list[i]).name@ == name,
    decreases list.len(),
{
    if list.last().name@ == name {
        assert(list[list.len() - 1].name@ == name);
    } else {
        law_only_listed_tools(list.drop_last(), name);
        let i = choose|i: int|
            0 <= i < list.drop_last().len() && (#[trigger] list.drop_last()[i]).name@ == name;
        assert(list[i].name@ == name);
    }
}

} // verus!
