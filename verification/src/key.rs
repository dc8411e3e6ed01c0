//! Cache keys: the method and the canonical parameters, hashed together, and for some tools the
//! identity of the caller. What identifies a caller enters a key only as a hash.

use crate::json::{
    canonical, has_distinct_names, is_float_free, is_whole, law_canonical_disregards_member_order,
    law_canonical_forms_tell_values_apart, law_canonical_is_in_key_order, lemma_canonical_shape,
    nested_at_most, same_up_to_member_order, Json, JsonModel,
};
use crate::text::{
    ascii_lower, chars_of, has_no_outer_space, is_blank, law_lower_case,
    law_trimming_finds_the_text, lemma_utf8_is_injective, occurs_at, optional_text,
    same_ignoring_case, same_text, trim, trimmed,
};
use crate::wire::{has_own_text, json_text, json_to_string, reads_back, NESTING_LIMIT};
use vstd::prelude::*;
use vstd::slice::slice_to_vec;
use vstd::string::*;
use vstd::utf8::*;

verus! {

/// The byte between the method and the parameters in what is hashed.
pub const RS: u8 = 0x1e;

// ---------------------------------------------------------------------------------------------
// Hashing
// ---------------------------------------------------------------------------------------------

/// What `sha2::Sha256::digest` returns.
pub uninterp spec fn sha256(bytes: Seq<u8>) -> Seq<u8>;

/// The hexadecimal digit for a number below sixteen.
pub open spec fn hex_digit(n: int) -> char {
    if n < 10 {
        (48 + n) as char
    } else {
        (87 + n) as char
    }
}

/// The hexadecimal text of bytes: two digits for each byte, in lower case.
pub open spec fn hex_text(bytes: Seq<u8>) -> Seq<char> {
    Seq::new(
        2 * bytes.len(),
        |i: int|
            if i % 2 == 0 {
                hex_digit(bytes[i / 2] as int / 16)
            } else {
                hex_digit(bytes[i / 2] as int % 16)
            },
    )
}

/// The hexadecimal text of the hash of bytes.
pub open spec fn hash_text(bytes: Seq<u8>) -> Seq<char> {
    hex_text(sha256(bytes))
}

/// `sha2::Sha256::digest` returns the SHA-256 hash of the bytes, which `sha256` names. It is
/// thirty-two bytes long.
#[verifier::external_body]
fn sha256_digest(bytes: &[u8]) -> (digest: Vec<u8>)
    ensures
        digest@ == sha256(bytes@),
        digest@.len() == 32,
{
    <sha2::Sha256 as sha2::Digest>::digest(bytes).to_vec()
}

/// `hex::encode` writes two digits for each byte, the higher four bits first, in lower case.
#[verifier::external_body]
fn hex_encode(bytes: &[u8]) -> (text: String)
    ensures
        text@ == hex_text(bytes@),
{
    hex::encode(bytes)
}

/// The hexadecimal text of the hash of bytes.
fn sha256_hex(bytes: &[u8]) -> (text: String)
    ensures
        text@ == hash_text(bytes@),
{
    hex_encode(sha256_digest(bytes).as_slice())
}

// ---------------------------------------------------------------------------------------------
// Scopes and identities
// ---------------------------------------------------------------------------------------------

/// Who shares the entries of a tool.
#[derive(Clone, Copy, PartialEq, Eq, Debug, Structural)]
pub enum CacheScope {
    /// Every caller: the key is made of the method and the parameters.
    Shared,
    /// The callers with the same principal and session, which enter the key too.
    Identity,
}

impl Default for CacheScope {
    fn default() -> (scope: Self)
        ensures
            scope == CacheScope::Shared,
    {
        CacheScope::Shared
    }
}

/// The scope that a configuration names. Anything but `identity` is the default.
pub open spec fn scope_in(scope: Option<Seq<char>>) -> CacheScope {
    if scope == Some("identity"@) {
        CacheScope::Identity
    } else {
        CacheScope::Shared
    }
}

/// The text that an optional string slice is.
pub open spec fn optional_str(text: Option<&str>) -> Option<Seq<char>> {
    match text {
        Some(t) => Some(t@),
        None => None,
    }
}

impl CacheScope {
    /// Reads the scope of a tool. Anything but `identity`, and a missing scope, is `Shared`.
    pub fn parse(scope: Option<&str>) -> (parsed: Self)
        ensures
            parsed == scope_in(optional_str(scope)),
    {
        match scope {
            Some(text) => if same_text(text, "identity") {
                CacheScope::Identity
            } else {
                CacheScope::Shared
            },
            None => CacheScope::Shared,
        }
    }
}

/// What an `Identity` stands for.
pub struct IdentityModel {
    pub principal: Option<Seq<char>>,
    pub session: Option<Seq<char>>,
}

/// Who sends a request, as far as it says so.
#[derive(Clone, Copy, PartialEq, Eq, Debug)]
pub struct Identity<'a> {
    pub principal: Option<&'a str>,
    pub session: Option<&'a str>,
}

impl<'a> View for Identity<'a> {
    type V = IdentityModel;

    open spec fn view(&self) -> IdentityModel {
        IdentityModel {
            principal: optional_str(self.principal),
            session: optional_str(self.session),
        }
    }
}

/// What a `PartitionSource` stands for.
pub enum SourceModel {
    Principal,
    Session,
    Header(Seq<char>),
}

/// Where a value that partitions the cache comes from.
#[derive(Clone, PartialEq, Eq, Debug)]
pub enum PartitionSource {
    /// The authenticated principal, in the header `x-forwarded-user`.
    Principal,
    /// The MCP session, in the header `mcp-session-id`.
    Session,
    /// The header of this name, in lower case.
    Header(String),
}

impl View for PartitionSource {
    type V = SourceModel;

    open spec fn view(&self) -> SourceModel {
        match self {
            PartitionSource::Principal => SourceModel::Principal,
            PartitionSource::Session => SourceModel::Session,
            PartitionSource::Header(name) => SourceModel::Header(name@),
        }
    }
}

/// The source that an entry names: `principal`, `session`, or `header:` with the name of a
/// header. White space around the entry and around the name of the header does not count, nor
/// does the case of ASCII letters.
pub open spec fn source_in(entry: Seq<char>) -> Option<SourceModel> {
    let text = trimmed(entry);
    if ascii_lower(text) == "principal"@ {
        Some(SourceModel::Principal)
    } else if ascii_lower(text) == "session"@ {
        Some(SourceModel::Session)
    } else if text.len() >= 7 && ascii_lower(text.take(7)) == "header:"@ {
        let name = trimmed(text.skip(7));
        if name.len() == 0 {
            None
        } else {
            Some(SourceModel::Header(ascii_lower(name)))
        }
    } else {
        None
    }
}

/// What an optional source stands for.
pub open spec fn optional_source(source: Option<PartitionSource>) -> Option<SourceModel> {
    match source {
        Some(s) => Some(s@),
        None => None,
    }
}

proof fn lemma_keywords()
    ensures
        ascii_lower("principal"@) == "principal"@,
        ascii_lower("session"@) == "session"@,
        ascii_lower("header:"@) == "header:"@,
        "header:"@.len() == 7,
{
    reveal_strlit("principal");
    reveal_strlit("session");
    reveal_strlit("header:");
    assert(ascii_lower("principal"@) =~= "principal"@);
    assert(ascii_lower("session"@) =~= "session"@);
    assert(ascii_lower("header:"@) =~= "header:"@);
}

impl PartitionSource {
    /// Reads one entry of a list of sources; none where it names no source.
    pub fn parse(entry: &str) -> (source: Option<Self>)
        ensures
            optional_source(source) == source_in(entry@),
    {
        proof {
            lemma_keywords();
        }
        let text: &str = trim(entry);
        if same_ignoring_case(text, "principal") {
            return Some(PartitionSource::Principal);
        }
        if same_ignoring_case(text, "session") {
            return Some(PartitionSource::Session);
        }
        let length: usize = chars_of(text).len();
        if length >= 7 {
            let keyword: &str = text.substring_char(0, 7);
            assert(keyword@ =~= text@.take(7));
            if same_ignoring_case(keyword, "header:") {
                let rest: &str = text.substring_char(7, length);
                assert(rest@ =~= text@.skip(7));
                let name: &str = trim(rest);
                return if name.is_empty() {
                    None
                } else {
                    Some(PartitionSource::Header(name.to_ascii_lowercase()))
                };
            }
        }
        None
    }
}

// ---------------------------------------------------------------------------------------------
// Keys
// ---------------------------------------------------------------------------------------------

/// The text of parameters: JSON with the members of every object in key order.
pub open spec fn params_text(params: JsonModel) -> Seq<char> {
    json_text(canonical(params))
}

/// What is hashed for a request.
pub open spec fn preimage(method: Seq<char>, params: JsonModel) -> Seq<u8> {
    encode_utf8(method).push(RS) + encode_utf8(params_text(params))
}

/// The key that all callers share.
pub open spec fn shared_key(method: Seq<char>, params: JsonModel) -> Seq<char> {
    method.push(':') + hash_text(preimage(method, params))
}

/// A key with the hashes of the parts behind it, in order.
pub open spec fn with_parts(key: Seq<char>, parts: Seq<Seq<char>>) -> Seq<char>
    decreases parts.len(),
{
    if parts.len() == 0 {
        key
    } else {
        with_parts(key, parts.drop_last()).push(':') + hash_text(encode_utf8(parts.last()))
    }
}

/// The key for requests of callers that share the parts; none where there are no parts.
pub open spec fn parts_key(
    method: Seq<char>,
    params: JsonModel,
    parts: Seq<Seq<char>>,
) -> Option<Seq<char>> {
    if parts.len() == 0 {
        None
    } else {
        Some(with_parts(shared_key(method, params), parts))
    }
}

/// A value that may be missing, as part of a key.
pub open spec fn or_empty(text: Option<Seq<char>>) -> Seq<char> {
    match text {
        Some(t) => t,
        None => Seq::empty(),
    }
}

/// What an identity adds to a key: the principal and the session, and nothing where both are
/// missing.
pub open spec fn identity_parts(identity: IdentityModel) -> Seq<Seq<char>> {
    if identity.principal is None && identity.session is None {
        Seq::empty()
    } else {
        seq![or_empty(identity.principal), or_empty(identity.session)]
    }
}

/// The key of a request; none where the scope asks for an identity and there is none.
pub open spec fn key_of(
    method: Seq<char>,
    params: JsonModel,
    scope: CacheScope,
    identity: IdentityModel,
) -> Option<Seq<char>> {
    match scope {
        CacheScope::Shared => Some(shared_key(method, params)),
        CacheScope::Identity => parts_key(method, params, identity_parts(identity)),
    }
}

/// Writes parameters as JSON with the members of every object in key order, so that the order in
/// which a caller writes them does not matter. The order of arrays stays. Two parameters have the
/// same text exactly where they are equal as JSON values, the members of objects unordered; this
/// is claimed where all numbers are integers, and no object lists a name twice.
pub fn canonicalize(params: &Json) -> (text: String)
    ensures
        text@ == params_text(params@),
        is_float_free(params@) && nested_at_most(params@, NESTING_LIMIT as int) ==> reads_back(
            canonical(params@),
        ),
        is_whole(params@) && has_distinct_names(params@) ==> forall|other: JsonModel|
            is_whole(other) && has_distinct_names(other) ==> (#[trigger] params_text(other) == text@
                <==> same_up_to_member_order(params@, other)),
{
    let text: String = json_to_string(params);
    proof {
        if is_whole(params@) && has_distinct_names(params@) {
            assert forall|other: JsonModel| is_whole(other) && has_distinct_names(other) implies (
            #[trigger] params_text(other) == text@ <==> same_up_to_member_order(
                params@,
                other,
            )) by {
                law_params_text_distinguishes(params@, other);
            }
        }
    }
    text
}

/// The key that all callers share.
pub fn base_key(method: &str, params: &Json) -> (key: String)
    ensures
        key@ == shared_key(method@, params@),
{
    let text: String = canonicalize(params);
    let mut bytes: Vec<u8> = slice_to_vec(method.as_bytes());
    bytes.push(RS);
    let mut rest: Vec<u8> = slice_to_vec(text.as_str().as_bytes());
    bytes.append(&mut rest);
    assert(bytes@ =~= preimage(method@, params@));
    let base: String = sha256_hex(bytes.as_slice());
    let mut key: String = method.to_owned();
    key.append(":");
    key.append(base.as_str());
    proof {
        reveal_strlit(":");
        assert(":"@ =~= seq![':']);
        assert(key@ =~= shared_key(method@, params@));
    }
    key
}

/// What a list of texts stands for.
pub open spec fn texts(list: Seq<String>) -> Seq<Seq<char>> {
    list.map_values(|text: String| text@)
}

/// The key of a request, given the values that partition the cache for it: the hash of each is
/// put behind the key that all callers share, in the order given. Where there are no values there
/// is no key, so that nothing is kept under a key that partitions nothing.
pub fn partitioned_key(method: &str, params: &Json, parts: &Vec<String>) -> (key: Option<String>)
    ensures
        optional_text(key) == parts_key(method@, params@, texts(parts@)),
{
    if parts.len() == 0 {
        return None;
    }
    let ghost all = texts(parts@);
    let mut key: String = base_key(method, params);
    let mut i: usize = 0;
    assert(all.take(0) =~= Seq::empty());
    while i < parts.len()
        invariant
            i <= parts@.len(),
            all == texts(parts@),
            key@ == with_parts(shared_key(method@, params@), all.take(i as int)),
        decreases parts@.len() - i,
    {
        let ghost before = key@;
        let hash: String = sha256_hex(parts[i].as_str().as_bytes());
        key.append(":");
        key.append(hash.as_str());
        proof {
            reveal_strlit(":");
            assert(":"@ =~= seq![':']);
            assert(all.take(i + 1).drop_last() =~= all.take(i as int));
            assert(all.take(i + 1).last() == parts@[i as int]@);
            assert(key@ =~= before.push(':') + hash@);
        }
        i += 1;
    }
    assert(all.take(all.len() as int) =~= all);
    Some(key)
}

/// A value that may be missing, as part of a key.
fn owned_or_empty(text: Option<&str>) -> (owned: String)
    ensures
        owned@ == or_empty(optional_str(text)),
{
    match text {
        Some(t) => t.to_owned(),
        None => {
            let empty: String = String::new();
            assert(empty@ =~= Seq::empty());
            empty
        },
    }
}

/// The key of a request. A tool whose entries belong to an identity has no key for a request that
/// names neither a principal nor a session: nothing is kept under a weak key.
pub fn cache_key(
    method: &str,
    params: &Json,
    scope: CacheScope,
    identity: &Identity<'_>,
) -> (key: Option<String>)
    ensures
        optional_text(key) == key_of(method@, params@, scope, identity@),
{
    match scope {
        CacheScope::Shared => Some(base_key(method, params)),
        CacheScope::Identity => {
            let mut parts: Vec<String> = Vec::new();
            if identity.principal.is_some() || identity.session.is_some() {
                parts.push(owned_or_empty(identity.principal));
                parts.push(owned_or_empty(identity.session));
            }
            assert(texts(parts@) =~= identity_parts(identity@));
            partitioned_key(method, params, &parts)
        },
    }
}

// ---------------------------------------------------------------------------------------------
// Laws
// ---------------------------------------------------------------------------------------------

proof fn lemma_with_parts(key: Seq<char>, parts: Seq<Seq<char>>)
    ensures
        with_parts(key, parts).len() >= key.len(),
        with_parts(key, parts).take(key.len() as int) == key,
    decreases parts.len(),
{
    if parts.len() > 0 {
        lemma_with_parts(key, parts.drop_last());
        let inner = with_parts(key, parts.drop_last());
        assert(with_parts(key, parts).take(key.len() as int) =~= inner.take(key.len() as int));
    } else {
        assert(key.take(key.len() as int) =~= key);
    }
}

/// A key starts with the method and a colon.
pub proof fn law_key_names_the_method(
    method: Seq<char>,
    params: JsonModel,
    scope: CacheScope,
    identity: IdentityModel,
)
    ensures
        key_of(method, params, scope, identity) matches Some(key) ==> occurs_at(
            key,
            method.push(':'),
            0,
        ),
{
    let shared = shared_key(method, params);
    lemma_with_parts(shared, identity_parts(identity));
    if let Some(key) = key_of(method, params, scope, identity) {
        assert(key.take(shared.len() as int) =~= shared);
        assert(key.subrange(0, method.len() as int + 1) =~= shared.take(method.len() as int + 1));
        assert(shared.take(method.len() as int + 1) =~= method.push(':'));
    }
}

/// The order in which parameters list the members of objects does not matter to the key.
pub proof fn law_key_disregards_member_order(
    method: Seq<char>,
    a: JsonModel,
    b: JsonModel,
    scope: CacheScope,
    identity: IdentityModel,
)
    requires
        same_up_to_member_order(a, b),
    ensures
        params_text(a) == params_text(b),
        key_of(method, a, scope, identity) == key_of(method, b, scope, identity),
{
    law_canonical_disregards_member_order(a, b);
}

/// Two parameters have the same text exactly where they are equal as JSON values: the members of
/// objects unordered at every depth, the items of arrays in order. All numbers are integers, no
/// object lists a name twice, and the text of the first belongs to no other value.
pub proof fn law_params_text_distinguishes(a: JsonModel, b: JsonModel)
    requires
        has_own_text(canonical(a)),
        is_whole(b),
        has_distinct_names(a),
        has_distinct_names(b),
    ensures
        params_text(a) == params_text(b) <==> same_up_to_member_order(a, b),
{
    lemma_canonical_shape(b, 0);
    law_canonical_is_in_key_order(b);
    law_canonical_forms_tell_values_apart(a, b);
}

/// There is no key exactly where the scope asks for an identity and the request names neither a
/// principal nor a session.
pub proof fn law_no_weak_key(
    method: Seq<char>,
    params: JsonModel,
    scope: CacheScope,
    identity: IdentityModel,
)
    ensures
        key_of(method, params, scope, identity) is None <==> scope == CacheScope::Identity
            && identity.principal is None && identity.session is None,
{
}

/// The key that all callers share does not depend on who asks.
pub proof fn law_shared_key_is_for_all(
    method: Seq<char>,
    params: JsonModel,
    a: IdentityModel,
    b: IdentityModel,
)
    ensures
        key_of(method, params, CacheScope::Shared, a) == key_of(
            method,
            params,
            CacheScope::Shared,
            b,
        ),
{
}

/// A key knows a caller by hashes only: callers whose principals and sessions have the same hashes
/// have the same key.
pub proof fn law_identity_enters_as_hashes(
    method: Seq<char>,
    params: JsonModel,
    scope: CacheScope,
    a: IdentityModel,
    b: IdentityModel,
)
    requires
        sha256(encode_utf8(or_empty(a.principal))) == sha256(encode_utf8(or_empty(b.principal))),
        sha256(encode_utf8(or_empty(a.session))) == sha256(encode_utf8(or_empty(b.session))),
        (a.principal is None && a.session is None) == (b.principal is None && b.session is None),
    ensures
        key_of(method, params, scope, a) == key_of(method, params, scope, b),
{
    if a.principal is Some || a.session is Some {
        lemma_identity_key(method, params, a);
        lemma_identity_key(method, params, b);
    }
}

/// The key of an identity, spelled out.
proof fn lemma_identity_key(method: Seq<char>, params: JsonModel, identity: IdentityModel)
    requires
        identity.principal is Some || identity.session is Some,
    ensures
        key_of(method, params, CacheScope::Identity, identity) == Some(
            (shared_key(method, params).push(':') + hash_text(
                encode_utf8(or_empty(identity.principal)),
            )).push(':') + hash_text(encode_utf8(or_empty(identity.session))),
        ),
{
    let key = shared_key(method, params);
    let parts = identity_parts(identity);
    assert(parts.drop_last() =~= seq![or_empty(identity.principal)]);
    assert(parts.drop_last().drop_last() =~= Seq::empty());
    reveal_with_fuel(with_parts, 3);
}

proof fn lemma_hex_digits(a: int, b: int)
    requires
        0 <= a < 16,
        0 <= b < 16,
        hex_digit(a) == hex_digit(b),
    ensures
        a == b,
{
}

/// Different bytes have different hexadecimal texts.
pub proof fn law_hex_text_is_injective(a: Seq<u8>, b: Seq<u8>)
    requires
        hex_text(a) == hex_text(b),
    ensures
        a == b,
{
    assert(hex_text(a).len() == 2 * a.len() && hex_text(b).len() == 2 * b.len());
    assert forall|i: int| 0 <= i < a.len() implies a[i] == b[i] by {
        assert(hex_text(a)[2 * i] == hex_digit(a[i] as int / 16));
        assert(hex_text(b)[2 * i] == hex_digit(b[i] as int / 16));
        assert(hex_text(a)[2 * i + 1] == hex_digit(a[i] as int % 16));
        assert(hex_text(b)[2 * i + 1] == hex_digit(b[i] as int % 16));
        lemma_hex_digits(a[i] as int / 16, b[i] as int / 16);
        lemma_hex_digits(a[i] as int % 16, b[i] as int % 16);
    }
    assert(a =~= b);
}

/// Hexadecimal text holds no colon.
proof fn lemma_hex_text_has_no_colon(bytes: Seq<u8>)
    ensures
        forall|i: int| 0 <= i < hex_text(bytes).len() ==> #[trigger] hex_text(bytes)[i] != ':',
{
    assert forall|i: int| 0 <= i < hex_text(bytes).len() implies #[trigger] hex_text(bytes)[i]
        != ':' by {
        let n = if i % 2 == 0 {
            bytes[i / 2] as int / 16
        } else {
            bytes[i / 2] as int % 16
        };
        assert(0 <= n < 16);
        assert(hex_text(bytes)[i] == hex_digit(n));
    }
}

/// What stands before the last colon and what stands behind it are found again.
proof fn lemma_last_colon(x: Seq<char>, a: Seq<char>, y: Seq<char>, b: Seq<char>)
    requires
        x.push(':') + a == y.push(':') + b,
        forall|i: int| 0 <= i < a.len() ==> #[trigger] a[i] != ':',
        forall|i: int| 0 <= i < b.len() ==> #[trigger] b[i] != ':',
    ensures
        x == y,
        a == b,
{
    let s = x.push(':') + a;
    let t = y.push(':') + b;
    assert(s.len() == x.len() + 1 + a.len() && t.len() == y.len() + 1 + b.len());
    if x.len() < y.len() {
        let i = y.len() - x.len() - 1;
        assert(s[y.len() as int] == a[i]);
        assert(t[y.len() as int] == ':');
    } else if y.len() < x.len() {
        let i = x.len() - y.len() - 1;
        assert(t[x.len() as int] == b[i]);
        assert(s[x.len() as int] == ':');
    }
    assert(s.take(x.len() as int) =~= x);
    assert(t.take(y.len() as int) =~= y);
    assert(s.skip(x.len() as int + 1) =~= a);
    assert(t.skip(y.len() as int + 1) =~= b);
}

proof fn lemma_with_more_parts(key: Seq<char>, parts: Seq<Seq<char>>)
    requires
        parts.len() > 0,
    ensures
        with_parts(key, parts).len() > key.len(),
{
    lemma_with_parts(key, parts.drop_last());
}

/// A key tells its parts: two keys for the same request are the same only where there are as many
/// parts and each has the same hash, in order.
pub proof fn law_key_tells_its_parts(key: Seq<char>, a: Seq<Seq<char>>, b: Seq<Seq<char>>)
    requires
        with_parts(key, a) == with_parts(key, b),
    ensures
        a.len() == b.len(),
        forall|i: int|
            0 <= i < a.len() ==> sha256(encode_utf8(#[trigger] a[i])) == sha256(encode_utf8(b[i])),
    decreases a.len(),
{
    if a.len() == 0 || b.len() == 0 {
        if a.len() > 0 {
            lemma_with_more_parts(key, a);
        }
        if b.len() > 0 {
            lemma_with_more_parts(key, b);
        }
    } else {
        let last_a = sha256(encode_utf8(a.last()));
        let last_b = sha256(encode_utf8(b.last()));
        lemma_hex_text_has_no_colon(last_a);
        lemma_hex_text_has_no_colon(last_b);
        lemma_last_colon(
            with_parts(key, a.drop_last()),
            hex_text(last_a),
            with_parts(key, b.drop_last()),
            hex_text(last_b),
        );
        law_hex_text_is_injective(last_a, last_b);
        law_key_tells_its_parts(key, a.drop_last(), b.drop_last());
        assert forall|i: int| 0 <= i < a.len() implies sha256(encode_utf8(#[trigger] a[i]))
            == sha256(encode_utf8(b[i])) by {
            if i < a.len() - 1 {
                assert(a.drop_last()[i] == a[i]);
                assert(b.drop_last()[i] == b[i]);
            }
        }
    }
}

/// Callers whose principals have different hashes have different keys for the same request; so do
/// callers whose sessions have.
pub proof fn law_identity_key_partitions(
    method: Seq<char>,
    params: JsonModel,
    a: IdentityModel,
    b: IdentityModel,
)
    requires
        sha256(encode_utf8(or_empty(a.principal))) != sha256(encode_utf8(or_empty(b.principal)))
            || sha256(encode_utf8(or_empty(a.session))) != sha256(
            encode_utf8(or_empty(b.session)),
        ),
        a.principal is Some || a.session is Some,
        b.principal is Some || b.session is Some,
    ensures
        key_of(method, params, CacheScope::Identity, a) != key_of(
            method,
            params,
            CacheScope::Identity,
            b,
        ),
{
    if key_of(method, params, CacheScope::Identity, a) == key_of(
        method,
        params,
        CacheScope::Identity,
        b,
    ) {
        let one = identity_parts(a);
        let two = identity_parts(b);
        law_key_tells_its_parts(shared_key(method, params), one, two);
        assert(one[0] == or_empty(a.principal) && two[0] == or_empty(b.principal));
        assert(one[1] == or_empty(a.session) && two[1] == or_empty(b.session));
    }
}

/// What is hashed for requests of one method is the same exactly where their parameters are equal
/// as JSON values, all of them: nothing of the parameters is left out.
pub proof fn law_preimage_tells_parameters(method: Seq<char>, a: JsonModel, b: JsonModel)
    requires
        has_own_text(canonical(a)),
        is_whole(b),
        has_distinct_names(a),
        has_distinct_names(b),
    ensures
        preimage(method, a) == preimage(method, b) <==> same_up_to_member_order(a, b),
{
    law_params_text_distinguishes(a, b);
    let n = encode_utf8(method).len() as int + 1;
    assert(preimage(method, a).skip(n) =~= encode_utf8(params_text(a)));
    assert(preimage(method, b).skip(n) =~= encode_utf8(params_text(b)));
    if preimage(method, a) == preimage(method, b) {
        lemma_utf8_is_injective(params_text(a), params_text(b));
    }
}

/// The method does not hold the byte that separates it from the parameters.
pub open spec fn is_separable(method: Seq<char>) -> bool {
    forall|i: int| 0 <= i < encode_utf8(method).len() ==> #[trigger] encode_utf8(method)[i] != 30
}

/// What is hashed for two requests is the same exactly where the methods are the same and the
/// parameters are equal as JSON values.
pub proof fn law_preimage_tells_requests(
    one: Seq<char>,
    a: JsonModel,
    two: Seq<char>,
    b: JsonModel,
)
    requires
        is_separable(one),
        is_separable(two),
        has_own_text(canonical(a)),
        is_whole(b),
        has_distinct_names(a),
        has_distinct_names(b),
    ensures
        preimage(one, a) == preimage(two, b) <==> one == two && same_up_to_member_order(a, b),
{
    law_preimage_tells_parameters(one, a, b);
    if preimage(one, a) == preimage(two, b) {
        let x = encode_utf8(one);
        let y = encode_utf8(two);
        let s = preimage(one, a);
        let t = preimage(two, b);
        if x.len() < y.len() {
            assert(s[x.len() as int] == 30);
            assert(t[x.len() as int] == y[x.len() as int]);
        } else if y.len() < x.len() {
            assert(t[y.len() as int] == 30);
            assert(s[y.len() as int] == x[y.len() as int]);
        }
        assert(s.take(x.len() as int) =~= x);
        assert(t.take(y.len() as int) =~= y);
        lemma_utf8_is_injective(one, two);
    }
}

/// Two keys of one scope are the same only where the methods are the same, what is hashed for the
/// requests has the same hash, and, where the keys belong to identities, principals and sessions
/// have the same hashes.
pub proof fn law_key_tells_what_is_hashed(
    one: Seq<char>,
    a: JsonModel,
    first: IdentityModel,
    two: Seq<char>,
    b: JsonModel,
    second: IdentityModel,
    scope: CacheScope,
)
    requires
        key_of(one, a, scope, first) is Some,
        key_of(one, a, scope, first) == key_of(two, b, scope, second),
    ensures
        one == two,
        sha256(preimage(one, a)) == sha256(preimage(two, b)),
        scope == CacheScope::Identity ==> sha256(encode_utf8(or_empty(first.principal))) == sha256(
            encode_utf8(or_empty(second.principal)),
        ) && sha256(encode_utf8(or_empty(first.session))) == sha256(
            encode_utf8(or_empty(second.session)),
        ),
{
    if scope == CacheScope::Identity {
        lemma_identity_key(one, a, first);
        lemma_identity_key(two, b, second);
        let p = sha256(encode_utf8(or_empty(first.principal)));
        let q = sha256(encode_utf8(or_empty(second.principal)));
        let s = sha256(encode_utf8(or_empty(first.session)));
        let t = sha256(encode_utf8(or_empty(second.session)));
        lemma_hex_text_has_no_colon(p);
        lemma_hex_text_has_no_colon(q);
        lemma_hex_text_has_no_colon(s);
        lemma_hex_text_has_no_colon(t);
        let x = shared_key(one, a).push(':') + hex_text(p);
        let y = shared_key(two, b).push(':') + hex_text(q);
        lemma_last_colon(x, hex_text(s), y, hex_text(t));
        lemma_last_colon(shared_key(one, a), hex_text(p), shared_key(two, b), hex_text(q));
        law_hex_text_is_injective(p, q);
        law_hex_text_is_injective(s, t);
    }
    let g = sha256(preimage(one, a));
    let h = sha256(preimage(two, b));
    lemma_hex_text_has_no_colon(g);
    lemma_hex_text_has_no_colon(h);
    lemma_last_colon(one, hex_text(g), two, hex_text(h));
    law_hex_text_is_injective(g, h);
}

/// Different requests have different keys: where the hash tells apart what is hashed for two
/// requests, their keys are the same only where the methods are the same and the parameters are
/// equal as JSON values.
pub proof fn law_different_requests_have_different_keys(
    one: Seq<char>,
    a: JsonModel,
    first: IdentityModel,
    two: Seq<char>,
    b: JsonModel,
    second: IdentityModel,
    scope: CacheScope,
)
    requires
        has_own_text(canonical(a)),
        is_whole(b),
        has_distinct_names(a),
        has_distinct_names(b),
        sha256(preimage(one, a)) == sha256(preimage(two, b)) ==> preimage(one, a) == preimage(
            two,
            b,
        ),
        key_of(one, a, scope, first) is Some,
        key_of(one, a, scope, first) == key_of(two, b, scope, second),
    ensures
        one == two,
        same_up_to_member_order(a, b),
{
    law_key_tells_what_is_hashed(one, a, first, two, b, second, scope);
    law_preimage_tells_parameters(one, a, b);
}

/// What is hashed for a request is the method, the byte thirty, and the JSON text of all its
/// parameters with the members of every object in key order, in UTF-8.
pub proof fn law_what_is_hashed(method: Seq<char>, params: JsonModel)
    ensures
        preimage(method, params).len() == encode_utf8(method).len() + 1 + encode_utf8(
            json_text(canonical(params)),
        ).len(),
        preimage(method, params).take(encode_utf8(method).len() as int) == encode_utf8(method),
        preimage(method, params)[encode_utf8(method).len() as int] == 30,
        preimage(method, params).skip(encode_utf8(method).len() as int + 1) == encode_utf8(
            json_text(canonical(params)),
        ),
{
}

/// Each byte is written as two of the sixteen digits, the higher four bits first.
pub proof fn law_hex_digits(bytes: Seq<u8>, i: int)
    requires
        0 <= i < bytes.len(),
    ensures
        hex_text(bytes).len() == 2 * bytes.len(),
        hex_text(bytes)[2 * i] == "0123456789abcdef"@[bytes[i] as int / 16],
        hex_text(bytes)[2 * i + 1] == "0123456789abcdef"@[bytes[i] as int % 16],
{
    reveal_strlit("0123456789abcdef");
    assert forall|n: int| 0 <= n < 16 implies hex_digit(n) == #[trigger] "0123456789abcdef"@[n] by {
        lemma_hex_digit(n);
    }
}

proof fn lemma_hex_digit(n: int)
    requires
        0 <= n < 16,
    ensures
        hex_digit(n) == "0123456789abcdef"@[n],
{
    reveal_strlit("0123456789abcdef");
    assert(hex_digit(0) == '0' && hex_digit(1) == '1' && hex_digit(2) == '2');
    assert(hex_digit(3) == '3' && hex_digit(4) == '4' && hex_digit(5) == '5');
    assert(hex_digit(6) == '6' && hex_digit(7) == '7' && hex_digit(8) == '8');
    assert(hex_digit(9) == '9' && hex_digit(10) == 'a' && hex_digit(11) == 'b');
    assert(hex_digit(12) == 'c' && hex_digit(13) == 'd' && hex_digit(14) == 'e');
    assert(hex_digit(15) == 'f');
}

/// The key that all callers share is the method, a colon and the hash in hexadecimal. The key of an
/// identity has behind it the hash of the principal and that of the session, each behind a colon; a
/// missing one counts as empty.
pub proof fn law_what_a_key_is(
    method: Seq<char>,
    params: JsonModel,
    identity: IdentityModel,
    principal: Seq<char>,
    session: Seq<char>,
)
    ensures
        key_of(method, params, CacheScope::Shared, identity) == Some(
            method.push(':') + hex_text(sha256(preimage(method, params))),
        ),
        key_of(
            method,
            params,
            CacheScope::Identity,
            IdentityModel { principal: Some(principal), session: Some(session) },
        ) == Some(
            ((method.push(':') + hex_text(sha256(preimage(method, params)))).push(':') + hex_text(
                sha256(encode_utf8(principal)),
            )).push(':') + hex_text(sha256(encode_utf8(session))),
        ),
        key_of(
            method,
            params,
            CacheScope::Identity,
            IdentityModel { principal: Some(principal), session: None },
        ) == key_of(
            method,
            params,
            CacheScope::Identity,
            IdentityModel { principal: Some(principal), session: Some(Seq::empty()) },
        ),
        key_of(
            method,
            params,
            CacheScope::Identity,
            IdentityModel { principal: None, session: Some(session) },
        ) == key_of(
            method,
            params,
            CacheScope::Identity,
            IdentityModel { principal: Some(Seq::empty()), session: Some(session) },
        ),
{
    lemma_identity_key(
        method,
        params,
        IdentityModel { principal: Some(principal), session: Some(session) },
    );
}

/// Without parts there is no key; with one part there is, and every further part puts its hash,
/// behind a colon, behind the key that the parts before it make.
pub proof fn law_what_a_part_adds(
    method: Seq<char>,
    params: JsonModel,
    parts: Seq<Seq<char>>,
    part: Seq<char>,
)
    ensures
        parts_key(method, params, Seq::empty()) is None,
        parts.len() == 0 ==> parts_key(method, params, parts.push(part)) == Some(
            (method.push(':') + hex_text(sha256(preimage(method, params)))).push(':') + hex_text(
                sha256(encode_utf8(part)),
            ),
        ),
        parts.len() > 0 ==> parts_key(method, params, parts) is Some && parts_key(
            method,
            params,
            parts.push(part),
        ) == Some(
            parts_key(method, params, parts)->0.push(':') + hex_text(sha256(encode_utf8(part))),
        ),
{
    assert(parts.push(part).drop_last() =~= parts);
    reveal_with_fuel(with_parts, 2);
}

/// Who sends a request stands for the principal and the session that it names, each for itself; a
/// source stands for what it names.
pub proof fn law_what_identities_stand_for(
    identity: Identity<'_>,
    source: PartitionSource,
    text: Seq<char>,
)
    ensures
        identity@.principal == Some(text) <==> (identity.principal matches Some(t) && t@ == text),
        identity@.session == Some(text) <==> (identity.session matches Some(t) && t@ == text),
        source@ is Principal <==> source is Principal,
        source@ is Session <==> source is Session,
        source@ == SourceModel::Header(text) <==> (source matches PartitionSource::Header(name)
            && name@ == text),
{
}

/// A tool's scope is `identity` exactly where the configuration says so in that very word.
pub proof fn law_scopes(scope: Option<Seq<char>>)
    ensures
        scope_in(scope) == CacheScope::Identity <==> scope == Some("identity"@),
        scope_in(scope) == CacheScope::Shared <==> scope != Some("identity"@),
{
}

/// White space around an entry does not count. The words `principal` and `session` name those
/// sources in any case of letters, and `header:` names the header behind it, in lower case and
/// without the white space around it; an empty name names nothing. Nothing else names a source.
pub proof fn law_sources(
    before: Seq<char>,
    entry: Seq<char>,
    behind: Seq<char>,
    word: Seq<char>,
    name: Seq<char>,
)
    requires
        is_blank(before),
        is_blank(behind),
        has_no_outer_space(entry),
    ensures
        source_in(before + entry + behind) == source_in(entry),
        source_in(entry) == Some(SourceModel::Principal) <==> ascii_lower(entry) == "principal"@,
        source_in(entry) == Some(SourceModel::Session) <==> ascii_lower(entry) == "session"@,
        entry == word + name && ascii_lower(word) == "header:"@ ==> source_in(entry) == if trimmed(
            name,
        ).len() == 0 {
            None
        } else {
            Some(SourceModel::Header(ascii_lower(trimmed(name))))
        },
        source_in(entry) matches Some(SourceModel::Header(_)) ==> entry.len() >= 7 && ascii_lower(
            entry.take(7),
        ) == "header:"@,
{
    let none = Seq::<char>::empty();
    law_trimming_finds_the_text(before, entry, behind);
    law_trimming_finds_the_text(none, entry, none);
    assert(none + entry + none =~= entry);
    lemma_keywords();
    reveal_strlit("principal");
    reveal_strlit("session");
    reveal_strlit("header:");
    assert("principal"@[0] == 'p' && "session"@[0] == 's' && "header:"@[0] == 'h');
    assert("principal"@.len() == 9 && "session"@.len() == 7);
    law_lower_case(entry);
    if ascii_lower(entry) == "principal"@ {
        assert(ascii_lower(entry) != "session"@);
    }
    if entry == word + name && ascii_lower(word) == "header:"@ {
        assert(word.len() == 7);
        assert(entry.take(7) =~= word);
        assert(entry.skip(7) =~= name);
        law_lower_case(word);
        assert(ascii_lower(entry)[0] == ascii_lower(word)[0]);
        assert(ascii_lower(entry)[0] == 'h');
    }
}

} // verus!
