//! JSON values: the library's own tree, its mathematical model, and the canonical form that does
//! not depend on the order in which objects list their members.

use crate::text::{lemma_utf8_is_injective, same_text};
use crate::wire::number_model;
use vstd::prelude::*;
use vstd::string::*;
use vstd::utf8::*;

verus! {

// ---------------------------------------------------------------------------------------------
// The model
// ---------------------------------------------------------------------------------------------

/// A JSON value as a mathematical object. The members of an object stand in the order in which
/// they are written.
pub enum JsonModel {
    Null,
    Bool(bool),
    Int(int),
    Float(serde_json::Number),
    Text(Seq<char>),
    Array(Seq<JsonModel>),
    Object(Seq<(Seq<char>, JsonModel)>),
}

/// The member named `key`: the last one where the name occurs more than once.
pub open spec fn lookup(members: Seq<(Seq<char>, JsonModel)>, key: Seq<char>) -> Option<JsonModel>
    decreases members.len(),
{
    if members.len() == 0 {
        None
    } else if members.last().0 == key {
        Some(members.last().1)
    } else {
        lookup(members.drop_last(), key)
    }
}

/// The member of an object named `key`; a value that is no object has none.
pub open spec fn field(model: JsonModel, key: Seq<char>) -> Option<JsonModel> {
    match model {
        JsonModel::Object(members) => lookup(members, key),
        _ => None,
    }
}

/// The lexicographic order of byte sequences.
pub open spec fn bytes_before(a: Seq<u8>, b: Seq<u8>) -> bool
    decreases b.len(),
{
    if b.len() == 0 {
        false
    } else if a.len() == 0 {
        true
    } else if a[0] == b[0] {
        bytes_before(a.drop_first(), b.drop_first())
    } else {
        a[0] < b[0]
    }
}

/// The order of member names: that of their UTF-8 bytes.
pub open spec fn key_before(a: Seq<char>, b: Seq<char>) -> bool {
    bytes_before(encode_utf8(a), encode_utf8(b))
}

/// Every member comes before those that follow it.
pub open spec fn in_key_order(members: Seq<(Seq<char>, JsonModel)>) -> bool {
    forall|i: int, j: int|
        0 <= i < j < members.len() ==> key_before(#[trigger] members[i].0, #[trigger] members[j].0)
}

/// Puts a member at its place among members in key order; a member of the same name is replaced.
pub open spec fn put_member(
    members: Seq<(Seq<char>, JsonModel)>,
    key: Seq<char>,
    value: JsonModel,
) -> Seq<(Seq<char>, JsonModel)>
    decreases members.len(),
{
    if members.len() == 0 {
        seq![(key, value)]
    } else if members.last().0 == key {
        members.drop_last().push((key, value))
    } else if key_before(members.last().0, key) {
        members.push((key, value))
    } else {
        put_member(members.drop_last(), key, value).push(members.last())
    }
}

/// The members put, one after the other, at their place in key order.
pub open spec fn gathered(members: Seq<(Seq<char>, JsonModel)>) -> Seq<(Seq<char>, JsonModel)>
    decreases members.len(),
{
    if members.len() == 0 {
        Seq::empty()
    } else {
        put_member(gathered(members.drop_last()), members.last().0, members.last().1)
    }
}

/// The value with the members of every object, at any depth, in key order. The order of an array
/// stays.
pub open spec fn canonical(model: JsonModel) -> JsonModel
    decreases model, 1int,
{
    match canonical_inside(model) {
        JsonModel::Object(members) => JsonModel::Object(gathered(members)),
        other => other,
    }
}

/// The value with what an array or an object holds made canonical, and left where it stands.
pub open spec fn canonical_inside(model: JsonModel) -> JsonModel
    decreases model, 0int,
{
    match model {
        JsonModel::Array(items) => JsonModel::Array(
            Seq::new(
                items.len(),
                |i: int|
                    if 0 <= i < items.len() {
                        canonical(items[i])
                    } else {
                        JsonModel::Null
                    },
            ),
        ),
        JsonModel::Object(members) => JsonModel::Object(
            Seq::new(
                members.len(),
                |i: int|
                    if 0 <= i < members.len() {
                        (members[i].0, canonical(members[i].1))
                    } else {
                        (Seq::empty(), JsonModel::Null)
                    },
            ),
        ),
        other => other,
    }
}

/// The value with the member `key` of an object set to `value`.
pub open spec fn with_field(model: JsonModel, key: Seq<char>, value: JsonModel) -> JsonModel {
    match model {
        JsonModel::Object(members) => JsonModel::Object(put_member(members, key, value)),
        other => other,
    }
}

/// The members of every object, at any depth, stand in key order.
pub open spec fn is_canonical(model: JsonModel) -> bool
    decreases model,
{
    match model {
        JsonModel::Array(items) => forall|i: int|
            0 <= i < items.len() ==> is_canonical(#[trigger] items[i]),
        JsonModel::Object(members) => in_key_order(members) && forall|i: int|
            0 <= i < members.len() ==> is_canonical((#[trigger] members[i]).1),
        _ => true,
    }
}

/// Arrays and objects are nested at most `limit` deep.
pub open spec fn nested_at_most(model: JsonModel, limit: int) -> bool
    decreases model,
{
    match model {
        JsonModel::Array(items) => limit > 0 && forall|i: int|
            0 <= i < items.len() ==> nested_at_most(#[trigger] items[i], limit - 1),
        JsonModel::Object(members) => limit > 0 && forall|i: int|
            0 <= i < members.len() ==> nested_at_most((#[trigger] members[i]).1, limit - 1),
        _ => true,
    }
}

/// No number in the value is a floating-point one.
pub open spec fn is_float_free(model: JsonModel) -> bool
    decreases model,
{
    match model {
        JsonModel::Float(_) => false,
        JsonModel::Array(items) => forall|i: int|
            0 <= i < items.len() ==> is_float_free(#[trigger] items[i]),
        JsonModel::Object(members) => forall|i: int|
            0 <= i < members.len() ==> is_float_free((#[trigger] members[i]).1),
        _ => true,
    }
}

/// Every number in the value is an integer that fits a `u64` or an `i64`.
pub open spec fn is_whole(model: JsonModel) -> bool
    decreases model,
{
    match model {
        JsonModel::Int(n) => i64::MIN <= n <= u64::MAX,
        JsonModel::Float(_) => false,
        JsonModel::Array(items) => forall|i: int|
            0 <= i < items.len() ==> is_whole(#[trigger] items[i]),
        JsonModel::Object(members) => forall|i: int|
            0 <= i < members.len() ==> is_whole((#[trigger] members[i]).1),
        _ => true,
    }
}

// ---------------------------------------------------------------------------------------------
// The value
// ---------------------------------------------------------------------------------------------

/// A JSON value. A floating-point number is carried as `serde_json` holds it.
#[derive(Debug, PartialEq)]
pub enum Json {
    Null,
    Bool(bool),
    Unsigned(u64),
    Negative(i64),
    Float(serde_json::Number),
    Text(String),
    Array(Vec<Json>),
    Object(Vec<(String, Json)>),
}

/// What a `Json` stands for.
pub open spec fn json_model(json: Json) -> JsonModel
    decreases json,
{
    match json {
        Json::Null => JsonModel::Null,
        Json::Bool(b) => JsonModel::Bool(b),
        Json::Unsigned(n) => JsonModel::Int(n as int),
        Json::Negative(n) => JsonModel::Int(n as int),
        Json::Float(n) => number_model(n),
        Json::Text(s) => JsonModel::Text(s@),
        Json::Array(items) => JsonModel::Array(
            Seq::new(
                items@.len(),
                |i: int|
                    if 0 <= i < items@.len() {
                        json_model(items@[i])
                    } else {
                        JsonModel::Null
                    },
            ),
        ),
        Json::Object(members) => JsonModel::Object(
            Seq::new(
                members@.len(),
                |i: int|
                    if 0 <= i < members@.len() {
                        (members@[i].0@, json_model(members@[i].1))
                    } else {
                        (Seq::empty(), JsonModel::Null)
                    },
            ),
        ),
    }
}

impl View for Json {
    type V = JsonModel;

    open spec fn view(&self) -> JsonModel {
        json_model(*self)
    }
}

/// What a list of members stands for.
pub open spec fn members_model(members: Seq<(String, Json)>) -> Seq<(Seq<char>, JsonModel)> {
    Seq::new(members.len(), |i: int| (members[i].0@, json_model(members[i].1)))
}

/// What a list of items stands for.
pub open spec fn items_model(items: Seq<Json>) -> Seq<JsonModel> {
    Seq::new(items.len(), |i: int| json_model(items[i]))
}

/// An array stands for its items, an object for its members.
pub proof fn lemma_containers(items: Vec<Json>, members: Vec<(String, Json)>)
    ensures
        json_model(Json::Array(items)) == JsonModel::Array(items_model(items@)),
        json_model(Json::Object(members)) == JsonModel::Object(members_model(members@)),
{
    assert(json_model(Json::Array(items))->Array_0 =~= items_model(items@));
    assert(json_model(Json::Object(members))->Object_0 =~= members_model(members@));
}

// ---------------------------------------------------------------------------------------------
// Looking into a value
// ---------------------------------------------------------------------------------------------

/// The member named `key` of a value that may be missing.
pub open spec fn field_in(found: Option<JsonModel>, key: Seq<char>) -> Option<JsonModel> {
    match found {
        Some(model) => field(model, key),
        None => None,
    }
}

/// What an optional value stands for.
pub open spec fn optional_model(json: Option<&Json>) -> Option<JsonModel> {
    match json {
        Some(j) => Some(j@),
        None => None,
    }
}

/// The value is the boolean `true`.
pub open spec fn is_true(model: Option<JsonModel>) -> bool {
    model == Some(JsonModel::Bool(true))
}

impl Json {
    /// The member named `key` of an object; none where there is no such member or the value is
    /// no object.
    pub fn get(&self, key: &str) -> (found: Option<&Json>)
        ensures
            optional_model(found) == field(self@, key@),
    {
        if let Json::Object(members) = self {
            let ghost all = members_model(members@);
            proof {
                lemma_containers(arbitrary(), *members);
                assert(all.take(all.len() as int) =~= all);
            }
            let mut i: usize = members.len();
            while i > 0
                invariant
                    i <= members@.len(),
                    all == members_model(members@),
                    self@ == JsonModel::Object(all),
                    lookup(all, key@) == lookup(all.take(i as int), key@),
                decreases i,
            {
                i -= 1;
                assert(all.take(i + 1).drop_last() =~= all.take(i as int));
                assert(all.take(i + 1).last() == (
                    members@[i as int].0@,
                    json_model(members@[i as int].1),
                ));
                if same_text(members[i].0.as_str(), key) {
                    return Some(&members[i].1);
                }
            }
            None
        } else {
            None
        }
    }

    /// A copy of the value.
    pub fn copied(&self) -> (copy: Json)
        ensures
            copy@ == self@,
        decreases *self,
    {
        match self {
            Json::Null => Json::Null,
            Json::Bool(b) => Json::Bool(*b),
            Json::Unsigned(n) => Json::Unsigned(*n),
            Json::Negative(n) => Json::Negative(*n),
            Json::Float(n) => Json::Float(n.clone()),
            Json::Text(text) => Json::Text(text.clone()),
            Json::Array(items) => {
                let mut copies: Vec<Json> = Vec::new();
                let mut i: usize = 0;
                while i < items.len()
                    invariant
                        i <= items@.len(),
                        *self == Json::Array(*items),
                        copies@.len() == i,
                        forall|j: int|
                            0 <= j < i ==> json_model(#[trigger] copies@[j]) == json_model(
                                items@[j],
                            ),
                    decreases items@.len() - i,
                {
                    assert(decreases_to!(*self => self->Array_0));
                    assert(decreases_to!(items => items@));
                    assert(decreases_to!(items@ => items@[i as int]));
                    copies.push(items[i].copied());
                    i += 1;
                }
                proof {
                    lemma_containers(*items, arbitrary());
                    lemma_containers(copies, arbitrary());
                    assert(items_model(copies@) =~= items_model(items@));
                }
                Json::Array(copies)
            },
            Json::Object(members) => {
                let mut copies: Vec<(String, Json)> = Vec::new();
                let mut i: usize = 0;
                while i < members.len()
                    invariant
                        i <= members@.len(),
                        *self == Json::Object(*members),
                        copies@.len() == i,
                        forall|j: int|
                            0 <= j < i ==> (#[trigger] copies@[j]).0@ == members@[j].0@
                                && json_model(copies@[j].1) == json_model(members@[j].1),
                    decreases members@.len() - i,
                {
                    assert(decreases_to!(*self => self->Object_0));
                    assert(decreases_to!(members => members@));
                    assert(decreases_to!(members@ => members@[i as int]));
                    assert(decreases_to!(members@[i as int] => members@[i as int].1));
                    copies.push((members[i].0.clone(), members[i].1.copied()));
                    i += 1;
                }
                proof {
                    lemma_containers(arbitrary(), *members);
                    lemma_containers(arbitrary(), copies);
                    assert(members_model(copies@) =~= members_model(members@));
                }
                Json::Object(copies)
            },
        }
    }

    /// Whether the value is an object.
    pub fn is_object(&self) -> (object: bool)
        ensures
            object == (self@ is Object),
    {
        matches!(self, Json::Object(_))
    }
}

/// The member named `key` of a value that may be missing.
pub fn get_in<'a>(json: Option<&'a Json>, key: &str) -> (found: Option<&'a Json>)
    ensures
        optional_model(found) == field_in(optional_model(json), key@),
{
    match json {
        Some(j) => j.get(key),
        None => None,
    }
}

/// Whether there is a value and it is the boolean `true`.
pub fn holds_true(json: Option<&Json>) -> (holds: bool)
    ensures
        holds == is_true(optional_model(json)),
{
    match json {
        Some(Json::Bool(b)) => *b,
        _ => false,
    }
}

// ---------------------------------------------------------------------------------------------
// The order of member names
// ---------------------------------------------------------------------------------------------

proof fn lemma_bytes_order_is_strict(a: Seq<u8>)
    ensures
        !bytes_before(a, a),
    decreases a.len(),
{
    if a.len() > 0 {
        lemma_bytes_order_is_strict(a.drop_first());
    }
}

proof fn lemma_bytes_order(a: Seq<u8>, b: Seq<u8>)
    ensures
        a == b || bytes_before(a, b) || bytes_before(b, a),
        !(bytes_before(a, b) && bytes_before(b, a)),
    decreases a.len() + b.len(),
{
    if a.len() > 0 && b.len() > 0 {
        if a[0] == b[0] {
            lemma_bytes_order(a.drop_first(), b.drop_first());
            if a.drop_first() == b.drop_first() {
                assert(a =~= seq![a[0]] + a.drop_first());
                assert(b =~= seq![b[0]] + b.drop_first());
            }
        }
    } else if a.len() == 0 && b.len() == 0 {
        assert(a =~= b);
    }
}

proof fn lemma_bytes_order_is_transitive(a: Seq<u8>, b: Seq<u8>, c: Seq<u8>)
    requires
        bytes_before(a, b),
        bytes_before(b, c),
    ensures
        bytes_before(a, c),
    decreases a.len(),
{
    if a.len() > 0 && a[0] == b[0] && b[0] == c[0] {
        lemma_bytes_order_is_transitive(a.drop_first(), b.drop_first(), c.drop_first());
    }
}

/// Of two different names exactly one comes before the other, and none before itself.
pub proof fn lemma_key_order(a: Seq<char>, b: Seq<char>)
    ensures
        !key_before(a, a),
        a == b || key_before(a, b) || key_before(b, a),
        !(key_before(a, b) && key_before(b, a)),
{
    lemma_bytes_order_is_strict(encode_utf8(a));
    lemma_bytes_order(encode_utf8(a), encode_utf8(b));
    if encode_utf8(a) == encode_utf8(b) {
        lemma_utf8_is_injective(a, b);
    }
}

/// A name that comes before one that comes before a third comes before the third.
pub proof fn lemma_key_order_is_transitive(a: Seq<char>, b: Seq<char>, c: Seq<char>)
    requires
        key_before(a, b),
        key_before(b, c),
    ensures
        key_before(a, c),
{
    lemma_bytes_order_is_transitive(encode_utf8(a), encode_utf8(b), encode_utf8(c));
}

// ---------------------------------------------------------------------------------------------
// Members in key order
// ---------------------------------------------------------------------------------------------

/// A name is found exactly where it is the name of a member, and what is found is a member.
pub proof fn lemma_lookup(members: Seq<(Seq<char>, JsonModel)>, key: Seq<char>)
    ensures
        lookup(members, key) matches Some(v) ==> exists|i: int|
            0 <= i < members.len() && #[trigger] members[i] == (key, v),
        lookup(members, key) is None ==> forall|i: int|
            0 <= i < members.len() ==> #[trigger] members[i].0 != key,
    decreases members.len(),
{
    if members.len() > 0 {
        let rest = members.drop_last();
        lemma_lookup(rest, key);
        if members.last().0 == key {
            assert(members[members.len() - 1] == (key, members.last().1));
        } else if lookup(rest, key) is Some {
            let i = choose|i: int|
                0 <= i < rest.len() && #[trigger] rest[i] == (key, lookup(rest, key)->0);
            assert(members[i] == rest[i]);
        } else {
            assert forall|i: int| 0 <= i < members.len() implies #[trigger] members[i].0
                != key by {
                if i < rest.len() {
                    assert(members[i] == rest[i]);
                }
            }
        }
    }
}

/// In key order every member is found under its name.
pub proof fn lemma_lookup_in_order(members: Seq<(Seq<char>, JsonModel)>, i: int)
    requires
        in_key_order(members),
        0 <= i < members.len(),
    ensures
        lookup(members, members[i].0) == Some(members[i].1),
    decreases members.len(),
{
    if i < members.len() - 1 {
        let rest = members.drop_last();
        lemma_key_order(members[i].0, members.last().0);
        assert(key_before(members[i].0, members[members.len() - 1].0));
        assert(rest[i] == members[i]);
        lemma_in_order_rest(members);
        lemma_lookup_in_order(rest, i);
    }
}

proof fn lemma_in_order_rest(members: Seq<(Seq<char>, JsonModel)>)
    requires
        in_key_order(members),
        members.len() > 0,
    ensures
        in_key_order(members.drop_last()),
        lookup(members.drop_last(), members.last().0) is None,
{
    let rest = members.drop_last();
    assert forall|i: int, j: int| 0 <= i < j < rest.len() implies key_before(
        #[trigger] rest[i].0,
        #[trigger] rest[j].0,
    ) by {
        assert(rest[i] == members[i] && rest[j] == members[j]);
    }
    lemma_lookup(rest, members.last().0);
    if lookup(rest, members.last().0) is Some {
        let i = choose|i: int|
            0 <= i < rest.len() && #[trigger] rest[i] == (
                members.last().0,
                lookup(rest, members.last().0)->0,
            );
        assert(rest[i] == members[i]);
        lemma_key_order(members[i].0, members.last().0);
        assert(key_before(members[i].0, members[members.len() - 1].0));
    }
}

/// Putting a member sets it and changes no other.
pub proof fn lemma_put_lookup(
    members: Seq<(Seq<char>, JsonModel)>,
    key: Seq<char>,
    value: JsonModel,
    k: Seq<char>,
)
    ensures
        lookup(put_member(members, key, value), k) == if k == key {
            Some(value)
        } else {
            lookup(members, k)
        },
    decreases members.len(),
{
    let put = put_member(members, key, value);
    if members.len() == 0 {
        assert(put.drop_last() =~= members);
    } else if members.last().0 == key {
        assert(put.drop_last() =~= members.drop_last());
    } else if key_before(members.last().0, key) {
        assert(put.drop_last() =~= members);
    } else {
        lemma_put_lookup(members.drop_last(), key, value, k);
        assert(put.drop_last() =~= put_member(members.drop_last(), key, value));
    }
}

/// Every member after a put is the one put or was there before.
pub proof fn lemma_put_contents(
    members: Seq<(Seq<char>, JsonModel)>,
    key: Seq<char>,
    value: JsonModel,
    i: int,
)
    requires
        0 <= i < put_member(members, key, value).len(),
    ensures
        put_member(members, key, value)[i] == (key, value) || members.contains(
            put_member(members, key, value)[i],
        ),
    decreases members.len(),
{
    let put = put_member(members, key, value);
    if members.len() == 0 {
    } else if members.last().0 == key || key_before(members.last().0, key) {
        if put[i] != (key, value) {
            assert(put[i] == members[i]);
        }
    } else if i == put.len() - 1 {
        assert(put[i] == members[members.len() - 1]);
    } else {
        let rest = members.drop_last();
        lemma_put_contents(rest, key, value, i);
        assert(put[i] == put_member(rest, key, value)[i]);
        if put[i] != (key, value) {
            let n = choose|n: int| 0 <= n < rest.len() && rest[n] == put[i];
            assert(members[n] == put[i]);
        }
    }
}

/// Putting a member keeps the key order.
pub proof fn lemma_put_order(
    members: Seq<(Seq<char>, JsonModel)>,
    key: Seq<char>,
    value: JsonModel,
)
    requires
        in_key_order(members),
    ensures
        in_key_order(put_member(members, key, value)),
    decreases members.len(),
{
    let put = put_member(members, key, value);
    if members.len() == 0 {
    } else if members.last().0 == key {
        assert forall|i: int, j: int| 0 <= i < j < put.len() implies key_before(
            #[trigger] put[i].0,
            #[trigger] put[j].0,
        ) by {
            assert(put[i].0 == members[i].0 && put[j].0 == members[j].0);
        }
    } else if key_before(members.last().0, key) {
        assert forall|i: int, j: int| 0 <= i < j < put.len() implies key_before(
            #[trigger] put[i].0,
            #[trigger] put[j].0,
        ) by {
            assert(put[i] == members[i]);
            if j < members.len() {
                assert(put[j] == members[j]);
            } else if i < members.len() - 1 {
                assert(key_before(members[i].0, members[members.len() - 1].0));
                lemma_key_order_is_transitive(members[i].0, members.last().0, key);
            }
        }
    } else {
        let rest = members.drop_last();
        let last = members.last();
        lemma_in_order_rest(members);
        lemma_key_order(last.0, key);
        lemma_put_order(rest, key, value);
        let inner = put_member(rest, key, value);
        assert forall|i: int, j: int| 0 <= i < j < put.len() implies key_before(
            #[trigger] put[i].0,
            #[trigger] put[j].0,
        ) by {
            assert(put[i] == inner[i]);
            if j < inner.len() {
                assert(put[j] == inner[j]);
            } else {
                lemma_put_contents(rest, key, value, i);
                if inner[i] != (key, value) {
                    let n = choose|n: int| 0 <= n < rest.len() && rest[n] == inner[i];
                    assert(rest[n] == members[n]);
                    assert(key_before(members[n].0, members[members.len() - 1].0));
                }
            }
        }
    }
}

/// Putting a member keeps the key order, sets that member and changes no other; no member comes
/// from anywhere else.
pub proof fn lemma_put_member(
    members: Seq<(Seq<char>, JsonModel)>,
    key: Seq<char>,
    value: JsonModel,
)
    requires
        in_key_order(members),
    ensures
        in_key_order(put_member(members, key, value)),
        forall|k: Seq<char>| #[trigger]
            lookup(put_member(members, key, value), k) == if k == key {
                Some(value)
            } else {
                lookup(members, k)
            },
        forall|i: int|
            0 <= i < put_member(members, key, value).len() ==> #[trigger] put_member(
                members,
                key,
                value,
            )[i] == (key, value) || members.contains(put_member(members, key, value)[i]),
{
    let put = put_member(members, key, value);
    lemma_put_order(members, key, value);
    assert forall|k: Seq<char>| #[trigger] lookup(put, k) == if k == key {
        Some(value)
    } else {
        lookup(members, k)
    } by {
        lemma_put_lookup(members, key, value, k);
    }
    assert forall|i: int| 0 <= i < put.len() implies #[trigger] put[i] == (key, value)
        || members.contains(put[i]) by {
        lemma_put_contents(members, key, value, i);
    }
}

/// Members in key order are determined by what is found under each name.
pub proof fn lemma_order_is_unique(
    a: Seq<(Seq<char>, JsonModel)>,
    b: Seq<(Seq<char>, JsonModel)>,
)
    requires
        in_key_order(a),
        in_key_order(b),
        forall|k: Seq<char>| lookup(a, k) == #[trigger] lookup(b, k),
    ensures
        a == b,
    decreases a.len(),
{
    if a.len() == 0 || b.len() == 0 {
        if a.len() > 0 {
            lemma_lookup_in_order(a, 0);
            assert(lookup(b, a[0].0) is None);
        }
        if b.len() > 0 {
            lemma_lookup_in_order(b, 0);
            assert(lookup(a, b[0].0) is None);
        }
        assert(a =~= b);
    } else {
        let x = a.last();
        let y = b.last();
        assert(lookup(a, x.0) == Some(x.1));
        assert(lookup(b, y.0) == Some(y.1));
        lemma_lookup(b, x.0);
        lemma_lookup(a, y.0);
        assert(lookup(a, x.0) == lookup(b, x.0));
        assert(lookup(a, y.0) == lookup(b, y.0));
        let i = choose|i: int| 0 <= i < b.len() && #[trigger] b[i] == (x.0, x.1);
        let j = choose|j: int| 0 <= j < a.len() && #[trigger] a[j] == (y.0, y.1);
        if x.0 != y.0 {
            assert(key_before(b[i].0, b[b.len() - 1].0));
            assert(key_before(a[j].0, a[a.len() - 1].0));
            lemma_key_order(x.0, y.0);
        }
        lemma_in_order_rest(a);
        lemma_in_order_rest(b);
        assert forall|k: Seq<char>| lookup(a.drop_last(), k) == #[trigger] lookup(
            b.drop_last(),
            k,
        ) by {
            assert(lookup(a, k) == lookup(b, k));
        }
        lemma_order_is_unique(a.drop_last(), b.drop_last());
        assert(a =~= a.drop_last().push(x));
        assert(b =~= b.drop_last().push(y));
    }
}

/// Gathered members are in key order, are found as before, and come from the members gathered.
pub proof fn lemma_gathered(members: Seq<(Seq<char>, JsonModel)>)
    ensures
        in_key_order(gathered(members)),
        forall|k: Seq<char>| #[trigger] lookup(gathered(members), k) == lookup(members, k),
        forall|i: int|
            0 <= i < gathered(members).len() ==> members.contains(#[trigger] gathered(members)[i]),
    decreases members.len(),
{
    if members.len() > 0 {
        let rest = members.drop_last();
        let last = members.last();
        lemma_gathered(rest);
        lemma_put_member(gathered(rest), last.0, last.1);
        let all = gathered(members);
        assert forall|i: int| 0 <= i < all.len() implies members.contains(#[trigger] all[i]) by {
            if all[i] == (last.0, last.1) {
                assert(members[members.len() - 1] == all[i]);
            } else {
                assert(gathered(rest).contains(all[i]));
                let n = choose|n: int| 0 <= n < gathered(rest).len() && gathered(rest)[n] == all[i];
                assert(rest.contains(gathered(rest)[n]));
                let m = choose|m: int| 0 <= m < rest.len() && rest[m] == all[i];
                assert(members[m] == all[i]);
            }
        }
    }
}

/// Gathering members that are in key order changes nothing.
pub proof fn lemma_gathered_in_order(members: Seq<(Seq<char>, JsonModel)>)
    requires
        in_key_order(members),
    ensures
        gathered(members) == members,
{
    lemma_gathered(members);
    lemma_order_is_unique(gathered(members), members);
}

/// What an object has under a name is what the last member of that name holds: a member put behind
/// the others is found under its name and changes nothing under any other. An object without
/// members has nothing, and neither has a value that is no object, or a value that is missing.
pub proof fn law_fields(
    members: Seq<(Seq<char>, JsonModel)>,
    name: Seq<char>,
    value: JsonModel,
    other: Seq<char>,
    model: JsonModel,
)
    ensures
        field(JsonModel::Object(members.push((name, value))), other) == if other == name {
            Some(value)
        } else {
            field(JsonModel::Object(members), other)
        },
        field(JsonModel::Object(Seq::empty()), other) is None,
        !(model is Object) ==> field(model, other) is None,
        field_in(Some(model), other) == field(model, other),
        field_in(None, other) is None,
{
    assert(members.push((name, value)).drop_last() =~= members);
}

// ---------------------------------------------------------------------------------------------
// Canonical values
// ---------------------------------------------------------------------------------------------

/// The members of an object with their values made canonical, where they stand.
pub open spec fn canonical_members(
    members: Seq<(Seq<char>, JsonModel)>,
) -> Seq<(Seq<char>, JsonModel)> {
    Seq::new(members.len(), |i: int| (members[i].0, canonical(members[i].1)))
}

/// The items of an array made canonical.
pub open spec fn canonical_items(items: Seq<JsonModel>) -> Seq<JsonModel> {
    Seq::new(items.len(), |i: int| canonical(items[i]))
}

/// What `canonical` does to an array and to an object.
pub proof fn lemma_canonical_containers(
    items: Seq<JsonModel>,
    members: Seq<(Seq<char>, JsonModel)>,
)
    ensures
        canonical(JsonModel::Array(items)) == JsonModel::Array(canonical_items(items)),
        canonical(JsonModel::Object(members)) == JsonModel::Object(
            gathered(canonical_members(members)),
        ),
{
    reveal_with_fuel(canonical, 2);
    reveal_with_fuel(canonical_inside, 2);
    assert(canonical_inside(JsonModel::Array(items))->Array_0 =~= canonical_items(items));
    assert(canonical_inside(JsonModel::Object(members))->Object_0 =~= canonical_members(members));
}

proof fn lemma_canonical_member(members: Seq<(Seq<char>, JsonModel)>, i: int) -> (n: int)
    requires
        0 <= i < gathered(canonical_members(members)).len(),
    ensures
        0 <= n < members.len(),
        gathered(canonical_members(members))[i] == (members[n].0, canonical(members[n].1)),
{
    let inner = canonical_members(members);
    lemma_gathered(inner);
    assert(inner.contains(gathered(inner)[i]));
    let n = choose|n: int| 0 <= n < inner.len() && inner[n] == gathered(inner)[i];
    n
}

/// The canonical form of a value has the members of every object in key order.
pub proof fn law_canonical_is_in_key_order(model: JsonModel)
    ensures
        is_canonical(canonical(model)),
    decreases model,
{
    match model {
        JsonModel::Array(items) => {
            lemma_canonical_containers(items, Seq::empty());
            assert forall|i: int| 0 <= i < items.len() implies is_canonical(
                #[trigger] canonical_items(items)[i],
            ) by {
                law_canonical_is_in_key_order(items[i]);
            }
        },
        JsonModel::Object(members) => {
            lemma_canonical_containers(Seq::empty(), members);
            let all = gathered(canonical_members(members));
            lemma_gathered(canonical_members(members));
            assert forall|i: int| 0 <= i < all.len() implies is_canonical(
                (#[trigger] all[i]).1,
            ) by {
                let n = lemma_canonical_member(members, i);
                law_canonical_is_in_key_order(members[n].1);
            }
        },
        _ => {},
    }
}

/// A value that is canonical already is its own canonical form.
pub proof fn law_canonical_values_stay(model: JsonModel)
    requires
        is_canonical(model),
    ensures
        canonical(model) == model,
    decreases model,
{
    match model {
        JsonModel::Array(items) => {
            lemma_canonical_containers(items, Seq::empty());
            assert forall|i: int| 0 <= i < items.len() implies canonical_items(items)[i]
                == items[i] by {
                assert(is_canonical(items[i]));
                law_canonical_values_stay(items[i]);
            }
            assert(canonical_items(items) =~= items);
        },
        JsonModel::Object(members) => {
            lemma_canonical_containers(Seq::empty(), members);
            assert forall|i: int| 0 <= i < members.len() implies canonical_members(members)[i]
                == members[i] by {
                assert(is_canonical(members[i].1));
                law_canonical_values_stay(members[i].1);
            }
            assert(canonical_members(members) =~= members);
            lemma_gathered_in_order(members);
        },
        _ => {},
    }
}

/// Making a value canonical a second time changes nothing.
pub proof fn law_canonical_is_idempotent(model: JsonModel)
    ensures
        canonical(canonical(model)) == canonical(model),
{
    law_canonical_is_in_key_order(model);
    law_canonical_values_stay(canonical(model));
}

/// Two members of the list have the same name only where they are the same member.
pub open spec fn names_differ(members: Seq<(Seq<char>, JsonModel)>) -> bool {
    forall|i: int, j: int|
        0 <= i < j < members.len() ==> #[trigger] members[i].0 != #[trigger] members[j].0
}

/// The two values differ at most in the order in which objects list their members. Where they
/// are objects, no name occurs twice in one of them.
#[verifier::opaque]
pub open spec fn same_up_to_member_order(a: JsonModel, b: JsonModel) -> bool
    decreases a,
{
    match (a, b) {
        (JsonModel::Array(x), JsonModel::Array(y)) => x.len() == y.len() && forall|i: int|
            0 <= i < x.len() ==> same_up_to_member_order(#[trigger] x[i], y[i]),
        (JsonModel::Object(x), JsonModel::Object(y)) => {
            &&& x.len() == y.len()
            &&& names_differ(x)
            &&& names_differ(y)
            &&& forall|i: int|
                0 <= i < x.len() ==> (lookup(y, (#[trigger] x[i]).0) matches Some(like)
                    && same_up_to_member_order(x[i].1, like))
            &&& forall|j: int| 0 <= j < y.len() ==> lookup(x, (#[trigger] y[j]).0) is Some
        },
        _ => a == b,
    }
}

proof fn lemma_lookup_of_distinct(members: Seq<(Seq<char>, JsonModel)>, i: int)
    requires
        names_differ(members),
        0 <= i < members.len(),
    ensures
        lookup(members, members[i].0) == Some(members[i].1),
{
    lemma_lookup(members, members[i].0);
    if lookup(members, members[i].0) is Some {
        let v = lookup(members, members[i].0)->0;
        let n = choose|n: int| 0 <= n < members.len() && #[trigger] members[n] == (members[i].0, v);
        if n < i {
            assert(members[n].0 != members[i].0);
        } else if i < n {
            assert(members[i].0 != members[n].0);
        }
    }
}

proof fn lemma_same_objects(x: Seq<(Seq<char>, JsonModel)>, y: Seq<(Seq<char>, JsonModel)>)
    requires
        same_up_to_member_order(JsonModel::Object(x), JsonModel::Object(y)),
    ensures
        names_differ(x),
        names_differ(y),
{
    reveal(same_up_to_member_order);
}

proof fn lemma_same_member(
    x: Seq<(Seq<char>, JsonModel)>,
    y: Seq<(Seq<char>, JsonModel)>,
    i: int,
) -> (j: int)
    requires
        same_up_to_member_order(JsonModel::Object(x), JsonModel::Object(y)),
        0 <= i < x.len(),
    ensures
        0 <= j < y.len(),
        y[j].0 == x[i].0,
        same_up_to_member_order(x[i].1, y[j].1),
{
    reveal(same_up_to_member_order);
    let member = x[i];
    lemma_lookup(y, member.0);
    choose|j: int| 0 <= j < y.len() && #[trigger] y[j] == (member.0, lookup(y, member.0)->0)
}

proof fn lemma_same_member_back(
    x: Seq<(Seq<char>, JsonModel)>,
    y: Seq<(Seq<char>, JsonModel)>,
    j: int,
) -> (i: int)
    requires
        same_up_to_member_order(JsonModel::Object(x), JsonModel::Object(y)),
        0 <= j < y.len(),
    ensures
        0 <= i < x.len(),
        x[i].0 == y[j].0,
{
    reveal(same_up_to_member_order);
    let member = y[j];
    lemma_lookup(x, member.0);
    choose|i: int| 0 <= i < x.len() && #[trigger] x[i] == (member.0, lookup(x, member.0)->0)
}

/// The order in which objects list their members does not matter to the canonical form.
pub proof fn law_canonical_disregards_member_order(a: JsonModel, b: JsonModel)
    requires
        same_up_to_member_order(a, b),
    ensures
        canonical(a) == canonical(b),
    decreases a,
{
    match (a, b) {
        (JsonModel::Array(x), JsonModel::Array(y)) => {
            lemma_canonical_containers(x, Seq::empty());
            lemma_canonical_containers(y, Seq::empty());
            assert(x.len() == y.len()) by {
                reveal(same_up_to_member_order);
            }
            assert forall|i: int| 0 <= i < x.len() implies canonical_items(x)[i]
                == canonical_items(y)[i] by {
                assert(same_up_to_member_order(x[i], y[i])) by {
                    reveal(same_up_to_member_order);
                }
                law_canonical_disregards_member_order(x[i], y[i]);
            }
            assert(canonical_items(x) =~= canonical_items(y));
        },
        (JsonModel::Object(x), JsonModel::Object(y)) => {
            lemma_canonical_containers(Seq::empty(), x);
            lemma_canonical_containers(Seq::empty(), y);
            lemma_same_objects(x, y);
            let cx = canonical_members(x);
            let cy = canonical_members(y);
            lemma_names_differ_canonical(x);
            lemma_names_differ_canonical(y);
            lemma_gathered(cx);
            lemma_gathered(cy);
            assert forall|k: Seq<char>| lookup(gathered(cx), k) == #[trigger] lookup(
                gathered(cy),
                k,
            ) by {
                lemma_lookup(cx, k);
                lemma_lookup(cy, k);
                if lookup(cx, k) is Some {
                    let i = choose|i: int|
                        0 <= i < cx.len() && #[trigger] cx[i] == (k, lookup(cx, k)->0);
                    let j = lemma_same_member(x, y, i);
                    law_canonical_disregards_member_order(x[i].1, y[j].1);
                    lemma_lookup_of_distinct(cx, i);
                    lemma_lookup_of_distinct(cy, j);
                } else if lookup(cy, k) is Some {
                    let j = choose|j: int|
                        0 <= j < cy.len() && #[trigger] cy[j] == (k, lookup(cy, k)->0);
                    let i = lemma_same_member_back(x, y, j);
                    assert(cx[i].0 == k);
                }
            }
            lemma_order_is_unique(gathered(cx), gathered(cy));
        },
        _ => {
            reveal(same_up_to_member_order);
        },
    }
}

proof fn lemma_names_differ_canonical(members: Seq<(Seq<char>, JsonModel)>)
    requires
        names_differ(members),
    ensures
        names_differ(canonical_members(members)),
{
    let all = canonical_members(members);
    assert forall|i: int, j: int| 0 <= i < j < all.len() implies #[trigger] all[i].0
        != #[trigger] all[j].0 by {
        assert(members[i].0 != members[j].0);
    }
}

/// No object in the value, at any depth, lists a name twice.
pub open spec fn has_distinct_names(model: JsonModel) -> bool
    decreases model,
{
    match model {
        JsonModel::Array(items) => forall|i: int|
            0 <= i < items.len() ==> has_distinct_names(#[trigger] items[i]),
        JsonModel::Object(members) => names_differ(members) && forall|i: int|
            0 <= i < members.len() ==> has_distinct_names((#[trigger] members[i]).1),
        _ => true,
    }
}

/// A canonical value lists no name twice.
pub proof fn law_canonical_has_distinct_names(model: JsonModel)
    requires
        is_canonical(model),
    ensures
        has_distinct_names(model),
    decreases model,
{
    match model {
        JsonModel::Array(items) => {
            assert forall|i: int| 0 <= i < items.len() implies has_distinct_names(
                #[trigger] items[i],
            ) by {
                law_canonical_has_distinct_names(items[i]);
            }
        },
        JsonModel::Object(members) => {
            assert forall|i: int, j: int| 0 <= i < j < members.len() implies #[trigger] members[i].0
                != #[trigger] members[j].0 by {
                assert(key_before(members[i].0, members[j].0));
                lemma_key_order(members[i].0, members[j].0);
            }
            assert forall|i: int| 0 <= i < members.len() implies has_distinct_names(
                (#[trigger] members[i]).1,
            ) by {
                law_canonical_has_distinct_names(members[i].1);
            }
        },
        _ => {},
    }
}

/// Arrays are the same where their items are.
proof fn lemma_same_arrays(x: Seq<JsonModel>, y: Seq<JsonModel>)
    requires
        x.len() == y.len(),
        forall|i: int| 0 <= i < x.len() ==> same_up_to_member_order(#[trigger] x[i], y[i]),
    ensures
        same_up_to_member_order(JsonModel::Array(x), JsonModel::Array(y)),
{
    reveal(same_up_to_member_order);
}

/// Objects are the same where each member of one has its like in the other.
proof fn lemma_same_by_members(x: Seq<(Seq<char>, JsonModel)>, y: Seq<(Seq<char>, JsonModel)>)
    requires
        x.len() == y.len(),
        names_differ(x),
        names_differ(y),
        forall|i: int|
            0 <= i < x.len() ==> (lookup(y, (#[trigger] x[i]).0) matches Some(like)
                && same_up_to_member_order(x[i].1, like)),
        forall|j: int| 0 <= j < y.len() ==> lookup(x, (#[trigger] y[j]).0) is Some,
    ensures
        same_up_to_member_order(JsonModel::Object(x), JsonModel::Object(y)),
{
    reveal_with_fuel(same_up_to_member_order, 2);
}

/// A value that lists no name twice, such as a canonical one, is the same as itself.
pub proof fn law_same_as_itself(model: JsonModel)
    requires
        has_distinct_names(model) || is_canonical(model),
    ensures
        same_up_to_member_order(model, model),
    decreases model,
{
    if is_canonical(model) {
        law_canonical_has_distinct_names(model);
    }
    match model {
        JsonModel::Array(items) => {
            assert forall|i: int| 0 <= i < items.len() implies same_up_to_member_order(
                #[trigger] items[i],
                items[i],
            ) by {
                law_same_as_itself(items[i]);
            }
            lemma_same_arrays(items, items);
        },
        JsonModel::Object(members) => {
            assert forall|i: int| 0 <= i < members.len() implies (lookup(
                members,
                (#[trigger] members[i]).0,
            ) matches Some(like) && same_up_to_member_order(members[i].1, like)) by {
                lemma_lookup_of_distinct(members, i);
                law_same_as_itself(members[i].1);
            }
            lemma_same_by_members(members, members);
        },
        _ => {
            reveal(same_up_to_member_order);
        },
    }
}

proof fn lemma_put_new_length(
    members: Seq<(Seq<char>, JsonModel)>,
    key: Seq<char>,
    value: JsonModel,
)
    requires
        lookup(members, key) is None,
    ensures
        put_member(members, key, value).len() == members.len() + 1,
    decreases members.len(),
{
    if members.len() > 0 && !key_before(members.last().0, key) {
        lemma_put_new_length(members.drop_last(), key, value);
    }
}

proof fn lemma_gathered_length(members: Seq<(Seq<char>, JsonModel)>)
    requires
        names_differ(members),
    ensures
        gathered(members).len() == members.len(),
    decreases members.len(),
{
    if members.len() > 0 {
        let rest = members.drop_last();
        let last = members.last();
        assert forall|i: int, j: int| 0 <= i < j < rest.len() implies #[trigger] rest[i].0
            != #[trigger] rest[j].0 by {
            assert(rest[i] == members[i] && rest[j] == members[j]);
        }
        lemma_gathered_length(rest);
        lemma_gathered(rest);
        lemma_lookup(rest, last.0);
        if lookup(rest, last.0) is Some {
            let i = choose|i: int|
                0 <= i < rest.len() && #[trigger] rest[i] == (last.0, lookup(rest, last.0)->0);
            assert(rest[i] == members[i]);
            assert(members[i].0 != members[members.len() - 1].0);
        }
        assert(lookup(gathered(rest), last.0) is None);
        lemma_put_new_length(gathered(rest), last.0, last.1);
    }
}

/// A member of an object is found in another object that has the same canonical form.
proof fn lemma_member_of_same(
    x: Seq<(Seq<char>, JsonModel)>,
    y: Seq<(Seq<char>, JsonModel)>,
    i: int,
) -> (j: int)
    requires
        names_differ(x),
        gathered(canonical_members(x)) == gathered(canonical_members(y)),
        0 <= i < x.len(),
    ensures
        0 <= j < y.len(),
        y[j].0 == x[i].0,
        canonical(x[i].1) == canonical(y[j].1),
{
    let cx = canonical_members(x);
    let cy = canonical_members(y);
    lemma_names_differ_canonical(x);
    lemma_lookup_of_distinct(cx, i);
    lemma_gathered(cx);
    lemma_gathered(cy);
    let name = x[i].0;
    assert(lookup(gathered(cx), name) == lookup(cx, name));
    assert(lookup(gathered(cy), name) == lookup(cy, name));
    lemma_lookup(cy, name);
    let j = choose|j: int| 0 <= j < cy.len() && #[trigger] cy[j] == (name, lookup(cy, name)->0);
    j
}

/// Values that list no name twice and have the same canonical form differ at most in the order in
/// which objects list their members.
pub proof fn law_same_canonical_form_is_same(a: JsonModel, b: JsonModel)
    requires
        has_distinct_names(a),
        has_distinct_names(b),
        canonical(a) == canonical(b),
    ensures
        same_up_to_member_order(a, b),
    decreases a,
{
    lemma_canonical_kind(a);
    lemma_canonical_kind(b);
    match (a, b) {
        (JsonModel::Array(x), JsonModel::Array(y)) => {
            lemma_canonical_containers(x, Seq::empty());
            lemma_canonical_containers(y, Seq::empty());
            assert(canonical_items(x).len() == canonical_items(y).len());
            assert forall|i: int| 0 <= i < x.len() implies same_up_to_member_order(
                #[trigger] x[i],
                y[i],
            ) by {
                assert(canonical_items(x)[i] == canonical_items(y)[i]);
                assert(has_distinct_names(x[i]) && has_distinct_names(y[i]));
                law_same_canonical_form_is_same(x[i], y[i]);
            }
            lemma_same_arrays(x, y);
        },
        (JsonModel::Object(x), JsonModel::Object(y)) => {
            lemma_canonical_containers(Seq::empty(), x);
            lemma_canonical_containers(Seq::empty(), y);
            lemma_names_differ_canonical(x);
            lemma_names_differ_canonical(y);
            lemma_gathered_length(canonical_members(x));
            lemma_gathered_length(canonical_members(y));
            assert forall|i: int| 0 <= i < x.len() implies (lookup(
                y,
                (#[trigger] x[i]).0,
            ) matches Some(like) && same_up_to_member_order(x[i].1, like)) by {
                let j = lemma_member_of_same(x, y, i);
                lemma_lookup_of_distinct(y, j);
                assert(has_distinct_names(x[i].1) && has_distinct_names(y[j].1));
                law_same_canonical_form_is_same(x[i].1, y[j].1);
            }
            assert forall|j: int| 0 <= j < y.len() implies lookup(
                x,
                (#[trigger] y[j]).0,
            ) is Some by {
                let i = lemma_member_of_same(y, x, j);
                lemma_lookup_of_distinct(x, i);
            }
            lemma_same_by_members(x, y);
        },
        _ => {
            reveal(same_up_to_member_order);
        },
    }
}

/// The canonical form of an array is an array and that of an object an object; any other value is
/// its own.
pub proof fn lemma_canonical_kind(model: JsonModel)
    ensures
        canonical(model) is Array <==> model is Array,
        canonical(model) is Object <==> model is Object,
        !(model is Array) && !(model is Object) ==> canonical(model) == model,
{
    match model {
        JsonModel::Array(items) => {
            lemma_canonical_containers(items, Seq::empty());
        },
        JsonModel::Object(members) => {
            lemma_canonical_containers(Seq::empty(), members);
        },
        _ => {},
    }
}

/// Two values that list no name twice have the same canonical form exactly where they are equal as
/// JSON values: the members of objects unordered at every depth, the items of arrays in order.
pub proof fn law_canonical_forms_tell_values_apart(a: JsonModel, b: JsonModel)
    requires
        has_distinct_names(a),
        has_distinct_names(b),
    ensures
        canonical(a) == canonical(b) <==> same_up_to_member_order(a, b),
{
    if same_up_to_member_order(a, b) {
        law_canonical_disregards_member_order(a, b);
    }
    if canonical(a) == canonical(b) {
        law_same_canonical_form_is_same(a, b);
    }
}

/// A value stands for itself: null, a boolean, an integer or a text for what it holds, an array for
/// its items in order, and an object for its members in order.
pub proof fn law_what_values_stand_for(json: Json, i: int)
    ensures
        json is Null ==> json@ == JsonModel::Null,
        json matches Json::Bool(b) ==> json@ == JsonModel::Bool(b),
        json matches Json::Unsigned(n) ==> json@ == JsonModel::Int(n as int),
        json matches Json::Negative(n) ==> json@ == JsonModel::Int(n as int),
        json matches Json::Text(text) ==> json@ == JsonModel::Text(text@),
        json matches Json::Array(list) ==> (json@ matches JsonModel::Array(items) && items.len()
            == list@.len() && (0 <= i < list@.len() ==> items[i] == list@[i]@)),
        json matches Json::Object(list) ==> (json@ matches JsonModel::Object(members)
            && members.len() == list@.len() && (0 <= i < list@.len() ==> members[i] == (
            list@[i].0@,
            list@[i].1@,
        ))),
{
    match json {
        Json::Array(list) => lemma_containers(list, arbitrary()),
        Json::Object(list) => lemma_containers(arbitrary(), list),
        _ => {},
    }
}

/// Two values are the same up to the order of members exactly where they are equal, or are arrays
/// of as many items that are the same one by one, or are objects without repeated names that have
/// the same names and under each name the same.
pub proof fn law_what_sameness_is(
    x: Seq<JsonModel>,
    y: Seq<JsonModel>,
    a: Seq<(Seq<char>, JsonModel)>,
    b: Seq<(Seq<char>, JsonModel)>,
    one: JsonModel,
    two: JsonModel,
)
    ensures
        same_up_to_member_order(JsonModel::Array(x), JsonModel::Array(y)) <==> x.len() == y.len()
            && forall|i: int|
            0 <= i < x.len() ==> same_up_to_member_order(#[trigger] x[i], y[i]),
        same_up_to_member_order(JsonModel::Object(a), JsonModel::Object(b)) <==> {
            &&& a.len() == b.len()
            &&& forall|i: int, j: int|
                0 <= i < j < a.len() ==> #[trigger] a[i].0 != #[trigger] a[j].0
            &&& forall|i: int, j: int|
                0 <= i < j < b.len() ==> #[trigger] b[i].0 != #[trigger] b[j].0
            &&& forall|i: int|
                0 <= i < a.len() ==> (field(JsonModel::Object(b), (#[trigger] a[i]).0) matches Some(
                    like,
                ) && same_up_to_member_order(a[i].1, like))
            &&& forall|j: int|
                0 <= j < b.len() ==> field(JsonModel::Object(a), (#[trigger] b[j]).0) is Some
        },
        !(one is Array && two is Array) && !(one is Object && two is Object) ==> (
        same_up_to_member_order(one, two) <==> one == two),
{
    reveal(same_up_to_member_order);
    let u = JsonModel::Array(x);
    let v = JsonModel::Array(y);
    assert(u->Array_0 == x && v->Array_0 == y);
    let m = JsonModel::Object(a);
    let n = JsonModel::Object(b);
    assert(m->Object_0 == a && n->Object_0 == b);
}

/// The canonical form of an object has, under each name, the canonical form of what the object
/// has under it.
pub proof fn law_canonical_keeps_fields(model: JsonModel, key: Seq<char>)
    ensures
        field(canonical(model), key) == match field(model, key) {
            Some(v) => Some(canonical(v)),
            None => None,
        },
{
    if let JsonModel::Object(members) = model {
        lemma_canonical_containers(Seq::empty(), members);
        lemma_gathered(canonical_members(members));
        lemma_lookup_canonical(members, key);
    }
}

proof fn lemma_lookup_canonical(members: Seq<(Seq<char>, JsonModel)>, key: Seq<char>)
    ensures
        lookup(canonical_members(members), key) == match lookup(members, key) {
            Some(v) => Some(canonical(v)),
            None => None,
        },
    decreases members.len(),
{
    if members.len() > 0 {
        lemma_lookup_canonical(members.drop_last(), key);
        assert(canonical_members(members).drop_last() =~= canonical_members(members.drop_last()));
    }
}

/// A value that is set in an object is found there, and leaves what is found under any other name.
/// A canonical value leaves a canonical object canonical.
pub proof fn law_set_field(model: JsonModel, key: Seq<char>, value: JsonModel)
    requires
        model is Object,
    ensures
        field(with_field(model, key, value), key) == Some(value),
        forall|k: Seq<char>|
            k != key ==> #[trigger] field(with_field(model, key, value), k) == field(model, k),
        is_canonical(model) && is_canonical(value) ==> is_canonical(with_field(model, key, value)),
{
    let members = model->Object_0;
    let put = put_member(members, key, value);
    assert forall|k: Seq<char>| #[trigger] lookup(put, k) == if k == key {
        Some(value)
    } else {
        lookup(members, k)
    } by {
        lemma_put_lookup(members, key, value, k);
    }
    assert forall|k: Seq<char>| k != key implies #[trigger] field(
        with_field(model, key, value),
        k,
    ) == field(model, k) by {
        assert(lookup(put, k) == lookup(members, k));
    }
    if is_canonical(model) && is_canonical(value) {
        lemma_put_member(members, key, value);
        assert forall|i: int| 0 <= i < put.len() implies is_canonical((#[trigger] put[i]).1) by {
            if put[i] != (key, value) {
                assert(members.contains(put[i]));
                let n = choose|n: int| 0 <= n < members.len() && members[n] == put[i];
                assert(is_canonical(members[n].1));
            }
        }
    }
}

/// Making a value canonical makes it neither deeper nor floating, and keeps its numbers.
pub proof fn lemma_canonical_shape(model: JsonModel, limit: int)
    ensures
        nested_at_most(model, limit) ==> nested_at_most(canonical(model), limit),
        is_float_free(model) ==> is_float_free(canonical(model)),
        is_whole(model) ==> is_whole(canonical(model)),
    decreases model,
{
    match model {
        JsonModel::Array(items) => {
            lemma_canonical_containers(items, Seq::empty());
            let all = canonical_items(items);
            assert forall|i: int| 0 <= i < all.len() && nested_at_most(model, limit) implies
                nested_at_most(#[trigger] all[i], limit - 1) by {
                assert(nested_at_most(items[i], limit - 1));
                lemma_canonical_shape(items[i], limit - 1);
            }
            assert forall|i: int| 0 <= i < all.len() && is_float_free(model) implies
                is_float_free(#[trigger] all[i]) by {
                assert(is_float_free(items[i]));
                lemma_canonical_shape(items[i], limit - 1);
            }
            assert forall|i: int| 0 <= i < all.len() && is_whole(model) implies is_whole(
                #[trigger] all[i],
            ) by {
                assert(is_whole(items[i]));
                lemma_canonical_shape(items[i], limit - 1);
            }
        },
        JsonModel::Object(members) => {
            lemma_canonical_containers(Seq::empty(), members);
            let all = gathered(canonical_members(members));
            assert forall|i: int| 0 <= i < all.len() && nested_at_most(model, limit) implies
                nested_at_most((#[trigger] all[i]).1, limit - 1) by {
                let n = lemma_canonical_member(members, i);
                assert(nested_at_most(members[n].1, limit - 1));
                lemma_canonical_shape(members[n].1, limit - 1);
            }
            assert forall|i: int| 0 <= i < all.len() && is_float_free(model) implies
                is_float_free((#[trigger] all[i]).1) by {
                let n = lemma_canonical_member(members, i);
                assert(is_float_free(members[n].1));
                lemma_canonical_shape(members[n].1, limit - 1);
            }
            assert forall|i: int| 0 <= i < all.len() && is_whole(model) implies is_whole(
                (#[trigger] all[i]).1,
            ) by {
                let n = lemma_canonical_member(members, i);
                assert(is_whole(members[n].1));
                lemma_canonical_shape(members[n].1, limit - 1);
            }
        },
        _ => {},
    }
}

} // verus!
