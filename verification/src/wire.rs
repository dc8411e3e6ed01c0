//! JSON on the wire: reading and writing bytes with `serde_json`.
//!
//! `serde_json::Value` stays inside this module. What the library knows of it is said by the
//! contracts of the functions marked `external_body` and of the `assume_specification` items
//! below, which are believed and not proved; everything else here is proved from them.

use crate::json::{
    canonical, canonical_items, canonical_members, gathered, is_canonical, is_float_free, is_whole,
    items_model, json_model, lemma_canonical_containers, lemma_canonical_shape, lemma_containers,
    lookup, members_model, nested_at_most, put_member, Json, JsonModel,
};
use crate::sse::{is_framed, lines_of};
use vstd::prelude::*;
use vstd::slice::slice_to_vec;
use vstd::utf8::*;

verus! {

/// How deep arrays and objects may be nested for `serde_json` to read them.
pub const NESTING_LIMIT: u8 = 127;

/// A number as `serde_json` holds it.
#[verifier::external_type_specification]
#[verifier::external_body]
pub struct ExNumber(serde_json::Number);

/// A JSON value as `serde_json` holds it.
#[verifier::external_type_specification]
#[verifier::external_body]
pub struct ExValue(serde_json::Value);

/// The members of a JSON object as `serde_json` holds them.
#[verifier::external_type_specification]
#[verifier::external_body]
#[verifier::reject_recursive_types(K)]
#[verifier::reject_recursive_types(V)]
pub struct ExMap<K, V>(serde_json::Map<K, V>);

/// What a `serde_json::Value` holds.
pub uninterp spec fn value_model(value: serde_json::Value) -> JsonModel;

/// What a `serde_json::Map` holds, in the order in which it is walked.
pub uninterp spec fn map_members(
    map: serde_json::Map<String, serde_json::Value>,
) -> Seq<(Seq<char>, JsonModel)>;

/// The integer that a `serde_json::Number` holds; none for a floating-point number.
pub uninterp spec fn number_integer(number: serde_json::Number) -> Option<int>;

/// What `serde_json::from_slice` reads from bytes; none where it fails.
pub uninterp spec fn json_read(bytes: Seq<u8>) -> Option<JsonModel>;

/// The text that `serde_json::to_string` writes for a value.
pub uninterp spec fn json_text(model: JsonModel) -> Seq<char>;

/// What is written for the value is read back as the value.
pub open spec fn reads_back(model: JsonModel) -> bool {
    json_read(encode_utf8(json_text(model))) == Some(model)
}

/// Among canonical values whose numbers are integers, no other has the text of this one.
pub open spec fn has_own_text(model: JsonModel) -> bool {
    forall|other: JsonModel|
        is_canonical(other) && is_whole(other) && #[trigger] json_text(other) == json_text(model)
            ==> other == model
}

/// The bytes are text, and no line of it would be taken for part of an event stream.
pub open spec fn is_bare_text(bytes: Seq<u8>) -> bool {
    valid_utf8(bytes) && !is_framed(lines_of(bytes))
}

/// What a `serde_json::Number` stands for.
pub open spec fn number_model(number: serde_json::Number) -> JsonModel {
    match number_integer(number) {
        Some(n) => JsonModel::Int(n),
        None => JsonModel::Float(number),
    }
}

/// One level of a `serde_json::Value`, borrowed.
pub enum Opened<'a> {
    Null,
    Bool(bool),
    Number(&'a serde_json::Number),
    Text(&'a String),
    Array(&'a Vec<serde_json::Value>),
    Object(&'a serde_json::Map<String, serde_json::Value>),
}

/// What an opened value stands for.
pub open spec fn opened_model(opened: Opened) -> JsonModel {
    match opened {
        Opened::Null => JsonModel::Null,
        Opened::Bool(b) => JsonModel::Bool(b),
        Opened::Number(n) => number_model(*n),
        Opened::Text(s) => JsonModel::Text(s@),
        Opened::Array(items) => JsonModel::Array(values_model(items@)),
        Opened::Object(map) => JsonModel::Object(map_members(*map)),
    }
}

/// One level of a `serde_json::Value`, owned.
pub enum Level {
    Null,
    Bool(bool),
    Number(serde_json::Number),
    Text(String),
    Array(Vec<serde_json::Value>),
    Object(serde_json::Map<String, serde_json::Value>),
}

/// What a level stands for.
pub open spec fn level_model(level: Level) -> JsonModel {
    match level {
        Level::Null => JsonModel::Null,
        Level::Bool(b) => JsonModel::Bool(b),
        Level::Number(n) => number_model(n),
        Level::Text(s) => JsonModel::Text(s@),
        Level::Array(items) => JsonModel::Array(values_model(items@)),
        Level::Object(map) => JsonModel::Object(map_members(map)),
    }
}

/// What a list of values stands for.
pub open spec fn values_model(values: Seq<serde_json::Value>) -> Seq<JsonModel> {
    Seq::new(values.len(), |i: int| value_model(values[i]))
}

/// `serde_json::from_slice` into a `serde_json::Value`. It fails exactly where `json_read` is
/// none. What it reads is nested no deeper than the parser's recursion limit allows, and the
/// members of every object stand in key order, since the map that holds them is a `BTreeMap`.
/// Bytes that it reads are bare text: every string is checked to be UTF-8, and everything else is
/// ASCII; a string holds no control character, so a newline stands only between tokens, and no
/// token starts with a letter of `data:` or `event:`.
#[verifier::external_body]
fn read_value(bytes: &[u8]) -> (value: Option<serde_json::Value>)
    ensures
        value is None <==> json_read(bytes@) is None,
        value matches Some(v) ==> json_read(bytes@) == Some(value_model(v)),
        value matches Some(v) ==> nested_at_most(value_model(v), NESTING_LIMIT as int),
        value matches Some(v) ==> is_canonical(value_model(v)),
        value is Some ==> is_bare_text(bytes@),
{
    serde_json::from_slice(bytes).ok()
}

/// `serde_json::to_string` of a `serde_json::Value`, which does not fail: every key is a string
/// and the writer is memory. A value without floating-point numbers, nested within the parser's
/// limit, is what is read back from the text. At any depth, the text of a value whose numbers are
/// integers is the text of no other such value: strings are quoted and escaped, and brackets,
/// commas and colons mark the rest. Of floating-point numbers nothing is claimed: the parser may
/// read a neighbouring one.
#[verifier::external_body]
fn value_to_text(value: &serde_json::Value) -> (text: Option<String>)
    ensures
        text is Some,
        text->0@ == json_text(value_model(*value)),
        is_float_free(value_model(*value)) && nested_at_most(
            value_model(*value),
            NESTING_LIMIT as int,
        ) ==> json_read(encode_utf8(text->0@)) == Some(value_model(*value)),
        is_whole(value_model(*value)) ==> forall|other: JsonModel|
            is_canonical(other) && is_whole(other) && #[trigger] json_text(other) == text->0@
                ==> other == value_model(*value),
{
    serde_json::to_string(value).ok()
}

/// The variants of `serde_json::Value`, told apart.
#[verifier::external_body]
fn open_value(value: &serde_json::Value) -> (opened: Opened<'_>)
    ensures
        opened_model(opened) == value_model(*value),
{
    match value {
        serde_json::Value::Null => Opened::Null,
        serde_json::Value::Bool(b) => Opened::Bool(*b),
        serde_json::Value::Number(n) => Opened::Number(n),
        serde_json::Value::String(s) => Opened::Text(s),
        serde_json::Value::Array(items) => Opened::Array(items),
        serde_json::Value::Object(map) => Opened::Object(map),
    }
}

/// The variants of `serde_json::Value`, built.
#[verifier::external_body]
fn close_value(level: Level) -> (value: serde_json::Value)
    ensures
        value_model(value) == level_model(level),
{
    match level {
        Level::Null => serde_json::Value::Null,
        Level::Bool(b) => serde_json::Value::Bool(b),
        Level::Number(n) => serde_json::Value::Number(n),
        Level::Text(s) => serde_json::Value::String(s),
        Level::Array(items) => serde_json::Value::Array(items),
        Level::Object(map) => serde_json::Value::Object(map),
    }
}

/// The members of a `serde_json::Map`, in the order in which `serde_json::Map::iter` walks them.
#[verifier::external_body]
fn map_iter<'a>(
    map: &'a serde_json::Map<String, serde_json::Value>,
) -> (members: Vec<(&'a String, &'a serde_json::Value)>)
    ensures
        members@.len() == map_members(*map).len(),
        forall|i: int|
            0 <= i < members@.len() ==> (#[trigger] members@[i].0@, value_model(*members@[i].1))
                == map_members(*map)[i],
{
    map.iter().collect()
}

/// `serde_json::Map::new` makes a map without members.
pub assume_specification[ serde_json::Map::<String, serde_json::Value>::new ]() -> (map:
    serde_json::Map<String, serde_json::Value>)
    ensures
        map_members(map) == Seq::<(Seq<char>, JsonModel)>::empty(),
;

/// `serde_json::Map::insert` puts a member at its place in key order, for the map is a
/// `BTreeMap`; a member of the same name is replaced and handed back.
pub assume_specification[ serde_json::Map::<String, serde_json::Value>::insert ](
    map: &mut serde_json::Map<String, serde_json::Value>,
    k: String,
    v: serde_json::Value,
) -> (replaced: Option<serde_json::Value>)
    ensures
        map_members(*final(map)) == put_member(map_members(*old(map)), k@, value_model(v)),
        replaced is None <==> lookup(map_members(*old(map)), k@) is None,
        replaced matches Some(r) ==> lookup(map_members(*old(map)), k@) == Some(value_model(r)),
;

/// `serde_json::Number::as_u64` hands out the integer where it is not negative. A
/// `serde_json::Number` holds a `u64`, a negative `i64` or a floating-point number.
pub assume_specification[ serde_json::Number::as_u64 ](number: &serde_json::Number) -> (n: Option<
    u64,
>)
    ensures
        n matches Some(u) ==> number_integer(*number) == Some(u as int),
        n is None ==> (number_integer(*number) matches Some(i) ==> i64::MIN <= i < 0),
;

/// `serde_json::Number::as_i64` hands out the integer where an `i64` holds it.
pub assume_specification[ serde_json::Number::as_i64 ](number: &serde_json::Number) -> (n: Option<
    i64,
>)
    ensures
        n matches Some(i) ==> number_integer(*number) == Some(i as int),
        n is None ==> (number_integer(*number) matches Some(i) ==> i > i64::MAX),
;

/// The clone of a `serde_json::Number` is the same number.
pub assume_specification[ <serde_json::Number as Clone>::clone ](
    number: &serde_json::Number,
) -> (same: serde_json::Number)
    ensures
        same == *number,
;

/// `serde_json::Number::from` of a `u64` holds that integer.
#[verifier::external_body]
fn number_from_unsigned(n: u64) -> (number: serde_json::Number)
    ensures
        number_integer(number) == Some(n as int),
{
    serde_json::Number::from(n)
}

/// `serde_json::Number::from` of an `i64` holds that integer.
#[verifier::external_body]
fn number_from_signed(n: i64) -> (number: serde_json::Number)
    ensures
        number_integer(number) == Some(n as int),
{
    serde_json::Number::from(n)
}

// ---------------------------------------------------------------------------------------------
// Between `serde_json::Value` and `Json`
// ---------------------------------------------------------------------------------------------

/// The number as a `Json`.
fn number_to_json(number: &serde_json::Number) -> (json: Json)
    ensures
        json@ == number_model(*number),
{
    if let Some(n) = number.as_u64() {
        return Json::Unsigned(n);
    }
    if let Some(n) = number.as_i64() {
        return Json::Negative(n);
    }
    Json::Float(number.clone())
}

/// The value as a `Json`.
fn value_to_json(value: &serde_json::Value) -> (json: Json)
    ensures
        json@ == value_model(*value),
    decreases value_model(*value),
{
    match open_value(value) {
        Opened::Null => Json::Null,
        Opened::Bool(b) => Json::Bool(b),
        Opened::Number(n) => number_to_json(n),
        Opened::Text(s) => Json::Text(s.clone()),
        Opened::Array(values) => {
            let ghost all = values_model(values@);
            let mut items: Vec<Json> = Vec::new();
            let mut i: usize = 0;
            while i < values.len()
                invariant
                    i <= values@.len(),
                    all == values_model(values@),
                    value_model(*value) == JsonModel::Array(all),
                    items@.len() == i,
                    forall|j: int| 0 <= j < i ==> json_model(#[trigger] items@[j]) == all[j],
                decreases values@.len() - i,
            {
                assert(all[i as int] == value_model(values@[i as int]));
                assert(decreases_to!(value_model(*value) => value_model(*value)->Array_0));
                assert(decreases_to!(all => all[i as int]));
                items.push(value_to_json(&values[i]));
                i += 1;
            }
            proof {
                lemma_containers(items, arbitrary());
                assert(items_model(items@) =~= all);
            }
            Json::Array(items)
        },
        Opened::Object(map) => {
            let ghost all = map_members(*map);
            let found: Vec<(&String, &serde_json::Value)> = map_iter(map);
            let mut members: Vec<(String, Json)> = Vec::new();
            let mut i: usize = 0;
            while i < found.len()
                invariant
                    i <= found@.len(),
                    found@.len() == all.len(),
                    value_model(*value) == JsonModel::Object(all),
                    forall|j: int|
                        0 <= j < found@.len() ==> (
                            #[trigger] found@[j].0@,
                            value_model(*found@[j].1),
                        ) == all[j],
                    members@.len() == i,
                    forall|j: int|
                        0 <= j < i ==> (
                            (#[trigger] members@[j]).0@,
                            json_model(members@[j].1),
                        ) == all[j],
                decreases found@.len() - i,
            {
                assert(found@[i as int].0@ == all[i as int].0);
                assert(decreases_to!(value_model(*value) => value_model(*value)->Object_0));
                assert(decreases_to!(all => all[i as int]));
                assert(decreases_to!(all[i as int] => all[i as int].1));
                members.push((found[i].0.clone(), value_to_json(found[i].1)));
                i += 1;
            }
            proof {
                lemma_containers(arbitrary(), members);
                assert(members_model(members@) =~= all);
            }
            Json::Object(members)
        },
    }
}

/// The `Json` as a value, whose objects hold their members in key order.
fn json_to_value(json: &Json) -> (value: serde_json::Value)
    ensures
        value_model(value) == canonical(json@),
    decreases *json,
{
    match json {
        Json::Null => close_value(Level::Null),
        Json::Bool(b) => close_value(Level::Bool(*b)),
        Json::Unsigned(n) => close_value(Level::Number(number_from_unsigned(*n))),
        Json::Negative(n) => close_value(Level::Number(number_from_signed(*n))),
        Json::Float(n) => close_value(Level::Number(n.clone())),
        Json::Text(s) => close_value(Level::Text(s.clone())),
        Json::Array(items) => {
            let mut values: Vec<serde_json::Value> = Vec::new();
            let mut i: usize = 0;
            while i < items.len()
                invariant
                    i <= items@.len(),
                    *json == Json::Array(*items),
                    values@.len() == i,
                    forall|j: int|
                        0 <= j < i ==> value_model(#[trigger] values@[j]) == canonical(
                            json_model(items@[j]),
                        ),
                decreases items@.len() - i,
            {
                assert(decreases_to!(*json => json->Array_0));
                assert(decreases_to!(items => items@));
                assert(decreases_to!(items@ => items@[i as int]));
                values.push(json_to_value(&items[i]));
                i += 1;
            }
            proof {
                lemma_containers(*items, arbitrary());
                lemma_canonical_containers(items_model(items@), Seq::empty());
                assert(values_model(values@) =~= canonical_items(items_model(items@)));
            }
            close_value(Level::Array(values))
        },
        Json::Object(members) => {
            let ghost all = canonical_members(members_model(members@));
            let mut map: serde_json::Map<String, serde_json::Value> = serde_json::Map::new();
            let mut i: usize = 0;
            assert(all.take(0) =~= Seq::empty());
            while i < members.len()
                invariant
                    i <= members@.len(),
                    *json == Json::Object(*members),
                    all == canonical_members(members_model(members@)),
                    map_members(map) == gathered(all.take(i as int)),
                decreases members@.len() - i,
            {
                assert(decreases_to!(*json => json->Object_0));
                assert(decreases_to!(members => members@));
                assert(decreases_to!(members@ => members@[i as int]));
                assert(decreases_to!(members@[i as int] => members@[i as int].1));
                let value: serde_json::Value = json_to_value(&members[i].1);
                let _ = map.insert(members[i].0.clone(), value);
                assert(all.take(i + 1).drop_last() =~= all.take(i as int));
                i += 1;
            }
            proof {
                assert(all.take(all.len() as int) =~= all);
                lemma_containers(arbitrary(), *members);
                lemma_canonical_containers(Seq::empty(), members_model(members@));
            }
            close_value(Level::Object(map))
        },
    }
}

/// Reads a JSON text; none where `serde_json::from_slice` fails.
pub fn parse_json(bytes: &[u8]) -> (json: Option<Json>)
    ensures
        json is None <==> json_read(bytes@) is None,
        json matches Some(j) ==> json_read(bytes@) == Some(j@),
        json matches Some(j) ==> is_canonical(j@) && nested_at_most(j@, NESTING_LIMIT as int),
        json is Some ==> is_bare_text(bytes@),
{
    match read_value(bytes) {
        Some(value) => Some(value_to_json(&value)),
        None => None,
    }
}

/// Writes a JSON value with the members of every object in key order. What is written is read
/// back, where no number is a floating-point one and the nesting is within the limit. Where all
/// numbers are integers, no other value has the text.
pub fn json_to_string(json: &Json) -> (text: String)
    ensures
        text@ == json_text(canonical(json@)),
        is_float_free(json@) && nested_at_most(json@, NESTING_LIMIT as int) ==> reads_back(
            canonical(json@),
        ),
        is_whole(json@) ==> has_own_text(canonical(json@)),
{
    proof {
        lemma_canonical_shape(json@, NESTING_LIMIT as int);
    }
    match value_to_text(&json_to_value(json)) {
        Some(text) => text,
        None => String::new(),
    }
}

/// Writes a JSON value as `json_to_string` does, in UTF-8 bytes.
pub fn json_to_bytes(json: &Json) -> (bytes: Vec<u8>)
    ensures
        bytes@ == encode_utf8(json_text(canonical(json@))),
        is_float_free(json@) && nested_at_most(json@, NESTING_LIMIT as int) ==> reads_back(
            canonical(json@),
        ),
{
    let text: String = json_to_string(json);
    slice_to_vec(text.as_str().as_bytes())
}

} // verus!
