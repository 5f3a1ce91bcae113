//! JSON values of the `serde_json` crate, and what they hold.

use vstd::prelude::*;

verus! {

/// What a JSON value holds, for the kinds of value that the library builds.
pub enum Json {
    Text(Seq<char>),
    List(Seq<Json>),
    Object(Map<Seq<char>, Json>),
}

/// `serde_json::Value`; what a value of it holds is named by [`value_of`].
#[verifier::external_type_specification]
#[verifier::external_body]
pub struct ExValue(serde_json::Value);

/// `serde_json::Map`; what a value of it holds is named by [`members_of`].
#[verifier::external_type_specification]
#[verifier::external_body]
#[verifier::reject_recursive_types(K)]
#[verifier::reject_recursive_types(V)]
pub struct ExMap<K, V>(serde_json::Map<K, V>);

/// What a JSON value holds.
pub uninterp spec fn value_of(v: serde_json::Value) -> Json;

/// The members of a JSON object: what each key is mapped to.
pub uninterp spec fn members_of(m: serde_json::Map<String, serde_json::Value>) -> Map<
    Seq<char>,
    Json,
>;

/// The members of an empty object.
pub open spec fn no_members() -> Map<Seq<char>, Json> {
    Map::empty()
}

/// `serde_json::Map::new`: an object without members.
#[verifier::external_body]
pub(crate) fn empty_object() -> (m: serde_json::Map<String, serde_json::Value>)
    ensures
        members_of(m) == no_members(),
{
    serde_json::Map::new()
}

/// `serde_json::Map::insert`: the key is mapped to the value, and every other key
/// to what it was mapped to before; what the key was mapped to is returned.
#[verifier::external_body]
pub(crate) fn insert_member(
    m: &mut serde_json::Map<String, serde_json::Value>,
    key: String,
    value: serde_json::Value,
) -> (previous: Option<serde_json::Value>)
    ensures
        members_of(*final(m)) == members_of(*old(m)).insert(key@, value_of(value)),
        match previous {
            Some(v) => members_of(*old(m)).contains_key(key@) && value_of(v) == members_of(
                *old(m),
            )[key@],
            None => !members_of(*old(m)).contains_key(key@),
        },
{
    m.insert(key, value)
}

/// `serde_json::Map::clone`: an object with the same members.
#[verifier::external_body]
pub(crate) fn clone_object(m: &serde_json::Map<String, serde_json::Value>) -> (copy:
    serde_json::Map<String, serde_json::Value>)
    ensures
        members_of(copy) == members_of(*m),
{
    m.clone()
}

/// `serde_json::Value::String`: the JSON string with this text.
#[verifier::external_body]
pub(crate) fn text_value(text: String) -> (v: serde_json::Value)
    ensures
        value_of(v) == Json::Text(text@),
{
    serde_json::Value::String(text)
}

/// `serde_json::Value::Array`: the JSON array with these items, in their order.
#[verifier::external_body]
pub(crate) fn list_value(items: Vec<serde_json::Value>) -> (v: serde_json::Value)
    ensures
        value_of(v) == Json::List(items@.map_values(|item: serde_json::Value| value_of(item))),
{
    serde_json::Value::Array(items)
}

/// `serde_json::Value::Object`: the JSON object with these members.
#[verifier::external_body]
pub(crate) fn object_value(m: serde_json::Map<String, serde_json::Value>) -> (v: serde_json::Value)
    ensures
        value_of(v) == Json::Object(members_of(m)),
{
    serde_json::Value::Object(m)
}

} // verus!
