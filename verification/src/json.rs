//! JSON documents, as `serde_json` reads them.
use crate::package;
use serde_json::Value;
use vstd::prelude::*;
use vstd::string::*;

verus! {

/// A JSON value of `serde_json`.
#[verifier::external_type_specification]
#[verifier::external_body]
pub struct ExValue(serde_json::Value);

/// What a JSON value is.
pub enum Json {
    Null,
    Bool(bool),
    Number,
    Text(Seq<char>),
    Array(Seq<Json>),
    Object(Map<Seq<char>, Json>),
}

/// What a value of `serde_json` holds.
pub uninterp spec fn held(v: Value) -> Json;

/// What `serde_json::from_str` reads from a text, where it is a JSON document.
pub uninterp spec fn parsed(t: Seq<char>) -> Option<Json>;

/// `serde_json::from_str` for a `Value`: the document that the text holds, where it is
/// one. Which texts are documents is not stated.
#[verifier::external_body]
pub(crate) fn parse(t: &str) -> (r: Option<Value>)
    ensures
        match r {
            Some(v) => parsed(t@) == Some(held(v)),
            None => parsed(t@) is None,
        },
{
    serde_json::from_str::<Value>(t).ok()
}

/// The value of a member, where `j` is an object that has it.
pub open spec fn member(j: Json, key: Seq<char>) -> Option<Json> {
    match j {
        Json::Object(m) => if m.contains_key(key) {
            Some(m[key])
        } else {
            None
        },
        _ => None,
    }
}

/// `Value::get` with a text: the value of a member, where the value is an object that
/// has it.
#[verifier::external_body]
pub(crate) fn get<'a>(v: &'a Value, key: &str) -> (r: Option<&'a Value>)
    ensures
        match r {
            Some(x) => member(held(*v), key@) == Some(held(*x)),
            None => member(held(*v), key@) is None,
        },
{
    v.get(key)
}

/// The text of `j`, where it is one.
pub open spec fn text_in(j: Json) -> Option<Seq<char>> {
    match j {
        Json::Text(s) => Some(s),
        _ => None,
    }
}

/// `Value::as_str`: the text of a value, where it is one.
#[verifier::external_body]
pub(crate) fn as_str<'a>(v: &'a Value) -> (r: Option<&'a str>)
    ensures
        match r {
            Some(s) => text_in(held(*v)) == Some(s@),
            None => text_in(held(*v)) is None,
        },
{
    v.as_str()
}

/// What the values of a list hold.
pub open spec fn all_held(v: Seq<Value>) -> Seq<Json> {
    v.map_values(|x: Value| held(x))
}

/// The items of `j`, where it is an array.
pub open spec fn items_in(j: Json) -> Option<Seq<Json>> {
    match j {
        Json::Array(s) => Some(s),
        _ => None,
    }
}

/// `Value::as_array`: the items of a value, where it is an array.
#[verifier::external_body]
pub(crate) fn as_array<'a>(v: &'a Value) -> (r: Option<&'a Vec<Value>>)
    ensures
        match r {
            Some(list) => items_in(held(*v)) == Some(all_held(list@)),
            None => items_in(held(*v)) is None,
        },
{
    v.as_array()
}

/// The text of a member.
pub open spec fn text_at(j: Json, key: Seq<char>) -> Option<Seq<char>> {
    match member(j, key) {
        Some(x) => text_in(x),
        None => None,
    }
}

/// The items of a member.
pub open spec fn items_at(j: Json, key: Seq<char>) -> Option<Seq<Json>> {
    match member(j, key) {
        Some(x) => items_in(x),
        None => None,
    }
}

/// The text of a member.
pub(crate) fn get_text(v: &Value, key: &str) -> (r: Option<String>)
    ensures
        package::opt_text(r) == text_at(held(*v), key@),
{
    match get(v, key) {
        Some(x) => match as_str(x) {
            Some(s) => Some(s.to_owned()),
            None => None,
        },
        None => None,
    }
}

/// The items of a member.
pub(crate) fn get_items<'a>(v: &'a Value, key: &str) -> (r: Option<&'a Vec<Value>>)
    ensures
        match r {
            Some(list) => items_at(held(*v), key@) == Some(all_held(list@)),
            None => items_at(held(*v), key@) is None,
        },
{
    match get(v, key) {
        Some(x) => as_array(x),
        None => None,
    }
}

/// Only an object has members, only a text is one, and only an array has items.
pub proof fn values_are_what_they_are(m: Map<Seq<char>, Json>, key: Seq<char>, s: Seq<char>, v: Seq<Json>)
    ensures
        m.contains_key(key) ==> member(Json::Object(m), key) == Some(m[key]),
        !m.contains_key(key) ==> member(Json::Object(m), key) is None,
        member(Json::Text(s), key) is None,
        member(Json::Array(v), key) is None,
        text_in(Json::Text(s)) == Some(s),
        text_in(Json::Array(v)) is None,
        text_in(Json::Object(m)) is None,
        items_in(Json::Array(v)) == Some(v),
        items_in(Json::Text(s)) is None,
        items_in(Json::Object(m)) is None,
{
}

/// A member is read as what it holds: a text, or a list.
pub proof fn members_are_read(
    m: Map<Seq<char>, Json>,
    key: Seq<char>,
    s: Seq<char>,
    v: Seq<Json>,
)
    ensures
        text_at(Json::Object(m.insert(key, Json::Text(s))), key) == Some(s),
        items_at(Json::Object(m.insert(key, Json::Array(v))), key) == Some(v),
        text_at(Json::Object(m.insert(key, Json::Array(v))), key) is None,
        items_at(Json::Object(m.insert(key, Json::Text(s))), key) is None,
        text_at(Json::Object(m.remove(key)), key) is None,
        items_at(Json::Object(m.remove(key)), key) is None,
{
}

} // verus!
