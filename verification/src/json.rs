//! A JSON document as plain values, for the logic that inspects parsed JSON.
//!
//! Objects keep their entries in order; looking a key up finds its first entry.
use vstd::prelude::*;

use crate::text::{chars_eq, chars_of};

verus! {

broadcast use vstd::string::group_string_axioms;

/// A JSON value.
#[derive(Debug)]
pub enum Json {
    Null,
    Bool(bool),
    /// A number, kept as the text it was written as.
    Number(String),
    Str(String),
    Array(Vec<Json>),
    Object(Vec<(String, Json)>),
}

/// The value of the first entry of `entries` whose key is `key`.
pub open spec fn obj_get(entries: Seq<(String, Json)>, key: Seq<char>) -> Option<Json>
    decreases entries.len(),
{
    if entries.len() == 0 {
        None
    } else if entries[0].0@ == key {
        Some(entries[0].1)
    } else {
        obj_get(entries.drop_first(), key)
    }
}

/// `value.as_str()`.
pub open spec fn as_str(v: Option<Json>) -> Option<Seq<char>> {
    match v {
        Some(Json::Str(s)) => Some(s@),
        _ => None,
    }
}

/// `value.as_bool()`.
pub open spec fn as_bool(v: Option<Json>) -> Option<bool> {
    match v {
        Some(Json::Bool(b)) => Some(b),
        _ => None,
    }
}

/// `value.as_array()`.
pub open spec fn as_array(v: Option<Json>) -> Option<Seq<Json>> {
    match v {
        Some(Json::Array(a)) => Some(a@),
        _ => None,
    }
}

/// `value.as_object()`.
pub open spec fn as_object(v: Option<Json>) -> Option<Seq<(String, Json)>> {
    match v {
        Some(Json::Object(o)) => Some(o@),
        _ => None,
    }
}

/// `value.get(key)`: the entry `key` of an object; nothing for any other value.
pub open spec fn value_get(v: Json, key: Seq<char>) -> Option<Json> {
    match v {
        Json::Object(o) => obj_get(o@, key),
        _ => None,
    }
}

/// The string stored under `key` of an object, if there is one.
pub fn value_str<'a>(v: &'a Json, key: &str) -> (r: Option<&'a String>)
    ensures
        match r {
            Some(s) => as_str(value_get(*v, key@)) == Some(s@),
            None => as_str(value_get(*v, key@)) is None,
        },
{
    match v {
        Json::Object(o) => get_str(o, key),
        _ => None,
    }
}

/// `a == b` on strings.
pub fn str_eq(a: &str, b: &str) -> (r: bool)
    ensures
        r == (a@ == b@),
{
    chars_eq(&chars_of(a), &chars_of(b))
}

/// The first entry of `entries` with key `key`.
pub fn get<'a>(entries: &'a Vec<(String, Json)>, key: &str) -> (r: Option<&'a Json>)
    ensures
        r matches Some(v) ==> obj_get(entries@, key@) == Some(*v),
        r is None ==> obj_get(entries@, key@) is None,
{
    let mut i: usize = 0;
    assert(entries@.skip(0) =~= entries@);
    while i < entries.len()
        invariant
            i <= entries.len(),
            obj_get(entries@, key@) == obj_get(entries@.skip(i as int), key@),
        decreases entries.len() - i,
    {
        assert(entries@.skip(i as int).drop_first() =~= entries@.skip(i + 1));
        if str_eq(entries[i].0.as_str(), key) {
            return Some(&entries[i].1);
        }
        i += 1;
    }
    None
}

/// The string stored under `key`, if it is a string.
pub fn get_str<'a>(entries: &'a Vec<(String, Json)>, key: &str) -> (r: Option<&'a String>)
    ensures
        match r {
            Some(s) => as_str(obj_get(entries@, key@)) == Some(s@),
            None => as_str(obj_get(entries@, key@)) is None,
        },
{
    match get(entries, key) {
        Some(Json::Str(s)) => Some(s),
        _ => None,
    }
}

} // verus!
