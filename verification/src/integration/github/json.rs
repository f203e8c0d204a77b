//! A JSON document as the GitHub APIs answer with it.
//!
//! The HTTP layer decodes response bodies; the parsers of this crate read
//! this plain model of the decoded document. Lookups follow the semantics of
//! indexing a JSON value by key: a missing key, or a key looked up in
//! something that is not an object, yields nothing.

use vstd::prelude::*;
use crate::text::str_eq;

verus! {

broadcast use vstd::string::group_string_axioms;

/// A JSON value.
#[derive(Debug)]
pub enum Json {
    Null,
    Bool(bool),
    /// A non-negative integer.
    UInt(u64),
    /// A negative integer.
    NegInt(i64),
    /// A number with a fraction or an exponent (its value is not kept).
    Fractional,
    Str(String),
    Array(Vec<Json>),
    /// The members of an object, in order; a key is read from its first
    /// member.
    Object(Vec<(String, Json)>),
}

/// The value stored under `key` among `entries`, if any.
pub open spec fn entry_of(entries: Seq<(String, Json)>, key: Seq<char>) -> Option<Json>
    decreases entries.len(),
{
    if entries.len() == 0 {
        None
    } else if entries[0].0@ == key {
        Some(entries[0].1)
    } else {
        entry_of(entries.drop_first(), key)
    }
}

/// The member `key` of `v` when `v` is an object that has it.
pub open spec fn get(v: Json, key: Seq<char>) -> Option<Json> {
    match v {
        Json::Object(es) => entry_of(es@, key),
        _ => None,
    }
}

/// Member lookup on a value that may be absent.
pub open spec fn at(o: Option<Json>, key: Seq<char>) -> Option<Json> {
    match o {
        Some(v) => get(v, key),
        None => None,
    }
}

/// The value as a `u64`, if it is a non-negative integer.
pub open spec fn u64_of(o: Option<Json>) -> Option<u64> {
    match o {
        Some(Json::UInt(n)) => Some(n),
        _ => None,
    }
}

/// The value as a string, if it is one.
pub open spec fn str_of(o: Option<Json>) -> Option<Seq<char>> {
    match o {
        Some(Json::Str(s)) => Some(s@),
        _ => None,
    }
}

/// The elements of the value, if it is an array.
pub open spec fn array_of(o: Option<Json>) -> Option<Seq<Json>> {
    match o {
        Some(Json::Array(a)) => Some(a@),
        _ => None,
    }
}

/// Whether the value is a string.
pub open spec fn is_str(o: Option<Json>) -> bool {
    o matches Some(Json::Str(_))
}

/// Whether the value is an object.
pub open spec fn is_object(o: Option<Json>) -> bool {
    o matches Some(Json::Object(_))
}

fn entry_in<'a>(entries: &'a Vec<(String, Json)>, key: &str) -> (r: Option<&'a Json>)
    ensures
        r matches Some(x) ==> entry_of(entries@, key@) == Some(*x),
        r is None ==> entry_of(entries@, key@) is None,
{
    let mut i: usize = 0;
    assert(entries@.skip(0) =~= entries@);
    while i < entries.len()
        invariant
            i <= entries@.len(),
            entry_of(entries@, key@) == entry_of(entries@.skip(i as int), key@),
        decreases entries.len() - i,
    {
        assert(entries@.skip(i as int)[0] == entries@[i as int]);
        if str_eq(entries[i].0.as_str(), key) {
            return Some(&entries[i].1);
        }
        assert(entries@.skip(i as int).drop_first() =~= entries@.skip(i + 1));
        i = i + 1;
    }
    None
}

/// Looks up `key` in `o` (`value["key"]`, with an absent result for a
/// missing key).
pub fn at_key<'a>(o: Option<&'a Json>, key: &str) -> (r: Option<&'a Json>)
    ensures
        r matches Some(x) ==> at(opt_val(o), key@) == Some(*x),
        r is None ==> at(opt_val(o), key@) is None,
{
    match o {
        Some(Json::Object(es)) => entry_in(es, key),
        _ => None,
    }
}

/// An optional reference read as an optional value.
pub open spec fn opt_val(o: Option<&Json>) -> Option<Json> {
    match o {
        Some(x) => Some(*x),
        None => None,
    }
}

/// The value as a `u64` (`Value::as_u64`).
pub fn as_u64(o: Option<&Json>) -> (r: Option<u64>)
    ensures
        r == u64_of(opt_val(o)),
{
    match o {
        Some(Json::UInt(n)) => Some(*n),
        _ => None,
    }
}

/// The value as a string (`Value::as_str`).
pub fn as_str<'a>(o: Option<&'a Json>) -> (r: Option<&'a str>)
    ensures
        r matches Some(s) ==> str_of(opt_val(o)) == Some(s@),
        r is None ==> str_of(opt_val(o)) is None,
{
    match o {
        Some(Json::Str(s)) => Some(s.as_str()),
        _ => None,
    }
}

/// The elements of the value (`Value::as_array`).
pub fn as_array<'a>(o: Option<&'a Json>) -> (r: Option<&'a Vec<Json>>)
    ensures
        r matches Some(a) ==> array_of(opt_val(o)) == Some(a@),
        r is None ==> array_of(opt_val(o)) is None,
{
    match o {
        Some(Json::Array(a)) => Some(a),
        _ => None,
    }
}

/// Whether the value is a string (`Value::is_string`).
pub fn is_string(o: Option<&Json>) -> (r: bool)
    ensures
        r == is_str(opt_val(o)),
{
    match o {
        Some(Json::Str(_)) => true,
        _ => false,
    }
}

/// Whether the value is an object (`Value::as_object().is_some()`).
pub fn is_obj(o: Option<&Json>) -> (r: bool)
    ensures
        r == is_object(opt_val(o)),
{
    match o {
        Some(Json::Object(_)) => true,
        _ => false,
    }
}

} // verus!
