//! Reading and extending JSON values.
//!
//! A JSON value is a tree; this module speaks of it as the members that JSON
//! pointers (`"/push_data/ref"`) lead to.

use serde_json::Value;
use vstd::prelude::*;

verus! {

/// `serde_json::Value`, held as it is.
#[verifier::external_type_specification]
#[verifier::external_body]
pub struct ExValue(serde_json::Value);

/// The JSON pointers that lead to a member of `v`.
pub uninterp spec fn json_paths(v: Value) -> Set<Seq<char>>;

/// The members of `v` that are strings, by JSON pointer.
pub uninterp spec fn json_strings(v: Value) -> Map<Seq<char>, Seq<char>>;

/// The members of `v` that are integers from 0 to `u64::MAX`, by JSON pointer.
pub uninterp spec fn json_numbers(v: Value) -> Map<Seq<char>, u64>;

/// The string that `path` leads to in `v`, if it leads to one.
pub open spec fn string_in(v: Value, path: Seq<char>) -> Option<Seq<char>> {
    if json_strings(v).contains_key(path) {
        Some(json_strings(v)[path])
    } else {
        None
    }
}

/// The number that `path` leads to in `v`, if it leads to one.
pub open spec fn number_in(v: Value, path: Seq<char>) -> Option<u64> {
    if json_numbers(v).contains_key(path) {
        Some(json_numbers(v)[path])
    } else {
        None
    }
}

/// The pointer to member `key` of the value itself.
pub open spec fn member(key: Seq<char>) -> Seq<char> {
    seq!['/'] + key
}

/// Whether `key` stands for itself in a pointer and cannot be an index into an
/// array: it starts with a letter or `_`, and has no `/` and no `~`.
pub open spec fn plain_key(key: Seq<char>) -> bool {
    &&& key.len() > 0
    &&& ('a' <= key[0] <= 'z' || 'A' <= key[0] <= 'Z' || key[0] == '_')
    &&& !key.contains('/')
    &&& !key.contains('~')
}

/// Whether `path` leads to the member that `root` leads to, or into it.
pub open spec fn within(root: Seq<char>, path: Seq<char>) -> bool {
    path == root || root.push('/').is_prefix_of(path)
}

/// `Value::pointer` followed by `Value::as_str`: the string at `path`, `None`
/// where nothing is or where it is no string.
#[verifier::external_body]
pub(crate) fn string_at(v: &Value, path: &str) -> (r: Option<String>)
    ensures
        r is Some == json_strings(*v).contains_key(path@),
        r matches Some(s) ==> s@ == json_strings(*v)[path@] && json_paths(*v).contains(path@),
{
    v.pointer(path).and_then(Value::as_str).map(String::from)
}

/// `Value::pointer` followed by `Value::as_u64`: the number at `path`, `None`
/// where nothing is or where it is no integer that fits.
#[verifier::external_body]
pub(crate) fn number_at(v: &Value, path: &str) -> (r: Option<u64>)
    ensures
        r is Some == json_numbers(*v).contains_key(path@),
        r matches Some(n) ==> n == json_numbers(*v)[path@] && json_paths(*v).contains(path@),
{
    v.pointer(path).and_then(Value::as_u64)
}

/// `Value::pointer`: whether anything is at `path`.
#[verifier::external_body]
pub(crate) fn has_path(v: &Value, path: &str) -> (r: bool)
    ensures
        r == json_paths(*v).contains(path@),
{
    v.pointer(path).is_some()
}

/// `serde_json::Map::insert` on the map of an object: puts the string `text`
/// at `key`, in place of whatever was there. That the value is an object is
/// known from some member under a plain key.
#[verifier::external_body]
pub(crate) fn set_string(v: &mut Value, key: &str, text: &str)
    requires
        plain_key(key@),
        exists|k: Seq<char>| plain_key(k) && json_paths(*old(v)).contains(#[trigger] member(k)),
    ensures
        forall|p: Seq<char>| #[trigger]
            json_paths(*final(v)).contains(p) == (p == member(key@) || (json_paths(*old(v)).contains(p)
                && !within(member(key@), p))),
        forall|p: Seq<char>| #[trigger]
            string_in(*final(v), p) == (if p == member(key@) {
                Some(text@)
            } else if within(member(key@), p) {
                None
            } else {
                string_in(*old(v), p)
            }),
        forall|p: Seq<char>| #[trigger]
            number_in(*final(v), p) == (if within(member(key@), p) {
                None
            } else {
                number_in(*old(v), p)
            }),
{
    if let Value::Object(map) = v {
        map.insert(key.into(), Value::String(text.into()));
    }
}

} // verus!
