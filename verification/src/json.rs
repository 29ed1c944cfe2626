//! A JSON document as plain values: what the declared reads of a tool result
//! look at, held as the library's own type so that every reading of it is
//! stated and proved. The parse that produces one is the caller's.

use vstd::prelude::*;
use vstd::string::StringExecFns;
use crate::text::{chars_of, same_string, split, split_exec, string_of, views};

verus! {

/// A JSON value.
#[derive(Debug, PartialEq, Eq)]
pub enum Json {
    /// `null`.
    Null,
    /// `true` or `false`.
    Bool(bool),
    /// A number, as the document's own JSON writer renders it.
    Number(String),
    /// A string.
    Text(String),
    /// An array, in order.
    Array(Vec<Json>),
    /// An object's members, in order, each key once.
    Object(Vec<(String, Json)>),
}

/// Whether a value is `null`.
pub fn is_null(v: &Json) -> (r: bool)
    ensures
        r == (*v is Null),
{
    match v {
        Json::Null => true,
        _ => false,
    }
}

/// The value a key names in the members from the `i`th on.
pub open spec fn member_from(ms: Seq<(String, Json)>, key: Seq<char>, i: int) -> Option<Json>
    decreases ms.len() - i,
{
    if i < 0 || i >= ms.len() {
        None
    } else if ms[i].0@ == key {
        Some(ms[i].1)
    } else {
        member_from(ms, key, i + 1)
    }
}

/// The value a key names in an object; `None` for a key it lacks, and for a
/// value that is not an object.
pub open spec fn member(v: Json, key: Seq<char>) -> Option<Json> {
    match v {
        Json::Object(ms) => member_from(ms@, key, 0),
        _ => None,
    }
}

/// The value a key names in an object.
pub fn member_of<'a>(v: &'a Json, key: &str) -> (r: Option<&'a Json>)
    ensures
        match r {
            Some(x) => member(*v, key@) == Some(*x),
            None => member(*v, key@) is None,
        },
{
    match v {
        Json::Object(ms) => {
            let mut i: usize = 0;
            while i < ms.len()
                invariant
                    i <= ms.len(),
                    member(*v, key@) == member_from(ms@, key@, i as int),
                    *v == Json::Object(*ms),
                decreases ms.len() - i,
            {
                if same_string(ms[i].0.as_str(), key) {
                    return Some(&ms[i].1);
                }
                i += 1;
            }
            None
        },
        _ => None,
    }
}

/// A scalar's text: a string's own text, `true` or `false`, or a number as
/// its writer rendered it; `None` for `null` and for a container.
pub open spec fn bare(w: Json) -> Option<Seq<char>> {
    match w {
        Json::Text(t) => Some(t@),
        Json::Bool(b) => Some(
            if b {
                "true"@
            } else {
                "false"@
            },
        ),
        Json::Number(n) => Some(n@),
        _ => None,
    }
}

/// A scalar's text.
pub fn bare_of(w: &Json) -> (r: Option<String>)
    ensures
        match r {
            Some(t) => bare(*w) == Some(t@),
            None => bare(*w) is None,
        },
{
    match w {
        Json::Text(t) => Some(t.clone()),
        Json::Bool(b) => Some(
            if *b {
                String::from_str("true")
            } else {
                String::from_str("false")
            },
        ),
        Json::Number(n) => Some(n.clone()),
        _ => None,
    }
}

/// The value reached by following the keys from the `i`th on.
pub open spec fn walk(v: Json, keys: Seq<Seq<char>>, i: int) -> Option<Json>
    decreases keys.len() - i,
{
    if i < 0 || i >= keys.len() {
        Some(v)
    } else {
        match member(v, keys[i]) {
            Some(w) => walk(w, keys, i + 1),
            None => None,
        }
    }
}

/// The node a dotted key path reaches: the empty path is the value itself;
/// otherwise each `.`-separated key names a member of the object reached so
/// far. `None` where a key is missing or a step meets something that is not
/// an object.
pub open spec fn at(v: Json, path: Seq<char>) -> Option<Json> {
    if path.len() == 0 {
        Some(v)
    } else {
        walk(v, split(path, '.'), 0)
    }
}

/// The node a dotted key path reaches.
pub fn at_of<'a>(v: &'a Json, path: &str) -> (r: Option<&'a Json>)
    ensures
        match r {
            Some(x) => at(*v, path@) == Some(*x),
            None => at(*v, path@) is None,
        },
{
    let chars = chars_of(path);
    if chars.len() == 0 {
        return Some(v);
    }
    let keys = split_exec(chars.as_slice(), '.');
    let ghost kv = views(keys@);
    let mut current: &'a Json = v;
    let mut i: usize = 0;
    while i < keys.len()
        invariant
            i <= keys.len(),
            kv == views(keys@),
            kv == split(path@, '.'),
            path@.len() > 0,
            at(*v, path@) == walk(*current, kv, i as int),
        decreases keys.len() - i,
    {
        let key = string_of(keys[i].as_slice());
        match member_of(current, key.as_str()) {
            Some(next) => {
                current = next;
            },
            None => {
                return None;
            },
        }
        i += 1;
    }
    Some(current)
}

/// The items of an array, or `None` for a value that is not one.
pub open spec fn items(v: Json) -> Option<Seq<Json>> {
    match v {
        Json::Array(xs) => Some(xs@),
        _ => None,
    }
}

/// The text of a string, or `None` for a value that is not one.
pub open spec fn text(v: Json) -> Option<Seq<char>> {
    match v {
        Json::Text(s) => Some(s@),
        _ => None,
    }
}

/// The values a run of references points at.
pub open spec fn referents(v: Seq<&Json>) -> Seq<Json> {
    v.map_values(|r: &Json| *r)
}

} // verus!
