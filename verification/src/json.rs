//! JSON values as plain data, and the serde_json calls that read and write
//! them.

use vstd::prelude::*;
use crate::text::str_eq;

verus! {

/// A JSON value. Object members keep the order serde_json reports them in
/// (sorted by key, each key once); a number keeps its textual form.
#[derive(Debug)]
pub enum Json {
    Null,
    Bool(bool),
    Number(String),
    Str(String),
    Array(Vec<Json>),
    Object(Vec<(String, Json)>),
}

/// What serde_json parses `bytes` into, or `None` when they are not one JSON
/// value.
pub uninterp spec fn json_parse(bytes: Seq<u8>) -> Option<Json>;

/// serde_json's compact text for `v` (`Value::to_string`).
pub uninterp spec fn json_compact(v: Json) -> Seq<char>;

/// serde_json's indented text for `v` (`to_string_pretty`).
pub uninterp spec fn json_pretty(v: Json) -> Seq<char>;

/// The first member called `key`.
pub open spec fn lookup(members: Seq<(String, Json)>, key: Seq<char>) -> Option<Json>
    decreases members.len(),
{
    if members.len() == 0 {
        None
    } else if members[0].0@ == key {
        Some(members[0].1)
    } else {
        lookup(members.drop_first(), key)
    }
}

/// `v[key]`: the member of an object, `Null` for anything else.
pub open spec fn field(v: Json, key: Seq<char>) -> Json {
    match v {
        Json::Object(m) => match lookup(m@, key) {
            Some(x) => x,
            None => Json::Null,
        },
        _ => Json::Null,
    }
}

/// `v.as_str()`.
pub open spec fn as_str_s(v: Json) -> Option<Seq<char>> {
    match v {
        Json::Str(s) => Some(s@),
        _ => None,
    }
}

/// `v.as_bool()`.
pub open spec fn as_bool_s(v: Json) -> Option<bool> {
    match v {
        Json::Bool(b) => Some(b),
        _ => None,
    }
}

/// serde_json's JSON value, carried opaquely between the conversions below
/// and the serde_json calls.
#[verifier::external_type_specification]
#[verifier::external_body]
pub struct ExValue(serde_json::Value);

/// Copy of a JSON value into serde_json's representation.
#[verifier::external_body]
fn to_value(v: &Json) -> serde_json::Value {
    match v {
        Json::Null => serde_json::Value::Null,
        Json::Bool(b) => serde_json::Value::Bool(*b),
        Json::Number(n) => n.parse().map(serde_json::Value::Number).unwrap_or(serde_json::Value::Null),
        Json::Str(s) => serde_json::Value::String(s.clone()),
        Json::Array(a) => serde_json::Value::Array(a.iter().map(to_value).collect()),
        Json::Object(m) => serde_json::Value::Object(
            m.iter().map(|(k, x)| (k.clone(), to_value(x))).collect(),
        ),
    }
}

/// Copy of serde_json's representation of a value.
#[verifier::external_body]
fn from_value(v: serde_json::Value) -> Json {
    match v {
        serde_json::Value::Null => Json::Null,
        serde_json::Value::Bool(b) => Json::Bool(b),
        serde_json::Value::Number(n) => Json::Number(n.to_string()),
        serde_json::Value::String(s) => Json::Str(s),
        serde_json::Value::Array(a) => Json::Array(a.into_iter().map(from_value).collect()),
        serde_json::Value::Object(m) => Json::Object(
            m.into_iter().map(|(k, x)| (k, from_value(x))).collect(),
        ),
    }
}

/// `serde_json::from_slice::<Value>(bytes).ok()`.
#[verifier::external_body]
pub(crate) fn parse_json(bytes: &[u8]) -> (r: Option<Json>)
    ensures
        r == json_parse(bytes@),
{
    serde_json::from_slice::<serde_json::Value>(bytes).ok().map(from_value)
}

/// `Value::to_string()`: compact JSON text.
#[verifier::external_body]
pub(crate) fn compact(v: &Json) -> (r: String)
    ensures
        r@ == json_compact(*v),
{
    to_value(v).to_string()
}

/// `serde_json::to_string_pretty(v)`, falling back to the compact text.
#[verifier::external_body]
pub(crate) fn pretty(v: &Json) -> (r: String)
    ensures
        r@ == json_pretty(*v),
{
    let value = to_value(v);
    serde_json::to_string_pretty(&value).unwrap_or_else(|_| value.to_string())
}

impl Json {
    /// `self[key]`, or `None` where serde_json would give `Null` for lack of
    /// the member.
    pub fn get(&self, key: &str) -> (r: Option<&Json>)
        ensures
            match r {
                Some(x) => field(*self, key@) == *x,
                None => field(*self, key@) == Json::Null,
            },
    {
        match self {
            Json::Object(m) => {
                let mut i: usize = 0;
                assert(m@.subrange(0, m@.len() as int) =~= m@);
                while i < m.len()
                    invariant
                        i <= m@.len(),
                        *self == Json::Object(*m),
                        lookup(m@, key@) == lookup(m@.subrange(i as int, m@.len() as int), key@),
                    decreases m@.len() - i,
                {
                    let ghost rest = m@.subrange(i as int, m@.len() as int);
                    assert(rest.drop_first() =~= m@.subrange(i + 1, m@.len() as int));
                    if str_eq(m[i].0.as_str(), key) {
                        return Some(&m[i].1);
                    }
                    i = i + 1;
                }
                None
            },
            _ => None,
        }
    }

    /// `self.as_str()`.
    pub fn as_str(&self) -> (r: Option<&str>)
        ensures
            match r {
                Some(s) => as_str_s(*self) == Some(s@),
                None => as_str_s(*self) is None,
            },
    {
        match self {
            Json::Str(s) => Some(s.as_str()),
            _ => None,
        }
    }

    /// `self.as_bool()`.
    pub fn as_bool(&self) -> (r: Option<bool>)
        ensures
            r == as_bool_s(*self),
    {
        match self {
            Json::Bool(b) => Some(*b),
            _ => None,
        }
    }
}

/// `v[key]` where `v` may be absent (a missing member reads as `Null`).
pub open spec fn field_opt(v: Option<Json>, key: Seq<char>) -> Json {
    match v {
        Some(x) => field(x, key),
        None => Json::Null,
    }
}

/// `v[key]` of an optional value.
pub fn get_opt<'a>(v: Option<&'a Json>, key: &str) -> (r: Option<&'a Json>)
    ensures
        match r {
            Some(x) => field_opt(match v { Some(y) => Some(*y), None => None }, key@) == *x,
            None => field_opt(match v { Some(y) => Some(*y), None => None }, key@) == Json::Null,
        },
{
    match v {
        Some(x) => x.get(key),
        None => None,
    }
}

} // verus!
