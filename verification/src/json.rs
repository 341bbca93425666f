//! A JSON document as the transcript logic reads it.
use vstd::prelude::*;

use crate::text::{chars_eq, chars_of};
use serde_json::Value;

verus! {

/// A JSON value. Numbers keep only what the logic reads of them: their
/// value when it is a non-negative integer that fits in a `u64`. Object
/// members are listed in order; lookups take the first member of a name.
/// A document parsed by `parse_json` lists its members as serde_json's map
/// holds them: sorted by name, one member per name (of repeated names, the
/// last one in the text).
pub enum JsonValue {
    Null,
    Bool(bool),
    Number(Option<u64>),
    Str(String),
    Array(Vec<JsonValue>),
    Object(Vec<(String, JsonValue)>),
}

#[verifier::external_type_specification]
#[verifier::external_body]
pub struct ExSerdeValue(serde_json::Value);

/// What `serde_json::from_str::<Value>` gives for the text `s`, read as a
/// `JsonValue`: `None` when the text is not one JSON document.
pub uninterp spec fn json_of(s: Seq<char>) -> Option<JsonValue>;

/// Converts a `serde_json::Value` variant for variant: a number keeps what
/// `Number::as_u64` gives, members keep the map's order.
#[verifier::external_body]
fn from_serde(v: Value) -> JsonValue {
    match v {
        Value::Null => JsonValue::Null,
        Value::Bool(b) => JsonValue::Bool(b),
        Value::Number(n) => JsonValue::Number(n.as_u64()),
        Value::String(s) => JsonValue::Str(s),
        Value::Array(a) => JsonValue::Array(a.into_iter().map(from_serde).collect()),
        Value::Object(m) => JsonValue::Object(m.into_iter().map(|(k, x)| (k, from_serde(x))).collect()),
    }
}

/// Calls `serde_json::from_str::<Value>` on one line of text and converts
/// the document; the outcome is `json_of` of the text.
#[verifier::external_body]
pub(crate) fn parse_json(line: &str) -> (r: Option<JsonValue>)
    ensures
        r == json_of(line@),
{
    serde_json::from_str::<Value>(line).ok().map(from_serde)
}

/// The value of the first member named `key`.
pub open spec fn lookup(entries: Seq<(String, JsonValue)>, key: Seq<char>) -> Option<JsonValue>
    decreases entries.len(),
{
    if entries.len() == 0 {
        None
    } else if entries[0].0@ == key {
        Some(entries[0].1)
    } else {
        lookup(entries.drop_first(), key)
    }
}

/// The member `key` of an object; `None` for other values.
pub open spec fn member(v: JsonValue, key: Seq<char>) -> Option<JsonValue> {
    match v {
        JsonValue::Object(entries) => lookup(entries@, key),
        _ => None,
    }
}

/// The characters of a string value.
pub open spec fn str_value(v: Option<JsonValue>) -> Option<Seq<char>> {
    match v {
        Some(JsonValue::Str(s)) => Some(s@),
        _ => None,
    }
}

/// The value of a number that is a non-negative integer within `u64`.
pub open spec fn u64_value(v: Option<JsonValue>) -> Option<u64> {
    match v {
        Some(JsonValue::Number(n)) => n,
        _ => None,
    }
}

impl JsonValue {
    /// The member `key` of an object (`None` for other values).
    pub fn get(&self, key: &str) -> (r: Option<&JsonValue>)
        ensures
            match r {
                Some(x) => member(*self, key@) == Some(*x),
                None => member(*self, key@) is None,
            },
    {
        match self {
            JsonValue::Object(entries) => {
                let k = chars_of(key);
                let mut i: usize = 0;
                assert(entries@.skip(0) =~= entries@);
                while i < entries.len()
                    invariant
                        member(*self, key@) == lookup(entries@, key@),
                        i <= entries@.len(),
                        k@ == key@,
                        lookup(entries@, key@) == lookup(entries@.skip(i as int), key@),
                    decreases entries@.len() - i,
                {
                    assert(entries@.skip(i as int).drop_first() =~= entries@.skip(i + 1));
                    assert(entries@.skip(i as int)[0] == entries@[i as int]);
                    let name = chars_of(entries[i].0.as_str());
                    if chars_eq(&name, &k) {
                        return Some(&entries[i].1);
                    }
                    i += 1;
                }
                None
            },
            _ => None,
        }
    }

    /// The text of a string value.
    pub fn as_str(&self) -> (r: Option<&String>)
        ensures
            match r {
                Some(s) => str_value(Some(*self)) == Some(s@),
                None => str_value(Some(*self)) is None,
            },
    {
        match self {
            JsonValue::Str(s) => Some(s),
            _ => None,
        }
    }

    /// The value of a non-negative integer number that fits in a `u64`.
    pub fn as_u64(&self) -> (r: Option<u64>)
        ensures
            r == u64_value(Some(*self)),
    {
        match self {
            JsonValue::Number(n) => *n,
            _ => None,
        }
    }
}

} // verus!
