//! JSON documents as the library reads them.
//!
//! Session records, the session index and channel replies are JSON. They are
//! parsed by `serde_json`; the result is held here as [`Json`], a tree of plain
//! values, so that the logic that reads records can be verified.

use vstd::prelude::*;

use crate::text::{chars_of, str_eq};

verus! {

#[verifier::external_type_specification]
#[verifier::external_body]
pub struct ExJsonValue(serde_json::Value);

/// A JSON value. A number keeps the text that `serde_json` prints for it.
pub enum Json {
    Null,
    Bool(bool),
    Number(String),
    Str(String),
    Array(Vec<Json>),
    Object(Vec<(String, Json)>),
}

/// The value of the first entry of `entries` whose key is `key`.
pub open spec fn entry_lookup(entries: Seq<(String, Json)>, key: Seq<char>) -> Option<Json>
    decreases entries.len(),
{
    if entries.len() == 0 {
        None
    } else if entries[0].0@ == key {
        Some(entries[0].1)
    } else {
        entry_lookup(entries.drop_first(), key)
    }
}

/// An optional reference read as an optional value.
pub open spec fn deref_opt(o: Option<&Json>) -> Option<Json> {
    match o {
        Some(v) => Some(*v),
        None => None,
    }
}

impl Json {
    /// The member `key` of an object; `None` for anything else.
    pub open spec fn field(self, key: Seq<char>) -> Option<Json> {
        match self {
            Json::Object(entries) => entry_lookup(entries@, key),
            _ => None,
        }
    }

    /// The characters of a string value.
    pub open spec fn text(self) -> Option<Seq<char>> {
        match self {
            Json::Str(s) => Some(s@),
            _ => None,
        }
    }

    /// The member `key` of an object.
    pub fn get(&self, key: &str) -> (r: Option<&Json>)
        ensures
            deref_opt(r) == self.field(key@),
    {
        match self {
            Json::Object(entries) => {
                let mut i: usize = 0;
                assert(entries@.skip(0) =~= entries@);
                while i < entries.len()
                    invariant
                        i <= entries@.len(),
                        self.field(key@) == entry_lookup(entries@, key@),
                        entry_lookup(entries@, key@) == entry_lookup(
                            entries@.skip(i as int),
                            key@,
                        ),
                    decreases entries@.len() - i,
                {
                    let ghost rest = entries@.skip(i as int);
                    assert(rest[0] == entries@[i as int]);
                    assert(rest.drop_first() =~= entries@.skip(i + 1));
                    if str_eq(entries[i].0.as_str(), key) {
                        assert(rest.len() > 0);
                        assert(rest[0].0@ == key@);
                        assert(entry_lookup(rest, key@) == Some(rest[0].1));
                        assert(self.field(key@) == entry_lookup(entries@, key@));
                        let found = &entries[i].1;
                        assert(*found == entries@[i as int].1);
                        assert(deref_opt(Some(found)) == self.field(key@));
                        return Some(found);
                    }
                    i += 1;
                }
                None
            },
            _ => None,
        }
    }

    /// The string held by a string value.
    pub fn as_str(&self) -> (r: Option<&String>)
        ensures
            match r {
                Some(s) => self.text() == Some(s@),
                None => self.text() is None,
            },
    {
        match self {
            Json::Str(s) => Some(s),
            _ => None,
        }
    }
}

/// The member `key` of `value`, when `value` is present.
pub fn member<'a>(value: Option<&'a Json>, key: &str) -> (r: Option<&'a Json>)
    ensures
        deref_opt(r) == match deref_opt(value) {
            Some(v) => v.field(key@),
            None => None,
        },
{
    match value {
        Some(v) => v.get(key),
        None => None,
    }
}

/// The string held by `value`, when it is a present string value.
pub fn text_of(value: Option<&Json>) -> (r: Option<Vec<char>>)
    ensures
        match r {
            Some(cs) => deref_opt(value) matches Some(v) && v.text() == Some(cs@),
            None => !(deref_opt(value) matches Some(v) && v.text() is Some),
        },
{
    match value {
        Some(v) => match v.as_str() {
            Some(s) => Some(chars_of(s.as_str())),
            None => None,
        },
        None => None,
    }
}

/// Text optional-string member lookup: the string member `key` of `value`.
pub open spec fn text_field(value: Option<Json>, key: Seq<char>) -> Option<Seq<char>> {
    match value {
        Some(v) => match v.field(key) {
            Some(f) => f.text(),
            None => None,
        },
        None => None,
    }
}

/// What `serde_json` makes of a text: the document it holds, or `None` when the
/// text is not one JSON value.
pub uninterp spec fn json_document(text: Seq<char>) -> Option<Json>;

/// The text that `serde_json` writes for a value, compact.
pub uninterp spec fn json_text(value: Json) -> Seq<char>;

/// Parses `text` with `serde_json::from_str` into a `serde_json::Value` and
/// carries the result over into [`Json`], one node for one node. The contract
/// claims only that the result depends on the text alone.
#[verifier::external_body]
pub(crate) fn parse_json(text: &str) -> (r: Option<Json>)
    ensures
        r == json_document(text@),
{
    serde_json::from_str::<serde_json::Value>(text).ok().map(json_from_value)
}

/// What `serde_json` reads from a byte text: the value, or the text of the
/// error that `serde_json` reports when the bytes are no JSON document.
pub uninterp spec fn json_document_bytes(bytes: Seq<u8>) -> Result<Json, Seq<char>>;

/// Parses `bytes` with `serde_json::from_slice` into a `serde_json::Value` and
/// carries the result over into [`Json`], or the error into its text
/// (`to_string`). The contract claims only that the result depends on the
/// bytes alone.
#[verifier::external_body]
pub(crate) fn parse_json_bytes(bytes: &[u8]) -> (r: Result<Json, String>)
    ensures
        match json_document_bytes(bytes@) {
            Ok(j) => r matches Ok(v) && v == j,
            Err(e) => r matches Err(t) && t@ == e,
        },
{
    serde_json::from_slice::<serde_json::Value>(bytes).map(json_from_value).map_err(|e| e.to_string())
}

/// Writes `value` with `serde_json::to_string` after carrying it over into a
/// `serde_json::Value`. The contract claims only that the text depends on the
/// value alone.
#[verifier::external_body]
pub(crate) fn write_json(value: &Json) -> (r: String)
    ensures
        r@ == json_text(*value),
{
    serde_json::to_string(&value_from_json(value)).unwrap_or_default()
}

/// Carries a `serde_json::Value` over into [`Json`], variant for variant.
#[verifier::external_body]
fn json_from_value(value: serde_json::Value) -> Json {
    match value {
        serde_json::Value::Null => Json::Null,
        serde_json::Value::Bool(b) => Json::Bool(b),
        serde_json::Value::Number(n) => Json::Number(n.to_string()),
        serde_json::Value::String(s) => Json::Str(s),
        serde_json::Value::Array(items) => Json::Array(items.into_iter().map(json_from_value).collect()),
        serde_json::Value::Object(map) => Json::Object(
            map.into_iter().map(|(k, v)| (k, json_from_value(v))).collect(),
        ),
    }
}

/// Carries a [`Json`] over into a `serde_json::Value`, variant for variant.
#[verifier::external_body]
fn value_from_json(value: &Json) -> serde_json::Value {
    match value {
        Json::Null => serde_json::Value::Null,
        Json::Bool(b) => serde_json::Value::Bool(*b),
        Json::Number(n) => n.parse::<serde_json::Number>().map(serde_json::Value::Number).unwrap_or(serde_json::Value::Null),
        Json::Str(s) => serde_json::Value::String(s.clone()),
        Json::Array(items) => serde_json::Value::Array(items.iter().map(value_from_json).collect()),
        Json::Object(entries) => serde_json::Value::Object(
            entries.iter().map(|(k, v)| (k.clone(), value_from_json(v))).collect(),
        ),
    }
}

} // verus!
