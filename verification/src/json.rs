//! JSON documents (`serde_json`) and what is known of them.

use crate::text::opt_text;
use vstd::prelude::*;
use vstd::string::*;

verus! {

/// A JSON document. A number is known by its value where it is written as an
/// integer that 64 bits hold.
pub ghost enum Json {
    Null,
    Bool(bool),
    Number(Option<int>),
    Text(Seq<char>),
    Array(Seq<Json>),
    Object(Map<Seq<char>, Json>),
}

/// `serde_json::Value`.
#[verifier::external_type_specification]
#[verifier::external_body]
pub struct ExJsonValue(serde_json::Value);

/// The document that a `serde_json::Value` holds.
pub uninterp spec fn json_of(v: serde_json::Value) -> Json;

/// What parsing a text as JSON gives: a document, or the parser's description
/// of what is wrong with it.
pub uninterp spec fn json_parsed(text: Seq<char>) -> Result<Json, Seq<char>>;

/// The documents of a list of values.
pub open spec fn documents(values: Seq<serde_json::Value>) -> Seq<Json> {
    values.map_values(|v: serde_json::Value| json_of(v))
}

impl Json {
    /// The field of an object with this name.
    pub open spec fn field(self, name: Seq<char>) -> Option<Json> {
        match self {
            Json::Object(fields) => if fields.dom().contains(name) {
                Some(fields[name])
            } else {
                None
            },
            _ => None,
        }
    }

    pub open spec fn text(self) -> Option<Seq<char>> {
        match self {
            Json::Text(s) => Some(s),
            _ => None,
        }
    }

    pub open spec fn boolean(self) -> Option<bool> {
        match self {
            Json::Bool(b) => Some(b),
            _ => None,
        }
    }

    /// The number, where it is an integer that a `u64` holds.
    pub open spec fn unsigned(self) -> Option<u64> {
        match self {
            Json::Number(Some(n)) => if 0 <= n <= u64::MAX {
                Some(n as u64)
            } else {
                None
            },
            _ => None,
        }
    }

    /// The number, where it is an integer that an `i64` holds.
    pub open spec fn integer(self) -> Option<i64> {
        match self {
            Json::Number(Some(n)) => if i64::MIN <= n <= i64::MAX {
                Some(n as i64)
            } else {
                None
            },
            _ => None,
        }
    }

    pub open spec fn elements(self) -> Option<Seq<Json>> {
        match self {
            Json::Array(list) => Some(list),
            _ => None,
        }
    }

    /// The text of a field.
    pub open spec fn text_field(self, name: Seq<char>) -> Option<Seq<char>> {
        match self.field(name) {
            Some(value) => value.text(),
            None => None,
        }
    }

    /// The truth value of a field.
    pub open spec fn bool_field(self, name: Seq<char>) -> Option<bool> {
        match self.field(name) {
            Some(value) => value.boolean(),
            None => None,
        }
    }

    /// The number of a field, where a `u64` holds it.
    pub open spec fn unsigned_field(self, name: Seq<char>) -> Option<u64> {
        match self.field(name) {
            Some(value) => value.unsigned(),
            None => None,
        }
    }

    /// The number of a field, where an `i64` holds it.
    pub open spec fn integer_field(self, name: Seq<char>) -> Option<i64> {
        match self.field(name) {
            Some(value) => value.integer(),
            None => None,
        }
    }

    /// The elements of a field.
    pub open spec fn elements_field(self, name: Seq<char>) -> Option<Seq<Json>> {
        match self.field(name) {
            Some(value) => value.elements(),
            None => None,
        }
    }
}

/// Whether no text among the fields of a document is longer than `n`.
pub open spec fn texts_within(document: Json, n: nat) -> bool {
    forall|name: Seq<char>|
        (#[trigger] document.text_field(name)) matches Some(s) ==> s.len() <= n
}

/// Wraps `serde_json::from_str` into a `serde_json::Value`: a function of the
/// text; an error is given by its description. A string of the document is
/// written with at least one character for each of its own.
#[verifier::external_body]
pub(crate) fn parse_json(text: &str) -> (r: Result<serde_json::Value, String>)
    ensures
        match json_parsed(text@) {
            Ok(document) => r matches Ok(v) && json_of(v) == document,
            Err(message) => r matches Err(m) && m@ == message,
        },
        r matches Ok(v) ==> texts_within(json_of(v), text@.len()),
{
    serde_json::from_str::<serde_json::Value>(text).map_err(|e| e.to_string())
}

/// A text as a JSON string, with its quotes.
pub uninterp spec fn json_quoted(text: Seq<char>) -> Seq<char>;

/// The outcome of parsing a JSON string that stands for `text`.
pub open spec fn parses_to(text: Seq<char>) -> Result<Json, Seq<char>> {
    Ok(Json::Text(text))
}

/// Wraps `serde_json::to_string` of a text: a function of the text that never
/// fails, and that parsing undoes.
#[verifier::external_body]
fn quote(text: &str) -> (r: Option<String>)
    ensures
        r is Some,
        r matches Some(q) ==> q@ == json_quoted(text@),
        r matches Some(q) ==> json_parsed(q@) == parses_to(text@),
{
    serde_json::to_string(text).ok()
}

/// A text as a JSON string, with its quotes; parsing gives the text back.
pub fn quote_json(text: &str) -> (r: String)
    ensures
        r@ == json_quoted(text@),
        json_parsed(r@) == parses_to(text@),
{
    match quote(text) {
        Some(q) => q,
        None => String::new(),
    }
}

/// Wraps `serde_json::Value::get` with a text: the field of an object with this
/// name, nothing for any other document.
#[verifier::external_body]
pub(crate) fn get_field<'a>(v: &'a serde_json::Value, name: &str) -> (r: Option<
    &'a serde_json::Value,
>)
    ensures
        match json_of(*v).field(name@) {
            Some(value) => r matches Some(f) && json_of(*f) == value,
            None => r is None,
        },
{
    v.get(name)
}

/// Wraps `serde_json::Value::as_str`.
#[verifier::external_body]
fn as_text(v: &serde_json::Value) -> (r: Option<&str>)
    ensures
        match json_of(*v).text() {
            Some(s) => r matches Some(t) && t@ == s,
            None => r is None,
        },
{
    v.as_str()
}

/// Wraps `serde_json::Value::as_bool`.
#[verifier::external_body]
fn as_boolean(v: &serde_json::Value) -> (r: Option<bool>)
    ensures
        r == json_of(*v).boolean(),
{
    v.as_bool()
}

/// Wraps `serde_json::Value::as_u64`.
#[verifier::external_body]
fn as_unsigned(v: &serde_json::Value) -> (r: Option<u64>)
    ensures
        r == json_of(*v).unsigned(),
{
    v.as_u64()
}

/// Wraps `serde_json::Value::as_i64`.
#[verifier::external_body]
fn as_integer(v: &serde_json::Value) -> (r: Option<i64>)
    ensures
        r == json_of(*v).integer(),
{
    v.as_i64()
}

/// Wraps `serde_json::Value::as_array`.
#[verifier::external_body]
fn as_elements(v: &serde_json::Value) -> (r: Option<&Vec<serde_json::Value>>)
    ensures
        match json_of(*v).elements() {
            Some(list) => r matches Some(values) && documents(values@) == list,
            None => r is None,
        },
{
    v.as_array()
}

/// The text of a field.
pub(crate) fn text_field(v: &serde_json::Value, name: &str) -> (r: Option<String>)
    ensures
        opt_text(r) == json_of(*v).text_field(name@),
{
    match get_field(v, name) {
        Some(f) => match as_text(f) {
            Some(t) => Some(t.to_owned()),
            None => None,
        },
        None => None,
    }
}

/// The truth value of a field.
pub(crate) fn bool_field(v: &serde_json::Value, name: &str) -> (r: Option<bool>)
    ensures
        r == json_of(*v).bool_field(name@),
{
    match get_field(v, name) {
        Some(f) => as_boolean(f),
        None => None,
    }
}

/// The number of a field, where a `u64` holds it.
pub(crate) fn unsigned_field(v: &serde_json::Value, name: &str) -> (r: Option<u64>)
    ensures
        r == json_of(*v).unsigned_field(name@),
{
    match get_field(v, name) {
        Some(f) => as_unsigned(f),
        None => None,
    }
}

/// The number of a field, where an `i64` holds it.
pub(crate) fn integer_field(v: &serde_json::Value, name: &str) -> (r: Option<i64>)
    ensures
        r == json_of(*v).integer_field(name@),
{
    match get_field(v, name) {
        Some(f) => as_integer(f),
        None => None,
    }
}

/// The elements of a field.
pub(crate) fn elements_field<'a>(v: &'a serde_json::Value, name: &str) -> (r: Option<
    &'a Vec<serde_json::Value>,
>)
    ensures
        match json_of(*v).elements_field(name@) {
            Some(list) => r matches Some(values) && documents(values@) == list,
            None => r is None,
        },
{
    match get_field(v, name) {
        Some(f) => as_elements(f),
        None => None,
    }
}

/// Whether a field is there.
pub(crate) fn has_field(v: &serde_json::Value, name: &str) -> (r: bool)
    ensures
        r == (json_of(*v).field(name@) is Some),
{
    get_field(v, name).is_some()
}

} // verus!
