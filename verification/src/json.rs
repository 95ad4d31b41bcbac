//! The library's own JSON tree and the recursive rich-text flattening of
//! the status description. The tree mirrors the parser's document type
//! variant for variant; parsing itself is the one call into the JSON
//! crate, behind a trusted declaration.

use vstd::prelude::*;
use vstd::string::StringExecFns;

verus! {

/// A JSON document as plain values.
pub enum JsonValue {
    Null,
    Bool(bool),
    /// A number with a signed 64-bit integral value.
    Int(i64),
    /// A number that is fractional or beyond the signed 64-bit range.
    /// Its value is not retained: nothing in the status format reads one.
    OtherNum,
    Str(String),
    Arr(Vec<JsonValue>),
    Obj(Vec<(String, JsonValue)>),
}

/// The plain text carried by a rich-text value: a string is itself, an
/// array is its elements' texts in order, an object is its `text` field's
/// text followed by its `extra` field's text, and anything else is empty.
pub open spec fn flatten(v: JsonValue) -> Seq<char>
    decreases v, 0int,
{
    match v {
        JsonValue::Str(s) => s@,
        JsonValue::Arr(items) => flatten_list(items, 0),
        JsonValue::Obj(fields) => flatten_field(fields, 0, "text"@) + flatten_field(
            fields,
            0,
            "extra"@,
        ),
        _ => Seq::empty(),
    }
}

/// The concatenated texts of `items[i..]`.
pub open spec fn flatten_list(items: Vec<JsonValue>, i: int) -> Seq<char>
    decreases items, items.len() - i,
{
    if i < 0 || i >= items.len() {
        Seq::empty()
    } else {
        flatten(items[i]) + flatten_list(items, i + 1)
    }
}

/// The text of the first field at or after `i` whose key is `key`, or
/// empty if there is none.
pub open spec fn flatten_field(fields: Vec<(String, JsonValue)>, i: int, key: Seq<char>) -> Seq<
    char,
>
    decreases fields, fields.len() - i,
{
    if i < 0 || i >= fields.len() {
        Seq::empty()
    } else if fields[i].0@ == key {
        flatten(fields[i].1)
    } else {
        flatten_field(fields, i + 1, key)
    }
}

/// Flattens a rich-text value to plain text.
pub fn extract_text(v: &JsonValue) -> (r: String)
    ensures
        r@ == flatten(*v),
    decreases *v, 0int,
{
    match v {
        JsonValue::Str(s) => s.clone(),
        JsonValue::Arr(items) => extract_list(items, 0),
        JsonValue::Obj(fields) => {
            let key_text: String = "text".to_owned();
            let key_extra: String = "extra".to_owned();
            let t = extract_field(fields, 0, &key_text);
            let e = extract_field(fields, 0, &key_extra);
            t.concat(e.as_str())
        },
        _ => String::new(),
    }
}

/// Flattens and concatenates `items[start..]`.
fn extract_list(items: &Vec<JsonValue>, start: usize) -> (r: String)
    ensures
        r@ == flatten_list(*items, start as int),
    decreases *items, items.len() - start,
{
    if start >= items.len() {
        String::new()
    } else {
        let head = extract_text(&items[start]);
        let tail = extract_list(items, start + 1);
        head.concat(tail.as_str())
    }
}

/// Flattens the first field at or after `start` whose key is `key`.
fn extract_field(fields: &Vec<(String, JsonValue)>, start: usize, key: &String) -> (r: String)
    ensures
        r@ == flatten_field(*fields, start as int, key@),
    decreases *fields, fields.len() - start,
{
    if start >= fields.len() {
        String::new()
    } else if fields[start].0 == *key {
        extract_text(&fields[start].1)
    } else {
        extract_field(fields, start + 1, key)
    }
}

#[verifier::external_type_specification]
#[verifier::external_body]
pub struct ExSerdeValue(serde_json::Value);

/// The library's tree for the document that `text` parses to, or `None`
/// where `text` is not valid JSON. Parsing is a function of the text
/// alone; this name stands for its result.
pub uninterp spec fn spec_parse_json(text: Seq<char>) -> Option<JsonValue>;

/// Relies on serde_json::Value: copies a parsed document into the
/// library's tree, variant for variant, moving values only. Called only
/// from inside `parse_json`.
#[verifier::external_body]
fn value_to_tree(v: &serde_json::Value) -> JsonValue {
    match v {
        serde_json::Value::Null => JsonValue::Null,
        serde_json::Value::Bool(b) => JsonValue::Bool(*b),
        serde_json::Value::Number(n) => match n.as_i64() {
            Some(i) => JsonValue::Int(i),
            None => JsonValue::OtherNum,
        },
        serde_json::Value::String(s) => JsonValue::Str(s.clone()),
        serde_json::Value::Array(a) => JsonValue::Arr(a.iter().map(value_to_tree).collect()),
        serde_json::Value::Object(m) => JsonValue::Obj(
            m.iter().map(|(k, x)| (k.clone(), value_to_tree(x))).collect(),
        ),
    }
}

/// Relies on serde_json::from_str: parses JSON text, succeeding exactly
/// on valid documents; the result depends on the text alone.
#[verifier::external_body]
pub fn parse_json(text: &str) -> (r: Option<JsonValue>)
    ensures
        r == spec_parse_json(text@),
{
    match serde_json::from_str::<serde_json::Value>(text) {
        Ok(v) => Some(value_to_tree(&v)),
        Err(_) => None,
    }
}

} // verus!
