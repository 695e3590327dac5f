//! The JSON documents of `serde_json`, as far as the cache needs them.
//!
//! Nothing in this file is proved. Each item states, of one function or type
//! of `serde_json`, what the rest of the library relies on.

use vstd::prelude::*;

verus! {

/// A JSON value as mathematics: the meaning of a `serde_json::Value`.
///
/// Numbers keep the three forms in which `serde_json` stores them: an
/// unsigned integer, a negative integer, or a finite floating-point number,
/// the last one held here by the bits of its IEEE 754 encoding.
pub enum Document {
    Null,
    Bool(bool),
    Unsigned(u64),
    Negative(i64),
    Real(u64),
    Text(Seq<char>),
    Array(Seq<Document>),
    Object(Map<Seq<char>, Document>),
}

/// `serde_json::Value`, opaque to the verifier.
#[verifier::external_type_specification]
#[verifier::external_body]
pub struct ExValue(serde_json::Value);

/// `serde_json::Map`, the key-ordered map behind a JSON object.
#[verifier::external_type_specification]
#[verifier::external_body]
#[verifier::reject_recursive_types(K)]
#[verifier::reject_recursive_types(V)]
pub struct ExMap<K, V>(serde_json::Map<K, V>);

/// `serde_json::Error`, carried through and never inspected.
#[verifier::external_type_specification]
#[verifier::external_body]
pub struct ExError(serde_json::Error);

/// The JSON value that a `serde_json::Value` holds.
pub uninterp spec fn document_of(value: serde_json::Value) -> Document;

/// The entries that a `serde_json::Map` holds, each value by its meaning.
pub uninterp spec fn entries_of(map: serde_json::Map<String, serde_json::Value>) -> Map<
    Seq<char>,
    Document,
>;

/// What `serde_json::from_str` reads from a text: the document, or `None`
/// where it reports an error.
pub uninterp spec fn parsed_document(text: Seq<char>) -> Option<Document>;

/// What `serde_json::to_string_pretty` writes for a document, or `None` where
/// it reports an error.
pub uninterp spec fn pretty_text(document: Document) -> Option<Seq<char>>;

/// The entries of an object without members.
pub open spec fn no_entries() -> Map<Seq<char>, Document> {
    Map::empty()
}

/// The meanings of a list of values, in order.
pub open spec fn documents_of(values: Seq<serde_json::Value>) -> Seq<Document> {
    Seq::new(values.len(), |i: int| document_of(values[i]))
}

/// `serde_json::from_str::<Value>`: the value read from `text`. The result
/// depends on the text alone, so it is `parsed_document(text)`.
#[verifier::external_body]
pub(crate) fn parse_document(text: &str) -> (r: Result<serde_json::Value, serde_json::Error>)
    ensures
        match r {
            Ok(value) => parsed_document(text@) == Some(document_of(value)),
            Err(_) => parsed_document(text@) is None,
        },
{
    serde_json::from_str::<serde_json::Value>(text)
}

/// `serde_json::to_string_pretty` on a `Value`: the indented text. The result
/// depends on the value alone, so it is `pretty_text` of its meaning.
#[verifier::external_body]
pub(crate) fn print_document(value: &serde_json::Value) -> (r: Result<String, serde_json::Error>)
    ensures
        match r {
            Ok(text) => pretty_text(document_of(*value)) == Some(text@),
            Err(_) => pretty_text(document_of(*value)) is None,
        },
{
    serde_json::to_string_pretty(value)
}

/// `Value::as_array`: the elements of an array, `None` for any other value.
pub assume_specification[ serde_json::Value::as_array ](value: &serde_json::Value) -> (r: Option<&Vec<serde_json::Value>>)
    ensures
        match r {
            Some(items) => document_of(*value) == Document::Array(documents_of(items@)),
            None => !(document_of(*value) is Array),
        },
;

/// `Value::as_str`: the text of a string, `None` for any other value.
pub assume_specification[ serde_json::Value::as_str ](value: &serde_json::Value) -> (r: Option<&str>)
    ensures
        match r {
            Some(text) => document_of(*value) == Document::Text(text@),
            None => !(document_of(*value) is Text),
        },
;

/// `Value::as_u64`: the number where the value is an unsigned integer,
/// `None` for a negative or floating-point number and for any other value.
pub assume_specification[ serde_json::Value::as_u64 ](value: &serde_json::Value) -> (r: Option<u64>)
    ensures
        match r {
            Some(n) => document_of(*value) == Document::Unsigned(n),
            None => !(document_of(*value) is Unsigned),
        },
;

/// `Value::get` with a string index: the member of an object under `key`,
/// `None` where the value is no object or has no such member.
#[verifier::external_body]
pub(crate) fn member<'a>(value: &'a serde_json::Value, key: &str) -> (r: Option<&'a serde_json::Value>)
    ensures
        match r {
            Some(found) => document_of(*value) matches Document::Object(entries)
                && entries.contains_key(key@) && entries[key@] == document_of(*found),
            None => !(document_of(*value) matches Document::Object(entries)
                && entries.contains_key(key@)),
        },
{
    value.get(key)
}

/// `Value::from(u64)`: the JSON number `n`.
#[verifier::external_body]
pub(crate) fn number_value(n: u64) -> (r: serde_json::Value)
    ensures
        document_of(r) == Document::Unsigned(n),
{
    serde_json::Value::from(n)
}

/// `Value::String`: the JSON string with the characters of `text`.
#[verifier::external_body]
pub(crate) fn text_value(text: String) -> (r: serde_json::Value)
    ensures
        document_of(r) == Document::Text(text@),
{
    serde_json::Value::String(text)
}

/// `Value::Array`: the JSON array of `items`, in their order.
#[verifier::external_body]
pub(crate) fn array_value(items: Vec<serde_json::Value>) -> (r: serde_json::Value)
    ensures
        document_of(r) == Document::Array(documents_of(items@)),
{
    serde_json::Value::Array(items)
}

/// `Value::Object`: the JSON object with the entries of `map`.
#[verifier::external_body]
pub(crate) fn object_value(map: serde_json::Map<String, serde_json::Value>) -> (r: serde_json::Value)
    ensures
        document_of(r) == Document::Object(entries_of(map)),
{
    serde_json::Value::Object(map)
}

/// `Map::new`: a map without entries.
#[verifier::external_body]
pub(crate) fn empty_map() -> (r: serde_json::Map<String, serde_json::Value>)
    ensures
        entries_of(r) == no_entries(),
{
    serde_json::Map::new()
}

/// `Map::insert`: `value` now stands under `key`, in place of an earlier
/// value under that key if there was one; the other entries stay.
#[verifier::external_body]
pub(crate) fn put(
    map: &mut serde_json::Map<String, serde_json::Value>,
    key: String,
    value: serde_json::Value,
)
    ensures
        entries_of(*final(map)) == entries_of(*old(map)).insert(key@, document_of(value)),
{
    map.insert(key, value);
}

} // verus!
