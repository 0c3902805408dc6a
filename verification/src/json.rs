//! What the library takes from `serde_json`: the type of a parsed JSON value,
//! which is carried through unread, the parser that makes one from text, and
//! the JSON object as which a document is handed to a template.
//!
//! The contracts of the functions marked `external_body` are taken on trust:
//! each says what the source of `serde_json` shows of the call it makes.

use vstd::prelude::*;

verus! {

/// A parsed JSON value. The library never looks inside one.
#[verifier::external_type_specification]
#[verifier::external_body]
pub struct ExJsonValue(serde_json::Value);

/// The error with which `serde_json` refuses a text.
#[verifier::external_type_specification]
#[verifier::external_body]
pub struct ExJsonError(serde_json::Error);

/// The value that `serde_json::from_str` reads from `text`, or `None` where it
/// refuses the text. The parser looks at nothing but the text.
pub uninterp spec fn parsed_json(text: Seq<char>) -> Option<serde_json::Value>;

/// Calls `serde_json::from_str` for a `serde_json::Value`. The parser is a
/// function of the text alone and gives up on input nested deeper than its
/// fixed limit instead of overflowing the stack; the contract names its result.
#[verifier::external_body]
pub(crate) fn parse_json_text(text: &str) -> (parsed: Result<serde_json::Value, serde_json::Error>)
    ensures
        parsed is Ok <==> parsed_json(text@) is Some,
        parsed matches Ok(value) ==> parsed_json(text@) == Some(value),
{
    serde_json::from_str::<serde_json::Value>(text)
}

/// Reads `text` as JSON: the parsed value, or `None` for a text that is not
/// valid JSON.
pub fn parse_json(text: &str) -> (parsed: Option<serde_json::Value>)
    ensures
        parsed == parsed_json(text@),
{
    match parse_json_text(text) {
        Ok(value) => Some(value),
        Err(_) => None,
    }
}

/// A JSON object of `serde_json`: a map from strings to values.
#[verifier::external_type_specification]
#[verifier::external_body]
#[verifier::reject_recursive_types(K)]
#[verifier::reject_recursive_types(V)]
pub struct ExJsonMap<K, V>(serde_json::Map<K, V>);

/// What a `serde_json::Map` holds: the value under each of its keys.
pub uninterp spec fn json_map_entries(object: serde_json::Map<String, serde_json::Value>) -> Map<
    Seq<char>,
    serde_json::Value,
>;

/// The entries of a JSON object that has none.
pub open spec fn no_entries() -> Map<Seq<char>, serde_json::Value> {
    Map::empty()
}

/// The JSON string that holds `text`: the value `serde_json::Value::String`
/// of it.
pub uninterp spec fn json_string(text: Seq<char>) -> serde_json::Value;

/// The JSON object that holds `entries`: the value `serde_json::Value::Object`
/// of the map with those entries.
pub uninterp spec fn json_object(entries: Map<Seq<char>, serde_json::Value>) -> serde_json::Value;

/// Calls `serde_json::Map::new`, which makes a map without entries.
#[verifier::external_body]
pub(crate) fn json_map_new() -> (object: serde_json::Map<String, serde_json::Value>)
    ensures
        json_map_entries(object) == no_entries(),
{
    serde_json::Map::new()
}

/// Calls `serde_json::Map::insert`, which puts the value under the key and
/// takes the place of a value that stood there; no other entry changes.
#[verifier::external_body]
pub(crate) fn json_map_insert(
    object: &mut serde_json::Map<String, serde_json::Value>,
    key: String,
    value: serde_json::Value,
)
    ensures
        json_map_entries(*final(object)) == json_map_entries(*old(object)).insert(key@, value),
{
    object.insert(key, value);
}

/// Wraps a string in `serde_json::Value::String`.
#[verifier::external_body]
pub(crate) fn json_from_string(text: String) -> (json: serde_json::Value)
    ensures
        json == json_string(text@),
{
    serde_json::Value::String(text)
}

/// Wraps a map in `serde_json::Value::Object`.
#[verifier::external_body]
pub(crate) fn json_from_map(object: serde_json::Map<String, serde_json::Value>) -> (json:
    serde_json::Value)
    ensures
        json == json_object(json_map_entries(object)),
{
    serde_json::Value::Object(object)
}

} // verus!
