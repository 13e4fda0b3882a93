//! JSON, as far as the store and the cursor need it: maps from text to text,
//! string literals, and string members of an object. `serde_json` does the
//! reading and the writing.

use std::collections::BTreeMap;
use vstd::prelude::*;

verus! {

/// What `serde_json::from_str` makes of a text when asked for a map from text
/// to text: the map, or the text of its error.
pub uninterp spec fn json_to_text_map(text: Seq<char>) -> Result<
    Map<Seq<char>, Seq<char>>,
    Seq<char>,
>;

/// What `serde_json::to_string` writes for a map from text to text, or the
/// text of its error.
pub uninterp spec fn text_map_to_json(map: Map<Seq<char>, Seq<char>>) -> Result<
    Seq<char>,
    Seq<char>,
>;

/// The JSON string literal that `serde_json::to_string` writes for a text,
/// quoted and escaped, or the text of its error.
pub uninterp spec fn json_string_literal(text: Seq<char>) -> Result<Seq<char>, Seq<char>>;

/// The string that `serde_json` finds under `key` in the JSON object `doc`;
/// `None` where `doc` is not JSON, not an object, or has no string there.
pub uninterp spec fn json_string_member(doc: Seq<u8>, key: Seq<char>) -> Option<Seq<char>>;

/// Parses a JSON object of strings with `serde_json::from_str`. The error
/// comes back as the text it displays.
#[verifier::external_body]
pub(crate) fn read_text_map(text: &str) -> (r: Result<BTreeMap<String, String>, String>)
    ensures
        match r {
            Ok(m) => json_to_text_map(text@) == Ok::<Map<Seq<char>, Seq<char>>, Seq<char>>(
                m.deep_view(),
            ),
            Err(e) => json_to_text_map(text@) == Err::<Map<Seq<char>, Seq<char>>, Seq<char>>(e@),
        },
{
    match serde_json::from_str::<BTreeMap<String, String>>(text) {
        Ok(map) => Ok(map),
        Err(err) => Err(err.to_string()),
    }
}

/// Writes a map of strings as a JSON object with `serde_json::to_string`. The
/// error comes back as the text it displays.
#[verifier::external_body]
pub(crate) fn write_text_map(map: &BTreeMap<String, String>) -> (r: Result<String, String>)
    ensures
        match r {
            Ok(s) => text_map_to_json(map.deep_view()) == Ok::<Seq<char>, Seq<char>>(s@),
            Err(e) => text_map_to_json(map.deep_view()) == Err::<Seq<char>, Seq<char>>(e@),
        },
{
    match serde_json::to_string(map) {
        Ok(text) => Ok(text),
        Err(err) => Err(err.to_string()),
    }
}

/// Writes a text as a JSON string literal with `serde_json::to_string`. The
/// error comes back as the text it displays.
#[verifier::external_body]
pub(crate) fn write_json_string(text: &str) -> (r: Result<String, String>)
    ensures
        match r {
            Ok(s) => json_string_literal(text@) == Ok::<Seq<char>, Seq<char>>(s@),
            Err(e) => json_string_literal(text@) == Err::<Seq<char>, Seq<char>>(e@),
        },
{
    match serde_json::to_string(text) {
        Ok(literal) => Ok(literal),
        Err(err) => Err(err.to_string()),
    }
}

/// Parses `doc` with `serde_json::from_slice` into a `serde_json::Value` and
/// hands back the string found under `key` by `Value::get` and
/// `Value::as_str`, if the document is an object that has one.
#[verifier::external_body]
pub(crate) fn read_json_string_member(doc: &[u8], key: &str) -> (r: Option<String>)
    ensures
        r.deep_view() == json_string_member(doc@, key@),
{
    match serde_json::from_slice::<serde_json::Value>(doc) {
        Ok(value) => match value.get(key) {
            Some(member) => member.as_str().map(String::from),
            None => None,
        },
        Err(_) => None,
    }
}

} // verus!
