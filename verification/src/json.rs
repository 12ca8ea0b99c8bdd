//! The JSON document model the status-report parser walks, and the trusted
//! parsing call that produces it.
//!
//! `serde_json::from_slice` computes a function of its input bytes alone,
//! so its result is given a name, `spec_json_document`.  The trusted
//! wrapper parses and converts the parsed value, one variant arm each,
//! into the library-owned model below; everything that reads the document
//! is verified against that model.

use vstd::prelude::*;
use crate::text::str_eq;

verus! {

/// A parsed JSON document, as much of it as the library reads: objects
/// keep their entries (each key at most once, in the parser's order),
/// strings and booleans keep their content, and every other value is an
/// opaque leaf.
pub enum JsonValue {
    Object(Vec<(String, JsonValue)>),
    Text(String),
    Bool(bool),
    Other,
}

/// The model of the document `serde_json::from_slice` parses from these
/// bytes, `None` when they are not one valid JSON document.
pub uninterp spec fn spec_json_document(bytes: Seq<u8>) -> Option<JsonValue>;

#[verifier::external_type_specification]
#[verifier::external_body]
pub struct ExValue(serde_json::Value);

/// The recursive converter `parse_document` applies to what
/// `serde_json::from_slice` returned.  Relies on `serde_json::Value` only
/// as a value to convert: one match arm per variant, carrying object
/// entries, string text and booleans over into the model and collapsing
/// the rest into opaque leaves.  It stands as its own function because a
/// recursive conversion cannot be written inline in the wrapper's body.
#[verifier::external_body]
fn convert_document(value: &serde_json::Value) -> JsonValue {
    match value {
        serde_json::Value::Object(entries) => JsonValue::Object(
            entries.iter().map(|(key, value)| (key.clone(), convert_document(value))).collect(),
        ),
        serde_json::Value::String(text) => JsonValue::Text(text.clone()),
        serde_json::Value::Bool(flag) => JsonValue::Bool(*flag),
        serde_json::Value::Number(_) => JsonValue::Other,
        serde_json::Value::Array(_) => JsonValue::Other,
        serde_json::Value::Null => JsonValue::Other,
    }
}

/// Relies on `serde_json::from_slice::<Value>`: parses one JSON document —
/// a function of the bytes alone, named `spec_json_document` — and hands
/// back its converted model, `None` when the bytes are not valid JSON.
#[verifier::external_body]
pub(crate) fn parse_document(bytes: &[u8]) -> (r: Option<JsonValue>)
    ensures
        r == spec_json_document(bytes@),
{
    serde_json::from_slice::<serde_json::Value>(bytes).ok().map(|value| convert_document(&value))
}

/// The value an object holds under a key: the first entry carrying it.
pub open spec fn spec_object_entry(
    entries: Seq<(String, JsonValue)>,
    key: Seq<char>,
) -> Option<JsonValue>
    decreases entries.len(),
{
    if entries.len() == 0 {
        None
    } else if entries[0].0@ == key {
        Some(entries[0].1)
    } else {
        spec_object_entry(entries.skip(1), key)
    }
}

/// Look a key up among an object's entries.
pub fn object_entry<'a>(entries: &'a Vec<(String, JsonValue)>, key: &str) -> (r: Option<
    &'a JsonValue,
>)
    ensures
        match r {
            Some(value) => spec_object_entry(entries@, key@) == Some(*value),
            None => spec_object_entry(entries@, key@) is None,
        },
{
    let n = entries.len();
    let mut i: usize = 0;
    proof {
        assert(entries@.skip(0) =~= entries@);
    }
    while i < n
        invariant
            i <= n,
            n == entries@.len(),
            spec_object_entry(entries@, key@) == spec_object_entry(entries@.skip(i as int), key@),
        decreases n - i,
    {
        proof {
            assert(entries@.skip(i as int)[0] == entries@[i as int]);
        }
        if str_eq(entries[i].0.as_str(), key) {
            return Some(&entries[i].1);
        }
        proof {
            assert(entries@.skip(i as int).skip(1) =~= entries@.skip(i + 1));
        }
        i = i + 1;
    }
    None
}

} // verus!
