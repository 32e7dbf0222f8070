use crate::json::{entries_model, items_model, lemma_array_view, lemma_object_view, Json, JsonValue};
use vstd::prelude::*;

verus! {

/// The documents of `serde_json`, declared so that they can be handed on;
/// nothing of what is inside one is known but through the functions below.
#[verifier::external_type_specification]
#[verifier::external_body]
pub struct ExValue(serde_json::Value);

/// The document that `serde_json` reads from a text, or `None` where it
/// refuses the text.
pub uninterp spec fn parsed_value(text: Seq<char>) -> Option<serde_json::Value>;

/// A document of `serde_json` as a JSON value of this library: strings and
/// keys as their UTF-8 bytes, a number as the bytes of its decimal text, the
/// entries of an object in the order in which the document walks them.
pub uninterp spec fn value_json(value: serde_json::Value) -> Json;

/// Reads a text as one JSON document.
///
/// Trusted: calls `serde_json::from_str`. Claims only that the outcome is a
/// function of the text.
#[verifier::external_body]
fn value_from_text(text: &str) -> (r: Option<serde_json::Value>)
    ensures
        r == parsed_value(text@),
{
    serde_json::from_str::<serde_json::Value>(text).ok()
}

/// Whether a document is `null`.
///
/// Trusted: calls `serde_json::Value::is_null`, which tells the variant
/// `Null` from the others.
#[verifier::external_body]
fn value_is_null(value: &serde_json::Value) -> (r: bool)
    ensures
        r == (value_json(*value) is Null),
{
    value.is_null()
}

/// The boolean that a document is, if it is one.
///
/// Trusted: calls `serde_json::Value::as_bool`, which hands out what the
/// variant `Bool` holds.
#[verifier::external_body]
fn value_bool(value: &serde_json::Value) -> (r: Option<bool>)
    ensures
        match r {
            Some(b) => value_json(*value) == Json::Bool(b),
            None => !(value_json(*value) is Bool),
        },
{
    value.as_bool()
}

/// The decimal text of the number that a document is, if it is one.
///
/// Trusted: calls `serde_json::Value::as_number`, which hands out what the
/// variant `Number` holds, and `Number::to_string`. Claims only that the text
/// is what the model of the document holds.
#[verifier::external_body]
fn value_number(value: &serde_json::Value) -> (r: Option<Vec<u8>>)
    ensures
        match r {
            Some(t) => value_json(*value) == Json::Number(t@),
            None => !(value_json(*value) is Number),
        },
{
    value.as_number().map(|n| n.to_string().into_bytes())
}

/// The UTF-8 bytes of the string that a document is, if it is one.
///
/// Trusted: calls `serde_json::Value::as_str`, which hands out what the
/// variant `String` holds.
#[verifier::external_body]
fn value_string(value: &serde_json::Value) -> (r: Option<Vec<u8>>)
    ensures
        match r {
            Some(s) => value_json(*value) == Json::Str(s@),
            None => !(value_json(*value) is Str),
        },
{
    value.as_str().map(|s| s.as_bytes().to_vec())
}

/// The items of the array that a document is, if it is one.
///
/// Trusted: calls `serde_json::Value::as_array`, which hands out what the
/// variant `Array` holds.
#[verifier::external_body]
fn value_items(value: &serde_json::Value) -> (r: Option<&Vec<serde_json::Value>>)
    ensures
        match r {
            Some(items) => value_json(*value) == Json::Array(
                Seq::new(items@.len(), |i: int| value_json(items@[i])),
            ),
            None => !(value_json(*value) is Array),
        },
{
    value.as_array()
}

/// The entries of the object that a document is, if it is one: each key as
/// its UTF-8 bytes, with its value, in the order in which the map walks them.
///
/// Trusted: calls `serde_json::Value::as_object`, which hands out what the
/// variant `Object` holds, and `Map::iter`.
#[verifier::external_body]
fn value_entries(value: &serde_json::Value) -> (r: Option<Vec<(Vec<u8>, &serde_json::Value)>>)
    ensures
        match r {
            Some(entries) => value_json(*value) == Json::Object(
                Seq::new(entries@.len(), |i: int| (entries@[i].0@, value_json(*entries@[i].1))),
            ),
            None => !(value_json(*value) is Object),
        },
{
    value.as_object().map(|o| o.iter().map(|(k, v)| (k.as_bytes().to_vec(), v)).collect())
}

/// Copies a document of `serde_json` into a JSON value of this library.
pub fn json_from_value(value: &serde_json::Value) -> (r: JsonValue)
    ensures
        r@ == value_json(*value),
    decreases value_json(*value),
{
    if value_is_null(value) {
        return JsonValue::Null;
    }
    if let Some(b) = value_bool(value) {
        return JsonValue::Bool(b);
    }
    if let Some(t) = value_number(value) {
        return JsonValue::Number(t);
    }
    if let Some(s) = value_string(value) {
        return JsonValue::Str(s);
    }
    if let Some(items) = value_items(value) {
        let ghost models = Seq::new(items@.len(), |i: int| value_json(items@[i]));
        let mut out: Vec<JsonValue> = Vec::new();
        let mut i: usize = 0;
        while i < items.len()
            invariant
                i <= items.len(),
                models == Seq::new(items@.len(), |k: int| value_json(items@[k])),
                value_json(*value) == Json::Array(models),
                out@.len() == i,
                forall|k: int| 0 <= k < i ==> (#[trigger] out@[k])@ == models[k],
            decreases items.len() - i,
        {
            assert(models[i as int] == value_json(items@[i as int]));
            assert(decreases_to!(value_json(*value) => value_json(*value)->Array_0));
            assert(decreases_to!(value_json(*value)->Array_0 => value_json(*value)->Array_0[i as int]));
            out.push(json_from_value(&items[i]));
            i += 1;
        }
        proof {
            lemma_array_view(out);
            assert(items_model(out@) =~= models);
        }
        return JsonValue::Array(out);
    }
    match value_entries(value) {
        Some(entries) => {
            let ghost models = Seq::new(entries@.len(), |i: int| (entries@[i].0@, value_json(*entries@[i].1)));
            let mut out: Vec<(Vec<u8>, JsonValue)> = Vec::new();
            let mut i: usize = 0;
            while i < entries.len()
                invariant
                    i <= entries.len(),
                    models == Seq::new(entries@.len(), |k: int| (entries@[k].0@, value_json(*entries@[k].1))),
                    value_json(*value) == Json::Object(models),
                    out@.len() == i,
                    forall|k: int| 0 <= k < i ==> (#[trigger] out@[k]).0@ == models[k].0 && out@[k].1@ == models[k].1,
                decreases entries.len() - i,
            {
                assert(models[i as int] == (entries@[i as int].0@, value_json(*entries@[i as int].1)));
                assert(decreases_to!(value_json(*value) => value_json(*value)->Object_0));
                assert(decreases_to!(value_json(*value)->Object_0 => value_json(*value)->Object_0[i as int]));
                assert(decreases_to!(value_json(*value)->Object_0[i as int] => value_json(*value)->Object_0[i as int].1));
                let key = vstd::slice::slice_to_vec(entries[i].0.as_slice());
                out.push((key, json_from_value(entries[i].1)));
                i += 1;
            }
            proof {
                lemma_object_view(out);
                assert(entries_model(out@) =~= models);
            }
            JsonValue::Object(out)
        },
        None => JsonValue::Null,
    }
}

/// The JSON value that a text writes, or `None` where it is no JSON document.
pub open spec fn parsed_json(text: Seq<char>) -> Option<Json> {
    match parsed_value(text) {
        Some(value) => Some(value_json(value)),
        None => None,
    }
}

/// Reads a text as one JSON document.
pub fn parse_json(text: &str) -> (r: Option<JsonValue>)
    ensures
        match r {
            Some(v) => parsed_json(text@) == Some(v@),
            None => parsed_json(text@) is None,
        },
{
    match value_from_text(text) {
        Some(value) => Some(json_from_value(&value)),
        None => None,
    }
}

} // verus!
