use vstd::prelude::*;
use crate::record::{keys, Field, FieldValue, FieldView, Record};

verus! {

/// What `serde_json` decodes a line into when the line is a JSON object: its
/// fields in the order the decoder yields them, each value given as whether it
/// is a JSON string and as its display text.
pub uninterp spec fn json_object_fields(line: Seq<char>) -> Option<Seq<FieldView>>;

/// Relies on `serde_json::from_str` into a `serde_json::Map`, which succeeds
/// exactly when the line is a JSON object and holds each key once, and on the
/// `Display` of `serde_json::Value`, which writes a value as compact JSON.
#[verifier::external_body]
pub(crate) fn parse_object(line: &str) -> (r: Option<Record>)
    ensures
        match r {
            Some(rec) => json_object_fields(line@) == Some(rec@) && keys(rec@).no_duplicates(),
            None => json_object_fields(line@) is None,
        },
{
    let map: serde_json::Map<String, serde_json::Value> = serde_json::from_str(line).ok()?;
    let mut fields: Vec<Field> = Vec::new();
    for (key, value) in map {
        let value = match value {
            serde_json::Value::String(s) => FieldValue::Str(s),
            other => FieldValue::Json(other.to_string()),
        };
        fields.push(Field { key, value });
    }
    Some(Record { fields })
}

} // verus!
