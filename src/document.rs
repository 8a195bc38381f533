//! A JSON line as the matcher sees it: whether it is an object, and for each
//! top-level field its key, whether its value is composite (array or object),
//! and the compact JSON text of that value.
use vstd::prelude::*;

verus! {

/// A top-level field of a JSON object.
#[derive(Debug)]
pub struct Field {
    pub key: String,
    /// The value is an array or an object.
    pub composite: bool,
    /// The compact JSON rendering of the value (a string keeps its quotes).
    pub text: String,
}

/// The top-level shape of one parsed JSON line.
#[derive(Debug)]
pub struct Document {
    /// The value is a JSON object.
    pub object: bool,
    /// The object's fields; empty when the value is not an object.
    pub fields: Vec<Field>,
}

/// Model of a field: key, composite flag, rendering.
pub type FieldModel = (Seq<char>, bool, Seq<char>);

/// Model of a document: object flag and its fields in order.
pub type DocumentModel = (bool, Seq<FieldModel>);

impl View for Field {
    type V = FieldModel;

    open spec fn view(&self) -> FieldModel {
        (self.key@, self.composite, self.text@)
    }
}

impl View for Document {
    type V = DocumentModel;

    open spec fn view(&self) -> DocumentModel {
        (self.object, self.fields@.map_values(|f: Field| f@))
    }
}

/// The top-level shape of the JSON text `line`, or `None` when `line` is not
/// well-formed JSON.
pub uninterp spec fn json_top_level(line: Seq<char>) -> Option<DocumentModel>;

/// Relies on `serde_json::from_str::<serde_json::Value>` to parse `line`
/// (failing exactly on malformed JSON), and on the `Display` impl of
/// `serde_json::Value` for the compact rendering of each field's value.
#[verifier::external_body]
pub(crate) fn parse_document(line: &str) -> (r: Option<Document>)
    ensures
        r.is_some() == json_top_level(line@).is_some(),
        r matches Some(d) ==> json_top_level(line@) == Some(d@),
{
    match serde_json::from_str::<serde_json::Value>(line) {
        Ok(serde_json::Value::Object(m)) => Some(Document {
            object: true,
            fields: m.iter().map(|(k, v)| Field {
                key: k.clone(),
                composite: v.is_array() || v.is_object(),
                text: v.to_string(),
            }).collect(),
        }),
        Ok(_) => Some(Document { object: false, fields: Vec::new() }),
        Err(_) => None,
    }
}

} // verus!
