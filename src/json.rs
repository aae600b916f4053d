//! What the library takes from `serde_json`: reading text into a
//! `StructuredValue`, and writing one back out as text.
use crate::value::{well_formed, StructuredValue};
use vstd::prelude::*;

verus! {

/// A JSON number as `serde_json` holds it; the library carries it through unchanged.
#[verifier::external_type_specification]
#[verifier::external_body]
pub struct ExNumber(serde_json::Number);

/// A parsed JSON document as `serde_json` holds it.
#[verifier::external_type_specification]
#[verifier::external_body]
pub struct ExValue(serde_json::Value);

/// What reading the text `s` as JSON gives: the tree, or the parser's diagnostic.
pub uninterp spec fn parsed_tree(s: Seq<char>) -> Result<StructuredValue, Seq<char>>;

/// The compact JSON text of a tree.
pub uninterp spec fn rendered_text(v: StructuredValue) -> Seq<char>;

/// Relies on the variants of `serde_json::Value`, one for one, to copy a
/// parsed document into a `StructuredValue`.
#[verifier::external_body]
fn tree_of(v: &serde_json::Value) -> StructuredValue {
    match v {
        serde_json::Value::Null => StructuredValue::Null,
        serde_json::Value::Bool(b) => StructuredValue::Bool(*b),
        serde_json::Value::Number(n) => StructuredValue::Number(n.clone()),
        serde_json::Value::String(s) => StructuredValue::Str(s.clone()),
        serde_json::Value::Array(a) => StructuredValue::Sequence(a.iter().map(tree_of).collect()),
        serde_json::Value::Object(m) => StructuredValue::Mapping(
            m.iter().map(|(k, x)| (k.clone(), tree_of(x))).collect(),
        ),
    }
}

/// Relies on the variants of `serde_json::Value`, one for one, to copy a
/// `StructuredValue` into a document that `serde_json` can write.
#[verifier::external_body]
fn document_of(v: &StructuredValue) -> serde_json::Value {
    match v {
        StructuredValue::Null => serde_json::Value::Null,
        StructuredValue::Bool(b) => serde_json::Value::Bool(*b),
        StructuredValue::Number(n) => serde_json::Value::Number(n.clone()),
        StructuredValue::Str(s) => serde_json::Value::String(s.clone()),
        StructuredValue::Sequence(a) => serde_json::Value::Array(a.iter().map(document_of).collect()),
        StructuredValue::Mapping(m) => serde_json::Value::Object(
            m.iter().map(|(k, x)| (k.clone(), document_of(x))).collect(),
        ),
    }
}

/// Relies on `serde_json::from_str` into a `serde_json::Value`, and on the
/// `Display` of its error: both depend on the text alone. The keys of a
/// `serde_json::Map` are unique.
#[verifier::external_body]
pub(crate) fn parse_tree(s: &str) -> (r: Result<StructuredValue, String>)
    ensures
        match r {
            Ok(t) => parsed_tree(s@) == Ok::<StructuredValue, Seq<char>>(t) && well_formed(t),
            Err(d) => parsed_tree(s@) == Err::<StructuredValue, Seq<char>>(d@),
        },
{
    match serde_json::from_str::<serde_json::Value>(s) {
        Ok(v) => Ok(tree_of(&v)),
        Err(e) => Err(e.to_string()),
    }
}

/// Relies on the compact `Display` of a `serde_json::Value`, which depends on
/// the value alone.
#[verifier::external_body]
pub(crate) fn render(v: &StructuredValue) -> (r: String)
    ensures
        r@ == rendered_text(*v),
{
    document_of(v).to_string()
}

} // verus!
