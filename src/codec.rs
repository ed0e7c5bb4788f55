use vstd::prelude::*;
use crate::json::{Json, JsonV};
use crate::merge::well_formed;
use crate::resolve::ProfileError;

verus! {

/// The document that serde_json reads from a text, if it accepts the text.
pub uninterp spec fn parsed_of(text: Seq<char>) -> Option<JsonV>;

/// The indented JSON text that serde_json writes for a document, if every
/// number text in it is one that serde_json reads as a number.
pub uninterp spec fn pretty_of(doc: JsonV) -> Option<Seq<char>>;

/// serde_json's document value, carried through the conversions below.
#[verifier::external_type_specification]
#[verifier::external_body]
pub struct ExValue(serde_json::Value);

/// serde_json's error, carried through the conversions below.
#[verifier::external_type_specification]
#[verifier::external_body]
pub struct ExError(serde_json::Error);

/// Moves a serde_json value into a `Json`, variant by variant.
#[verifier::external_body]
fn from_value(v: serde_json::Value) -> Json {
    match v {
        serde_json::Value::Null => Json::Null,
        serde_json::Value::Bool(b) => Json::Bool(b),
        serde_json::Value::Number(n) => Json::Number(n.to_string()),
        serde_json::Value::String(s) => Json::Str(s),
        serde_json::Value::Array(a) => Json::Array(a.into_iter().map(from_value).collect()),
        serde_json::Value::Object(m) => Json::Object(m.into_iter().map(|(k, x)| (k, from_value(x))).collect()),
    }
}

/// Moves a `Json` into a serde_json value; fails where a number's text is not a JSON number.
#[verifier::external_body]
fn to_value(j: &Json) -> Result<serde_json::Value, serde_json::Error> {
    Ok(match j {
        Json::Null => serde_json::Value::Null,
        Json::Bool(b) => serde_json::Value::Bool(*b),
        Json::Number(n) => serde_json::Value::Number(n.parse()?),
        Json::Str(s) => serde_json::Value::String(s.clone()),
        Json::Array(a) => serde_json::Value::Array(a.iter().map(to_value).collect::<Result<_, _>>()?),
        Json::Object(es) => serde_json::Value::Object(
            es.iter().map(|(k, v)| Ok((k.clone(), to_value(v)?))).collect::<Result<_, serde_json::Error>>()?,
        ),
    })
}

/// Relies on serde_json::from_str::<Value>: its result depends on the text
/// alone, and every object it reads, at any depth, is a `Map` (a `BTreeMap`
/// without the `preserve_order` feature), so each object's keys are distinct.
#[verifier::external_body]
fn parse_text(text: &String) -> (r: Result<Json, String>)
    ensures
        r is Ok <==> parsed_of(text@) is Some,
        r is Ok ==> r->Ok_0@ == parsed_of(text@)->Some_0,
        r is Ok ==> well_formed(r->Ok_0@),
{
    serde_json::from_str::<serde_json::Value>(text).map(from_value).map_err(|e| e.to_string())
}

/// Relies on serde_json::to_string_pretty and on `FromStr` for serde_json's
/// `Number`: the outcome depends on the document alone.
#[verifier::external_body]
fn pretty_text(doc: &Json) -> (r: Result<String, String>)
    ensures
        r is Ok <==> pretty_of(doc@) is Some,
        r is Ok ==> r->Ok_0@ == pretty_of(doc@)->Some_0,
{
    to_value(doc).and_then(|v| serde_json::to_string_pretty(&v)).map_err(|e| e.to_string())
}

} // verus!

verus! {

/// Reads the text of the profile file at `path` as a document.
pub fn parse_document(path: &String, text: &String) -> (r: Result<Json, ProfileError>)
    ensures
        r is Ok <==> parsed_of(text@) is Some,
        r is Ok ==> r->Ok_0@ == parsed_of(text@)->Some_0,
        r is Ok ==> well_formed(r->Ok_0@),
        r is Err ==> (r->Err_0 matches ProfileError::Parse { path: p, .. } && p@ == path@),
{
    match parse_text(text) {
        Ok(doc) => Ok(doc),
        Err(message) => Err(ProfileError::Parse { path: path.clone(), message }),
    }
}

/// Writes a document as indented JSON text.
pub fn render_document(doc: &Json) -> (r: Result<String, String>)
    ensures
        r is Ok <==> pretty_of(doc@) is Some,
        r is Ok ==> r->Ok_0@ == pretty_of(doc@)->Some_0,
{
    pretty_text(doc)
}

} // verus!
