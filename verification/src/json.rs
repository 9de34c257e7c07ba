//! Flat JSON objects of strings, booleans and nulls, written with serde_json.
use vstd::prelude::*;

use serde_json::Value;

verus! {

#[verifier::external_type_specification]
#[verifier::external_body]
pub struct ExJsonValue(serde_json::Value);

/// The value of a member of a flat JSON object.
#[derive(Debug, Clone, PartialEq, Eq)]
pub enum JsonScalar {
    Str(String),
    Bool(bool),
    Null,
}

/// A member value as a plain value.
pub enum JsonScalarView {
    Str(Seq<char>),
    Bool(bool),
    Null,
}

impl JsonScalar {
    pub open spec fn view(&self) -> JsonScalarView {
        match self {
            JsonScalar::Str(s) => JsonScalarView::Str(s@),
            JsonScalar::Bool(b) => JsonScalarView::Bool(*b),
            JsonScalar::Null => JsonScalarView::Null,
        }
    }
}

/// The views of the members of an object.
pub open spec fn members_of(v: Seq<(String, JsonScalar)>) -> Seq<(Seq<char>, JsonScalarView)> {
    v.map_values(|p: (String, JsonScalar)| (p.0@, p.1@))
}

/// What `serde_json::to_string_pretty` gives for a JSON object with these
/// members, in key order, a later member replacing an earlier one with the
/// same key.
pub uninterp spec fn pretty_json_object(members: Seq<(Seq<char>, JsonScalarView)>) -> Seq<char>;

/// `Value::String`.
#[verifier::external_body]
fn json_string(s: String) -> Value {
    Value::String(s)
}

/// `Value::Bool`.
#[verifier::external_body]
fn json_bool(b: bool) -> Value {
    Value::Bool(b)
}

/// `Value::Null`.
#[verifier::external_body]
fn json_null() -> Value {
    Value::Null
}

/// The serde_json value of a member value.
fn json_value(v: &JsonScalar) -> Value {
    match v {
        JsonScalar::Str(s) => json_string(crate::text::copy_string(s)),
        JsonScalar::Bool(b) => json_bool(*b),
        JsonScalar::Null => json_null(),
    }
}

/// Renders the members as a pretty-printed JSON object
/// (`serde_json::to_string_pretty` of a `Value::Object`). serde_json fails
/// only on a failing `Serialize` impl or a map key that is not a string; an
/// object of strings, booleans and nulls has neither, so the rendering
/// always succeeds.
#[verifier::external_body]
pub(crate) fn json_object_pretty(members: &Vec<(String, JsonScalar)>) -> (r: Result<String, String>)
    ensures
        r is Ok,
        r matches Ok(s) ==> s@ == pretty_json_object(members_of(members@)),
{
    let map = members.iter().map(|(k, v)| (k.clone(), json_value(v))).collect();
    serde_json::to_string_pretty(&Value::Object(map)).map_err(|e| e.to_string())
}

} // verus!
