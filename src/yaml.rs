use vstd::prelude::*;
use crate::value::{HeaderValue, ValueModel};

verus! {

#[verifier::external_type_specification]
#[verifier::external_body]
pub struct ExYamlValue(serde_yaml::Value);

/// The value tree that serde_yaml decodes from a text, if the text is
/// well-formed YAML.
pub uninterp spec fn yaml_decoded(s: Seq<char>) -> Option<ValueModel>;

/// The YAML text that serde_yaml emits for a value tree, if it can emit it.
pub uninterp spec fn yaml_encoded(v: ValueModel) -> Option<Seq<char>>;

/// Relies on `serde_yaml::from_str::<serde_yaml::Value>`: decodes one YAML
/// document into a value tree.
#[verifier::external_body]
pub fn decode_yaml(s: &str) -> (r: Option<HeaderValue>)
    ensures
        match r {
            Some(v) => yaml_decoded(s@) == Some(v@),
            None => yaml_decoded(s@) is None,
        },
{
    serde_yaml::from_str::<serde_yaml::Value>(s).ok().map(from_yaml)
}

/// Relies on `serde_yaml::to_string`: emits a value tree as a YAML document.
#[verifier::external_body]
pub fn encode_yaml(v: &HeaderValue) -> (r: Option<String>)
    ensures
        match r {
            Some(t) => yaml_encoded(v@) == Some(t@),
            None => yaml_encoded(v@) is None,
        },
{
    serde_yaml::to_string(&to_yaml(v)).ok()
}

/// Converts serde_yaml's value tree into this library's, one variant to one
/// variant; a `!tag` is dropped and its value kept.
#[verifier::external_body]
fn from_yaml(v: serde_yaml::Value) -> HeaderValue {
    match v {
        serde_yaml::Value::Null => HeaderValue::Null,
        serde_yaml::Value::Bool(b) => HeaderValue::Bool(b),
        serde_yaml::Value::Number(n) => HeaderValue::Number(n.to_string()),
        serde_yaml::Value::String(s) => HeaderValue::Str(s),
        serde_yaml::Value::Sequence(items) => HeaderValue::Sequence(items.into_iter().map(from_yaml).collect()),
        serde_yaml::Value::Mapping(m) => HeaderValue::Mapping(m.into_iter().map(|(k, x)| (from_yaml(k), from_yaml(x))).collect()),
        serde_yaml::Value::Tagged(t) => from_yaml(t.value),
    }
}

/// Converts this library's value tree into serde_yaml's, one variant to one
/// variant; a number text that serde_yaml does not read stays a string.
#[verifier::external_body]
fn to_yaml(v: &HeaderValue) -> serde_yaml::Value {
    match v {
        HeaderValue::Null => serde_yaml::Value::Null,
        HeaderValue::Bool(b) => serde_yaml::Value::Bool(*b),
        HeaderValue::Number(n) => match n.parse::<serde_yaml::Number>() {
            Ok(x) => serde_yaml::Value::Number(x),
            Err(_) => serde_yaml::Value::String(n.clone()),
        },
        HeaderValue::Str(s) => serde_yaml::Value::String(s.clone()),
        HeaderValue::Sequence(items) => serde_yaml::Value::Sequence(items.iter().map(to_yaml).collect()),
        HeaderValue::Mapping(m) => serde_yaml::Value::Mapping(m.iter().map(|(k, x)| (to_yaml(k), to_yaml(x))).collect()),
    }
}

} // verus!
