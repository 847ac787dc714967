//! The three source formats: the raw values their parsers produce, and how
//! one level of such a value is read.
use vstd::prelude::*;
use serde_json::Value as Json;
use serde_yaml::Value as Yaml;
use toml::Value as Toml;

verus! {

#[verifier::external_type_specification]
#[verifier::external_body]
pub struct ExJsonValue(serde_json::Value);

#[verifier::external_type_specification]
#[verifier::external_body]
pub struct ExYamlValue(serde_yaml::Value);

#[verifier::external_type_specification]
#[verifier::external_body]
pub struct ExTomlValue(toml::Value);

/// A value as one of the format parsers produced it.
pub enum RawValue {
    Json(serde_json::Value),
    Yaml(serde_yaml::Value),
    /// A YAML stream of several documents, in order.
    YamlStream(Vec<serde_yaml::Value>),
    Toml(toml::Value),
}

/// One level of a raw value: a scalar in plain form, or the children of a
/// container still in raw form.
pub enum Layer {
    Null,
    Bool(bool),
    /// A number in the source format's own notation.
    Number(String),
    Str(String),
    /// A TOML datetime in its literal notation.
    Datetime(String),
    /// A value under a custom YAML tag.
    Tagged,
    Array(Vec<RawValue>),
    /// Fields whose names are text already (JSON, TOML).
    Object(Vec<(String, RawValue)>),
    /// YAML mapping entries, whose keys may be any value.
    Mapping(Vec<(RawValue, RawValue)>),
}

/// The fields of an object layer have pairwise distinct names, as JSON
/// objects and TOML tables keep one entry per key.
pub open spec fn keyed_layer(l: Layer) -> bool {
    l matches Layer::Object(fields) ==> forall|i: int, j: int|
        0 <= i < fields@.len() && 0 <= j < fields@.len() && i != j ==> #[trigger] fields@[i].0@
            != #[trigger] fields@[j].0@
}

/// Whether serde_json accepts `s` as a JSON document.
pub uninterp spec fn json_accepts(s: Seq<char>) -> bool;

/// The number of documents serde_yaml reads from the stream `s`, or `None`
/// when one of them fails to parse.
pub uninterp spec fn yaml_stream_len(s: Seq<char>) -> Option<nat>;

/// Whether the toml crate accepts `s` as a TOML document.
pub uninterp spec fn toml_accepts(s: Seq<char>) -> bool;

/// Relies on `serde_json::from_str` into `serde_json::Value`: parses a JSON
/// document, with the error's message on failure.
#[verifier::external_body]
pub(crate) fn read_json(s: &str) -> (r: Result<serde_json::Value, String>)
    ensures
        r is Ok <==> json_accepts(s@),
{
    serde_json::from_str(s).map_err(|e| e.to_string())
}

/// Relies on iterating `serde_yaml::Deserializer::from_str` and
/// deserializing each document into `serde_yaml::Value`: the documents of
/// the stream in order, or the first error's message.
#[verifier::external_body]
pub(crate) fn read_yaml(s: &str) -> (r: Result<Vec<serde_yaml::Value>, String>)
    ensures
        r is Ok <==> yaml_stream_len(s@) is Some,
        r matches Ok(d) ==> yaml_stream_len(s@) == Some(d@.len()),
{
    serde_yaml::Deserializer::from_str(s)
        .map(<serde_yaml::Value as serde::Deserialize>::deserialize)
        .collect::<Result<Vec<serde_yaml::Value>, serde_yaml::Error>>()
        .map_err(|e| e.to_string())
}

/// Relies on `toml::from_str` into `toml::Value`: parses a TOML document,
/// with the error's message on failure.
#[verifier::external_body]
pub(crate) fn read_toml(s: &str) -> (r: Result<toml::Value, String>)
    ensures
        r is Ok <==> toml_accepts(s@),
{
    toml::from_str::<toml::Value>(s).map_err(|e| e.to_string())
}

/// The documents of a YAML stream as raw values, in order (a clone of
/// each `serde_yaml::Value`).
#[verifier::external_body]
pub(crate) fn yaml_documents(docs: &Vec<serde_yaml::Value>) -> (r: Vec<RawValue>)
    ensures
        r@.len() == docs@.len(),
{
    docs.iter().cloned().map(RawValue::Yaml).collect()
}

/// Relies on `serde_yaml::to_string` on the documents as one sequence,
/// which cannot fail on `serde_yaml::Value`s.
#[verifier::external_body]
pub(crate) fn yaml_stream_text(docs: &Vec<serde_yaml::Value>) -> String {
    serde_yaml::to_string(docs).unwrap_or_default()
}

/// Relies on the variants of `serde_json::Value`, and on `Display` of
/// `serde_json::Number` for a number's text. A `serde_json::Map` holds one
/// entry per key.
#[verifier::external_body]
pub(crate) fn json_layer(v: &serde_json::Value) -> (r: Layer)
    ensures
        !(r is Tagged) && !(r is Mapping),
        keyed_layer(r),
{
    match v {
        Json::Null => Layer::Null,
        Json::Bool(b) => Layer::Bool(*b),
        Json::Number(n) => Layer::Number(n.to_string()),
        Json::String(s) => Layer::Str(s.clone()),
        Json::Array(a) => Layer::Array(a.iter().cloned().map(RawValue::Json).collect()),
        Json::Object(o) => Layer::Object(
            o.iter().map(|(k, x)| (k.clone(), RawValue::Json(x.clone()))).collect(),
        ),
    }
}

/// Relies on the variants of `serde_yaml::Value`, and on `Display` of
/// `serde_yaml::Number` for a number's text.
#[verifier::external_body]
pub(crate) fn yaml_layer(v: &serde_yaml::Value) -> (r: Layer)
    ensures
        !(r is Object),
{
    match v {
        Yaml::Null => Layer::Null,
        Yaml::Bool(b) => Layer::Bool(*b),
        Yaml::Number(n) => Layer::Number(n.to_string()),
        Yaml::String(s) => Layer::Str(s.clone()),
        Yaml::Sequence(a) => Layer::Array(a.iter().cloned().map(RawValue::Yaml).collect()),
        Yaml::Mapping(m) => Layer::Mapping(
            m.iter().map(|(k, x)| (RawValue::Yaml(k.clone()), RawValue::Yaml(x.clone()))).collect(),
        ),
        Yaml::Tagged(_) => Layer::Tagged,
    }
}

/// Relies on the variants of `toml::Value`; integers and floats take
/// `Display` of `toml::Value` (TOML notation, so a float keeps its `.0`),
/// a datetime takes `Display` of `toml::value::Datetime`. A `toml::Table`
/// holds one entry per key.
#[verifier::external_body]
pub(crate) fn toml_layer(v: &toml::Value) -> (r: Layer)
    ensures
        !(r is Null) && !(r is Tagged) && !(r is Mapping),
        keyed_layer(r),
{
    match v {
        Toml::String(s) => Layer::Str(s.clone()),
        Toml::Integer(_) | Toml::Float(_) => Layer::Number(v.to_string()),
        Toml::Boolean(b) => Layer::Bool(*b),
        Toml::Datetime(d) => Layer::Datetime(d.to_string()),
        Toml::Array(a) => Layer::Array(a.iter().cloned().map(RawValue::Toml).collect()),
        Toml::Table(t) => Layer::Object(
            t.iter().map(|(k, x)| (k.clone(), RawValue::Toml(x.clone()))).collect(),
        ),
    }
}

/// Relies on `serde_json::to_string_pretty`, which cannot fail on a
/// `serde_json::Value` (its map keys are strings).
#[verifier::external_body]
pub(crate) fn json_text(v: &serde_json::Value) -> String {
    serde_json::to_string_pretty(v).unwrap_or_default()
}

/// Relies on `serde_yaml::to_string`, which cannot fail on a
/// `serde_yaml::Value`.
#[verifier::external_body]
pub(crate) fn yaml_text(v: &serde_yaml::Value) -> String {
    serde_yaml::to_string(v).unwrap_or_default()
}

/// Relies on `toml::to_string_pretty`: a table as a pretty TOML document;
/// `None` where the value cannot stand as a document (an array).
#[verifier::external_body]
pub(crate) fn toml_document_text(v: &toml::Value) -> Option<String> {
    toml::to_string_pretty(v).ok()
}

/// Relies on `Display` of `toml::Value`: the value in inline TOML notation.
#[verifier::external_body]
pub(crate) fn toml_value_text(v: &toml::Value) -> String {
    v.to_string()
}

/// One level of a raw value.
pub fn layer_of(raw: &RawValue) -> (r: Layer)
    ensures
        raw is Json ==> !(r is Tagged) && !(r is Mapping),
        raw is Toml ==> !(r is Null) && !(r is Tagged) && !(r is Mapping),
        r is Object ==> !(raw is Yaml),
        raw matches RawValue::YamlStream(d) ==> r matches Layer::Array(items) && items@.len()
            == d@.len(),
        keyed_layer(r),
{
    match raw {
        RawValue::Json(v) => json_layer(v),
        RawValue::Yaml(v) => yaml_layer(v),
        RawValue::YamlStream(d) => Layer::Array(yaml_documents(d)),
        RawValue::Toml(v) => toml_layer(v),
    }
}

/// The pretty re-serialization of a container in its own format.
pub fn container_text(raw: &RawValue) -> String {
    match raw {
        RawValue::Json(v) => json_text(v),
        RawValue::Yaml(v) => yaml_text(v),
        RawValue::YamlStream(d) => yaml_stream_text(d),
        RawValue::Toml(v) => match toml_document_text(v) {
            Some(t) => t,
            None => toml_value_text(v),
        },
    }
}

} // verus!
