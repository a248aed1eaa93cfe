//! Configurations written as JSON.

use crate::document::{config_from_document, DocValue};
use crate::error::ConfigError;
use crate::file_parser::{read_as, reading};
use crate::sorted_map::SortedMap;
use crate::variable::{keyed_by_name, EnvVariableMap};
use vstd::prelude::*;

verus! {

/// `serde_json::Value`, the tree that `serde_json` parses a text into. It is
/// opaque here: what a value holds is known only as `json_tree` of it.
#[verifier::external_type_specification]
#[verifier::external_body]
pub struct ExJsonValue(serde_json::Value);

/// What `serde_json::from_str` makes of a text: the document that the text
/// writes, or the parser's message where the text is no JSON. This is a name
/// for what the parser returns. Nothing here says what it is for a given
/// text, only that it depends on the text alone.
pub uninterp spec fn json_document(content: Seq<char>) -> Result<DocValue, Seq<char>>;

/// The document that a `serde_json::Value` holds. This is a name for what
/// `json_to_document` copies out of the value.
pub uninterp spec fn json_tree(value: serde_json::Value) -> DocValue;

/// Calls `serde_json::from_str` for a `serde_json::Value` and, where it
/// fails, `to_string` on its error. Taken on trust: the outcome is a function
/// of the text alone, named `json_document`.
#[verifier::external_body]
fn json_parse(content: &str) -> (r: Result<serde_json::Value, String>)
    ensures
        match r {
            Ok(value) => json_document(content@) == Ok::<DocValue, Seq<char>>(json_tree(value)),
            Err(message) => json_document(content@) == Err::<DocValue, Seq<char>>(message@),
        },
{
    serde_json::from_str::<serde_json::Value>(content).map_err(|e| e.to_string())
}

/// Copies a `serde_json::Value` into a document, one variant for one. A
/// number becomes the text that `serde_json::Number` prints, and an object
/// the table of its members in the order of `serde_json::Map::iter`. Taken
/// on trust: the copy is a function of the value alone, named `json_tree`.
#[verifier::external_body]
fn json_to_document(value: &serde_json::Value) -> (r: DocValue)
    ensures
        r == json_tree(*value),
{
    match value {
        serde_json::Value::Null => DocValue::Null,
        serde_json::Value::Bool(b) => DocValue::Bool(*b),
        serde_json::Value::Number(n) => DocValue::Number(n.to_string()),
        serde_json::Value::String(s) => DocValue::Text(s.clone()),
        serde_json::Value::Array(a) => DocValue::Sequence(a.iter().map(json_to_document).collect()),
        serde_json::Value::Object(o) => DocValue::Table(
            o.iter().map(|(k, v)| (DocValue::Text(k.clone()), json_to_document(v))).collect(),
        ),
    }
}

/// Reads the configuration that `content`, the text of the file
/// `file_path`, writes as JSON: what the document declares, or the failure
/// to parse the text.
pub fn parse_config(content: &str, file_path: &str) -> (r: Result<
    (EnvVariableMap, SortedMap<EnvVariableMap>),
    ConfigError,
>)
    ensures
        read_as(r) == reading(json_document(content@), file_path@),
        r matches Ok(read) ==> {
            &&& keyed_by_name(read.0@)
            &&& forall|name: Seq<char>| #[trigger]
                read.1@.contains_key(name) ==> keyed_by_name(read.1@[name])
        },
{
    match json_parse(content) {
        Ok(value) => Ok(config_from_document(&json_to_document(&value))),
        Err(cause) => Err(ConfigError::Parse { source_file: file_path.to_owned(), cause }),
    }
}

} // verus!
