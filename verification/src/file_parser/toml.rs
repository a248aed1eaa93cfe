//! Configurations written as TOML.

use crate::document::{config_from_document, DocValue};
use crate::error::ConfigError;
use crate::file_parser::{read_as, reading};
use crate::sorted_map::SortedMap;
use crate::variable::{keyed_by_name, EnvVariableMap};
use vstd::prelude::*;

verus! {

/// `toml::Value`, the tree that `toml` parses a text into. It is opaque
/// here: what a value holds is known only as `toml_tree` of it.
#[verifier::external_type_specification]
#[verifier::external_body]
pub struct ExTomlValue(toml::Value);

/// What `toml::from_str` makes of a text: the document that the text writes,
/// or the parser's message where the text is no TOML. This is a name for
/// what the parser returns. Nothing here says what it is for a given text,
/// only that it depends on the text alone.
pub uninterp spec fn toml_document(content: Seq<char>) -> Result<DocValue, Seq<char>>;

/// The document that a `toml::Value` holds. This is a name for what
/// `toml_to_document` copies out of the value.
pub uninterp spec fn toml_tree(value: toml::Value) -> DocValue;

/// Calls `toml::from_str` for a `toml::Value` and, where it fails,
/// `to_string` on its error. Taken on trust: the outcome is a function of
/// the text alone, named `toml_document`.
#[verifier::external_body]
fn toml_parse(content: &str) -> (r: Result<toml::Value, String>)
    ensures
        match r {
            Ok(value) => toml_document(content@) == Ok::<DocValue, Seq<char>>(toml_tree(value)),
            Err(message) => toml_document(content@) == Err::<DocValue, Seq<char>>(message@),
        },
{
    toml::from_str::<toml::Value>(content).map_err(|e| e.to_string())
}

/// Copies a `toml::Value` into a document, one variant for one. An integer
/// and a float become the text that they print as, a datetime the text that
/// `toml::value::Datetime` prints, and a table the table of its entries in
/// the order of `toml::Table::iter`. Taken on trust: the copy is a function
/// of the value alone, named `toml_tree`.
#[verifier::external_body]
fn toml_to_document(value: &toml::Value) -> (r: DocValue)
    ensures
        r == toml_tree(*value),
{
    match value {
        toml::Value::String(s) => DocValue::Text(s.clone()),
        toml::Value::Integer(i) => DocValue::Number(i.to_string()),
        toml::Value::Float(f) => DocValue::Number(f.to_string()),
        toml::Value::Boolean(b) => DocValue::Bool(*b),
        toml::Value::Datetime(d) => DocValue::Datetime(d.to_string()),
        toml::Value::Array(a) => DocValue::Sequence(a.iter().map(toml_to_document).collect()),
        toml::Value::Table(t) => DocValue::Table(
            t.iter().map(|(k, v)| (DocValue::Text(k.clone()), toml_to_document(v))).collect(),
        ),
    }
}

/// Reads the configuration that `content`, the text of the file
/// `file_path`, writes as TOML: what the document declares, or the failure
/// to parse the text.
pub fn parse_config(content: &str, file_path: &str) -> (r: Result<
    (EnvVariableMap, SortedMap<EnvVariableMap>),
    ConfigError,
>)
    ensures
        read_as(r) == reading(toml_document(content@), file_path@),
        r matches Ok(read) ==> {
            &&& keyed_by_name(read.0@)
            &&& forall|name: Seq<char>| #[trigger]
                read.1@.contains_key(name) ==> keyed_by_name(read.1@[name])
        },
{
    match toml_parse(content) {
        Ok(value) => Ok(config_from_document(&toml_to_document(&value))),
        Err(cause) => Err(ConfigError::Parse { source_file: file_path.to_owned(), cause }),
    }
}

} // verus!
