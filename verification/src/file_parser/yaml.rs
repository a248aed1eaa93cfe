//! Configurations written as YAML.

use crate::document::{config_from_document, DocValue};
use crate::error::ConfigError;
use crate::file_parser::{read_as, reading};
use crate::sorted_map::SortedMap;
use crate::variable::{keyed_by_name, EnvVariableMap};
use vstd::prelude::*;

verus! {

/// `serde_yaml::Value`, the tree that `serde_yaml` parses a text into. It is
/// opaque here: what a value holds is known only as `yaml_tree` of it.
#[verifier::external_type_specification]
#[verifier::external_body]
pub struct ExYamlValue(serde_yaml::Value);

/// What `serde_yaml::from_str` makes of a text: the document that the text
/// writes, or the parser's message where the text is no YAML. This is a name
/// for what the parser returns. Nothing here says what it is for a given
/// text, only that it depends on the text alone.
pub uninterp spec fn yaml_document(content: Seq<char>) -> Result<DocValue, Seq<char>>;

/// The document that a `serde_yaml::Value` holds. This is a name for what
/// `yaml_to_document` copies out of the value.
pub uninterp spec fn yaml_tree(value: serde_yaml::Value) -> DocValue;

/// Calls `serde_yaml::from_str` for a `serde_yaml::Value` and, where it
/// fails, `to_string` on its error. Taken on trust: the outcome is a function
/// of the text alone, named `yaml_document`.
#[verifier::external_body]
fn yaml_parse(content: &str) -> (r: Result<serde_yaml::Value, String>)
    ensures
        match r {
            Ok(value) => yaml_document(content@) == Ok::<DocValue, Seq<char>>(yaml_tree(value)),
            Err(message) => yaml_document(content@) == Err::<DocValue, Seq<char>>(message@),
        },
{
    serde_yaml::from_str::<serde_yaml::Value>(content).map_err(|e| e.to_string())
}

/// Copies a `serde_yaml::Value` into a document, one variant for one. A
/// number becomes the text that `serde_yaml::Number` prints, a mapping the
/// table of its entries, keys and values alike, in the order of
/// `serde_yaml::Mapping::iter`, and a tagged value keeps the text of its
/// tag. Taken on trust: the copy is a function of the value alone, named
/// `yaml_tree`.
#[verifier::external_body]
fn yaml_to_document(value: &serde_yaml::Value) -> (r: DocValue)
    ensures
        r == yaml_tree(*value),
{
    match value {
        serde_yaml::Value::Null => DocValue::Null,
        serde_yaml::Value::Bool(b) => DocValue::Bool(*b),
        serde_yaml::Value::Number(n) => DocValue::Number(n.to_string()),
        serde_yaml::Value::String(s) => DocValue::Text(s.clone()),
        serde_yaml::Value::Sequence(s) => DocValue::Sequence(s.iter().map(yaml_to_document).collect()),
        serde_yaml::Value::Mapping(m) => DocValue::Table(
            m.iter().map(|(k, v)| (yaml_to_document(k), yaml_to_document(v))).collect(),
        ),
        serde_yaml::Value::Tagged(t) => DocValue::Tagged(
            t.tag.to_string(),
            Box::new(yaml_to_document(&t.value)),
        ),
    }
}

/// Reads the configuration that `content`, the text of the file
/// `file_path`, writes as YAML: what the document declares, or the failure
/// to parse the text.
pub fn parse_config(content: &str, file_path: &str) -> (r: Result<
    (EnvVariableMap, SortedMap<EnvVariableMap>),
    ConfigError,
>)
    ensures
        read_as(r) == reading(yaml_document(content@), file_path@),
        r matches Ok(read) ==> {
            &&& keyed_by_name(read.0@)
            &&& forall|name: Seq<char>| #[trigger]
                read.1@.contains_key(name) ==> keyed_by_name(read.1@[name])
        },
{
    match yaml_parse(content) {
        Ok(value) => Ok(config_from_document(&yaml_to_document(&value))),
        Err(cause) => Err(ConfigError::Parse { source_file: file_path.to_owned(), cause }),
    }
}

} // verus!
