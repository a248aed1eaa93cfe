//! Reading a configuration from an input file, whose extension names the
//! format that its content is written in.

use crate::config::EnvironmentVariablesConfig;
use crate::error::{ConfigError, Failure};
use crate::file_parser::json::json_document;
use crate::file_parser::toml::toml_document;
use crate::file_parser::yaml::yaml_document;
use crate::file_parser::{reading, Reading};
use crate::names::str_eq;
use vstd::prelude::*;

verus! {

/// What the extension of an input file says of its format.
#[derive(Debug, PartialEq)]
pub enum FileExtension {
    Json,
    Toml,
    Yaml,
    /// An extension that names no supported format.
    Unknown(String),
}

impl FileExtension {
    /// Whether this is what `extension` says: `json` names JSON, `toml`
    /// names TOML, `yml` and `yaml` name YAML, and any other extension is
    /// kept as it is.
    pub open spec fn is_of(self, extension: Seq<char>) -> bool {
        if extension == "json"@ {
            self is Json
        } else if extension == "toml"@ {
            self is Toml
        } else if extension == "yml"@ || extension == "yaml"@ {
            self is Yaml
        } else {
            self matches FileExtension::Unknown(kept) && kept@ == extension
        }
    }

    /// What `extension` says of the format.
    pub fn of(extension: &str) -> (r: FileExtension)
        ensures
            r.is_of(extension@),
    {
        if str_eq(extension, "json") {
            FileExtension::Json
        } else if str_eq(extension, "toml") {
            FileExtension::Toml
        } else if str_eq(extension, "yml") || str_eq(extension, "yaml") {
            FileExtension::Yaml
        } else {
            FileExtension::Unknown(extension.to_owned())
        }
    }
}

/// What the text of an extension is, where there is one.
pub open spec fn extension_text(extension: Option<&str>) -> Option<Seq<char>> {
    match extension {
        Some(e) => Some(e@),
        None => None,
    }
}

/// What reading the file `source_file` gives, from its extension and its
/// content: what the parser of the format that the extension names reads in
/// the content, and a failure where the extension names no supported format
/// or the file has none.
pub open spec fn input_reading(
    source_file: Seq<char>,
    extension: Option<Seq<char>>,
    content: Seq<char>,
) -> Result<Reading, Failure> {
    match extension {
        None => Err(Failure::UnsupportedFormat { extension: None }),
        Some(e) => if e == "json"@ {
            reading(json_document(content), source_file)
        } else if e == "toml"@ {
            reading(toml_document(content), source_file)
        } else if e == "yml"@ || e == "yaml"@ {
            reading(yaml_document(content), source_file)
        } else {
            Err(Failure::UnsupportedFormat { extension: Some(e) })
        },
    }
}

/// Reads the configuration that `content`, the text of the file
/// `file_path`, writes in the format that `extension`, the file's
/// extension, names.
pub fn parse_input_file(file_path: &str, extension: Option<&str>, content: &str) -> (r: Result<
    EnvironmentVariablesConfig,
    ConfigError,
>)
    ensures
        match r {
            Ok(config) => {
                &&& input_reading(file_path@, extension_text(extension), content@) == Ok::<
                    Reading,
                    Failure,
                >(Reading { defaults: config@.defaults, overrides: config@.overrides })
                &&& config@.source_file == file_path@
                &&& config@.keyed()
            },
            Err(e) => input_reading(file_path@, extension_text(extension), content@) == Err::<
                Reading,
                Failure,
            >(e@),
        },
{
    let file_extension = match extension {
        Some(e) => Some(FileExtension::of(e)),
        None => None,
    };
    let read = match file_extension {
        Some(FileExtension::Json) => crate::file_parser::json::parse_config(content, file_path),
        Some(FileExtension::Toml) => crate::file_parser::toml::parse_config(content, file_path),
        Some(FileExtension::Yaml) => crate::file_parser::yaml::parse_config(content, file_path),
        Some(FileExtension::Unknown(extension)) => {
            return Err(ConfigError::UnsupportedFormat { extension: Some(extension) });
        },
        None => {
            return Err(ConfigError::UnsupportedFormat { extension: None });
        },
    };
    match read {
        Ok((defaults, overrides)) => Ok(
            EnvironmentVariablesConfig::new(defaults, overrides, file_path.to_owned()),
        ),
        Err(e) => Err(e),
    }
}

} // verus!
