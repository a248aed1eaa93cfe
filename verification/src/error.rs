//! The ways in which reading or querying a configuration fails.

use vstd::prelude::*;
use vstd::string::StringExecFns;

verus! {

/// What a failure says.
pub enum Failure {
    UnknownEnvironment { name: Seq<char>, source_file: Seq<char> },
    UnsupportedFormat { extension: Option<Seq<char>> },
    Parse { source_file: Seq<char>, cause: Seq<char> },
}

/// A failure of the library.
#[derive(Debug, PartialEq)]
pub enum ConfigError {
    /// The configuration read from `source_file` has no environment `name`.
    UnknownEnvironment { name: String, source_file: String },
    /// The input file's extension, if it has one, names no supported format.
    UnsupportedFormat { extension: Option<String> },
    /// The content of `source_file` is not a document of its format; `cause`
    /// is what the format's parser said.
    Parse { source_file: String, cause: String },
}

impl View for ConfigError {
    type V = Failure;

    open spec fn view(&self) -> Failure {
        match self {
            ConfigError::UnknownEnvironment { name, source_file } => Failure::UnknownEnvironment {
                name: name@,
                source_file: source_file@,
            },
            ConfigError::UnsupportedFormat { extension } => Failure::UnsupportedFormat {
                extension: match extension {
                    Some(e) => Some(e@),
                    None => None,
                },
            },
            ConfigError::Parse { source_file, cause } => Failure::Parse {
                source_file: source_file@,
                cause: cause@,
            },
        }
    }
}

impl Failure {
    /// The message of the failure.
    pub open spec fn message(self) -> Seq<char> {
        match self {
            Failure::UnknownEnvironment { name, source_file } => "environment key '"@ + name
                + "' does not exists in '"@ + source_file + "'"@,
            Failure::UnsupportedFormat { extension: Some(extension) } =>
                "unsupported input file format: "@ + extension,
            Failure::UnsupportedFormat { extension: None } => "unsupported input file format"@,
            Failure::Parse { source_file, cause } => "failed to parse config file '"@ + source_file
                + "'"@,
        }
    }
}

impl ConfigError {
    /// The message of the failure.
    pub fn message(&self) -> (r: String)
        ensures
            r@ == self@.message(),
    {
        match self {
            ConfigError::UnknownEnvironment { name, source_file } => {
                let mut text = String::from_str("environment key '");
                text.append(name.as_str());
                text.append("' does not exists in '");
                text.append(source_file.as_str());
                text.append("'");
                text
            },
            ConfigError::UnsupportedFormat { extension: Some(extension) } => {
                let mut text = String::from_str("unsupported input file format: ");
                text.append(extension.as_str());
                text
            },
            ConfigError::UnsupportedFormat { extension: None } => {
                String::from_str("unsupported input file format")
            },
            ConfigError::Parse { source_file, cause: _ } => {
                let mut text = String::from_str("failed to parse config file '");
                text.append(source_file.as_str());
                text.append("'");
                text
            },
        }
    }
}

} // verus!
