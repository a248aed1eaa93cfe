//! Reading a configuration from the text of a file, format by format.

pub mod json;
pub mod toml;
pub mod yaml;

use crate::document::{defaults_of, overrides_of, DocValue};
use crate::error::{ConfigError, Failure};
use crate::sorted_map::SortedMap;
use crate::variable::{EnvVariableMap, Variable};
use vstd::prelude::*;

verus! {

/// What was read from a file: the variables of every environment, and the
/// environments by name.
pub struct Reading {
    pub defaults: Map<Seq<char>, Variable>,
    pub overrides: Map<Seq<char>, Map<Seq<char>, Variable>>,
}

/// What a configuration reads in the file `source_file`, given what the
/// format's parser made of its text: the document's declarations, or the
/// failure with the parser's message as its cause.
pub open spec fn reading(parsed: Result<DocValue, Seq<char>>, source_file: Seq<char>) -> Result<
    Reading,
    Failure,
> {
    match parsed {
        Ok(document) => Ok(
            Reading { defaults: defaults_of(document), overrides: overrides_of(document) },
        ),
        Err(cause) => Err(Failure::Parse { source_file, cause }),
    }
}

/// What the result of reading a file says.
pub open spec fn read_as(r: Result<(EnvVariableMap, SortedMap<EnvVariableMap>), ConfigError>) -> Result<
    Reading,
    Failure,
> {
    match r {
        Ok(read) => Ok(Reading { defaults: read.0@, overrides: read.1@ }),
        Err(e) => Err(e@),
    }
}

} // verus!
