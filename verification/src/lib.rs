//! Environment variables for several environments, kept in one file.
//!
//! A configuration file, written as JSON, TOML or YAML, declares variables
//! for every environment and, under the name of each environment, the
//! variables that the environment sets itself. This library reads the text
//! of such a file, resolves the variables of an environment, and compares
//! two environments, or the variables of a process with an environment.
//!
//! The text is parsed by `serde_json`, `toml` and `serde_yaml`, and values
//! are escaped for a shell by `shell_escape`. What these return is taken on
//! trust, in `file_parser` and in `output`; what the library makes of it is
//! verified.

pub mod agreement;
pub mod config;
pub mod diff;
pub mod document;
pub mod error;
pub mod file_parser;
pub mod input;
pub mod names;
pub mod output;
pub mod sorted;
pub mod sorted_map;
pub mod variable;

pub use config::EnvironmentVariablesConfig;
pub use diff::{DiffResult, DiffStatus};
pub use error::ConfigError;
pub use input::parse_input_file;
pub use sorted_map::SortedMap;
pub use variable::{EnvVariable, EnvVariableMap};
