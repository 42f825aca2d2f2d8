//! The command-line vocabulary the library knows: how a read verb prints,
//! and the `config` subcommands. Argument parsing itself lives in the binary.
use vstd::prelude::*;
use crate::text::{chars_of, string_of};

verus! {

/// How a read verb prints its result.
#[derive(Debug, Clone, Copy, PartialEq, Eq, Structural)]
pub enum OutputFormat {
    /// The formatted text rendering. The default.
    Human,
    /// The structured JSON shapes.
    Json,
}

impl OutputFormat {
    /// The snake_case name.
    pub fn to_string(&self) -> (s: String)
        ensures
            *self is Human ==> s@ == "human"@,
            *self is Json ==> s@ == "json"@,
    {
        match self {
            OutputFormat::Human => string_of(&chars_of("human")),
            OutputFormat::Json => string_of(&chars_of("json")),
        }
    }
}

impl Default for OutputFormat {
    fn default() -> (r: Self)
        ensures
            r == OutputFormat::Human,
    {
        OutputFormat::Human
    }
}

/// Subcommands for `adroit config`.
#[derive(Debug, Clone)]
pub enum ConfigAction {
    /// List every setting with its resolved value and source.
    Show,
    /// Print one setting's resolved value.
    Get { key: String },
    /// Set a value, in the config file or, with `local`, the project `.env`.
    Assign { key: String, value: String, local: bool },
}

} // verus!
