//! Why a recipe or a configuration could not be loaded.
use vstd::prelude::*;
use crate::text::{decimal, owned, push_decimal, push_str, string_of};

verus! {

broadcast use vstd::string::group_string_axioms;

/// Errors that can arise while loading or validating recipes and
/// configuration.
#[derive(Debug, Clone, PartialEq, Eq)]
pub enum CoreError {
    /// A file could not be read.
    Io {
        /// The file.
        path: String,
        /// What the operating system said.
        message: String,
    },
    /// A JSON or YAML document could not be parsed.
    Parse {
        /// The file or logical source.
        path: String,
        /// What the parser said.
        message: String,
    },
    /// Validation found errors.
    Validation {
        /// How many error-severity issues were found.
        count: u64,
    },
    /// A configuration value failed a semantic check.
    InvalidConfig {
        /// The field.
        field: String,
        /// Why it was refused.
        message: String,
    },
}

/// The message of an error.
pub open spec fn core_error_text(e: CoreError) -> Seq<char> {
    match e {
        CoreError::Io { path, message } => "I/O error reading "@ + path@ + ": "@ + message@,
        CoreError::Parse { path, message } => "parse error at "@ + path@ + ": "@ + message@,
        CoreError::Validation { count } => "validation failed with "@ + decimal(count as nat) + " error(s)"@,
        CoreError::InvalidConfig { field, message } => "invalid config value for "@ + field@ + ": "@
            + message@,
    }
}

impl CoreError {
    /// The error's message.
    pub fn message(&self) -> (m: String)
        ensures
            m@ == core_error_text(*self),
    {
        match self {
            CoreError::Io { path, message } => {
                let mut m = owned("I/O error reading ");
                push_str(&mut m, path.as_str());
                push_str(&mut m, ": ");
                push_str(&mut m, message.as_str());
                m
            },
            CoreError::Parse { path, message } => {
                let mut m = owned("parse error at ");
                push_str(&mut m, path.as_str());
                push_str(&mut m, ": ");
                push_str(&mut m, message.as_str());
                m
            },
            CoreError::Validation { count } => {
                let mut digits: Vec<char> = Vec::new();
                push_decimal(&mut digits, *count);
                assert(digits@ =~= decimal(*count as nat));
                let mut m = owned("validation failed with ");
                push_str(&mut m, string_of(digits.as_slice()).as_str());
                push_str(&mut m, " error(s)");
                m
            },
            CoreError::InvalidConfig { field, message } => {
                let mut m = owned("invalid config value for ");
                push_str(&mut m, field.as_str());
                push_str(&mut m, ": ");
                push_str(&mut m, message.as_str());
                m
            },
        }
    }
}

} // verus!
