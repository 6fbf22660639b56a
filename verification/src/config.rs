//! Resolving a run's configuration from argument tokens.
//!
//! The first token is the program's own name and is never used. The next two
//! tokens are the query and the file path, in that order. Whether matching
//! ignores case comes from the caller, who checks whether the `IGNORE_CASE`
//! environment variable is set (to any value, including the empty string).

use vstd::prelude::*;

verus! {

/// Why a configuration could not be resolved.
#[derive(Clone, Copy, Debug, PartialEq, Eq)]
pub enum ConfigError {
    /// Fewer tokens than a program name, a query and a file path.
    MissingArguments,
    /// The query token is absent even though the count check passed.
    MissingQuery,
    /// The file path token is absent even though the count check passed.
    MissingFilePath,
}

impl ConfigError {
    /// A short description of the error, fit for the error stream.
    pub fn message(&self) -> (r: String)
        ensures
            *self == ConfigError::MissingArguments ==> r@ == "Not enough arguments."@,
            *self == ConfigError::MissingQuery ==> r@ == "No query"@,
            *self == ConfigError::MissingFilePath ==> r@ == "No file path"@,
    {
        match self {
            ConfigError::MissingArguments => "Not enough arguments.".to_owned(),
            ConfigError::MissingQuery => "No query".to_owned(),
            ConfigError::MissingFilePath => "No file path".to_owned(),
        }
    }
}

/// One run's immutable configuration: what to search for, where, and in
/// which matching mode.
pub struct Config {
    /// The text to search for.
    pub query: String,
    /// The path of the file whose contents are searched.
    pub file_path: String,
    /// Whether matching lowercases both sides before comparing.
    pub ignore_case: bool,
}

impl Config {
    /// Resolve a configuration from argument tokens, read left to right.
    ///
    /// `args` holds the program name followed by the real arguments;
    /// `ignore_case` says whether the environment toggle is set. With fewer
    /// than two usable arguments the resolution fails; with the query and
    /// the file path present it always succeeds.
    pub fn build(args: Vec<String>, ignore_case: bool) -> (r: Result<Config, ConfigError>)
        ensures
            args@.len() < 3 ==> (r matches Err(e) && e == ConfigError::MissingArguments),
            args@.len() >= 3 ==> (r matches Ok(c) && c.query@ == args@[1]@ && c.file_path@
                == args@[2]@ && c.ignore_case == ignore_case),
    {
        if args.len() < 3 {
            return Err(ConfigError::MissingArguments);
        }
        let query = if 1 < args.len() {
            args[1].clone()
        } else {
            return Err(ConfigError::MissingQuery);
        };
        let file_path = if 2 < args.len() {
            args[2].clone()
        } else {
            return Err(ConfigError::MissingFilePath);
        };
        Ok(Config { query, file_path, ignore_case })
    }
}

} // verus!
