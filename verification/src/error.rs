//! Error handling for morfo.

use vstd::prelude::*;

verus! {

/// A specialized `Result` type for morfo operations.
pub type MorfoResult<T> = Result<T, MorfoError>;

/// Everything that can go wrong while building and running a project.
#[derive(Debug, PartialEq, Eq, Clone)]
pub enum MorfoError {
    /// The compiler exited with the carried nonzero code, or with no code at
    /// all (terminated by a signal) when the payload is `None`.
    CompilationFailure(Option<i32>),
    /// The named file does not exist.
    FileNotFound(String),
    /// The configuration file could not be parsed; carries the parser's words.
    InvlidConfig(String),
    /// The configuration file has the carried extension instead of `toml`.
    InvalidConfigExtension(String),
    /// A path or file content was not valid unicode.
    InvalidUnicode,
    /// An operating-system error, described by the carried text.
    IoError(String),
    /// No configuration file was found.
    MissingConfigFile,
    /// The compiled executable is not where the build should have put it.
    MissingExecutable,
    /// The home directory could not be determined.
    MissingHomeDirectory,
}

} // verus!
