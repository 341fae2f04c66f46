//! A library for parsing files that describe Debian packages.
//!
//! The input is a sequence of stanzas separated by blank lines; each stanza
//! holds `Field: value` lines, optionally followed by space-indented
//! continuation lines.  Three fields are recognized: `Package`,
//! `Description` and `Depends`.

pub mod ast;
pub mod parser;
pub mod text;

use vstd::prelude::*;

verus! {

/// The application's configuration: the path of the file to parse.
pub struct Config {
    pub file_path: String,
}

/// An error that may occur when building the configuration.
#[derive(Debug, Clone)]
pub enum BuildConfigError {
    NoFilePath,
}

/// An error that may occur when reading a file.  The mapping from an
/// operating-system error belongs to the I/O wrapper around this library.
#[derive(Debug, Clone)]
pub enum ReadFileError {
    PathDoesNotExist,
    PermissionDenied,
}

impl Config {
    /// Builds the configuration from the command-line arguments: the first
    /// argument (the program name) is skipped, the second is the file path.
    pub fn build(args: Vec<String>) -> (r: Result<Config, BuildConfigError>)
        ensures
            args@.len() < 2 ==> (r matches Err(BuildConfigError::NoFilePath)),
            args@.len() >= 2 ==> (r matches Ok(c) && c.file_path@ == args@[1]@),
    {
        if args.len() < 2 {
            return Err(BuildConfigError::NoFilePath);
        }
        Ok(Config { file_path: args[1].clone() })
    }
}

} // verus!
