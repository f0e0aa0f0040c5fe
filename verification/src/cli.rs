//! The options of the command line, as plain values.

use vstd::prelude::*;

verus! {

/// What the command line says.
#[derive(Debug, Clone, PartialEq, Eq)]
pub struct Cli {
    /// The directory to serve.
    pub directory: String,
    /// The host address to listen on.
    pub listen: String,
    /// The port to listen on.
    pub port: u16,
    /// The allowed file extensions: patterns, separated by commas.
    pub allowed_extensions: String,
    /// The number of workers.
    pub threads: usize,
    /// The number of bytes to read from a file at a time.
    pub chunk_size: usize,
    /// Log everything.
    pub verbose: bool,
    /// Log more than warnings.
    pub detailed_logging: bool,
    /// The user name for basic authentication.
    pub username: Option<String>,
    /// The password for basic authentication.
    pub password: Option<String>,
}

impl Cli {
    /// The log level that the options ask for: `debug` when verbose, else
    /// `info` with detailed logging, else `warn`.
    pub fn log_level(&self) -> (level: &'static str)
        ensures
            level@ == if self.verbose {
                "debug"@
            } else if self.detailed_logging {
                "info"@
            } else {
                "warn"@
            },
    {
        if self.verbose {
            "debug"
        } else if self.detailed_logging {
            "info"
        } else {
            "warn"
        }
    }
}

} // verus!
