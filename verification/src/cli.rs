//! What the command line asks of the engine.

use vstd::prelude::*;

verus! {

/// How much the engine logs.
#[derive(PartialEq, Eq, Structural, Clone, Copy, Debug)]
pub enum LogLevel {
    Warn,
    Info,
    Trace,
}

/// The log level for a number of `-v` flags: warnings by default, then
/// information, then everything.
pub open spec fn level_for(verbosity: u64) -> LogLevel {
    if verbosity == 0 {
        LogLevel::Warn
    } else if verbosity == 1 {
        LogLevel::Info
    } else {
        LogLevel::Trace
    }
}

/// The validator endpoint where none is given.
pub open spec fn default_endpoint() -> Seq<char> {
    "tcp://localhost:5050"@
}

/// The log level for a number of `-v` flags.
pub fn log_level_for(verbosity: u64) -> (r: LogLevel)
    ensures
        r == level_for(verbosity),
{
    match verbosity {
        0 => LogLevel::Warn,
        1 => LogLevel::Info,
        _ => LogLevel::Trace,
    }
}

/// The command-line arguments of the engine.
pub struct RaftCliArgs {
    /// The logging configuration file, where one is given.
    pub log_config: Option<String>,
    /// How much to log.
    pub log_level: LogLevel,
    /// The validator endpoint to connect to.
    pub endpoint: String,
}

impl RaftCliArgs {
    /// The arguments from what was given: the number of `-v` flags, the
    /// logging configuration file and the endpoint, where given (the default
    /// endpoint otherwise).
    pub fn from_matches(verbosity: u64, log_config: Option<String>, connect: Option<String>) -> (r: RaftCliArgs)
        ensures
            r.log_level == level_for(verbosity),
            r.log_config == log_config,
            r.endpoint@ == match connect {
                Some(c) => c@,
                None => default_endpoint(),
            },
    {
        let endpoint = match connect {
            Some(c) => c,
            None => "tcp://localhost:5050".to_owned(),
        };
        RaftCliArgs { log_config, log_level: log_level_for(verbosity), endpoint }
    }
}

} // verus!
