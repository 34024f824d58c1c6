//! Process configuration: what the command line sets and its defaults.

use vstd::prelude::*;

use crate::error::Error;

verus! {

/// The command-line arguments, already parsed into plain values.
pub struct Cli {
    /// The directory to serve; `None` falls back to the working directory.
    pub directory: Option<String>,
    /// The port to listen on.
    pub port: u16,
    /// How often the verbosity flag was repeated.
    pub loglevel: u8,
    /// The column width of the waterfall layout, in pixels.
    pub width: usize,
}

/// The verbosity of the logging sink.
#[derive(Debug, PartialEq, Eq, Structural, Clone, Copy)]
pub enum LogLevel {
    Error,
    Warn,
    Info,
    Debug,
    Trace,
}

/// The immutable process-wide configuration, fixed at startup.
pub struct Config {
    pub directory: String,
    pub port: u16,
    pub loglevel: LogLevel,
    pub width: usize,
}

/// The verbosity a repeated flag count selects.
pub open spec fn level_of_count(count: u8) -> LogLevel {
    if count == 1 {
        LogLevel::Error
    } else if count == 2 {
        LogLevel::Warn
    } else if count == 0 || count == 3 {
        LogLevel::Info
    } else if count == 4 {
        LogLevel::Debug
    } else {
        LogLevel::Trace
    }
}

impl Config {
    /// Builds the configuration from the parsed command line. When the
    /// command line names no directory, `current_dir` — the working
    /// directory, if the process could determine it — takes its place;
    /// without either the configuration cannot be built.
    pub fn from_parser(cli: Cli, current_dir: Option<String>) -> (r: Result<Config, Error>)
        ensures
            match r {
                Ok(config) => {
                    &&& cli.directory is None ==> (current_dir matches Some(d) && config.directory
                        == d)
                    &&& cli.directory matches Some(d) ==> config.directory == d
                    &&& config.port == cli.port
                    &&& config.loglevel == level_of_count(cli.loglevel)
                    &&& config.width == cli.width
                },
                Err(e) => e is CannotGetWorkDir && cli.directory is None && current_dir is None,
            },
    {
        let port = cli.port;
        let workdir = match cli.directory {
            Some(d) => d,
            None => match current_dir {
                Some(d) => d,
                None => {
                    return Err(Error::CannotGetWorkDir);
                },
            },
        };
        let loglevel = match cli.loglevel {
            1 => LogLevel::Error,
            2 => LogLevel::Warn,
            0 | 3 => LogLevel::Info,
            4 => LogLevel::Debug,
            _ => LogLevel::Trace,
        };
        Ok(Config { directory: workdir, port, loglevel, width: cli.width })
    }
}

} // verus!
