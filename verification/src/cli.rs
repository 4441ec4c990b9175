//! Command-line options, resolved to plain values: the front end parses the
//! real arguments and hands the core these.

use vstd::prelude::*;
use crate::context::{Output, Verbosity};

verus! {

/// When to color the output.
#[derive(Debug, Clone, Copy, PartialEq, Eq, Structural)]
pub enum ColorChoice {
    Always,
    Auto,
    Never,
}

/// The subcommand to run.
#[derive(Debug)]
pub enum RawCommand {
    /// Initialize a new config file.
    Init,
    /// Add a new package to the config file.
    Add { repo: String, name: Option<String>, version: Option<String>, desc: Option<String> },
    /// Restore packages to the state in the lock file.
    Restore { package: Option<String> },
    /// Install any missing packages, re-generating the lock file.
    Sync,
    /// Update packages and re-generate the lock file.
    Update { package: Option<String> },
    /// Search the release host for a repository.
    Search { query: String, top: u8 },
    /// Print version information.
    Version,
}

/// The command-line options, as plain values.
#[derive(Debug)]
pub struct RawOpt {
    /// Suppress any informational output.
    pub quiet: bool,
    /// Use verbose output.
    pub verbose: bool,
    /// Output coloring.
    pub color: ColorChoice,
    /// The configuration directory.
    pub config_dir: Option<String>,
    /// The data directory.
    pub data_dir: Option<String>,
    /// The cache directory.
    pub cache_dir: Option<String>,
    /// The directory installed binaries link into.
    pub bin_dir: Option<String>,
    /// The subcommand to run.
    pub command: RawCommand,
}

impl RawOpt {
    /// The output settings these options ask for: quiet wins over verbose,
    /// and color is on unless it was never wanted.
    pub fn output_opt(&self) -> (r: Output)
        ensures
            r.verbosity == (if self.quiet {
                Verbosity::Quiet
            } else if self.verbose {
                Verbosity::Verbose
            } else {
                Verbosity::Normal
            }),
            r.no_color == (self.color is Never),
    {
        let verbosity = if self.quiet {
            Verbosity::Quiet
        } else if self.verbose {
            Verbosity::Verbose
        } else {
            Verbosity::Normal
        };
        Output { verbosity, no_color: matches!(self.color, ColorChoice::Never) }
    }
}

} // verus!
