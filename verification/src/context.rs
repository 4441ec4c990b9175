//! Run-wide context: resolved directories, the output verbosity, and the
//! status output itself.

use std::io::Write;
use vstd::prelude::*;
use crate::error::Error;
use crate::text::{chars_of, starts_with_chars, string_from_chars};

verus! {

/// How much status output a run should produce.
#[derive(Debug, Clone, Copy, PartialEq, Eq, Structural)]
pub enum Verbosity {
    Quiet,
    Normal,
    Verbose,
}

impl Verbosity {
    /// Numeric rank of a verbosity level; higher means chattier.
    pub open spec fn rank(self) -> int {
        match self {
            Verbosity::Quiet => 0,
            Verbosity::Normal => 1,
            Verbosity::Verbose => 2,
        }
    }

    /// Whether this level is at least as chatty as `other`.
    pub fn at_least(self, other: Verbosity) -> (r: bool)
        ensures
            r == (self.rank() >= other.rank()),
    {
        let a: u8 = match self {
            Verbosity::Quiet => 0,
            Verbosity::Normal => 1,
            Verbosity::Verbose => 2,
        };
        let b: u8 = match other {
            Verbosity::Quiet => 0,
            Verbosity::Normal => 1,
            Verbosity::Verbose => 2,
        };
        a >= b
    }
}

impl Default for Verbosity {
    fn default() -> (r: Self)
        ensures
            r == Verbosity::Normal,
    {
        Verbosity::Normal
    }
}

/// The output style of a run.
#[derive(Debug, Clone, Copy, PartialEq, Eq, Structural)]
pub struct Output {
    /// The requested verbosity of output.
    pub verbosity: Verbosity,
    /// Whether to avoid color codes.
    pub no_color: bool,
}

/// Resolved paths and output settings, shared by a whole invocation.
#[derive(Debug)]
pub struct Context {
    pub version: String,
    /// The location of the config file.
    pub config_file: String,
    /// The location of the configuration directory.
    pub config_dir: String,
    /// The location of the cache directory.
    pub cache_dir: String,
    /// The location of the data directory.
    pub data_dir: String,
    /// The location of the binary directory.
    pub bin_dir: String,
    /// The user's home directory.
    pub home: String,
    /// The location of the lock file.
    pub lock_file: String,
    /// The output style.
    pub output: Output,
}

/// A path with a leading `~` expanded to the home directory: `~` alone is
/// the home directory, `~/rest` lives under it, anything else is untouched.
pub open spec fn expand_tilde_spec(home: Seq<char>, p: Seq<char>) -> Seq<char> {
    if p == seq!['~'] {
        home
    } else if p.len() >= 2 && p[0] == '~' && p[1] == '/' {
        home + seq!['/'] + p.subrange(2, p.len() as int)
    } else {
        p
    }
}

/// A path with a leading home directory folded back to `~`.
pub open spec fn replace_home_spec(home: Seq<char>, p: Seq<char>) -> Seq<char> {
    if p == home {
        seq!['~']
    } else if p.len() > home.len() && p.subrange(0, home.len() as int) == home && p[home.len() as int]
        == '/' {
        seq!['~'] + p.subrange(home.len() as int, p.len() as int)
    } else {
        p
    }
}

/// Relies on std's stderr: prints one line of status output.
#[verifier::external_body]
fn emit_line(s: &str) {
    let _ = writeln!(&mut std::io::stderr(), "{}", s);
}

impl Context {
    /// The requested verbosity.
    pub fn verbosity(&self) -> (r: Verbosity)
        ensures
            r == self.output.verbosity,
    {
        self.output.verbosity
    }

    /// Expands a leading tilde in the given path to the home directory.
    pub fn expand_tilde(&self, path: String) -> (r: String)
        ensures
            r@ == expand_tilde_spec(self.home@, path@),
    {
        let cs = chars_of(path.as_str());
        let tilde: Vec<char> = vec!['~'];
        assert(tilde@ =~= seq!['~']);
        if crate::text::chars_eq(&cs, &tilde) {
            return self.home.clone();
        }
        if cs.len() >= 2 && cs[0] == '~' && cs[1] == '/' {
            let mut out = self.home.clone();
            proof {
                reveal_strlit("/");
                assert("/"@ =~= seq!['/']);
            }
            out.append("/");
            let rest = crate::archive::sub_vec(&cs, 2, cs.len());
            let rest_s = string_from_chars(&rest);
            out.append(rest_s.as_str());
            return out;
        }
        path
    }

    /// Replaces a leading home directory in the given path with a tilde.
    pub fn replace_home(&self, path: String) -> (r: String)
        ensures
            r@ == replace_home_spec(self.home@, path@),
    {
        let cs = chars_of(path.as_str());
        let hs = chars_of(self.home.as_str());
        if crate::text::chars_eq(&cs, &hs) {
            proof {
                reveal_strlit("~");
                assert("~"@ =~= seq!['~']);
            }
            return "~".to_owned();
        }
        if cs.len() > hs.len() && starts_with_chars(&cs, &hs) && cs[hs.len()] == '/' {
            proof {
                reveal_strlit("~");
                assert("~"@ =~= seq!['~']);
            }
            let mut out = "~".to_owned();
            let rest = crate::archive::sub_vec(&cs, hs.len(), cs.len());
            let rest_s = string_from_chars(&rest);
            out.append(rest_s.as_str());
            return out;
        }
        path
    }

    /// Print a header when the verbosity is at least normal.
    pub fn log_header(&self, prefix: &str, msg: &str) {
        if self.verbosity().at_least(Verbosity::Normal) {
            self.log_line(prefix, msg);
        }
    }

    /// Print a header when the verbosity is verbose.
    pub fn log_verbose_header(&self, prefix: &str, msg: &str) {
        if self.verbosity().at_least(Verbosity::Verbose) {
            self.log_line(prefix, msg);
        }
    }

    /// Print a status line when the verbosity is at least normal.
    pub fn log_status(&self, prefix: &str, msg: &str) {
        if self.verbosity().at_least(Verbosity::Normal) {
            self.log_line(prefix, msg);
        }
    }

    /// Print a status line when the verbosity is verbose.
    pub fn log_verbose_status(&self, prefix: &str, msg: &str) {
        if self.verbosity().at_least(Verbosity::Verbose) {
            self.log_line(prefix, msg);
        }
    }

    /// Print a warning when the verbosity is at least normal.
    pub fn log_warning(&self, prefix: &str, msg: &str) {
        if self.verbosity().at_least(Verbosity::Normal) {
            self.log_line(prefix, msg);
        }
    }

    /// Print a warning when the verbosity is verbose.
    pub fn log_verbose_warning(&self, prefix: &str, msg: &str) {
        if self.verbosity().at_least(Verbosity::Verbose) {
            self.log_line(prefix, msg);
        }
    }

    fn log_line(&self, prefix: &str, msg: &str) {
        let mut line = prefix.to_owned();
        line.append(" ");
        line.append(msg);
        emit_line(line.as_str());
    }

    /// Print an error, whatever the verbosity.
    pub fn log_error(&self, e: &Error) {
        let mut line = "error: ".to_owned();
        let msg = e.message();
        line.append(msg.as_str());
        emit_line(line.as_str());
    }

    /// Print an error as a warning, whatever the verbosity.
    pub fn log_error_as_warning(&self, e: &Error) {
        let mut line = "warning: ".to_owned();
        let msg = e.message();
        line.append(msg.as_str());
        emit_line(line.as_str());
    }
}

} // verus!
