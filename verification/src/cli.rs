//! The parsed command-line options, as plain data.  Argument parsing itself
//! is an outer concern; the library only consumes this record.

use vstd::prelude::*;
use crate::filetype::Input;

verus! {

/// All options a run is configured with.
#[derive(Debug)]
pub struct Opts {
    /// Debug mode.
    pub debug: bool,
    /// Do not resolve addresses to names.
    pub noresolve: bool,
    /// Verbosity level.
    pub verbose: u8,
    /// Quiet mode.
    pub quiet: bool,
    /// Display the version banner and exit.
    pub version: bool,
    /// Requested parallel jobs for resolving.
    pub jobs: usize,
    /// The input type, when given explicitly.
    pub itype: Option<Input>,
    /// The files to process; empty means standard input.
    pub files: Vec<String>,
}

impl Default for Opts {
    /// The default options: quiet off, resolution on, one job, no files.
    fn default() -> (r: Self)
        ensures
            !r.debug,
            !r.noresolve,
            r.verbose == 0,
            !r.quiet,
            !r.version,
            r.jobs == 1,
            r.itype is None,
            r.files@.len() == 0,
    {
        Opts {
            debug: false,
            noresolve: false,
            verbose: 0,
            quiet: false,
            version: false,
            jobs: 1,
            itype: None,
            files: Vec::new(),
        }
    }
}

} // verus!
