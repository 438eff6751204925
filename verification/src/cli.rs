//! Command-line options of the blocklist compiler, as plain data; the
//! argument parsing itself is the embedding program's business.

use vstd::prelude::*;

verus! {

/// What to do with the compiled Block Index.
#[derive(Debug)]
pub enum Commands {
    /// Pack the domain lists into one output file.
    Pack {
        /// Output in zone (response-policy) format.
        bind: bool,
        /// Name of the output file.
        output_file: String,
    },
    /// Act as a pipe over a resolver's query log.
    Pipe {
        /// Keep only these client addresses (comma-separated).
        filter: Option<String>,
    },
}

/// The compiler's options.
#[derive(Debug)]
pub struct Args {
    /// Log verbosity: 0 errors only, up to 4 for trace output.
    pub debug: u8,
    /// Print timing information at the end of a run.
    pub timing: bool,
    /// Files holding URLs of remote block lists.
    pub lists_file: Option<Vec<String>>,
    /// Local files of domains to block.
    pub block_file: Option<Vec<String>>,
    /// File of domains that must never be blocked.
    pub allow_file: Option<String>,
    /// The selected mode.
    pub command: Commands,
}

} // verus!
