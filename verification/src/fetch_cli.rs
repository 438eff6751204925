//! Command-line options of the list fetcher, as plain data.

use vstd::prelude::*;

verus! {

/// The fetcher's options.
#[derive(Debug)]
pub struct Args {
    /// Log verbosity: 0 errors only, up to 4 for trace output.
    pub debug: u8,
    /// Files holding URLs of lists to download.
    pub lists_file: Vec<String>,
    /// Name of the concatenated output file.
    pub output: String,
    /// How often to retry a failing download.
    pub max_retries: u32,
}

} // verus!
