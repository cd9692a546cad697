//! The process-wide tunables, and the argument record the program is run with.

use vstd::prelude::*;

verus! {

/// Timeout of one URL probe, in milliseconds.
pub const URL_TIMEOUT_MS: u64 = 3000;

/// Timeout of one node probe, in milliseconds.
pub const NODE_TIMEOUT_MS: u64 = 2000;

/// Time budget of parsing one body, in milliseconds.
pub const PARSE_TIMEOUT_MS: u64 = 5000;

/// Default bound on concurrently running network tasks.
pub const MAX_IO_WORKERS: usize = 100;

/// Default bound on concurrently running parse tasks.
pub const MAX_PARSE_WORKERS: usize = 30;

/// A body is truncated to this many bytes of UTF-8, at a character boundary,
/// before parsing.
pub const MAX_TEXT_SIZE: usize = 50 * 1024 * 1024;

/// A body is truncated to this many lines before parsing.
pub const MAX_LINES: usize = 50000;

/// A body of more bytes than this is skipped outright rather than truncated.
pub const OVERSIZE_BODY: usize = 100 * 1024 * 1024;

/// At most this many entries of one structured config are read.
pub const MAX_PROXIES_PER_CONFIG: usize = 2000;

/// At most this many bare `host:port` matches are taken from one body.
pub const MAX_HOSTPORT_MATCHES: usize = 5000;

/// At most this many inline objects are taken from one body.
pub const MAX_JSON_MATCHES: usize = 1000;

/// What the program is asked to do: where to read, where to write the two
/// reports, and how wide the worker pools are.
pub struct Args {
    /// Input file or folder to scan.
    pub input: String,
    /// Output path of the working-URL report.
    pub url_out: String,
    /// Output path of the node-latency report.
    pub node_out: String,
    /// Verbose logging.
    pub verbose: bool,
    /// Bound on concurrently running network tasks.
    pub max_io_workers: usize,
    /// Bound on concurrently running parse tasks.
    pub max_parse_workers: usize,
}

impl Args {
    /// The argument record for one input, everything else at its default:
    /// the standard report paths, verbosity off, and the default pool widths.
    pub fn with_input(input: String) -> (r: Args)
        ensures
            r.input == input,
            r.url_out@ == "working_links.md"@,
            r.node_out@ == "node_latencies.md"@,
            r.verbose == false,
            r.max_io_workers == MAX_IO_WORKERS,
            r.max_parse_workers == MAX_PARSE_WORKERS,
    {
        Args {
            input,
            url_out: crate::text::str_to_string("working_links.md"),
            node_out: crate::text::str_to_string("node_latencies.md"),
            verbose: false,
            max_io_workers: MAX_IO_WORKERS,
            max_parse_workers: MAX_PARSE_WORKERS,
        }
    }
}

} // verus!
