//! What the ingester is configured with.
use vstd::prelude::*;

verus! {

/// How the ingester runs: print parsed lines, or store them in batches.
#[derive(Debug, PartialEq)]
pub struct Opt {
    /// Print the parsed lines instead of storing them.
    pub dry_run: bool,
    /// Addresses whose lines are not stored.
    pub filter_ips: Vec<String>,
    /// The number of lines stored in one transaction; at least one.
    pub buffer: usize,
    /// The path of the SQLite database.
    pub db: String,
}

} // verus!
