//! Options shared by the benchmark runners.

use vstd::prelude::*;

verus! {

/// A boolean option whose absence means true.
pub type BoolDefaultTrue = bool;

/// Options every benchmark run takes, whichever workload it drives.
#[derive(Debug, Clone)]
pub struct CommonOpt {
    /// Number of iterations of each test run.
    pub iterations: usize,
    /// The number of output parquet files.
    pub output_files_number: usize,
    /// Hash join when true, sort-merge join when false; true by default.
    pub prefer_hash_join: BoolDefaultTrue,
    /// Drive the plain engine instead of the full service.
    pub datafusion: bool,
    /// Number of partitions to process in parallel; the runner falls back to
    /// the machine's available cores when none is given.
    pub partitions: Option<usize>,
    /// Batch size when reading CSV or Parquet files.
    pub batch_size: usize,
    /// The memory pool type to use: one of `fair` or `greedy`.
    pub mem_pool_type: String,
    /// Memory limit in bytes, when one is set.
    pub memory_limit: Option<usize>,
    /// Bytes reserved for sort spill operations, when set.
    pub sort_spill_reservation_bytes: Option<usize>,
    /// Print more details while running.
    pub debug: bool,
    /// Load the data into memory before executing the query.
    pub mem_table: bool,
    /// Enable Parquet filter pushdown.
    pub pushdown: bool,
}

} // verus!
