//! Benchmark harness data: runner options, table definitions, and the
//! collector of per-query timings.

pub mod clickbench;
pub mod options;
pub mod run;
pub mod schema;
pub mod tpch;
pub mod util;
