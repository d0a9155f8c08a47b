//! Naming helpers the benchmark runners share.

use vstd::prelude::*;
use vstd::string::StringExecFns;

verus! {

/// Default catalog name used in benchmarks.
pub const DEFAULT_CATALOG: &'static str = "benchmark";

/// Default schema name used in benchmarks.
pub const DEFAULT_SCHEMA: &'static str = "public";

/// The fully qualified reference of a benchmark table: the default catalog
/// and schema, then the table's own name.
pub fn table_ref(table: &str) -> (r: String)
    ensures
        r@ == "benchmark.public."@ + table@,
{
    let mut out = String::from_str("benchmark.public.");
    out.append(table);
    out
}

} // verus!
