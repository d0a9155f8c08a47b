//! Collection of benchmark run data: one case per query, one record per
//! iteration.  Serialization and file output happen outside this crate; the
//! collector here owns the bookkeeping.

use vstd::prelude::*;
use vstd::string::StringExecFns;

verus! {

/// The surroundings of one benchmark run, captured at startup by the caller:
/// crate versions, core count, start time (seconds since the epoch) and the
/// command-line arguments.
#[derive(Debug, Clone)]
pub struct RunContext {
    /// Benchmark crate version.
    pub benchmark_version: String,
    /// Version of the query engine.
    pub datafusion_version: String,
    /// Number of CPU cores.
    pub num_cpus: usize,
    /// Start time, in seconds since the epoch.
    pub start_time: u64,
    /// Command-line arguments of the run.
    pub arguments: Vec<String>,
}

/// A single iteration of a benchmark query.
#[derive(Debug, Clone)]
pub struct QueryIter {
    /// How long the iteration took, in milliseconds.
    pub elapsed_ms: u64,
    /// How many rows it returned.
    pub row_count: usize,
}

/// A single benchmark case: one query and its iterations.
#[derive(Debug, Clone)]
pub struct BenchQuery {
    query: String,
    iterations: Vec<QueryIter>,
    start_time: u64,
}

impl BenchQuery {
    /// The case's query identifier.
    pub closed spec fn spec_query(&self) -> Seq<char> {
        self.query@
    }

    /// The case's recorded iterations.
    pub closed spec fn spec_iterations(&self) -> Seq<QueryIter> {
        self.iterations@
    }
}

/// Collects benchmark run data case by case; the caller serializes it at the
/// end.
pub struct BenchmarkRun {
    context: RunContext,
    queries: Vec<BenchQuery>,
    current_case: Option<usize>,
}

impl BenchmarkRun {
    /// The recorded cases.
    pub closed spec fn spec_queries(&self) -> Seq<BenchQuery> {
        self.queries@
    }

    /// The index of the case currently collecting iterations.
    pub closed spec fn spec_current_case(&self) -> Option<usize> {
        self.current_case
    }

    /// The run's captured surroundings.
    pub closed spec fn spec_context(&self) -> RunContext {
        self.context
    }

    /// The collector is consistent: while a case is current, it indexes a
    /// recorded case.
    pub open spec fn wf(&self) -> bool {
        self.spec_current_case() matches Some(c) ==> (c as int) < self.spec_queries().len()
    }

    /// A fresh collector for one run.  The caller captures the context (its
    /// versions, core count, clock and arguments are read at the edge).
    pub fn new(context: RunContext) -> (r: Self)
        ensures
            r.wf(),
            r.spec_queries() == Seq::<BenchQuery>::empty(),
            r.spec_current_case() is None,
            r.spec_context() == context,
    {
        BenchmarkRun { context, queries: Vec::new(), current_case: None }
    }

    /// Open a new case for query `id`: an empty iteration list, stamped with
    /// the clock, becomes the current case.
    pub fn start_new_case(&mut self, id: &str)
        requires
            old(self).wf(),
            old(self).spec_queries().len() < usize::MAX,
        ensures
            final(self).wf(),
            final(self).spec_queries().len() == old(self).spec_queries().len() + 1,
            final(self).spec_queries().last().spec_query() == id@,
            final(self).spec_queries().last().spec_iterations() == Seq::<QueryIter>::empty(),
            forall|i: int|
                0 <= i < old(self).spec_queries().len() ==> final(self).spec_queries()[i] == old(
                    self,
                ).spec_queries()[i],
            final(self).spec_current_case() == Some(
                (final(self).spec_queries().len() - 1) as usize,
            ),
            final(self).spec_context() == old(self).spec_context(),
    {
        self.queries.push(
            BenchQuery { query: id.to_owned(), iterations: Vec::new(), start_time: now_unix_secs() },
        );
        self.current_case = Some(self.queries.len() - 1);
    }

    /// Record one iteration of the current case.
    pub fn write_iter(&mut self, elapsed_ms: u64, row_count: usize)
        requires
            old(self).wf(),
            old(self).spec_current_case() is Some,
        ensures
            final(self).wf(),
            ({
                let c = old(self).spec_current_case().unwrap() as int;
                &&& final(self).spec_queries().len() == old(self).spec_queries().len()
                &&& final(self).spec_queries()[c].spec_iterations() == old(
                    self,
                ).spec_queries()[c].spec_iterations().push(QueryIter { elapsed_ms, row_count })
                &&& final(self).spec_queries()[c].spec_query() == old(
                    self,
                ).spec_queries()[c].spec_query()
                &&& forall|i: int|
                    0 <= i < old(self).spec_queries().len() && i != c
                        ==> final(self).spec_queries()[i] == old(self).spec_queries()[i]
                &&& final(self).spec_current_case() == old(self).spec_current_case()
                &&& final(self).spec_context() == old(self).spec_context()
            }),
    {
        let idx = match self.current_case {
            Some(c) => c,
            None => {
                proof {
                    assert(false);
                }
                0
            },
        };
        let case = &mut self.queries[idx];
        case.iterations.push(QueryIter { elapsed_ms, row_count });
    }
}

/// Relies on `std::time::SystemTime::now`: the wall clock, read as whole
/// seconds since the epoch.  Nothing is assumed of the value.
#[verifier::external_body]
fn now_unix_secs() -> u64 {
    std::time::SystemTime::now()
        .duration_since(std::time::SystemTime::UNIX_EPOCH)
        .map(|d| d.as_secs())
        .unwrap_or(0)
}

} // verus!
