//! Tests of the bootstrap self-check and the query, history and benchmark
//! data types.

use slatedb_vfs::analyzer::CustomTypeCoercionRewriter;
use slatedb_vfs::bench::clickbench::{get_hits_table_sql, AllQueries};
use slatedb_vfs::bench::options::CommonOpt;
use slatedb_vfs::bench::run::{BenchmarkRun, RunContext};
use slatedb_vfs::bench::schema::DataType;
use slatedb_vfs::bench::tpch::{get_tbl_tpch_table_schema, get_tpch_table_schema, get_tpch_table_sql};
use slatedb_vfs::bench::util::table_ref;
use slatedb_vfs::bootstrap::{pragma_setup, self_check, Bootstrap, BootstrapError};
use slatedb_vfs::error::StringError;
use slatedb_vfs::history::{
    GetQueriesParams, ParseQueryStatusError, QueryRecordId, QueryResultError, QueryStatus,
};
use slatedb_vfs::queries::default_true;
use slatedb_vfs::queries::QueryStatus as UiQueryStatus;
use slatedb_vfs::sql_state::SqlState;

#[test]
fn bootstrap_registers_exactly_once() {
    let mut b = Bootstrap::new();
    assert!(b.init());
    // The second invocation does not register again and does not fail.
    assert!(!b.init());
    assert!(!b.init());
}

#[test]
fn self_check_passes_on_matching_pragma_and_probe_table() {
    let tables = vec!["other".to_string(), "test".to_string()];
    let r = pragma_setup(&"slatedb_vfs".to_string(), &tables);
    assert_eq!(r, Ok(()));
    // Judging the same observations again succeeds again.
    assert_eq!(pragma_setup(&"slatedb_vfs".to_string(), &tables), Ok(()));
}

#[test]
fn self_check_rejects_a_foreign_vfs() {
    let tables = vec!["test".to_string()];
    let r = pragma_setup(&"unix".to_string(), &tables);
    assert_eq!(r, Err(BootstrapError::NoVfsDetected));
}

#[test]
fn self_check_rejects_a_missing_probe_table() {
    let tables = vec!["something_else".to_string()];
    let r = pragma_setup(&"slatedb_vfs".to_string(), &tables);
    assert_eq!(r, Err(BootstrapError::SelfCheck));
}

#[test]
fn query_status_names_round_trip() {
    let all = [
        QueryStatus::Running,
        QueryStatus::Successful,
        QueryStatus::Failed,
        QueryStatus::Canceled,
        QueryStatus::TimedOut,
    ];
    for status in all {
        let name = status.as_str().to_string();
        assert_eq!(QueryStatus::parse(&name), Ok(status));
    }
    assert_eq!(
        QueryStatus::parse(&"NotAStatus".to_string()),
        Err(ParseQueryStatusError)
    );
}

#[test]
fn ui_query_status_maps_one_to_one() {
    assert_eq!(
        UiQueryStatus::from_item(QueryStatus::TimedOut),
        UiQueryStatus::TimedOut
    );
    assert_eq!(
        UiQueryStatus::from_item(QueryStatus::Running),
        UiQueryStatus::Running
    );
}

#[test]
fn sql_states_render_their_codes() {
    assert_eq!(SqlState::Success.as_code(), "02000");
    assert_eq!(SqlState::SyntaxError.as_code(), "42000");
    assert_eq!(SqlState::CantLocateQueryResult.as_code(), "42S01");
    assert_eq!(SqlState::DoesNotExist.as_code(), "42S02");
    assert_eq!(SqlState::GenericQueryErrorFromHistory.as_code(), "42S03");
    assert_eq!(SqlState::FeatureNotSupported.as_code(), "0A000");
}

#[test]
fn get_queries_params_builders_set_one_field_each() {
    let p = GetQueriesParams::new()
        .with_worksheet_id(42)
        .with_sql_text("select 1".to_string())
        .with_min_duration_ms(250)
        .with_cursor(QueryRecordId(7))
        .with_limit(10);
    assert_eq!(p.worksheet_id, Some(42));
    assert_eq!(p.sql_text.as_deref(), Some("select 1"));
    assert_eq!(p.min_duration_ms, Some(250));
    assert_eq!(p.cursor, Some(QueryRecordId(7)));
    assert_eq!(p.limit, Some(10));
    let empty = GetQueriesParams::new();
    assert!(empty.worksheet_id.is_none() && empty.limit.is_none());
}

#[test]
fn query_result_error_renders_message_and_diagnostic() {
    let e = QueryResultError {
        status: QueryStatus::Failed,
        message: "boom".to_string(),
        diagnostic_message: "stack".to_string(),
    };
    assert_eq!(e.display_text(), "QueryResultError: boom | Diagnostic: stack");
}

#[test]
fn string_error_is_its_message() {
    let e = StringError("lost connection".to_string());
    assert_eq!(e.display_text(), "lost connection");
}

#[test]
fn tpch_table_sql_covers_the_eight_tables() {
    for table in [
        "customer", "lineitem", "nation", "orders", "part", "partsupp", "region", "supplier",
    ] {
        let sql = get_tpch_table_sql(&table.to_string()).expect("known table");
        assert!(sql.contains(&format!("CREATE OR REPLACE TABLE {table}")));
    }
    assert!(get_tpch_table_sql(&"hits".to_string()).is_none());
}

#[test]
fn hits_table_sql_names_the_given_table() {
    let sql = get_hits_table_sql(&"benchmark.public.hits".to_string());
    assert!(sql.starts_with("CREATE OR REPLACE TABLE benchmark.public.hits ("));
    assert!(sql.contains("WatchID BIGINT"));
    assert!(sql.ends_with(");"));
}

#[test]
fn table_ref_qualifies_with_catalog_and_schema() {
    assert_eq!(table_ref("hits"), "benchmark.public.hits");
}

#[test]
fn all_queries_index_by_line() {
    let qs = AllQueries::new(vec!["q0".to_string(), "q1".to_string()]);
    assert_eq!(qs.min_query_id(), 0);
    assert_eq!(qs.max_query_id(), 1);
    assert_eq!(qs.get_query(1), Some(&"q1".to_string()));
    assert_eq!(qs.get_query(2), None);
}

#[test]
fn benchmark_run_collects_cases_and_iterations() {
    let context = RunContext {
        benchmark_version: "0.1.0".to_string(),
        datafusion_version: "48.0.0".to_string(),
        num_cpus: 8,
        start_time: 1_700_000_000,
        arguments: vec!["--iterations".to_string(), "3".to_string()],
    };
    let mut run = BenchmarkRun::new(context);
    run.start_new_case("Query 0");
    run.write_iter(12, 100);
    run.write_iter(11, 100);
    run.start_new_case("Query 1");
    run.write_iter(7, 42);
}

#[test]
fn common_opt_carries_the_run_settings() {
    let opt = CommonOpt {
        iterations: 3,
        output_files_number: 1,
        prefer_hash_join: true,
        datafusion: false,
        partitions: Some(4),
        batch_size: 8192,
        mem_pool_type: "fair".to_string(),
        memory_limit: None,
        sort_spill_reservation_bytes: None,
        debug: false,
        mem_table: false,
        pushdown: false,
    };
    assert_eq!(opt.iterations, 3);
    assert_eq!(opt.partitions, Some(4));
}

#[test]
fn default_async_exec_is_on() {
    assert!(default_true());
}

#[test]
fn coercion_rewriter_carries_no_state() {
    let a = CustomTypeCoercionRewriter::new();
    let b = CustomTypeCoercionRewriter::new();
    assert_eq!(a, b);
}

#[test]
fn tpch_schemas_list_the_expected_fields() {
    let part = get_tpch_table_schema(&"part".to_string());
    assert_eq!(part.fields.len(), 9);
    assert_eq!(part.fields[0].name, "p_partkey");
    assert_eq!(part.fields[0].data_type, DataType::Int64);
    assert!(!part.fields[0].nullable);
    assert_eq!(part.fields[7].data_type, DataType::Decimal128(15, 2));
    let lineitem = get_tpch_table_schema(&"lineitem".to_string());
    assert_eq!(lineitem.fields.len(), 16);
    assert_eq!(lineitem.fields[10].data_type, DataType::Date32);
    // The .tbl reader's schema carries the trailing placeholder column.
    let tbl = get_tbl_tpch_table_schema(&"region".to_string());
    assert_eq!(tbl.fields.len(), 4);
    assert_eq!(tbl.fields[3].name, "__placeholder");
    assert_eq!(tbl.fields[3].data_type, DataType::Utf8);
}

#[test]
fn full_self_check_requires_all_three_observations() {
    let tables = vec!["test".to_string()];
    let wal = Some("wal".to_string());
    assert_eq!(self_check(&"slatedb_vfs".to_string(), &wal, &tables), Ok(()));
    assert_eq!(
        self_check(&"unix".to_string(), &wal, &tables),
        Err(BootstrapError::NoVfsDetected)
    );
    assert_eq!(
        self_check(&"slatedb_vfs".to_string(), &None, &tables),
        Err(BootstrapError::JournalMode)
    );
    assert_eq!(
        self_check(&"slatedb_vfs".to_string(), &wal, &vec!["other".to_string()]),
        Err(BootstrapError::SelfCheck)
    );
}
