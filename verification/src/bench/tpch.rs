//! The table definitions of the TPC-H derived benchmark: the `CREATE TABLE`
//! statements and the table schemas, plus the benchmark runner's options.

use vstd::prelude::*;
use vstd::string::StringExecFns;

use crate::bench::options::CommonOpt;
use crate::bench::schema::{schema_model, DataType, Field, Schema};

verus! {

/// The `CREATE OR REPLACE TABLE` statement of a TPC-H table, `None` for an
/// unknown table name.
pub open spec fn spec_tpch_table_sql(table: Seq<char>) -> Option<Seq<char>> {
    if table == "customer"@ {
        Some(
            "
            CREATE OR REPLACE TABLE customer (
              c_custkey BIGINT,
              c_name VARCHAR(25),
              c_address VARCHAR(40),
              c_nationkey INT,
              c_phone VARCHAR(15),
              c_acctbal DOUBLE,
              c_mktsegment VARCHAR(10),
              c_comment VARCHAR(117)
            );
        "@,
        )
    } else if table == "lineitem"@ {
        Some(
            "
            CREATE OR REPLACE TABLE lineitem (
              l_orderkey BIGINT,
              l_partkey BIGINT,
              l_suppkey BIGINT,
              l_linenumber INT,
              l_quantity DOUBLE,
              l_extendedprice DOUBLE,
              l_discount DOUBLE,
              l_tax DOUBLE,
              l_returnflag VARCHAR(1),
              l_linestatus VARCHAR(1),
              l_shipdate DATE,
              l_commitdate DATE,
              l_receiptdate DATE,
              l_shipinstruct VARCHAR(25),
              l_shipmode VARCHAR(10),
              l_comment VARCHAR(44)
            );
        "@,
        )
    } else if table == "nation"@ {
        Some(
            "
            CREATE OR REPLACE TABLE nation (
              n_nationkey INT,
              n_name VARCHAR(25),
              n_regionkey INT,
              n_comment VARCHAR(152)
            );
        "@,
        )
    } else if table == "orders"@ {
        Some(
            "
            CREATE OR REPLACE TABLE orders (
              o_orderkey BIGINT,
              o_custkey BIGINT,
              o_orderstatus VARCHAR(1),
              o_totalprice DOUBLE,
              o_orderdate DATE,
              o_orderpriority VARCHAR(15),
              o_clerk VARCHAR(15),
              o_shippriority INT,
              o_comment VARCHAR(79)
            );
        "@,
        )
    } else if table == "part"@ {
        Some(
            "
            CREATE OR REPLACE TABLE part (
              p_partkey BIGINT,
              p_name VARCHAR(55),
              p_mfgr VARCHAR(25),
              p_brand VARCHAR(10),
              p_type VARCHAR(25),
              p_size INT,
              p_container VARCHAR(10),
              p_retailprice DOUBLE,
              p_comment VARCHAR(23)
            );
        "@,
        )
    } else if table == "partsupp"@ {
        Some(
            "
            CREATE OR REPLACE TABLE partsupp (
              ps_partkey BIGINT,
              ps_suppkey BIGINT,
              ps_availqty INT,
              ps_supplycost DOUBLE,
              ps_comment VARCHAR(199)
            );
        "@,
        )
    } else if table == "region"@ {
        Some(
            "
            CREATE OR REPLACE TABLE region (
              r_regionkey INT,
              r_name VARCHAR(25),
              r_comment VARCHAR(152)
            );
        "@,
        )
    } else if table == "supplier"@ {
        Some(
            "
            CREATE OR REPLACE TABLE supplier (
              s_suppkey BIGINT,
              s_name VARCHAR(25),
              s_address VARCHAR(40),
              s_nationkey INT,
              s_phone VARCHAR(15),
              s_acctbal DOUBLE,
              s_comment VARCHAR(101)
            );
        "@,
        )
    } else {
        None
    }
}

/// The `CREATE OR REPLACE TABLE` statement for one of the eight TPC-H
/// tables.
pub fn get_tpch_table_sql(table: &String) -> (r: Option<&'static str>)
    ensures
        match r {
            Some(s) => spec_tpch_table_sql(table@) == Some(s@),
            None => spec_tpch_table_sql(table@) is None,
        },
{
    if table.eq(&String::from_str("customer")) {
        Some(
            "
            CREATE OR REPLACE TABLE customer (
              c_custkey BIGINT,
              c_name VARCHAR(25),
              c_address VARCHAR(40),
              c_nationkey INT,
              c_phone VARCHAR(15),
              c_acctbal DOUBLE,
              c_mktsegment VARCHAR(10),
              c_comment VARCHAR(117)
            );
        ",
        )
    } else if table.eq(&String::from_str("lineitem")) {
        Some(
            "
            CREATE OR REPLACE TABLE lineitem (
              l_orderkey BIGINT,
              l_partkey BIGINT,
              l_suppkey BIGINT,
              l_linenumber INT,
              l_quantity DOUBLE,
              l_extendedprice DOUBLE,
              l_discount DOUBLE,
              l_tax DOUBLE,
              l_returnflag VARCHAR(1),
              l_linestatus VARCHAR(1),
              l_shipdate DATE,
              l_commitdate DATE,
              l_receiptdate DATE,
              l_shipinstruct VARCHAR(25),
              l_shipmode VARCHAR(10),
              l_comment VARCHAR(44)
            );
        ",
        )
    } else if table.eq(&String::from_str("nation")) {
        Some(
            "
            CREATE OR REPLACE TABLE nation (
              n_nationkey INT,
              n_name VARCHAR(25),
              n_regionkey INT,
              n_comment VARCHAR(152)
            );
        ",
        )
    } else if table.eq(&String::from_str("orders")) {
        Some(
            "
            CREATE OR REPLACE TABLE orders (
              o_orderkey BIGINT,
              o_custkey BIGINT,
              o_orderstatus VARCHAR(1),
              o_totalprice DOUBLE,
              o_orderdate DATE,
              o_orderpriority VARCHAR(15),
              o_clerk VARCHAR(15),
              o_shippriority INT,
              o_comment VARCHAR(79)
            );
        ",
        )
    } else if table.eq(&String::from_str("part")) {
        Some(
            "
            CREATE OR REPLACE TABLE part (
              p_partkey BIGINT,
              p_name VARCHAR(55),
              p_mfgr VARCHAR(25),
              p_brand VARCHAR(10),
              p_type VARCHAR(25),
              p_size INT,
              p_container VARCHAR(10),
              p_retailprice DOUBLE,
              p_comment VARCHAR(23)
            );
        ",
        )
    } else if table.eq(&String::from_str("partsupp")) {
        Some(
            "
            CREATE OR REPLACE TABLE partsupp (
              ps_partkey BIGINT,
              ps_suppkey BIGINT,
              ps_availqty INT,
              ps_supplycost DOUBLE,
              ps_comment VARCHAR(199)
            );
        ",
        )
    } else if table.eq(&String::from_str("region")) {
        Some(
            "
            CREATE OR REPLACE TABLE region (
              r_regionkey INT,
              r_name VARCHAR(25),
              r_comment VARCHAR(152)
            );
        ",
        )
    } else if table.eq(&String::from_str("supplier")) {
        Some(
            "
            CREATE OR REPLACE TABLE supplier (
              s_suppkey BIGINT,
              s_name VARCHAR(25),
              s_address VARCHAR(40),
              s_nationkey INT,
              s_phone VARCHAR(15),
              s_acctbal DOUBLE,
              s_comment VARCHAR(101)
            );
        ",
        )
    } else {
        None
    }
}


/// Whether `table` names one of the eight TPC-H tables.
pub open spec fn is_tpch_table(table: Seq<char>) -> bool {
    table == "part"@ || table == "supplier"@ || table == "partsupp"@ || table == "customer"@ || table == "orders"@ || table == "lineitem"@ || table == "nation"@ || table == "region"@
}

/// The schema of a TPC-H table: field name, type, nullability, in order.
/// The schemas intentionally use signed integers so that generated data
/// files also serve engines that only support signed integers.
pub open spec fn spec_tpch_table_schema(table: Seq<char>) -> Seq<(Seq<char>, DataType, bool)> {
    if table == "part"@ {
        seq![
            ("p_partkey"@, DataType::Int64, false),
            ("p_name"@, DataType::Utf8, false),
            ("p_mfgr"@, DataType::Utf8, false),
            ("p_brand"@, DataType::Utf8, false),
            ("p_type"@, DataType::Utf8, false),
            ("p_size"@, DataType::Int32, false),
            ("p_container"@, DataType::Utf8, false),
            ("p_retailprice"@, DataType::Decimal128(15, 2), false),
            ("p_comment"@, DataType::Utf8, false),
        ]
    } else if table == "supplier"@ {
        seq![
            ("s_suppkey"@, DataType::Int64, false),
            ("s_name"@, DataType::Utf8, false),
            ("s_address"@, DataType::Utf8, false),
            ("s_nationkey"@, DataType::Int64, false),
            ("s_phone"@, DataType::Utf8, false),
            ("s_acctbal"@, DataType::Decimal128(15, 2), false),
            ("s_comment"@, DataType::Utf8, false),
        ]
    } else if table == "partsupp"@ {
        seq![
            ("ps_partkey"@, DataType::Int64, false),
            ("ps_suppkey"@, DataType::Int64, false),
            ("ps_availqty"@, DataType::Int32, false),
            ("ps_supplycost"@, DataType::Decimal128(15, 2), false),
            ("ps_comment"@, DataType::Utf8, false),
        ]
    } else if table == "customer"@ {
        seq![
            ("c_custkey"@, DataType::Int64, false),
            ("c_name"@, DataType::Utf8, false),
            ("c_address"@, DataType::Utf8, false),
            ("c_nationkey"@, DataType::Int64, false),
            ("c_phone"@, DataType::Utf8, false),
            ("c_acctbal"@, DataType::Decimal128(15, 2), false),
            ("c_mktsegment"@, DataType::Utf8, false),
            ("c_comment"@, DataType::Utf8, false),
        ]
    } else if table == "orders"@ {
        seq![
            ("o_orderkey"@, DataType::Int64, false),
            ("o_custkey"@, DataType::Int64, false),
            ("o_orderstatus"@, DataType::Utf8, false),
            ("o_totalprice"@, DataType::Decimal128(15, 2), false),
            ("o_orderdate"@, DataType::Date32, false),
            ("o_orderpriority"@, DataType::Utf8, false),
            ("o_clerk"@, DataType::Utf8, false),
            ("o_shippriority"@, DataType::Int32, false),
            ("o_comment"@, DataType::Utf8, false),
        ]
    } else if table == "lineitem"@ {
        seq![
            ("l_orderkey"@, DataType::Int64, false),
            ("l_partkey"@, DataType::Int64, false),
            ("l_suppkey"@, DataType::Int64, false),
            ("l_linenumber"@, DataType::Int32, false),
            ("l_quantity"@, DataType::Decimal128(15, 2), false),
            ("l_extendedprice"@, DataType::Decimal128(15, 2), false),
            ("l_discount"@, DataType::Decimal128(15, 2), false),
            ("l_tax"@, DataType::Decimal128(15, 2), false),
            ("l_returnflag"@, DataType::Utf8, false),
            ("l_linestatus"@, DataType::Utf8, false),
            ("l_shipdate"@, DataType::Date32, false),
            ("l_commitdate"@, DataType::Date32, false),
            ("l_receiptdate"@, DataType::Date32, false),
            ("l_shipinstruct"@, DataType::Utf8, false),
            ("l_shipmode"@, DataType::Utf8, false),
            ("l_comment"@, DataType::Utf8, false),
        ]
    } else if table == "nation"@ {
        seq![
            ("n_nationkey"@, DataType::Int64, false),
            ("n_name"@, DataType::Utf8, false),
            ("n_regionkey"@, DataType::Int64, false),
            ("n_comment"@, DataType::Utf8, false),
        ]
    } else if table == "region"@ {
        seq![
            ("r_regionkey"@, DataType::Int64, false),
            ("r_name"@, DataType::Utf8, false),
            ("r_comment"@, DataType::Utf8, false),
        ]
    } else {
        Seq::empty()
    }
}

/// The schema for the benchmark tables derived from TPC-H.
pub fn get_tpch_table_schema(table: &String) -> (r: Schema)
    requires
        is_tpch_table(table@),
    ensures
        schema_model(r) == spec_tpch_table_schema(table@),
{
    if table.eq(&String::from_str("part")) {
        let r = Schema::new(
            vec![
                Field::new("p_partkey", DataType::Int64, false),
                Field::new("p_name", DataType::Utf8, false),
                Field::new("p_mfgr", DataType::Utf8, false),
                Field::new("p_brand", DataType::Utf8, false),
                Field::new("p_type", DataType::Utf8, false),
                Field::new("p_size", DataType::Int32, false),
                Field::new("p_container", DataType::Utf8, false),
                Field::new("p_retailprice", DataType::Decimal128(15, 2), false),
                Field::new("p_comment", DataType::Utf8, false),
            ],
        );
        proof {
            assert(schema_model(r) =~= spec_tpch_table_schema(table@));
        }
        r
    } else if table.eq(&String::from_str("supplier")) {
        let r = Schema::new(
            vec![
                Field::new("s_suppkey", DataType::Int64, false),
                Field::new("s_name", DataType::Utf8, false),
                Field::new("s_address", DataType::Utf8, false),
                Field::new("s_nationkey", DataType::Int64, false),
                Field::new("s_phone", DataType::Utf8, false),
                Field::new("s_acctbal", DataType::Decimal128(15, 2), false),
                Field::new("s_comment", DataType::Utf8, false),
            ],
        );
        proof {
            assert(schema_model(r) =~= spec_tpch_table_schema(table@));
        }
        r
    } else if table.eq(&String::from_str("partsupp")) {
        let r = Schema::new(
            vec![
                Field::new("ps_partkey", DataType::Int64, false),
                Field::new("ps_suppkey", DataType::Int64, false),
                Field::new("ps_availqty", DataType::Int32, false),
                Field::new("ps_supplycost", DataType::Decimal128(15, 2), false),
                Field::new("ps_comment", DataType::Utf8, false),
            ],
        );
        proof {
            assert(schema_model(r) =~= spec_tpch_table_schema(table@));
        }
        r
    } else if table.eq(&String::from_str("customer")) {
        let r = Schema::new(
            vec![
                Field::new("c_custkey", DataType::Int64, false),
                Field::new("c_name", DataType::Utf8, false),
                Field::new("c_address", DataType::Utf8, false),
                Field::new("c_nationkey", DataType::Int64, false),
                Field::new("c_phone", DataType::Utf8, false),
                Field::new("c_acctbal", DataType::Decimal128(15, 2), false),
                Field::new("c_mktsegment", DataType::Utf8, false),
                Field::new("c_comment", DataType::Utf8, false),
            ],
        );
        proof {
            assert(schema_model(r) =~= spec_tpch_table_schema(table@));
        }
        r
    } else if table.eq(&String::from_str("orders")) {
        let r = Schema::new(
            vec![
                Field::new("o_orderkey", DataType::Int64, false),
                Field::new("o_custkey", DataType::Int64, false),
                Field::new("o_orderstatus", DataType::Utf8, false),
                Field::new("o_totalprice", DataType::Decimal128(15, 2), false),
                Field::new("o_orderdate", DataType::Date32, false),
                Field::new("o_orderpriority", DataType::Utf8, false),
                Field::new("o_clerk", DataType::Utf8, false),
                Field::new("o_shippriority", DataType::Int32, false),
                Field::new("o_comment", DataType::Utf8, false),
            ],
        );
        proof {
            assert(schema_model(r) =~= spec_tpch_table_schema(table@));
        }
        r
    } else if table.eq(&String::from_str("lineitem")) {
        let r = Schema::new(
            vec![
                Field::new("l_orderkey", DataType::Int64, false),
                Field::new("l_partkey", DataType::Int64, false),
                Field::new("l_suppkey", DataType::Int64, false),
                Field::new("l_linenumber", DataType::Int32, false),
                Field::new("l_quantity", DataType::Decimal128(15, 2), false),
                Field::new("l_extendedprice", DataType::Decimal128(15, 2), false),
                Field::new("l_discount", DataType::Decimal128(15, 2), false),
                Field::new("l_tax", DataType::Decimal128(15, 2), false),
                Field::new("l_returnflag", DataType::Utf8, false),
                Field::new("l_linestatus", DataType::Utf8, false),
                Field::new("l_shipdate", DataType::Date32, false),
                Field::new("l_commitdate", DataType::Date32, false),
                Field::new("l_receiptdate", DataType::Date32, false),
                Field::new("l_shipinstruct", DataType::Utf8, false),
                Field::new("l_shipmode", DataType::Utf8, false),
                Field::new("l_comment", DataType::Utf8, false),
            ],
        );
        proof {
            assert(schema_model(r) =~= spec_tpch_table_schema(table@));
        }
        r
    } else if table.eq(&String::from_str("nation")) {
        let r = Schema::new(
            vec![
                Field::new("n_nationkey", DataType::Int64, false),
                Field::new("n_name", DataType::Utf8, false),
                Field::new("n_regionkey", DataType::Int64, false),
                Field::new("n_comment", DataType::Utf8, false),
            ],
        );
        proof {
            assert(schema_model(r) =~= spec_tpch_table_schema(table@));
        }
        r
    } else {
        proof {
            assert(table@ == "region"@);
        }
        let r = Schema::new(
            vec![
                Field::new("r_regionkey", DataType::Int64, false),
                Field::new("r_name", DataType::Utf8, false),
                Field::new("r_comment", DataType::Utf8, false),
            ],
        );
        proof {
            assert(schema_model(r) =~= spec_tpch_table_schema(table@));
        }
        r
    }
}

/// The schema of a `.tbl` data file of a TPC-H table: the table's own
/// schema plus the trailing placeholder column those files carry.
pub fn get_tbl_tpch_table_schema(table: &String) -> (r: Schema)
    requires
        is_tpch_table(table@),
    ensures
        schema_model(r) == spec_tpch_table_schema(table@).push(
            ("__placeholder"@, DataType::Utf8, false),
        ),
{
    let mut schema = get_tpch_table_schema(table);
    let ghost before = schema;
    schema.fields.push(Field::new("__placeholder", DataType::Utf8, false));
    proof {
        assert(schema_model(schema) =~= schema_model(before).push(
            ("__placeholder"@, DataType::Utf8, false),
        ));
    }
    schema
}

/// Options of the TPC-H benchmark run.
#[derive(Debug, Clone)]
pub struct RunOpt {
    /// Query number; all queries run when none is given.
    pub query: Option<usize>,
    /// Options shared by the benchmark runners.
    pub common: CommonOpt,
    /// Path to the data files.
    pub path: String,
    /// File format of the data files: `csv` or `parquet`.
    pub file_format: String,
    /// Path of the machine-readable output file, if any.
    pub output_path: Option<String>,
    /// Whether to disable statistics collection and the optimizations that
    /// rest on it.
    pub disable_statistics: bool,
    /// Whether the first column of each table was created sorted.
    pub sorted: bool,
}

impl RunOpt {
    /// Assemble the options of one run.
    pub fn new(
        query: Option<usize>,
        common: CommonOpt,
        path: String,
        file_format: String,
        output_path: Option<String>,
        disable_statistics: bool,
        sorted: bool,
    ) -> (r: Self)
        ensures
            r.query == query,
            r.common == common,
            r.path == path,
            r.file_format == file_format,
            r.output_path == output_path,
            r.disable_statistics == disable_statistics,
            r.sorted == sorted,
    {
        RunOpt { query, common, path, file_format, output_path, disable_statistics, sorted }
    }

    /// How many times each query runs.
    pub fn iterations(&self) -> (r: usize)
        ensures
            r == self.common.iterations,
    {
        self.common.iterations
    }
}

} // verus!
