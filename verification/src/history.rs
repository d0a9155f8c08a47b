//! Query-history data types: the status of a recorded query, result-set
//! columns, and the filter parameters of a history listing.

use vstd::prelude::*;
use vstd::string::StringExecFns;

verus! {

/// Identifier of a worksheet that queries can be grouped under.
pub type WorksheetId = i64;

/// Identifier of one recorded query.
#[derive(Clone, Copy, Debug, PartialEq, Eq, Structural)]
pub struct QueryRecordId(pub i64);

/// The lifecycle status of a recorded query.
#[derive(Clone, Copy, Debug, PartialEq, Eq, Structural)]
pub enum QueryStatus {
    /// The query is still executing.
    Running,
    /// The query finished and produced a result.
    Successful,
    /// The query finished with an error.
    Failed,
    /// The query was canceled before it finished.
    Canceled,
    /// The query exceeded its time budget.
    TimedOut,
}

/// The error returned when a status string names no known status.
#[derive(Clone, Copy, Debug, PartialEq, Eq, Structural)]
pub struct ParseQueryStatusError;

impl QueryStatus {
    /// The status's display name.
    pub open spec fn spec_name(self) -> Seq<char> {
        match self {
            QueryStatus::Running => "Running"@,
            QueryStatus::Successful => "Successful"@,
            QueryStatus::Failed => "Failed"@,
            QueryStatus::Canceled => "Canceled"@,
            QueryStatus::TimedOut => "TimedOut"@,
        }
    }

    /// The status's display name, as written by the history store.
    pub fn as_str(self) -> (r: &'static str)
        ensures
            r@ == self.spec_name(),
    {
        match self {
            QueryStatus::Running => "Running",
            QueryStatus::Successful => "Successful",
            QueryStatus::Failed => "Failed",
            QueryStatus::Canceled => "Canceled",
            QueryStatus::TimedOut => "TimedOut",
        }
    }

    /// Parse a display name back into a status: exactly the five names
    /// `as_str` produces are accepted.
    pub fn parse(s: &String) -> (r: Result<QueryStatus, ParseQueryStatusError>)
        ensures
            match r {
                Ok(status) => s@ == status.spec_name(),
                Err(_) => forall|q: QueryStatus| s@ != q.spec_name(),
            },
    {
        let running = String::from_str("Running");
        let successful = String::from_str("Successful");
        let failed = String::from_str("Failed");
        let canceled = String::from_str("Canceled");
        let timed_out = String::from_str("TimedOut");
        let r = if s.eq(&running) {
            Ok(QueryStatus::Running)
        } else if s.eq(&successful) {
            Ok(QueryStatus::Successful)
        } else if s.eq(&failed) {
            Ok(QueryStatus::Failed)
        } else if s.eq(&canceled) {
            Ok(QueryStatus::Canceled)
        } else if s.eq(&timed_out) {
            Ok(QueryStatus::TimedOut)
        } else {
            Err(ParseQueryStatusError)
        };
        proof {
            if r is Err {
                assert forall|q: QueryStatus| s@ != q.spec_name() by {}
            }
        }
        r
    }
}

/// One column of a stored result set: its name and its type's name.
#[derive(Clone, Debug)]
pub struct Column {
    /// The column's name.
    pub name: String,
    /// The name of the column's SQL type.
    pub column_type: String,
}

/// The error carried by a failed query's history record: the terminal
/// status, the user-facing message, and the diagnostic detail.
#[derive(Clone, Debug)]
pub struct QueryResultError {
    /// The terminal status the query ended in.
    pub status: QueryStatus,
    /// The user-facing message.
    pub message: String,
    /// The diagnostic detail, kept apart from the message.
    pub diagnostic_message: String,
}

impl QueryResultError {
    /// The error rendered for display; the status is internal context and is
    /// not part of it.
    pub fn display_text(&self) -> (r: String)
        ensures
            r@ == "QueryResultError: "@ + self.message@ + " | Diagnostic: "@
                + self.diagnostic_message@,
    {
        let mut out = String::from_str("QueryResultError: ");
        out.append(self.message.as_str());
        out.append(" | Diagnostic: ");
        out.append(self.diagnostic_message.as_str());
        out
    }
}

/// Filters of a history listing; every field is optional and the builders
/// below set one each.
#[derive(Debug, Default)]
pub struct GetQueriesParams {
    /// Keep only queries of this worksheet.
    pub worksheet_id: Option<WorksheetId>,
    /// Keep only queries whose text contains this fragment.
    pub sql_text: Option<String>,
    /// Keep only queries that ran at least this long, in milliseconds.
    pub min_duration_ms: Option<i64>,
    /// Resume listing after this record.
    pub cursor: Option<QueryRecordId>,
    /// Return at most this many records.
    pub limit: Option<u16>,
}

impl GetQueriesParams {
    /// No filters: list everything.
    pub fn new() -> (r: Self)
        ensures
            r.worksheet_id is None,
            r.sql_text is None,
            r.min_duration_ms is None,
            r.cursor is None,
            r.limit is None,
    {
        GetQueriesParams {
            worksheet_id: None,
            sql_text: None,
            min_duration_ms: None,
            cursor: None,
            limit: None,
        }
    }

    /// Filter by worksheet.
    pub fn with_worksheet_id(self, worksheet_id: WorksheetId) -> (r: Self)
        ensures
            r == (GetQueriesParams { worksheet_id: Some(worksheet_id), ..self }),
    {
        GetQueriesParams { worksheet_id: Some(worksheet_id), ..self }
    }

    /// Filter by query text.
    pub fn with_sql_text(self, sql_text: String) -> (r: Self)
        ensures
            r == (GetQueriesParams { sql_text: Some(sql_text), ..self }),
    {
        GetQueriesParams { sql_text: Some(sql_text), ..self }
    }

    /// Filter by minimum duration.
    pub fn with_min_duration_ms(self, min_duration_ms: i64) -> (r: Self)
        ensures
            r == (GetQueriesParams { min_duration_ms: Some(min_duration_ms), ..self }),
    {
        GetQueriesParams { min_duration_ms: Some(min_duration_ms), ..self }
    }

    /// Resume after a record.
    pub fn with_cursor(self, cursor: QueryRecordId) -> (r: Self)
        ensures
            r == (GetQueriesParams { cursor: Some(cursor), ..self }),
    {
        GetQueriesParams { cursor: Some(cursor), ..self }
    }

    /// Cap the number of records.
    pub fn with_limit(self, limit: u16) -> (r: Self)
        ensures
            r == (GetQueriesParams { limit: Some(limit), ..self }),
    {
        GetQueriesParams { limit: Some(limit), ..self }
    }
}

} // verus!
