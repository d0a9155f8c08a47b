//! Data types of the query HTTP surface: the payload that creates a query,
//! the status and columns it reports, and the listing filters.

use vstd::prelude::*;

use crate::history::QueryStatus as QueryStatusItem;
use crate::history::WorksheetId;

verus! {

/// Whether a created query runs asynchronously when the payload leaves the
/// flag out.
pub fn default_true() -> (r: bool)
    ensures
        r,
{
    true
}

/// One column of a reported result set: its name and its type's name.
#[derive(Clone, Debug)]
pub struct Column {
    /// The column's name.
    pub name: String,
    /// The name of the column's SQL type.
    pub column_type: String,
}

/// The payload that creates a query: the text, the worksheet it belongs to,
/// whether to run it asynchronously, and free-form context pairs.
#[derive(Clone, Debug)]
pub struct QueryCreatePayload {
    /// The worksheet the query is grouped under, if any.
    pub worksheet_id: Option<WorksheetId>,
    /// Whether the query runs asynchronously; on by default.
    pub async_exec: bool,
    /// The query text.
    pub query: String,
    /// Free-form key-value context attached to the query.
    pub context: Option<Vec<(String, String)>>,
}

/// The lifecycle status a query reports over the HTTP surface.
#[derive(Clone, Copy, Debug, PartialEq, Eq, Structural)]
pub enum QueryStatus {
    /// The query is still executing.
    Running,
    /// The query finished and produced a result.
    Successful,
    /// The query finished with an error.
    Failed,
    /// The query was canceled before it finished.
    Canceled,
    /// The query exceeded its time budget.
    TimedOut,
}

impl QueryStatus {
    /// Translate a history-store status into the reported one; the variants
    /// correspond one to one.
    pub fn from_item(value: QueryStatusItem) -> (r: Self)
        ensures
            value == QueryStatusItem::Running <==> r == QueryStatus::Running,
            value == QueryStatusItem::Successful <==> r == QueryStatus::Successful,
            value == QueryStatusItem::Failed <==> r == QueryStatus::Failed,
            value == QueryStatusItem::Canceled <==> r == QueryStatus::Canceled,
            value == QueryStatusItem::TimedOut <==> r == QueryStatus::TimedOut,
    {
        match value {
            QueryStatusItem::Running => QueryStatus::Running,
            QueryStatusItem::Successful => QueryStatus::Successful,
            QueryStatusItem::Failed => QueryStatus::Failed,
            QueryStatusItem::Canceled => QueryStatus::Canceled,
            QueryStatusItem::TimedOut => QueryStatus::TimedOut,
        }
    }
}

/// Filters of the query listing endpoint.
#[derive(Clone, Copy, Debug)]
pub struct GetQueriesParams {
    /// Keep only queries of this worksheet.
    pub worksheet_id: Option<WorksheetId>,
    /// Keep only queries that ran at least this long, in milliseconds.
    pub min_duration_ms: Option<i64>,
}

} // verus!
