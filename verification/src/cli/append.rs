//! `append`: insert rows into the inbox content at the top of `## Rows`.

use vstd::prelude::*;
use crate::inbox::{insert_rows, row_views, spec_count_open, spec_insert_rows, InboxError};
use crate::row::AdvisoryRow;

verus! {

/// Result of a successful append.
#[derive(Debug)]
pub struct AppendResult {
    /// Number of rows inserted into the inbox.
    pub appended_count: usize,
    /// Total number of open rows in the inbox after the insert.
    pub total_open: usize,
}

/// The new inbox content after inserting `rows`, with the append's result:
/// every row is inserted, and the open rows of the new content are counted.
pub fn plan_append(content: &str, rows: &[AdvisoryRow], inbox_path: &str)
    -> (r: Result<(String, AppendResult), InboxError>)
    ensures
        match r {
            Ok((s, res)) => {
                &&& spec_insert_rows(content@, row_views(rows@)) == Some(s@)
                &&& res.appended_count == rows@.len()
                &&& res.total_open == spec_count_open(s@)
            },
            Err(e) => {
                &&& spec_insert_rows(content@, row_views(rows@)) is None
                &&& e matches InboxError::MissingRowsHeading { path }
                &&& path@ == inbox_path@
            },
        },
{
    match insert_rows(content, rows, inbox_path) {
        Err(e) => Err(e),
        Ok((s, total_open)) => Ok((s, AppendResult { appended_count: rows.len(), total_open })),
    }
}

} // verus!
