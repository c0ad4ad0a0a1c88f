//! Tool inputs, outputs and errors, and the tools' computations.

use vstd::prelude::*;
use crate::cli::dedup::{dedup_rows, kept_rows, row_ids, skipped_rows};
use crate::cli::migrate_state::MigrateSource;
use crate::cli::parse_report::{parse_report, spec_parse_report, ReportError};
use crate::cli::scan_and_append::ScanOutcome;
use crate::cli::state_backfill::BackfillResult;
use crate::inbox::row_views;
use crate::row::{AdvisoryRow, RowView};
use crate::state::StateFile;
use crate::text::{from_chars, string_views, to_chars};

pub use crate::cli::dedup::DedupOutput;

verus! {

/// JSON-RPC error code of a failed tool (server error range).
pub const TOOL_ERROR_CODE: i64 = -32000;

/// A failed tool call: JSON-RPC code, message, and the subcommand with the
/// exit status that the command line would have given.
#[derive(Debug)]
pub struct McpError {
    pub code: i64,
    pub message: String,
    pub subcmd: String,
    pub exit_code: i32,
}

/// The error of tool `subcmd` with exit status `exit_code` and message `msg`.
pub fn mcp_error(subcmd: &str, exit_code: i32, msg: &str) -> (e: McpError)
    ensures
        e.code == TOOL_ERROR_CODE,
        e.message@ == msg@,
        e.subcmd@ == subcmd@,
        e.exit_code == exit_code,
{
    McpError {
        code: TOOL_ERROR_CODE,
        message: from_chars(&to_chars(msg)),
        subcmd: from_chars(&to_chars(subcmd)),
        exit_code,
    }
}

/// Input of `parse_report`.
#[derive(Debug)]
pub struct ParseReportInput {
    /// Agent report markdown holding the appendable block.
    pub report_text: String,
}

/// Output of `parse_report` (its free-form stack metadata is added by the transport).
#[derive(Debug)]
pub struct ParseReportOutput {
    /// Rows of the block.
    pub rows: Vec<AdvisoryRow>,
    /// Number of rows.
    pub advisories_found: usize,
}

/// Input of `dedup`.
#[derive(Debug)]
pub struct DedupInput {
    /// Path of the state file.
    pub state_path: String,
    /// Rows to filter.
    pub rows: Vec<AdvisoryRow>,
}

/// Input of `append`.
#[derive(Debug)]
pub struct AppendInput {
    /// Path of the inbox markdown.
    pub inbox_path: String,
    /// Rows to insert at the top of `## Rows`.
    pub rows: Vec<AdvisoryRow>,
}

/// Output of `append`.
#[derive(Debug)]
pub struct AppendOutput {
    /// Number of rows inserted.
    pub appended_count: usize,
    /// Open rows in the inbox afterwards.
    pub total_open: usize,
}

/// Input of `migrate_state`.
#[derive(Debug)]
pub struct MigrateStateInput {
    /// Path of the state file.
    pub state_path: String,
    /// Classify and report without writing.
    pub dry_run: bool,
}

/// Output of `migrate_state`.
#[derive(Debug)]
pub struct MigrateStateOutput {
    /// Format found (`missing`, `legacy`, `json-v1`).
    pub from: String,
    /// Format written (`json-v1`).
    pub to: String,
    /// Seen IDs in the resulting state.
    pub seen_count: usize,
}

/// Input of `state_backfill`.
#[derive(Debug)]
pub struct StateBackfillInput {
    /// Path of the state file.
    pub state_path: String,
    /// Path of the inbox markdown.
    pub inbox_path: String,
}

/// Output of `state_backfill`.
#[derive(Debug)]
pub struct StateBackfillOutput {
    /// IDs added to the state.
    pub backfilled_count: usize,
    /// Seen IDs afterwards.
    pub total_seen_after: usize,
}

/// Input of `scan_and_append`.
#[derive(Debug)]
pub struct ScanAndAppendInput {
    /// Agent report markdown holding the appendable block.
    pub report_text: String,
    /// Path of the inbox markdown.
    pub inbox_path: String,
    /// Path of the state file.
    pub state_path: String,
}

/// Output of `scan_and_append`.
#[derive(Debug)]
pub struct ScanAndAppendOutput {
    /// Rows inserted.
    pub appended: usize,
    /// Rows skipped as already seen.
    pub skipped_dedup: usize,
    /// Open rows in the inbox afterwards.
    pub total_open: usize,
}

/// The advisory-inbox MCP service.
#[derive(Debug)]
pub struct AdvisoryInboxService;

impl AdvisoryInboxService {
    /// `parse_report`: the rows of the report's block. A missing marker is a
    /// tool error with exit status 1, a bad row one with exit status 2.
    pub fn parse_report(&self, p: ParseReportInput) -> (r: Result<ParseReportOutput, McpError>)
        ensures
            match r {
                Ok(out) => spec_parse_report(p.report_text@) == Ok::<Seq<RowView>, ReportError>(row_views(out.rows@))
                    && out.advisories_found == out.rows@.len(),
                Err(e) => exists|re: ReportError| spec_parse_report(p.report_text@) == Err::<Seq<RowView>, ReportError>(re)
                    && e.code == TOOL_ERROR_CODE && e.subcmd@ == "parse_report"@ && e.exit_code == re.exit_code_spec()
                    && e.message@ == re.message_spec(),
            },
    {
        match parse_report(p.report_text.as_str()) {
            Ok(rows) => {
                let n = rows.len();
                Ok(ParseReportOutput { rows, advisories_found: n })
            },
            Err(re) => {
                let msg = re.message();
                Err(mcp_error("parse_report", re.exit_code(), msg.as_str()))
            },
        }
    }

    /// `dedup`: splits `rows` against the state's seen IDs.
    pub fn dedup(&self, state: &StateFile, rows: &Vec<AdvisoryRow>) -> (r: DedupOutput)
        ensures
            row_views(r.kept@) == kept_rows(state@.seen, row_views(rows@)),
            row_views(r.skipped@) == skipped_rows(state@.seen, row_views(rows@)),
            string_views(r.observed_ids@) == row_ids(row_views(rows@)),
    {
        dedup_rows(&state.seen_advisories, rows)
    }
}

impl AppendOutput {
    /// The tool output of an append.
    pub fn from_result(res: &crate::cli::append::AppendResult) -> (o: AppendOutput)
        ensures
            o.appended_count == res.appended_count,
            o.total_open == res.total_open,
    {
        AppendOutput { appended_count: res.appended_count, total_open: res.total_open }
    }
}

impl MigrateStateOutput {
    /// The tool output of a migration from `src` that produced `state`.
    pub fn from_migration(src: MigrateSource, state: &StateFile) -> (o: MigrateStateOutput)
        ensures
            o.from@ == src.label_spec(),
            o.to@ == "json-v1"@,
            o.seen_count == state.seen_advisories@.len(),
    {
        MigrateStateOutput {
            from: from_chars(&to_chars(src.label())),
            to: from_chars(&to_chars("json-v1")),
            seen_count: state.seen_advisories.len(),
        }
    }
}

impl StateBackfillOutput {
    /// The tool output of a backfill.
    pub fn from_result(res: &BackfillResult) -> (o: StateBackfillOutput)
        ensures
            o.backfilled_count == res.backfilled_count,
            o.total_seen_after == res.total_seen_after,
    {
        StateBackfillOutput { backfilled_count: res.backfilled_count, total_seen_after: res.total_seen_after }
    }
}

impl ScanAndAppendOutput {
    /// The tool output of a scan-and-append.
    pub fn from_outcome(o: &ScanOutcome) -> (r: ScanAndAppendOutput)
        ensures
            r.appended == o.appended,
            r.skipped_dedup == o.skipped_dedup,
            r.total_open == o.total_open,
    {
        ScanAndAppendOutput { appended: o.appended, skipped_dedup: o.skipped_dedup, total_open: o.total_open }
    }
}

} // verus!
