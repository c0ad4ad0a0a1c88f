//! Whole-command scenarios, computed by the library on in-memory documents.

use advisory_inbox::cli::append::plan_append;
use advisory_inbox::cli::dedup::dedup_rows;
use advisory_inbox::cli::migrate_state::{migrate, MigrateError, MigrateSource};
use advisory_inbox::cli::parse_report::{parse_report, ReportError};
use advisory_inbox::cli::scan_and_append::plan_scan;
use advisory_inbox::cli::state_backfill::backfill;
use advisory_inbox::inbox::{parse_rows, InboxError};
use advisory_inbox::row::{AdvisoryRow, RowParseError};
use advisory_inbox::sentinel::SentinelError;
use advisory_inbox::state::{StateFile, Timestamp};

const AGENT_REPORT: &str = "# Advisory watch report\n\n\
**Stack scanned:** next, react\n\n\
<!-- INBOX_APPEND_START -->\n\
| 2026-05-28 | CVE-2026-9999 | https://nvd.nist.gov/vuln/detail/CVE-2026-9999 | next@<15.5.17 | src/middleware.ts:42 | High | open | - |\n\
| 2026-05-28 | GHSA-aaaa-bbbb | https://github.com/advisories/GHSA-aaaa-bbbb | react@<19.0.1 | indirect | Medium | open | - |\n\
<!-- INBOX_APPEND_END -->\n";

const INBOX_BASELINE: &str = "# Advisory Inbox\n\n\
<!-- Placeholder example (not a real row):\n\
| 2026-05-23 | GHSA-placeholder | https://example.test | pkg@<1 | indirect | Medium | open | - |\n\
-->\n\n\
## Rows\n\n\
| Date | Advisory ID | Source URL | Package | File:Line | Severity | Status | Note |\n\
|------|-------------|------------|---------|-----------|----------|--------|------|\n\
| 2026-05-20 | CVE-OLD-1 | https://example.test/CVE-OLD-1 | pkg@<0.9 | src/old.rs:1 | High | open | - |\n\
| 2026-05-19 | CVE-OLD-2 | https://example.test/CVE-OLD-2 | pkg@<0.8 | src/old.rs:2 | Medium | processed | reviewed |\n";

const INBOX_5ROWS_3PROCESSED: &str = "# Advisory Inbox\n\n## Rows\n\n\
| Date | Advisory ID | Source URL | Package | File:Line | Severity | Status | Note |\n\
|------|-------------|------------|---------|-----------|----------|--------|------|\n\
| 2026-05-28 | CVE-2026-9001 | https://x.test/1 | a@<1 | f:1 | High | processed | fixed |\n\
| 2026-05-28 | CVE-2026-9002 | https://x.test/2 | b@<1 | f:2 | Medium | dismissed | n/a |\n\
| 2026-05-28 | CVE-2026-9003 | https://x.test/3 | c@<1 | f:3 | Low | processed | fixed |\n\
| 2026-05-28 | CVE-2026-9004 | https://x.test/4 | d@<1 | f:4 | High | open | - |\n\
| 2026-05-28 | CVE-2026-9005 | https://x.test/5 | e@<1 | f:5 | Critical | open | - |\n";

const T_2026_05_23_NOON: Timestamp = Timestamp { secs: 1_779_537_600, nanos: 0 };
const T_LATER: Timestamp = Timestamp { secs: 1_780_000_000, nanos: 5 };

fn state(seen: &[&str], at: Timestamp) -> StateFile {
    StateFile {
        schema_version: 1,
        last_scan_at: at,
        seen_advisories: seen.iter().map(|s| s.to_string()).collect(),
        agent_version: "advisory-watch@0.1.0".to_string(),
    }
}

fn rows_of(lines: &[&str]) -> Vec<AdvisoryRow> {
    lines.iter().map(|l| advisory_inbox::row::parse_row(l).unwrap()).collect()
}

#[test]
fn parse_report_happy_path_two_rows() {
    let rows = parse_report(AGENT_REPORT).unwrap();
    assert_eq!(rows.len(), 2);
    assert_eq!(rows[0].advisory_id, "CVE-2026-9999");
    assert_eq!(rows[1].advisory_id, "GHSA-aaaa-bbbb");
}

#[test]
fn parse_report_missing_sentinel_exit_1() {
    let err = parse_report("just some prose without any sentinel markers at all\n").unwrap_err();
    assert_eq!(err, ReportError::Sentinel(SentinelError::MissingStartMarker));
    assert_eq!(err.exit_code(), 1);
    assert!(err.message().contains("missing sentinel start marker"));
}

#[test]
fn parse_report_bad_severity_exit_2() {
    let input = "<!-- INBOX_APPEND_START -->\n| 2026-05-28 | CVE-X | u | p | f:1 | Critic | open | - |\n<!-- INBOX_APPEND_END -->\n";
    let err = parse_report(input).unwrap_err();
    assert_eq!(err, ReportError::Row(RowParseError::InvalidSeverity));
    assert_eq!(err.exit_code(), 2);
    assert!(err.message().contains("invalid severity"));
}

#[test]
fn dedup_happy_path_3_kept_2_skipped() {
    let rows = rows_of(&[
        "| 2026-05-28 | CVE-2026-NEW1 | u | p | f | High | open | - |",
        "| 2026-05-28 | CVE-2026-9256 | u | p | f | High | open | - |",
        "| 2026-05-28 | CVE-2026-NEW2 | u | p | f | Low | open | - |",
        "| 2026-05-28 | GHSA-aaaa-bbbb | u | p | f | Medium | open | - |",
        "| 2026-05-28 | CVE-2026-NEW3 | u | p | f | Critical | open | - |",
    ]);
    let seen: Vec<String> = ["CVE-2026-9256", "GHSA-aaaa-bbbb", "CVE-2026-27205"].iter().map(|s| s.to_string()).collect();
    let out = dedup_rows(&seen, &rows);
    let kept: Vec<&str> = out.kept.iter().map(|r| r.advisory_id.as_str()).collect();
    let skipped: Vec<&str> = out.skipped.iter().map(|r| r.advisory_id.as_str()).collect();
    assert_eq!(kept, vec!["CVE-2026-NEW1", "CVE-2026-NEW2", "CVE-2026-NEW3"]);
    assert_eq!(skipped, vec!["CVE-2026-9256", "GHSA-aaaa-bbbb"]);
    assert_eq!(out.observed_ids.len(), 5);
}

#[test]
fn append_happy_path_2_new_rows() {
    let rows = rows_of(&[
        "| 2026-05-28 | CVE-NEW-1 | https://x.test/1 | p@<1 | f:1 | High | open | - |",
        "| 2026-05-28 | CVE-NEW-2 | https://x.test/2 | q@<1 | f:2 | Low | open | - |",
    ]);
    let (after, res) = plan_append(INBOX_BASELINE, &rows, "inbox.md").unwrap();
    assert_eq!(res.appended_count, 2);
    assert_eq!(res.total_open, 3);
    assert!(after.contains("CVE-NEW-1") && after.contains("CVE-NEW-2"));
    assert!(after.contains("CVE-OLD-1") && after.contains("CVE-OLD-2"));
    assert!(after.contains("GHSA-placeholder"), "placeholder comment block damaged");
    assert!(after.contains("<!-- Placeholder example"), "placeholder header comment damaged");
    assert!(after.find("CVE-NEW-1").unwrap() < after.find("CVE-OLD-1").unwrap());
    assert_eq!(after.matches("## Rows").count(), 1, "## Rows heading should be unique");
}

#[test]
fn append_missing_heading_exit_1() {
    let err = plan_append("# Advisory Inbox\n\nNo heading here.\n", &[], "inbox-noheading.md").unwrap_err();
    assert_eq!(err.exit_code(), 1);
    assert!(matches!(err, InboxError::MissingRowsHeading { .. }));
}

#[test]
fn acceptance_end_to_end_one_kept_one_skipped() {
    let rows = parse_report(AGENT_REPORT).unwrap();
    let pre = state(&["CVE-2026-9256", "GHSA-aaaa-bbbb", "CVE-2026-27205"], Timestamp { secs: 1_767_225_600, nanos: 0 });
    let out = plan_scan(&rows, &pre, INBOX_BASELINE, "inbox.md", T_LATER).unwrap();
    assert_eq!(out.appended, 1);
    assert_eq!(out.skipped_dedup, 1);
    assert_eq!(out.total_open, 2);
    for id in &pre.seen_advisories {
        assert!(out.state.seen_advisories.contains(id), "Sub-mech C violation: pre ID '{}' lost", id);
    }
    assert!(out.state.seen_advisories.contains(&"CVE-2026-9999".to_string()));
    assert_eq!(out.state.seen_advisories.len(), 4);
    assert_eq!(out.state.last_scan_at, T_LATER);
    assert_eq!(out.state.agent_version, pre.agent_version);
    assert_eq!(out.state.schema_version, 1);
    assert!(out.inbox_content.contains("## Rows"));
    assert!(out.inbox_content.contains("CVE-2026-9999"));
    assert!(out.inbox_content.contains("CVE-OLD-1"));
    // BTreeSet order: sorted by code point.
    assert_eq!(
        out.state.seen_advisories,
        vec!["CVE-2026-27205", "CVE-2026-9256", "CVE-2026-9999", "GHSA-aaaa-bbbb"]
    );
}

#[test]
fn all_skipped_full_overlap_with_state() {
    let rows = parse_report(AGENT_REPORT).unwrap();
    let ids: Vec<&str> = rows.iter().map(|r| r.advisory_id.as_str()).collect();
    let pre = state(&ids, T_2026_05_23_NOON);
    let out = plan_scan(&rows, &pre, INBOX_BASELINE, "inbox.md", T_LATER).unwrap();
    assert_eq!(out.appended, 0);
    assert_eq!(out.skipped_dedup, ids.len());
    assert_eq!(out.state.seen_advisories.len(), pre.seen_advisories.len());
    assert_eq!(out.state.last_scan_at, T_LATER);
    assert!(out.inbox_content.contains("## Rows"));
}

#[test]
fn empty_sentinel_block_zero_counts_state_still_bumps() {
    let report = "# Agent Report\n\nNo advisories found.\n\n<!-- INBOX_APPEND_START -->\n<!-- INBOX_APPEND_END -->\n";
    let rows = parse_report(report).unwrap();
    let pre = state(&["CVE-2026-7777"], T_2026_05_23_NOON);
    let out = plan_scan(&rows, &pre, INBOX_BASELINE, "inbox.md", T_LATER).unwrap();
    assert_eq!(out.appended, 0);
    assert_eq!(out.skipped_dedup, 0);
    assert_eq!(out.state.seen_advisories, pre.seen_advisories);
    assert_eq!(out.state.last_scan_at, T_LATER);
    assert_eq!(out.inbox_content, INBOX_BASELINE);
}

#[test]
fn acceptance_5_rows_3_processed_plus_state_1id_produces_4_ids() {
    let rows = parse_rows(INBOX_5ROWS_3PROCESSED).unwrap();
    assert_eq!(rows.len(), 5);
    let pre = state(&["CVE-2026-7777"], T_2026_05_23_NOON);
    let res = backfill(&pre, &rows);
    assert_eq!(res.backfilled_count, 3);
    assert_eq!(res.total_seen_after, 4);
    let ids = &res.state.seen_advisories;
    for id in ["CVE-2026-7777", "CVE-2026-9001", "CVE-2026-9002", "CVE-2026-9003"] {
        assert!(ids.contains(&id.to_string()));
    }
    assert!(!ids.contains(&"CVE-2026-9004".to_string()));
    assert!(!ids.contains(&"CVE-2026-9005".to_string()));
    assert_eq!(res.state.last_scan_at, pre.last_scan_at, "last_scan_at must be preserved");
    assert_eq!(res.state.agent_version, pre.agent_version);
}

#[test]
fn already_backfilled_zero_count() {
    let rows = parse_rows(INBOX_5ROWS_3PROCESSED).unwrap();
    let pre = state(&["CVE-2026-7777", "CVE-2026-9001", "CVE-2026-9002", "CVE-2026-9003"], T_2026_05_23_NOON);
    let res = backfill(&pre, &rows);
    assert_eq!(res.backfilled_count, 0);
    assert_eq!(res.total_seen_after, 4);
    let again = backfill(&res.state, &rows);
    assert_eq!(again.state, res.state);
    assert_eq!(again.backfilled_count, 0);
}

#[test]
fn backfill_counts_distinct_previous_ids() {
    let rows = parse_rows(INBOX_5ROWS_3PROCESSED).unwrap();
    let pre = state(&["B", "A", "B"], T_2026_05_23_NOON);
    let res = backfill(&pre, &rows);
    assert_eq!(res.total_seen_after, 5);
    assert_eq!(res.backfilled_count, 3);
    assert_eq!(res.state.seen_advisories[0], "A");
}

#[test]
fn migrate_missing_writes_fresh_json_v1() {
    let (src, s) = migrate(None, None, T_LATER, "state.json").unwrap();
    assert_eq!(src, MigrateSource::Missing);
    assert_eq!(s.schema_version, 1);
    assert_eq!(s.last_scan_at, T_LATER);
    assert!(s.seen_advisories.is_empty());
}

#[test]
fn migrate_legacy_preserves_timestamp() {
    let (src, s) = migrate(Some("2026-05-23T12:00:00Z\n"), None, T_LATER, "state").unwrap();
    assert_eq!(src, MigrateSource::Legacy);
    assert_eq!(s.last_scan_at, T_2026_05_23_NOON);
    assert_eq!(s.seen_advisories.len(), 0);
    let (_, off) = migrate(Some("  2026-05-23T14:00:00+02:00 "), None, T_LATER, "state").unwrap();
    assert_eq!(off.last_scan_at, T_2026_05_23_NOON);
}

#[test]
fn migrate_json_v1_idempotent() {
    let pre = state(&["CVE-1", "CVE-2"], T_2026_05_23_NOON);
    let (src, s) = migrate(Some("{...}"), Some(pre.clone()), T_LATER, "state.json").unwrap();
    assert_eq!(src, MigrateSource::JsonV1);
    assert_eq!(s, pre);
}

#[test]
fn migrate_garbage_errors_exit_1() {
    match migrate(Some("not a timestamp at all"), None, T_LATER, "state").unwrap_err() {
        MigrateError::FormatUnknown { path } => assert_eq!(path, "state"),
        other => panic!("unexpected {other:?}"),
    }
    let mut v2 = state(&[], T_2026_05_23_NOON);
    v2.schema_version = 2;
    match migrate(Some("{}"), Some(v2), T_LATER, "state").unwrap_err() {
        MigrateError::UnsupportedSchema { found, expected, .. } => {
            assert_eq!(found, 2);
            assert_eq!(expected, 1);
        }
        other => panic!("unexpected {other:?}"),
    }
}

#[test]
fn rescan_of_same_report_adds_nothing() {
    let rows = parse_report(AGENT_REPORT).unwrap();
    let pre = state(&["CVE-2026-9999"], T_2026_05_23_NOON);
    let first = plan_scan(&rows, &pre, INBOX_BASELINE, "inbox.md", T_LATER).unwrap();
    assert_eq!(first.appended, 1);
    let second = plan_scan(&rows, &first.state, &first.inbox_content, "inbox.md", T_LATER).unwrap();
    assert_eq!(second.appended, 0);
    assert_eq!(second.skipped_dedup, rows.len());
    assert_eq!(second.inbox_content, first.inbox_content);
    assert_eq!(second.state.seen_advisories, first.state.seen_advisories);
    assert_eq!(second.total_open, first.total_open);
}

#[test]
fn migrate_error_messages() {
    let e = migrate(Some("garbage"), None, T_LATER, "st").unwrap_err();
    assert_eq!(e.message(), "state file `st` format unrecognised (not JSON v1, not single-line ISO-8601 timestamp)");
    let mut v2 = state(&[], T_2026_05_23_NOON);
    v2.schema_version = 20;
    let e = migrate(Some("{}"), Some(v2), T_LATER, "st").unwrap_err();
    assert_eq!(e.message(), "state file `st` has unsupported schema_version 20 (expected 1)");
}

#[test]
fn migrating_a_migrated_state_changes_nothing() {
    let (_, first) = migrate(Some("2026-05-23T12:00:00Z\n"), None, T_LATER, "st").unwrap();
    let (src, again) = migrate(Some("{...}"), Some(first.clone()), T_2026_05_23_NOON, "st").unwrap();
    assert_eq!(src, MigrateSource::JsonV1);
    assert_eq!(again, first);
    let (_, fresh) = migrate(None, None, T_LATER, "st").unwrap();
    let (src, again) = migrate(Some("{...}"), Some(fresh.clone()), T_2026_05_23_NOON, "st").unwrap();
    assert_eq!(src, MigrateSource::JsonV1);
    assert_eq!(again, fresh);
}
