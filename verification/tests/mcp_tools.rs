use advisory_inbox::mcp::tools::{
    mcp_error, AdvisoryInboxService, MigrateStateOutput, ParseReportInput, TOOL_ERROR_CODE,
};
use advisory_inbox::cli::migrate_state::MigrateSource;
use advisory_inbox::row::parse_row;
use advisory_inbox::state::{StateFile, Timestamp};

fn service() -> AdvisoryInboxService {
    AdvisoryInboxService
}

fn report_fixture() -> String {
    "# Advisory Report\n\
     <!-- INBOX_APPEND_START -->\n\
     | 2026-05-28 | CVE-2026-0001 | https://example.com/cve1 | crate-a@1.0 | src/lib.rs:10 | High | open | - |\n\
     | 2026-05-28 | CVE-2026-0002 | https://example.com/cve2 | crate-b@2.0 | src/main.rs:5 | Medium | open | - |\n\
     <!-- INBOX_APPEND_END -->\n"
        .to_string()
}

fn state_with(seen: &[&str]) -> StateFile {
    StateFile {
        schema_version: 1,
        last_scan_at: Timestamp { secs: 1_779_926_400, nanos: 0 },
        seen_advisories: seen.iter().map(|s| s.to_string()).collect(),
        agent_version: String::new(),
    }
}

#[test]
fn parse_report_happy_path() {
    let svc = service();
    let input = ParseReportInput { report_text: report_fixture() };
    let out = svc.parse_report(input).expect("should succeed");
    assert_eq!(out.advisories_found, 2);
    assert_eq!(out.rows.len(), 2);
    assert_eq!(out.rows[0].advisory_id, "CVE-2026-0001");
    assert_eq!(out.rows[1].advisory_id, "CVE-2026-0002");
}

#[test]
fn parse_report_missing_sentinel_returns_error() {
    let svc = service();
    let input = ParseReportInput { report_text: "# No sentinel here".to_string() };
    let result = svc.parse_report(input);
    assert!(result.is_err(), "should fail on missing sentinel");
    let err = match result {
        Err(e) => e,
        Ok(_) => panic!("expected Err"),
    };
    assert_eq!(err.code, -32000);
    assert_eq!(err.subcmd, "parse_report");
    assert_eq!(err.exit_code, 1);
}

#[test]
fn parse_report_bad_row_is_exit_2() {
    let svc = service();
    let text = "<!-- INBOX_APPEND_START -->\n| 2026-05-28 | CVE-X | u | p | f:1 | Critic | open | - |\n<!-- INBOX_APPEND_END -->\n";
    let err = svc.parse_report(ParseReportInput { report_text: text.to_string() }).err().unwrap();
    assert_eq!(err.exit_code, 2);
    assert!(err.message.contains("invalid severity"));
}

#[test]
fn mcp_error_shape_matches_architecture_spec() {
    let err = mcp_error("parse_report", 1, "missing sentinel");
    assert_eq!(err.code, TOOL_ERROR_CODE);
    assert_eq!(err.code, -32000);
    assert!(err.message.contains("missing sentinel"));
    assert_eq!(err.subcmd, "parse_report");
    assert_eq!(err.exit_code, 1);
}

#[test]
fn dedup_with_mock_state_partitions_correctly() {
    let svc = service();
    let state = state_with(&["CVE-2026-0001"]);
    let rows = vec![
        parse_row("| 2026-05-28 | CVE-2026-0001 | https://x.com | pkg@1 | f:1 | High | open | - |").unwrap(),
        parse_row("| 2026-05-28 | CVE-2026-0002 | https://x.com | pkg@2 | f:2 | High | open | - |").unwrap(),
        parse_row("| 2026-05-28 | CVE-2026-0003 | https://x.com | pkg@3 | f:3 | High | open | - |").unwrap(),
    ];
    let out = svc.dedup(&state, &rows);
    assert_eq!(out.kept.len(), 2, "CVE-0002 and CVE-0003 are new");
    assert_eq!(out.skipped.len(), 1, "CVE-0001 already seen");
    assert_eq!(out.observed_ids.len(), 3, "all 3 ids tracked");
    assert_eq!(out.kept[0].advisory_id, "CVE-2026-0002");
    assert_eq!(out.skipped[0].advisory_id, "CVE-2026-0001");
}

#[test]
fn migrate_output_labels() {
    let s = state_with(&["A", "B"]);
    let o = MigrateStateOutput::from_migration(MigrateSource::Legacy, &s);
    assert_eq!(o.from, "legacy");
    assert_eq!(o.to, "json-v1");
    assert_eq!(o.seen_count, 2);
    assert_eq!(MigrateSource::Missing.label(), "missing");
    assert_eq!(MigrateSource::JsonV1.label(), "json-v1");
}
