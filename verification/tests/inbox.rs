use advisory_inbox::inbox::{count_open_rows, insert_rows, parse_rows, InboxError};
use advisory_inbox::row::{AdvisoryRow, Date, Severity, Status};

fn sample_row(advisory_id: &str, status: Status) -> AdvisoryRow {
    AdvisoryRow {
        date: Date::new(2026, 5, 28).unwrap(),
        advisory_id: advisory_id.to_string(),
        source_url: format!("https://example.test/{advisory_id}"),
        package: "pkg@<1.0".to_string(),
        file_line: "src/foo.rs:1".to_string(),
        severity: Severity::High,
        status,
        note: "-".to_string(),
    }
}

/// Baseline inbox with 2 existing rows (1 open, 1 processed).
const BASELINE: &str = "# Advisory Inbox\n\n## Rows\n\n\
| 2026-05-20 | CVE-OLD-1 | https://example.test/CVE-OLD-1 | pkg@<0.9 | src/old.rs:1 | High | open | - |\n\
| 2026-05-19 | CVE-OLD-2 | https://example.test/CVE-OLD-2 | pkg@<0.8 | src/old.rs:2 | Medium | processed | - |\n";

#[test]
fn insert_rows_happy_path() {
    let rows = vec![
        sample_row("CVE-NEW-1", Status::Open),
        sample_row("CVE-NEW-2", Status::Open),
    ];
    let (out, total_open) = insert_rows(BASELINE, &rows, "inbox.md").expect("insert ok");
    assert!(out.contains("CVE-NEW-1"));
    assert!(out.contains("CVE-NEW-2"));
    assert!(out.contains("CVE-OLD-1"));
    assert!(out.contains("CVE-OLD-2"));
    let pos_new1 = out.find("CVE-NEW-1").unwrap();
    let pos_old1 = out.find("CVE-OLD-1").unwrap();
    assert!(pos_new1 < pos_old1, "rows[0] should be topmost");
    assert_eq!(total_open, 3);
}

#[test]
fn insert_rows_missing_heading_errors() {
    let no_heading = "# Advisory Inbox\n\nSome text but no Rows heading.\n";
    let rows = vec![sample_row("CVE-X", Status::Open)];
    let err = insert_rows(no_heading, &rows, "inbox.md").unwrap_err();
    assert!(matches!(err, InboxError::MissingRowsHeading { .. }));
}

#[test]
fn insert_rows_empty_rows_noop() {
    let (out, total_open) = insert_rows(BASELINE, &[], "inbox.md").expect("insert ok empty");
    for old_line in BASELINE.lines() {
        assert!(out.contains(old_line), "old line missing: {old_line}");
    }
    assert_eq!(total_open, 1);
}

#[test]
fn count_open_skips_html_comment_block() {
    let with_comment = "## Rows\n\n\
| 2026-05-28 | CVE-A | u | p | f:1 | High | open | - |\n\n\
<!--\n\
| 2026-05-23 | CVE-PLACEHOLDER | u | p | f:1 | Medium | open | - |\n\
-->\n";
    assert_eq!(count_open_rows(with_comment), 1);
}

#[test]
fn parse_rows_happy_3_rows() {
    let content = "# Inbox\n\
## Rows\n\
| Date | Advisory ID | Source URL | Package | File:Line | Severity | Status | Note |\n\
|------|-------------|-----------|---------|-----------|----------|--------|------|\n\
| 2026-05-28 | CVE-2026-1 | https://x.com/1 | pkg1@<1 | f.rs:1 | High | open | - |\n\
| 2026-05-28 | CVE-2026-2 | https://x.com/2 | pkg2@<2 | f.rs:2 | Medium | processed | reviewed |\n\
| 2026-05-28 | CVE-2026-3 | https://x.com/3 | pkg3@<3 | f.rs:3 | Low | dismissed | n/a |\n";
    let rows = parse_rows(content).expect("parse rows");
    assert_eq!(rows.len(), 3);
    assert_eq!(rows[0].advisory_id, "CVE-2026-1");
    assert_eq!(rows[2].advisory_id, "CVE-2026-3");
}

#[test]
fn parse_rows_empty_section() {
    let content = "# Inbox\n\
## Rows\n\
\n\
| Date | Advisory ID | Source URL | Package | File:Line | Severity | Status | Note |\n\
|------|-------------|-----------|---------|-----------|----------|--------|------|\n";
    let rows = parse_rows(content).expect("parse rows empty");
    assert_eq!(rows.len(), 0);
}

#[test]
fn parse_rows_skips_html_comment() {
    let content = "# Inbox\n\
## Rows\n\
| Date | Advisory ID | Source URL | Package | File:Line | Severity | Status | Note |\n\
|------|-------------|-----------|---------|-----------|----------|--------|------|\n\
| 2026-05-28 | CVE-2026-1 | https://x.com/1 | pkg1@<1 | f.rs:1 | High | open | - |\n\
<!--\n\
| 2026-05-23 | GHSA-skip | https://x.com/skip | pkg@<x | indirect | Medium | open | - |\n\
-->\n\
| 2026-05-28 | CVE-2026-2 | https://x.com/2 | pkg2@<2 | f.rs:2 | Medium | processed | reviewed |\n";
    let rows = parse_rows(content).expect("parse rows with comment");
    assert_eq!(rows.len(), 2, "comment block row must be skipped");
    assert!(rows.iter().all(|r| r.advisory_id != "GHSA-skip"));
}

#[test]
fn parse_rows_bad_row_returns_parse_row_error() {
    let content = "## Rows\n\
| Date | Advisory ID | Source URL | Package | File:Line | Severity | Status | Note |\n\
|------|-------------|-----------|---------|-----------|----------|--------|------|\n\
| 2026-05-28 | CVE-2026-1 | bad-row-only-5-cols | High | open |\n";
    let err = parse_rows(content).expect_err("should error on malformed row");
    assert!(
        matches!(err, InboxError::ParseRow { .. }),
        "expected ParseRow variant, got {:?}",
        err
    );
}

#[test]
fn parse_rows_no_heading_returns_empty() {
    let content = "# Inbox\n\nNo rows section here.\n";
    let rows = parse_rows(content).expect("tolerate missing heading");
    assert_eq!(rows.len(), 0);
}

#[test]
fn parse_rows_stops_at_next_heading() {
    let content = "## Rows\n\
| 2026-05-28 | CVE-2026-1 | https://x.com/1 | pkg1@<1 | f.rs:1 | High | open | - |\n\
| 2026-05-28 | CVE-2026-2 | https://x.com/2 | pkg2@<2 | f.rs:2 | Medium | processed | reviewed |\n\
## Archive\n\
| 2026-05-28 | CVE-2026-3 | https://x.com/3 | pkg3@<3 | f.rs:3 | Low | dismissed | n/a |\n";
    let rows = parse_rows(content).expect("parse rows stops at heading");
    assert_eq!(rows.len(), 2);
    assert!(rows.iter().all(|r| r.advisory_id != "CVE-2026-3"));
}

#[test]
fn parse_rows_error_line_number_is_one_based_in_document() {
    let content = "# Inbox\n\n## Rows\n| 2026-05-28 | CVE-1 | u | p | f | Severe | open | - |\n";
    match parse_rows(content).unwrap_err() {
        InboxError::ParseRow { path, line_number, source } => {
            assert_eq!(path, "");
            assert_eq!(line_number, 4);
            assert_eq!(source, advisory_inbox::row::RowParseError::InvalidSeverity);
        }
        other => panic!("unexpected {other:?}"),
    }
}

#[test]
fn parse_rows_error_takes_path_from_caller() {
    let content = "## Rows\n| x |\n";
    let err = parse_rows(content).unwrap_err().with_path("inbox.md");
    match err {
        InboxError::ParseRow { path, line_number, .. } => {
            assert_eq!(path, "inbox.md");
            assert_eq!(line_number, 2);
        }
        other => panic!("unexpected {other:?}"),
    }
}

#[test]
fn insert_rows_exact_output_and_trailing_newline() {
    let content = "## Rows\nold";
    let rows = vec![sample_row("CVE-N", Status::Processed)];
    let (out, total_open) = insert_rows(content, &rows, "p").unwrap();
    assert_eq!(
        out,
        "## Rows\n| 2026-05-28 | CVE-N | https://example.test/CVE-N | pkg@<1.0 | src/foo.rs:1 | High | processed | - |\nold"
    );
    assert_eq!(total_open, 0);
    let (out2, _) = insert_rows("## Rows\n", &rows, "p").unwrap();
    assert!(out2.ends_with("| - |\n"));
}

#[test]
fn insert_then_parse_reads_rows_back_first() {
    let rows = vec![
        sample_row("CVE-NEW-1", Status::Open),
        sample_row("CVE-NEW-2", Status::Dismissed),
    ];
    let (out, _) = insert_rows(BASELINE, &rows, "inbox.md").unwrap();
    let parsed = parse_rows(&out).unwrap();
    let old = parse_rows(BASELINE).unwrap();
    assert_eq!(parsed.len(), 4);
    assert_eq!(parsed[0], rows[0]);
    assert_eq!(parsed[1], rows[1]);
    assert_eq!(parsed[2..].to_vec(), old);
}

#[test]
fn insert_error_names_path_and_exit_code() {
    match insert_rows("no heading", &[], "dir/inbox.md").unwrap_err() {
        e @ InboxError::MissingRowsHeading { .. } => {
            assert_eq!(e.exit_code(), 1);
            if let InboxError::MissingRowsHeading { path } = e {
                assert_eq!(path, "dir/inbox.md");
            }
        }
        other => panic!("unexpected {other:?}"),
    }
    let io = InboxError::Io { path: "x".to_string(), message: "denied".to_string() };
    assert_eq!(io.exit_code(), 2);
}

#[test]
fn insert_nothing_gives_document_back() {
    let with_nl = "# Inbox\n\n## Rows\n| 2026-05-28 | CVE-A | u | p | f:1 | High | open | - |\n";
    let (out, n) = insert_rows(with_nl, &[], "inbox.md").expect("heading present");
    assert_eq!(out, with_nl);
    assert_eq!(n, 1);
    let without_nl = "## Rows\n\ntrailing text";
    let (out, n) = insert_rows(without_nl, &[], "inbox.md").expect("heading present");
    assert_eq!(out, without_nl);
    assert_eq!(n, 0);
}

#[test]
fn insert_adds_only_open_rows_to_count() {
    let before = count_open_rows(BASELINE);
    assert_eq!(before, 1);
    let rows = vec![
        sample_row("CVE-NEW-1", Status::Open),
        sample_row("CVE-NEW-2", Status::Processed),
        sample_row("CVE-NEW-3", Status::Dismissed),
        sample_row("CVE-NEW-4", Status::Open),
    ];
    let (out, total_open) = insert_rows(BASELINE, &rows, "inbox.md").expect("insert ok");
    assert_eq!(total_open, before + 2);
    assert_eq!(count_open_rows(&out), total_open);
}

#[test]
fn rows_inserted_under_commented_heading_are_not_counted() {
    let doc = "<!--\n## Rows\n-->\n| 2026-05-20 | CVE-X | u | p | f:1 | High | open | - |\n";
    let (_, total_open) = insert_rows(doc, &[sample_row("CVE-NEW-1", Status::Open)], "inbox.md").expect("insert ok");
    assert_eq!(total_open, 1);
}

#[test]
fn inbox_error_messages() {
    let e = insert_rows("no heading\n", &[], "inbox.md").unwrap_err();
    assert_eq!(e.message(), "inbox `inbox.md` is missing `## Rows` heading — cannot determine insert position");
    let e = parse_rows("## Rows\n| not | a row |\n").unwrap_err().with_path("in.md");
    assert_eq!(e.message(), "inbox `in.md` row parse failed at line 2: row has 2 columns, expected 8");
    let io = InboxError::Io { path: "x.md".to_string(), message: "denied".to_string() };
    assert_eq!(io.message(), "inbox `x.md` I/O failure: denied");
}

#[test]
fn parse_rows_ignores_text_outside_the_section() {
    let section = "| 2026-05-28 | CVE-A | u | p | f:1 | High | open | - |\n<!-- note -->\n";
    let alone = format!("## Rows\n{section}");
    let framed = format!("# Inbox\nintro\n\n## Rows\n{section}## Next\n| garbage |\n");
    let a = parse_rows(&framed).unwrap();
    let b = parse_rows(&alone).unwrap();
    assert_eq!(a, b);
    assert_eq!(a.len(), 1);
    let bad = "| 2026-05-28 | CVE-A | u | p | f:1 | Nope | open | - |\n";
    let alone_err = parse_rows(&format!("## Rows\n{bad}")).unwrap_err();
    let framed_err = parse_rows(&format!("a\nb\nc\n## Rows\n{bad}# End\n")).unwrap_err();
    match (alone_err, framed_err) {
        (InboxError::ParseRow { line_number: m, .. }, InboxError::ParseRow { line_number: k, .. }) => {
            assert_eq!(m, 2);
            assert_eq!(k, m + 3);
        }
        other => panic!("unexpected {other:?}"),
    }
}
