use advisory_inbox::sentinel::{extra_start_markers, extract_block, SentinelError};

#[test]
fn happy_path_two_rows() {
    let report = "\
some preamble\n\
<!-- INBOX_APPEND_START -->\n\
| 2026-05-28 | CVE-2026-0001 | url1 | pkg1 | f:1 | High | open | - |\n\
| 2026-05-28 | CVE-2026-0002 | url2 | pkg2 | f:2 | Medium | open | - |\n\
<!-- INBOX_APPEND_END -->\n\
trailing\n";
    let rows = extract_block(report).expect("should parse");
    assert_eq!(rows.len(), 2);
    assert!(rows[0].contains("CVE-2026-0001"));
    assert!(rows[1].contains("CVE-2026-0002"));
}

#[test]
fn empty_block_returns_empty_vec() {
    let report = "\
<!-- INBOX_APPEND_START -->\n\
<!-- INBOX_APPEND_END -->\n";
    let rows = extract_block(report).expect("empty block is valid");
    assert!(rows.is_empty());
}

#[test]
fn missing_start_marker_errors() {
    let report = "no markers here at all, just prose";
    let err = extract_block(report).unwrap_err();
    assert_eq!(err, SentinelError::MissingStartMarker);
}

#[test]
fn missing_end_marker_errors() {
    let report = "<!-- INBOX_APPEND_START -->\n| row | ... |\n";
    let err = extract_block(report).unwrap_err();
    assert_eq!(err, SentinelError::MissingEndMarker);
}

#[test]
fn multiple_start_uses_first_pair() {
    let report = "\
<!-- INBOX_APPEND_START -->\n\
| 2026-05-28 | CVE-FIRST | u | p | f:1 | High | open | - |\n\
<!-- INBOX_APPEND_END -->\n\
between\n\
<!-- INBOX_APPEND_START -->\n\
| 2026-05-28 | CVE-SECOND | u | p | f:2 | Low | open | - |\n\
<!-- INBOX_APPEND_END -->\n";
    let rows = extract_block(report).expect("first pair valid");
    assert_eq!(rows.len(), 1);
    assert!(rows[0].contains("CVE-FIRST"));
    assert!(!rows[0].contains("CVE-SECOND"));
}

#[test]
fn block_with_blank_and_comment_lines_skipped() {
    let report = "\
<!-- INBOX_APPEND_START -->\n\
\n\
| 2026-05-28 | CVE-REAL | u | p | f:1 | High | open | - |\n\
<!-- placeholder example -->\n\
   \n\
<!-- INBOX_APPEND_END -->\n";
    let rows = extract_block(report).expect("ok");
    assert_eq!(rows.len(), 1, "only real row kept");
    assert!(rows[0].contains("CVE-REAL"));
}

#[test]
fn extracted_lines_are_right_trimmed_not_left_trimmed() {
    let report = "<!-- INBOX_APPEND_START -->\r\n  | a |   \r\n<!-- INBOX_APPEND_END -->";
    let rows = extract_block(report).expect("ok");
    assert_eq!(rows, vec!["  | a |".to_string()]);
}

#[test]
fn end_marker_before_start_is_not_a_block() {
    let report = "<!-- INBOX_APPEND_END -->\n<!-- INBOX_APPEND_START -->\nx\n";
    assert_eq!(extract_block(report).unwrap_err(), SentinelError::MissingEndMarker);
}

#[test]
fn extra_start_markers_counts_later_blocks() {
    let one = "<!-- INBOX_APPEND_START -->\n<!-- INBOX_APPEND_END -->\n";
    assert_eq!(extra_start_markers(one), 0);
    let three = format!("{one}{one}x<!-- INBOX_APPEND_START -->");
    assert_eq!(extra_start_markers(&three), 2);
    assert_eq!(extra_start_markers("no block"), 0);
}

#[test]
fn sentinel_messages_name_the_marker() {
    assert!(SentinelError::MissingStartMarker.message().contains("missing sentinel start marker"));
    assert!(SentinelError::MissingEndMarker.message().contains("INBOX_APPEND_END"));
}
