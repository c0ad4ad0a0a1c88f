use advisory_inbox::row::{parse_row, AdvisoryRow, Date, RowParseError, Severity, Status};

fn sample_row() -> AdvisoryRow {
    AdvisoryRow {
        date: Date::new(2026, 5, 28).expect("valid date"),
        advisory_id: "CVE-2026-9999".to_string(),
        source_url: "https://nvd.nist.gov/vuln/detail/CVE-2026-9999".to_string(),
        package: "next@<15.5.17".to_string(),
        file_line: "src/middleware.ts:42".to_string(),
        severity: Severity::High,
        status: Status::Open,
        note: "-".to_string(),
    }
}

#[test]
fn row_line_has_eight_cells_in_order() {
    assert_eq!(
        sample_row().to_line(),
        "| 2026-05-28 | CVE-2026-9999 | https://nvd.nist.gov/vuln/detail/CVE-2026-9999 | next@<15.5.17 | src/middleware.ts:42 | High | open | - |"
    );
}

#[test]
fn row_line_roundtrip() {
    let row = sample_row();
    assert_eq!(parse_row(&row.to_line()).unwrap(), row);
}

#[test]
fn status_and_severity_spellings() {
    assert_eq!(Status::Open.as_str(), "open");
    assert_eq!(Status::Processed.as_str(), "processed");
    assert_eq!(Status::Dismissed.as_str(), "dismissed");
    assert_eq!(Severity::Critical.as_str(), "Critical");
    assert_eq!(Severity::High.as_str(), "High");
    assert_eq!(Severity::Medium.as_str(), "Medium");
    assert_eq!(Severity::Low.as_str(), "Low");
}

#[test]
fn parse_row_trims_cells() {
    let r = parse_row("  |2026-01-02|  GHSA-aaaa-bbbb |u|p|indirect|Low|dismissed|  n/a  |  ").unwrap();
    assert_eq!(r.date, Date { year: 2026, month: 1, day: 2 });
    assert_eq!(r.advisory_id, "GHSA-aaaa-bbbb");
    assert_eq!(r.file_line, "indirect");
    assert_eq!(r.severity, Severity::Low);
    assert_eq!(r.status, Status::Dismissed);
    assert_eq!(r.note, "n/a");
}

#[test]
fn parse_row_errors() {
    assert_eq!(parse_row("no pipes").unwrap_err(), RowParseError::NotPipeDelimited);
    assert_eq!(parse_row("|").unwrap_err(), RowParseError::NotPipeDelimited);
    assert_eq!(
        parse_row("| 2026-05-28 | CVE-2026-1 | bad-row-only-5-cols | High | open |").unwrap_err(),
        RowParseError::WrongColumnCount { found: 5 }
    );
    assert_eq!(
        parse_row("| 2026-02-30 | X | u | p | f | High | open | - |").unwrap_err(),
        RowParseError::InvalidDate
    );
    assert_eq!(
        parse_row("| 26-05-28 | X | u | p | f | High | open | - |").unwrap_err(),
        RowParseError::InvalidDate
    );
    assert_eq!(
        parse_row("| 2026-05-28 | CVE-X | u | p | f:1 | Critic | open | - |").unwrap_err(),
        RowParseError::InvalidSeverity
    );
    assert_eq!(
        parse_row("| 2026-05-28 | CVE-X | u | p | f:1 | High | Open | - |").unwrap_err(),
        RowParseError::InvalidStatus
    );
}

#[test]
fn parse_row_error_messages() {
    assert!(RowParseError::InvalidSeverity.message().contains("invalid severity"));
    assert_eq!(
        RowParseError::WrongColumnCount { found: 5 }.message(),
        "row has 5 columns, expected 8"
    );
    assert_eq!(
        RowParseError::WrongColumnCount { found: 12 }.message(),
        "row has 12 columns, expected 8"
    );
}

#[test]
fn dates_follow_the_gregorian_calendar() {
    assert!(Date::new(2024, 2, 29).is_some());
    assert!(Date::new(2023, 2, 29).is_none());
    assert!(Date::new(2000, 2, 29).is_some());
    assert!(Date::new(1900, 2, 29).is_none());
    assert!(Date::new(2026, 4, 31).is_none());
    assert!(Date::new(2026, 13, 1).is_none());
    assert!(Date::new(2026, 1, 0).is_none());
    assert!(parse_row("| 2024-02-29 | X | u | p | f | Low | open | - |").is_ok());
}

#[test]
fn leading_zeros_in_dates_are_written_and_read() {
    let mut row = sample_row();
    row.date = Date::new(7, 1, 9).unwrap();
    let line = row.to_line();
    assert!(line.starts_with("| 0007-01-09 |"));
    assert_eq!(parse_row(&line).unwrap().date, row.date);
}

#[test]
fn to_line_years_past_9999_carry_a_plus() {
    let row = AdvisoryRow {
        date: Date::new(10000, 2, 29).unwrap(),
        advisory_id: "CVE-FAR".to_string(),
        source_url: "u".to_string(),
        package: "p".to_string(),
        file_line: "f:1".to_string(),
        severity: Severity::Low,
        status: Status::Open,
        note: "-".to_string(),
    };
    assert_eq!(row.to_line(), "| +10000-02-29 | CVE-FAR | u | p | f:1 | Low | open | - |");
    let early = AdvisoryRow { date: Date::new(999, 3, 1).unwrap(), ..row };
    assert!(early.to_line().starts_with("| 0999-03-01 |"));
}

#[test]
fn dates_cover_chrono_year_range() {
    assert!(Date::new(-262143, 1, 1).is_some());
    assert!(Date::new(262142, 12, 31).is_some());
    assert!(Date::new(-262144, 1, 1).is_none());
    assert!(Date::new(262143, 1, 1).is_none());
    assert!(Date::new(-4, 2, 29).is_some());
    assert!(Date::new(-5, 2, 29).is_none());
    let row = AdvisoryRow { date: Date::new(-4, 2, 29).unwrap(), ..sample_row() };
    assert!(row.to_line().starts_with("| -0004-02-29 |"));
    let far = AdvisoryRow { date: Date::new(-123456, 1, 2).unwrap(), ..sample_row() };
    assert!(far.to_line().starts_with("| -123456-01-02 |"));
}
