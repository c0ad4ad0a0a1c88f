//! One advisory row of the inbox table: its model, its markdown line
//! (`| Date | Advisory ID | Source URL | Package | File:Line | Severity | Status | Note |`)
//! and the parser for that line.

use vstd::prelude::*;
use crate::text::{
    is_trimmed, is_ws, lacks, lemma_split_cons, lemma_split_single, lemma_trim_padded,
    lemma_trim_trimmed, chars_eq, from_chars, push_all, split, split_exec, subvec, to_chars, trim, views, vtrim, has_sub, lemma_find_from_found};

verus! {

/// Status of an advisory row: `open` until reviewed, then `processed` or `dismissed`.
#[derive(Clone, Copy, Debug, PartialEq, Eq, Structural)]
pub enum Status {
    Open,
    Processed,
    Dismissed,
}

/// Severity per upstream advisory.
#[derive(Clone, Copy, Debug, PartialEq, Eq, Structural)]
pub enum Severity {
    Critical,
    High,
    Medium,
    Low,
}

/// A calendar date, written `YYYY-MM-DD` in the inbox.
#[derive(Clone, Copy, Debug, PartialEq, Eq, Structural)]
pub struct Date {
    pub year: i32,
    pub month: u8,
    pub day: u8,
}

/// Gregorian leap year.
pub open spec fn is_leap(y: int) -> bool {
    (y % 4 == 0 && y % 100 != 0) || y % 400 == 0
}

/// Number of days of month `m` in year `y`.
pub open spec fn days_in_month(y: int, m: int) -> int {
    if m == 2 {
        if is_leap(y) { 29 } else { 28 }
    } else if m == 4 || m == 6 || m == 9 || m == 11 {
        30
    } else {
        31
    }
}

/// The triple names an existing day of the proleptic Gregorian calendar.
pub open spec fn valid_ymd(y: int, m: int, d: int) -> bool {
    1 <= m <= 12 && 1 <= d <= days_in_month(y, m)
}

/// The years a chrono `NaiveDate` can hold.
pub open spec fn year_in_range(y: int) -> bool {
    -262143 <= y <= 262142
}

/// Whether chrono's `NaiveDate::from_ymd_opt(year, month, day)` returns `Some`.
/// The contract claims, as chrono documents and its source shows, that it
/// does exactly for an existing calendar day in chrono's year range.
#[verifier::external_body]
fn calendar_date_exists(year: i32, month: u8, day: u8) -> (r: bool)
    ensures
        r == (year_in_range(year as int) && valid_ymd(year as int, month as int, day as int)),
{
    chrono::NaiveDate::from_ymd_opt(year, month as u32, day as u32).is_some()
}

impl Date {
    /// The date with these fields, if that day exists.
    pub fn new(year: i32, month: u8, day: u8) -> (r: Option<Date>)
        ensures
            r is Some <==> (year_in_range(year as int) && valid_ymd(year as int, month as int, day as int)),
            r matches Some(d) ==> d == (Date { year, month, day }),
    {
        if calendar_date_exists(year, month, day) {
            Some(Date { year, month, day })
        } else {
            None
        }
    }

    /// The date names an existing day with a four-digit year.
    pub open spec fn wf(self) -> bool {
        0 <= self.year <= 9999 && valid_ymd(self.year as int, self.month as int, self.day as int)
    }
}

/// The model of an [`AdvisoryRow`]: its text fields as character sequences.
pub ghost struct RowView {
    pub date: Date,
    pub advisory_id: Seq<char>,
    pub source_url: Seq<char>,
    pub package: Seq<char>,
    pub file_line: Seq<char>,
    pub severity: Severity,
    pub status: Status,
    pub note: Seq<char>,
}

/// One row of the inbox table (eight columns).
#[derive(Clone, Debug, PartialEq, Eq)]
pub struct AdvisoryRow {
    /// Date the advisory was observed.
    pub date: Date,
    /// Advisory ID (CVE-..., GHSA-..., RUSTSEC-...).
    pub advisory_id: String,
    /// Upstream advisory URL.
    pub source_url: String,
    /// Affected package spec (e.g. `next@<15.5.17`).
    pub package: String,
    /// Code location (`path:line`, or `indirect`).
    pub file_line: String,
    /// Severity per upstream.
    pub severity: Severity,
    /// Review status.
    pub status: Status,
    /// Free-form note (`-` when empty).
    pub note: String,
}

impl View for AdvisoryRow {
    type V = RowView;

    open spec fn view(&self) -> RowView {
        RowView {
            date: self.date,
            advisory_id: self.advisory_id@,
            source_url: self.source_url@,
            package: self.package@,
            file_line: self.file_line@,
            severity: self.severity,
            status: self.status,
            note: self.note@,
        }
    }
}


/// Why a line is not an advisory row.
#[derive(Clone, Copy, Debug, PartialEq, Eq, Structural)]
pub enum RowParseError {
    /// The trimmed line does not begin and end with `|`.
    NotPipeDelimited,
    /// The line does not hold exactly eight cells.
    WrongColumnCount { found: usize },
    /// The date cell is not an existing `YYYY-MM-DD` day.
    InvalidDate,
    /// The severity cell is not `Critical`, `High`, `Medium` or `Low`.
    InvalidSeverity,
    /// The status cell is not `open`, `processed` or `dismissed`.
    InvalidStatus,
}

/// The decimal digit character for `d` (0..=9).
pub open spec fn digit_char(d: int) -> char {
    (d + 48) as char
}

/// Decimal notation of `n`, without leading zeros.
pub open spec fn decimal(n: nat) -> Seq<char>
    decreases n,
{
    if n < 10 {
        seq![digit_char(n as int)]
    } else {
        decimal(n / 10).push(digit_char((n % 10) as int))
    }
}

/// `k` zero characters.
pub open spec fn zeros(k: int) -> Seq<char> {
    Seq::new(k as nat, |i: int| '0')
}

/// Decimal notation of `n`, left-padded with zeros to at least `w` characters.
pub open spec fn padded(n: nat, w: nat) -> Seq<char> {
    if decimal(n).len() < w {
        zeros(w - decimal(n).len()) + decimal(n)
    } else {
        decimal(n)
    }
}

/// The year as a date shows it: four digits at least, with a sign in front
/// outside 0..=9999 (`+10000`, `-0005`).
pub open spec fn year_text(y: i32) -> Seq<char> {
    if 0 <= y <= 9999 {
        padded(y as nat, 4)
    } else if y > 9999 {
        seq!['+'] + padded(y as nat, 4)
    } else {
        seq!['-'] + padded((-y) as nat, 4)
    }
}

/// `YYYY-MM-DD` (with a signed year outside 0..=9999).
pub open spec fn date_text(d: Date) -> Seq<char> {
    year_text(d.year) + seq!['-'] + padded(d.month as nat, 2) + seq!['-'] + padded(d.day as nat, 2)
}

/// Severity as written in the table (PascalCase).
pub open spec fn severity_text(s: Severity) -> Seq<char> {
    match s {
        Severity::Critical => "Critical"@,
        Severity::High => "High"@,
        Severity::Medium => "Medium"@,
        Severity::Low => "Low"@,
    }
}

/// Status as written in the table (lowercase).
pub open spec fn status_text(s: Status) -> Seq<char> {
    match s {
        Status::Open => "open"@,
        Status::Processed => "processed"@,
        Status::Dismissed => "dismissed"@,
    }
}

/// A cell of the table: the text with one space on each side.
pub open spec fn cell(x: Seq<char>) -> Seq<char> {
    seq![' '] + x + seq![' ']
}

/// Pieces joined by `|`.
pub open spec fn joined(cs: Seq<Seq<char>>) -> Seq<char>
    decreases cs.len(),
{
    if cs.len() == 0 {
        seq![]
    } else if cs.len() == 1 {
        cs[0]
    } else {
        cs[0] + seq!['|'] + joined(cs.drop_first())
    }
}

/// The eight cell texts of a row, in column order.
pub open spec fn row_texts(r: RowView) -> Seq<Seq<char>> {
    seq![date_text(r.date), r.advisory_id, r.source_url, r.package, r.file_line,
        severity_text(r.severity), status_text(r.status), r.note]
}

/// The markdown table line of a row:
/// `| date | id | url | package | file:line | Severity | status | note |`.
pub open spec fn row_line(r: RowView) -> Seq<char> {
    seq!['|'] + joined(row_texts(r).map_values(|x: Seq<char>| cell(x))) + seq!['|']
}

/// An ASCII decimal digit.
pub open spec fn is_digit(c: char) -> bool {
    '0' <= c && c <= '9'
}

/// The value of a decimal digit character.
pub open spec fn digit_val(c: char) -> int {
    c as int - 48
}

/// The number written by the two digits at `s[i]`, `s[i + 1]`.
pub open spec fn two_digits(s: Seq<char>, i: int) -> int {
    digit_val(s[i]) * 10 + digit_val(s[i + 1])
}

/// The date written `YYYY-MM-DD` in `s`, if it names an existing day.
pub open spec fn spec_parse_date(s: Seq<char>) -> Option<Date> {
    if s.len() == 10 && is_digit(s[0]) && is_digit(s[1]) && is_digit(s[2]) && is_digit(s[3])
        && s[4] == '-' && is_digit(s[5]) && is_digit(s[6]) && s[7] == '-' && is_digit(s[8])
        && is_digit(s[9]) {
        let y = two_digits(s, 0) * 100 + two_digits(s, 2);
        let m = two_digits(s, 5);
        let d = two_digits(s, 8);
        if valid_ymd(y, m, d) {
            Some(Date { year: y as i32, month: m as u8, day: d as u8 })
        } else {
            None
        }
    } else {
        None
    }
}

/// The severity written `t`, if any.
pub open spec fn severity_from_text(t: Seq<char>) -> Option<Severity> {
    if t == "Critical"@ {
        Some(Severity::Critical)
    } else if t == "High"@ {
        Some(Severity::High)
    } else if t == "Medium"@ {
        Some(Severity::Medium)
    } else if t == "Low"@ {
        Some(Severity::Low)
    } else {
        None
    }
}

/// The status written `t`, if any.
pub open spec fn status_from_text(t: Seq<char>) -> Option<Status> {
    if t == "open"@ {
        Some(Status::Open)
    } else if t == "processed"@ {
        Some(Status::Processed)
    } else if t == "dismissed"@ {
        Some(Status::Dismissed)
    } else {
        None
    }
}

/// The row that a markdown table line holds: the trimmed line must begin and
/// end with `|`, hold eight `|`-separated cells, and each cell is trimmed.
pub open spec fn spec_parse_row(line: Seq<char>) -> Result<RowView, RowParseError> {
    let t = trim(line);
    if !(t.len() >= 2 && t[0] == '|' && t[t.len() - 1] == '|') {
        Err(RowParseError::NotPipeDelimited)
    } else {
        let cells = split(t.subrange(1, t.len() - 1), '|');
        if cells.len() != 8 {
            Err(RowParseError::WrongColumnCount { found: cells.len() as usize })
        } else {
            match spec_parse_date(trim(cells[0])) {
                None => Err(RowParseError::InvalidDate),
                Some(date) => match severity_from_text(trim(cells[5])) {
                    None => Err(RowParseError::InvalidSeverity),
                    Some(severity) => match status_from_text(trim(cells[6])) {
                        None => Err(RowParseError::InvalidStatus),
                        Some(status) => Ok(
                            RowView {
                                date,
                                advisory_id: trim(cells[1]),
                                source_url: trim(cells[2]),
                                package: trim(cells[3]),
                                file_line: trim(cells[4]),
                                severity,
                                status,
                                note: trim(cells[7]),
                            },
                        ),
                    },
                },
            }
        }
    }
}

/// The digit character for `d`.
fn digit(d: u64) -> (c: char)
    requires
        d < 10,
    ensures
        c == digit_char(d as int),
{
    ((d as u8) + 48u8) as char
}

/// Decimal notation of `n`.
pub(crate) fn decimal_chars(n: u64) -> (v: Vec<char>)
    ensures
        v@ == decimal(n as nat),
{
    let mut acc: Vec<char> = Vec::new();
    let mut q = n;
    loop
        invariant
            decimal(n as nat) == decimal(q as nat) + acc@,
        decreases q,
    {
        if q < 10 {
            let ghost old_acc = acc@;
            acc.insert(0, digit(q));
            assert(acc@ == seq![digit_char(q as int)] + old_acc);
            return acc;
        } else {
            let ghost old_acc = acc@;
            acc.insert(0, digit(q % 10));
            assert(acc@ == seq![digit_char((q % 10) as int)] + old_acc);
            assert(decimal(q as nat) == decimal((q / 10) as nat).push(digit_char((q % 10) as int)));
            assert(decimal((q / 10) as nat).push(digit_char((q % 10) as int)) + old_acc
                == decimal((q / 10) as nat) + acc@);
            q = q / 10;
        }
    }
}

/// Appends the decimal notation of `n`, zero-padded to `w` characters.
fn push_padded(v: &mut Vec<char>, n: u32, w: usize)
    ensures
        final(v)@ == old(v)@ + padded(n as nat, w as nat),
{
    let d = decimal_chars(n as u64);
    if d.len() < w {
        let mut k: usize = 0;
        while k < w - d.len()
            invariant
                d.len() < w,
                k <= w - d.len(),
                v@ == old(v)@ + zeros(k as int),
            decreases w - d.len() - k,
        {
            v.push('0');
            assert(zeros(k + 1) == zeros(k as int).push('0'));
            k = k + 1;
        }
        push_all(v, &d);
        assert(old(v)@ + zeros((w - d.len()) as int) + d@ == old(v)@ + (zeros((w - d.len()) as int) + d@));
    } else {
        push_all(v, &d);
    }
}


impl Severity {
    /// The severity as written in the table (`Critical`, `High`, `Medium`, `Low`).
    pub fn as_str(&self) -> (r: &'static str)
        ensures
            r@ == severity_text(*self),
    {
        match self {
            Severity::Critical => "Critical",
            Severity::High => "High",
            Severity::Medium => "Medium",
            Severity::Low => "Low",
        }
    }
}

impl Status {
    /// The status as written in the table (`open`, `processed`, `dismissed`).
    pub fn as_str(&self) -> (r: &'static str)
        ensures
            r@ == status_text(*self),
    {
        match self {
            Status::Open => "open",
            Status::Processed => "processed",
            Status::Dismissed => "dismissed",
        }
    }
}

impl AdvisoryRow {
    /// A field-by-field copy of this row.
    pub fn copied(&self) -> (c: AdvisoryRow)
        ensures
            c@ == self@,
    {
        AdvisoryRow {
            date: self.date,
            advisory_id: self.advisory_id.clone(),
            source_url: self.source_url.clone(),
            package: self.package.clone(),
            file_line: self.file_line.clone(),
            severity: self.severity,
            status: self.status,
            note: self.note.clone(),
        }
    }

    /// The markdown table line of this row.
    pub fn to_line(&self) -> (r: String)
        ensures
            r@ == row_line(self@),
    {
        let v = self.line_chars();
        from_chars(&v)
    }

    /// The characters of the markdown table line of this row.
    pub fn line_chars(&self) -> (v: Vec<char>)
        ensures
            v@ == row_line(self@),
    {
        let mut d: Vec<char> = Vec::new();
        let y = self.date.year;
        let magnitude: u32 = if y < 0 {
            d.push('-');
            (0i64 - y as i64) as u32
        } else {
            if y > 9999 {
                d.push('+');
            }
            y as u32
        };
        push_padded(&mut d, magnitude, 4);
        d.push('-');
        push_padded(&mut d, self.date.month as u32, 2);
        d.push('-');
        push_padded(&mut d, self.date.day as u32, 2);
        assert(d@ =~= date_text(self.date));
        let texts: Vec<Vec<char>> = vec![
            d,
            to_chars(self.advisory_id.as_str()),
            to_chars(self.source_url.as_str()),
            to_chars(self.package.as_str()),
            to_chars(self.file_line.as_str()),
            to_chars(self.severity.as_str()),
            to_chars(self.status.as_str()),
            to_chars(self.note.as_str()),
        ];
        assert(views(texts@) =~= row_texts(self@));
        let mut v: Vec<char> = Vec::new();
        v.push('|');
        let mut i: usize = 0;
        while i < texts.len()
            invariant
                texts.len() == 8,
                views(texts@) == row_texts(self@),
                i <= 8,
                v@ == seq!['|'] + joined_prefix(views(texts@), i as int),
            decreases 8 - i,
        {
            let ghost before = v@;
            if i > 0 {
                v.push('|');
            }
            v.push(' ');
            push_all(&mut v, &texts[i]);
            v.push(' ');
            assert(views(texts@)[i as int] == texts@[i as int]@);
            if i == 0 {
                assert(v@ == seq!['|'] + cell(texts@[0]@));
            } else {
                assert(v@ == before + seq!['|'] + cell(texts@[i as int]@));
            }
            i = i + 1;
        }
        proof {
            lemma_joined_prefix_full(views(texts@));
        }
        v.push('|');
        v
    }
}

/// The first `k` pieces of `ts`, each as a cell, joined by `|`.
pub open spec fn joined_prefix(ts: Seq<Seq<char>>, k: int) -> Seq<char>
    decreases k,
{
    if k <= 0 {
        seq![]
    } else if k == 1 {
        cell(ts[0])
    } else {
        joined_prefix(ts, k - 1) + seq!['|'] + cell(ts[k - 1])
    }
}

proof fn lemma_joined_prefix_tail(ts: Seq<Seq<char>>, k: int)
    requires
        2 <= k <= ts.len(),
    ensures
        joined_prefix(ts, k) == cell(ts[0]) + seq!['|'] + joined_prefix(ts.drop_first(), k - 1),
    decreases k,
{
    let tl = ts.drop_first();
    if k > 2 {
        lemma_joined_prefix_tail(ts, k - 1);
        assert(joined_prefix(ts, k) == joined_prefix(ts, k - 1) + seq!['|'] + cell(ts[k - 1]));
        assert(tl[k - 2] == ts[k - 1]);
        assert(joined_prefix(tl, k - 1) == joined_prefix(tl, k - 2) + seq!['|'] + cell(tl[k - 2]));
        assert(cell(ts[0]) + seq!['|'] + joined_prefix(tl, k - 2) + seq!['|'] + cell(ts[k - 1])
            =~= cell(ts[0]) + seq!['|'] + (joined_prefix(tl, k - 2) + seq!['|'] + cell(ts[k - 1])));
    } else {
        assert(tl[0] == ts[1]);
        assert(joined_prefix(tl, 1) == cell(tl[0]));
        assert(joined_prefix(ts, 1) == cell(ts[0]));
        assert(joined_prefix(ts, 2) == joined_prefix(ts, 1) + seq!['|'] + cell(ts[1]));
    }
}

proof fn lemma_joined_prefix_full(ts: Seq<Seq<char>>)
    ensures
        joined_prefix(ts, ts.len() as int) == joined(ts.map_values(|x: Seq<char>| cell(x))),
    decreases ts.len(),
{
    let cs = ts.map_values(|x: Seq<char>| cell(x));
    if ts.len() >= 2 {
        lemma_joined_prefix_tail(ts, ts.len() as int);
        lemma_joined_prefix_full(ts.drop_first());
        assert(cs.drop_first() == ts.drop_first().map_values(|x: Seq<char>| cell(x)));
    }
}


/// Whether `c` is an ASCII decimal digit.
fn char_is_digit(c: char) -> (r: bool)
    ensures
        r == is_digit(c),
{
    '0' <= c && c <= '9'
}

/// The number written by the digits `s[i]`, `s[i + 1]`.
fn two_digits_at(s: &Vec<char>, i: usize) -> (r: u32)
    requires
        i + 1 < s.len(),
        is_digit(s@[i as int]),
        is_digit(s@[i + 1]),
    ensures
        r as int == two_digits(s@, i as int),
        r < 100,
{
    let a = (s[i] as u32) - 48;
    let b = (s[i + 1] as u32) - 48;
    a * 10 + b
}

/// Parses a `YYYY-MM-DD` date.
pub fn parse_date(s: &Vec<char>) -> (r: Option<Date>)
    ensures
        r == spec_parse_date(s@),
{
    if s.len() != 10 {
        return None;
    }
    if !(char_is_digit(s[0]) && char_is_digit(s[1]) && char_is_digit(s[2]) && char_is_digit(s[3])
        && s[4] == '-' && char_is_digit(s[5]) && char_is_digit(s[6]) && s[7] == '-'
        && char_is_digit(s[8]) && char_is_digit(s[9])) {
        return None;
    }
    let y = two_digits_at(s, 0) * 100 + two_digits_at(s, 2);
    let m = two_digits_at(s, 5);
    let d = two_digits_at(s, 8);
    Date::new(y as i32, m as u8, d as u8)
}

/// The severity written in `t`, if any.
fn parse_severity(t: &Vec<char>) -> (r: Option<Severity>)
    ensures
        r == severity_from_text(t@),
{
    if chars_eq(t, &to_chars("Critical")) {
        Some(Severity::Critical)
    } else if chars_eq(t, &to_chars("High")) {
        Some(Severity::High)
    } else if chars_eq(t, &to_chars("Medium")) {
        Some(Severity::Medium)
    } else if chars_eq(t, &to_chars("Low")) {
        Some(Severity::Low)
    } else {
        None
    }
}

/// The status written in `t`, if any.
fn parse_status(t: &Vec<char>) -> (r: Option<Status>)
    ensures
        r == status_from_text(t@),
{
    if chars_eq(t, &to_chars("open")) {
        Some(Status::Open)
    } else if chars_eq(t, &to_chars("processed")) {
        Some(Status::Processed)
    } else if chars_eq(t, &to_chars("dismissed")) {
        Some(Status::Dismissed)
    } else {
        None
    }
}

/// Parses one markdown table line, given as characters.
pub fn parse_row_chars(line: &Vec<char>) -> (r: Result<AdvisoryRow, RowParseError>)
    ensures
        match r {
            Ok(row) => spec_parse_row(line@) == Ok::<RowView, RowParseError>(row@),
            Err(e) => spec_parse_row(line@) == Err::<RowView, RowParseError>(e),
        },
{
    let t = vtrim(line);
    if !(t.len() >= 2 && t[0] == '|' && t[t.len() - 1] == '|') {
        return Err(RowParseError::NotPipeDelimited);
    }
    let inner = subvec(&t, 1, t.len() - 1);
    let cells = split_exec(&inner, '|');
    if cells.len() != 8 {
        return Err(RowParseError::WrongColumnCount { found: cells.len() });
    }
    assert(views(cells@)[0] == cells@[0]@ && views(cells@)[1] == cells@[1]@ && views(cells@)[2] == cells@[2]@
        && views(cells@)[3] == cells@[3]@ && views(cells@)[4] == cells@[4]@ && views(cells@)[5] == cells@[5]@
        && views(cells@)[6] == cells@[6]@ && views(cells@)[7] == cells@[7]@);
    let date = match parse_date(&vtrim(&cells[0])) {
        None => return Err(RowParseError::InvalidDate),
        Some(d) => d,
    };
    let severity = match parse_severity(&vtrim(&cells[5])) {
        None => return Err(RowParseError::InvalidSeverity),
        Some(s) => s,
    };
    let status = match parse_status(&vtrim(&cells[6])) {
        None => return Err(RowParseError::InvalidStatus),
        Some(s) => s,
    };
    Ok(AdvisoryRow {
        date,
        advisory_id: from_chars(&vtrim(&cells[1])),
        source_url: from_chars(&vtrim(&cells[2])),
        package: from_chars(&vtrim(&cells[3])),
        file_line: from_chars(&vtrim(&cells[4])),
        severity,
        status,
        note: from_chars(&vtrim(&cells[7])),
    })
}

/// Parses one markdown table line
/// (`| 2026-05-28 | CVE-... | url | pkg | file:line | High | open | note |`).
pub fn parse_row(line: &str) -> (r: Result<AdvisoryRow, RowParseError>)
    ensures
        match r {
            Ok(row) => spec_parse_row(line@) == Ok::<RowView, RowParseError>(row@),
            Err(e) => spec_parse_row(line@) == Err::<RowView, RowParseError>(e),
        },
{
    parse_row_chars(&to_chars(line))
}


/// `x` can stand in a table cell and be read back: it holds no `|` and has
/// no surrounding whitespace.
pub open spec fn cell_safe(x: Seq<char>) -> bool {
    lacks(x, '|') && is_trimmed(x)
}

/// Every field of the row survives being written as a table line.
pub open spec fn fits_table(r: RowView) -> bool {
    &&& r.date.wf()
    &&& cell_safe(r.advisory_id)
    &&& cell_safe(r.source_url)
    &&& cell_safe(r.package)
    &&& cell_safe(r.file_line)
    &&& cell_safe(r.note)
}

proof fn lemma_digit_char(k: int)
    requires
        0 <= k <= 9,
    ensures
        is_digit(digit_char(k)),
        digit_val(digit_char(k)) == k,
        digit_char(k) != '|',
        !is_ws(digit_char(k)),
{
}

proof fn lemma_padded4(n: nat)
    requires
        n <= 9999,
    ensures
        padded(n, 4) == seq![digit_char(n as int / 1000), digit_char((n as int / 100) % 10), digit_char((n as int / 10) % 10), digit_char(n as int % 10)],
{
    reveal_with_fuel(decimal, 5);
    assert(digit_char(0) == '0');
    if n < 10 {
        assert(zeros(3) == seq!['0', '0', '0']);
    } else if n < 100 {
        assert(zeros(2) == seq!['0', '0']);
    } else if n < 1000 {
        assert(zeros(1) == seq!['0']);
    } else {
    }
}

proof fn lemma_padded2(n: nat)
    requires
        n <= 99,
    ensures
        padded(n, 2) == seq![digit_char(n as int / 10), digit_char(n as int % 10)],
{
    reveal_with_fuel(decimal, 3);
    assert(digit_char(0) == '0');
    if n < 10 {
        assert(zeros(1) == seq!['0']);
    }
}

/// Writing a well-formed date and reading it back gives the same date.
pub proof fn lemma_date_roundtrip(d: Date)
    requires
        d.wf(),
    ensures
        spec_parse_date(date_text(d)) == Some(d),
        lacks(date_text(d), '|'),
        is_trimmed(date_text(d)),
{
    let y = d.year as int;
    let m = d.month as int;
    let dd = d.day as int;
    lemma_padded4(y as nat);
    lemma_padded2(m as nat);
    lemma_padded2(dd as nat);
    lemma_digit_char(y / 1000);
    lemma_digit_char((y / 100) % 10);
    lemma_digit_char((y / 10) % 10);
    lemma_digit_char(y % 10);
    lemma_digit_char(m / 10);
    lemma_digit_char(m % 10);
    lemma_digit_char(dd / 10);
    lemma_digit_char(dd % 10);
    let s = date_text(d);
    assert(s == seq![digit_char(y / 1000), digit_char((y / 100) % 10), digit_char((y / 10) % 10), digit_char(y % 10), '-',
        digit_char(m / 10), digit_char(m % 10), '-', digit_char(dd / 10), digit_char(dd % 10)]);
    assert(two_digits(s, 0) * 100 + two_digits(s, 2) == y);
    assert(two_digits(s, 5) == m);
    assert(two_digits(s, 8) == dd);
}

proof fn lemma_severity_roundtrip(v: Severity)
    ensures
        severity_from_text(severity_text(v)) == Some(v),
        cell_safe(severity_text(v)),
{
    reveal_strlit("Critical");
    reveal_strlit("High");
    reveal_strlit("Medium");
    reveal_strlit("Low");
}

proof fn lemma_status_roundtrip(v: Status)
    ensures
        status_from_text(status_text(v)) == Some(v),
        cell_safe(status_text(v)),
{
    reveal_strlit("open");
    reveal_strlit("processed");
    reveal_strlit("dismissed");
}

/// The table line of a row with a well-formed date begins `| ` and a digit,
/// and ends with `|`.
pub proof fn lemma_row_line_shape(r: RowView)
    requires
        r.date.wf(),
    ensures
        row_line(r).len() >= 4,
        row_line(r)[0] == '|',
        row_line(r)[1] == ' ',
        is_digit(row_line(r)[2]),
        row_line(r).last() == '|',
{
    let line = row_line(r);
    let cs = row_texts(r).map_values(|x: Seq<char>| cell(x));
    assert(cs.len() == 8);
    assert(joined(cs) == cs[0] + seq!['|'] + joined(cs.drop_first()));
    let y = r.date.year as int;
    lemma_padded4(y as nat);
    lemma_digit_char(y / 1000);
    let dt = date_text(r.date);
    assert(dt[0] == digit_char(y / 1000));
    assert(cs[0] == cell(dt));
    assert(cell(dt)[1] == dt[0]);
    assert(line[2] == joined(cs)[1]);
    assert(joined(cs)[1] == cs[0][1]);
}

/// A cell ` x ` lacks `|` and trims back to `x` when `x` is cell-safe.
proof fn lemma_padded_cell(x: Seq<char>)
    requires
        cell_safe(x),
    ensures
        lacks(cell(x), '|'),
        trim(cell(x)) == x,
{
    let p = cell(x);
    assert forall|i: int| 0 <= i < p.len() implies #[trigger] p[i] != '|' by {
        if 1 <= i < p.len() - 1 {
            assert(p[i] == x[i - 1]);
        }
    }
    lemma_trim_padded(seq![' '], x, seq![' ']);
}

/// Joined pieces without `|` split back into the pieces.
proof fn lemma_split_joined(cs: Seq<Seq<char>>)
    requires
        cs.len() >= 1,
        forall|i: int| 0 <= i < cs.len() ==> lacks(#[trigger] cs[i], '|'),
    ensures
        split(joined(cs), '|') == cs,
    decreases cs.len(),
{
    if cs.len() == 1 {
        lemma_split_single(cs[0], '|');
    } else {
        let rest = cs.drop_first();
        assert forall|i: int| 0 <= i < rest.len() implies lacks(#[trigger] rest[i], '|') by {
            assert(rest[i] == cs[i + 1]);
        }
        lemma_split_joined(rest);
        lemma_split_cons(cs[0], '|', joined(rest));
        assert(seq![cs[0]] + rest == cs);
    }
}

/// Writing a row as a table line and parsing that line gives the row back,
/// whenever its fields fit in table cells.
pub proof fn law_row_line_roundtrip(r: RowView)
    requires
        fits_table(r),
    ensures
        spec_parse_row(row_line(r)) == Ok::<RowView, RowParseError>(r),
{
    let line = row_line(r);
    lemma_date_roundtrip(r.date);
    lemma_severity_roundtrip(r.severity);
    lemma_status_roundtrip(r.status);
    let ts = row_texts(r);
    let cs = ts.map_values(|x: Seq<char>| cell(x));
    assert forall|i: int| 0 <= i < cs.len() implies lacks(#[trigger] cs[i], '|') && trim(cs[i]) == ts[i] by {
        assert(cell_safe(ts[i]));
        lemma_padded_cell(ts[i]);
    }
    lemma_split_joined(cs);
    let inner = joined(cs);
    assert(line[0] == '|');
    assert(line.last() == '|');
    lemma_trim_trimmed(line);
    assert(line.subrange(1, line.len() - 1) == inner);
    assert(trim(cs[0]) == date_text(r.date));
    assert(trim(cs[1]) == r.advisory_id);
    assert(trim(cs[2]) == r.source_url);
    assert(trim(cs[3]) == r.package);
    assert(trim(cs[4]) == r.file_line);
    assert(trim(cs[5]) == severity_text(r.severity));
    assert(trim(cs[6]) == status_text(r.status));
    assert(trim(cs[7]) == r.note);
}


/// The message of a row parse error.
pub open spec fn row_error_text(e: RowParseError) -> Seq<char> {
    match e {
        RowParseError::NotPipeDelimited => "row is not a `|`-delimited table line"@,
        RowParseError::WrongColumnCount { found } => "row has "@ + decimal(found as nat) + " columns, expected 8"@,
        RowParseError::InvalidDate => "invalid date (expected an existing YYYY-MM-DD day)"@,
        RowParseError::InvalidSeverity => "invalid severity (expected Critical, High, Medium or Low)"@,
        RowParseError::InvalidStatus => "invalid status (expected open, processed or dismissed)"@,
    }
}

impl RowParseError {
    /// The error's message.
    pub fn message(&self) -> (r: String)
        ensures
            r@ == row_error_text(*self),
    {
        match self {
            RowParseError::NotPipeDelimited => from_chars(&to_chars("row is not a `|`-delimited table line")),
            RowParseError::WrongColumnCount { found } => {
                let mut v = to_chars("row has ");
                push_all(&mut v, &decimal_chars(*found as u64));
                push_all(&mut v, &to_chars(" columns, expected 8"));
                from_chars(&v)
            },
            RowParseError::InvalidDate => from_chars(&to_chars("invalid date (expected an existing YYYY-MM-DD day)")),
            RowParseError::InvalidSeverity => from_chars(
                &to_chars("invalid severity (expected Critical, High, Medium or Low)"),
            ),
            RowParseError::InvalidStatus => from_chars(&to_chars("invalid status (expected open, processed or dismissed)")),
        }
    }
}

/// The table line of a row with status `open` holds `| open |`: the status
/// cell between its two bars.
pub proof fn lemma_open_row_marked(r: RowView)
    requires
        r.status == Status::Open,
    ensures
        has_sub(row_line(r), "| open |"@),
{
    let ts = row_texts(r);
    lemma_joined_prefix_full(ts);
    let j6 = joined_prefix(ts, 6);
    let line = row_line(r);
    reveal_strlit("open");
    reveal_strlit("| open |");
    assert(ts[6] == "open"@);
    assert(joined_prefix(ts, 8) == joined_prefix(ts, 7) + seq!['|'] + cell(ts[7]));
    assert(joined_prefix(ts, 7) == j6 + seq!['|'] + cell(ts[6]));
    let i: int = 1 + j6.len() as int;
    assert(line == seq!['|'] + j6 + (seq!['|'] + cell(ts[6]) + seq!['|']) + cell(ts[7]) + seq!['|']);
    assert(line.subrange(i, i + 8) == "| open |"@);
    lemma_find_from_found(line, "| open |"@, 0, i);
}

} // verus!
