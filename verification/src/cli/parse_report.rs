//! `parse-report`: the rows of the appendable block of an agent report.

use vstd::prelude::*;
use crate::inbox::row_views;
use crate::row::{parse_row, spec_parse_row, AdvisoryRow, RowParseError, RowView};
use crate::sentinel::{extract_block, spec_extract_block, SentinelError};
use crate::text::string_views;

verus! {

/// Why a report yields no rows.
#[derive(Clone, Copy, Debug, PartialEq, Eq, Structural)]
pub enum ReportError {
    /// The report has no appendable block.
    Sentinel(SentinelError),
    /// A line of the block is not a row.
    Row(RowParseError),
}

impl ReportError {
    /// Exit status of the command line for this error.
    pub open spec fn exit_code_spec(self) -> i32 {
        match self {
            ReportError::Sentinel(_) => 1i32,
            ReportError::Row(_) => 2i32,
        }
    }

    /// The error's message.
    pub open spec fn message_spec(self) -> Seq<char> {
        match self {
            ReportError::Sentinel(e) => crate::sentinel::sentinel_error_text(e),
            ReportError::Row(e) => crate::row::row_error_text(e),
        }
    }

    /// Exit status of the command line for this error: 1 for a missing
    /// marker (bad input), 2 for a row that fails to parse.
    pub fn exit_code(&self) -> (c: i32)
        ensures
            c == self.exit_code_spec(),
    {
        match self {
            ReportError::Sentinel(_) => 1,
            ReportError::Row(_) => 2,
        }
    }

    /// The error's message.
    pub fn message(&self) -> (r: String)
        ensures
            r@ == self.message_spec(),
    {
        match self {
            ReportError::Sentinel(e) => crate::text::from_chars(&crate::text::to_chars(e.message())),
            ReportError::Row(e) => e.message(),
        }
    }
}

/// The rows of the first `k` lines, or the error of the first line that fails.
pub open spec fn parse_lines(ls: Seq<Seq<char>>, k: int) -> Result<Seq<RowView>, RowParseError>
    decreases k,
{
    if k <= 0 {
        Ok(seq![])
    } else {
        match parse_lines(ls, k - 1) {
            Err(e) => Err(e),
            Ok(rs) => match spec_parse_row(ls[k - 1]) {
                Ok(r) => Ok(rs.push(r)),
                Err(e) => Err(e),
            },
        }
    }
}

/// The rows of a report's block, in order, or the first error.
pub open spec fn spec_parse_report(text: Seq<char>) -> Result<Seq<RowView>, ReportError> {
    match spec_extract_block(text) {
        Err(e) => Err(ReportError::Sentinel(e)),
        Ok(ls) => match parse_lines(ls, ls.len() as int) {
            Err(e) => Err(ReportError::Row(e)),
            Ok(rs) => Ok(rs),
        },
    }
}

proof fn lemma_parse_lines_failed(ls: Seq<Seq<char>>, k1: int, k2: int)
    requires
        0 <= k1 <= k2,
        parse_lines(ls, k1) is Err,
    ensures
        parse_lines(ls, k2) == parse_lines(ls, k1),
    decreases k2 - k1,
{
    if k2 > k1 {
        lemma_parse_lines_failed(ls, k1, k2 - 1);
    }
}

/// Extracts the block of `report_text` and parses each of its lines as a row.
pub fn parse_report(report_text: &str) -> (r: Result<Vec<AdvisoryRow>, ReportError>)
    ensures
        match r {
            Ok(v) => spec_parse_report(report_text@) == Ok::<Seq<RowView>, ReportError>(row_views(v@)),
            Err(e) => spec_parse_report(report_text@) == Err::<Seq<RowView>, ReportError>(e),
        },
{
    let lines = match extract_block(report_text) {
        Err(e) => return Err(ReportError::Sentinel(e)),
        Ok(v) => v,
    };
    let ghost ls = string_views(lines@);
    let mut rows: Vec<AdvisoryRow> = Vec::new();
    let mut i: usize = 0;
    assert(row_views(rows@) == Seq::<RowView>::empty());
    while i < lines.len()
        invariant
            i <= lines.len(),
            ls == string_views(lines@),
            spec_extract_block(report_text@) == Ok::<Seq<Seq<char>>, SentinelError>(ls),
            parse_lines(ls, i as int) == Ok::<Seq<RowView>, RowParseError>(row_views(rows@)),
        decreases lines.len() - i,
    {
        assert(ls[i as int] == lines@[i as int]@);
        match parse_row(lines[i].as_str()) {
            Ok(row) => {
                let ghost before = row_views(rows@);
                rows.push(row);
                assert(row_views(rows@) == before.push(row@));
            },
            Err(e) => {
                proof { lemma_parse_lines_failed(ls, i + 1, ls.len() as int); }
                return Err(ReportError::Row(e));
            },
        }
        i = i + 1;
    }
    Ok(rows)
}

proof fn lemma_parse_lines_ok(ls: Seq<Seq<char>>, k: int)
    requires
        0 <= k <= ls.len(),
        forall|j: int| 0 <= j < k ==> spec_parse_row(#[trigger] ls[j]) is Ok,
    ensures
        parse_lines(ls, k) == Ok::<Seq<RowView>, RowParseError>(ls.take(k).map_values(|l: Seq<char>| spec_parse_row(l)->Ok_0)),
    decreases k,
{
    let f = |l: Seq<char>| spec_parse_row(l)->Ok_0;
    if k == 0 {
        assert(ls.take(0).map_values(f) =~= Seq::<RowView>::empty());
    } else {
        lemma_parse_lines_ok(ls, k - 1);
        assert(spec_parse_row(ls[k - 1]) is Ok);
        assert(ls.take(k).map_values(f) =~= ls.take(k - 1).map_values(f).push(f(ls[k - 1])));
    }
}

proof fn lemma_parse_lines_first_err(ls: Seq<Seq<char>>, i: int, k: int)
    requires
        0 <= i < k <= ls.len(),
        forall|j: int| 0 <= j < i ==> spec_parse_row(#[trigger] ls[j]) is Ok,
        spec_parse_row(ls[i]) is Err,
    ensures
        parse_lines(ls, k) == Err::<Seq<RowView>, RowParseError>(spec_parse_row(ls[i])->Err_0),
{
    lemma_parse_lines_ok(ls, i);
    assert(parse_lines(ls, i + 1) == Err::<Seq<RowView>, RowParseError>(spec_parse_row(ls[i])->Err_0));
    lemma_parse_lines_failed(ls, i + 1, k);
}

/// A report gives one row per line of its block, in order, when every line
/// parses; otherwise the error of the first line that does not. A report
/// without a block gives the block's error.
pub proof fn law_report_row_per_line(text: Seq<char>)
    ensures
        match spec_extract_block(text) {
            Err(e) => spec_parse_report(text) == Err::<Seq<RowView>, ReportError>(ReportError::Sentinel(e)),
            Ok(ls) => {
                &&& (forall|j: int| 0 <= j < ls.len() ==> spec_parse_row(#[trigger] ls[j]) is Ok)
                    ==> spec_parse_report(text) == Ok::<Seq<RowView>, ReportError>(
                        ls.map_values(|l: Seq<char>| spec_parse_row(l)->Ok_0))
                &&& forall|i: int| 0 <= i < ls.len() && #[trigger] spec_parse_row(ls[i]) is Err
                    && (forall|j: int| 0 <= j < i ==> spec_parse_row(#[trigger] ls[j]) is Ok)
                    ==> spec_parse_report(text) == Err::<Seq<RowView>, ReportError>(
                        ReportError::Row(spec_parse_row(ls[i])->Err_0))
            },
        },
{
    if let Ok(ls) = spec_extract_block(text) {
        if forall|j: int| 0 <= j < ls.len() ==> spec_parse_row(#[trigger] ls[j]) is Ok {
            lemma_parse_lines_ok(ls, ls.len() as int);
            assert(ls.take(ls.len() as int) == ls);
        }
        assert forall|i: int| 0 <= i < ls.len() && #[trigger] spec_parse_row(ls[i]) is Err
            && (forall|j: int| 0 <= j < i ==> spec_parse_row(#[trigger] ls[j]) is Ok)
            implies spec_parse_report(text) == Err::<Seq<RowView>, ReportError>(
                ReportError::Row(spec_parse_row(ls[i])->Err_0)) by {
            lemma_parse_lines_first_err(ls, i, ls.len() as int);
        }
    }
}

} // verus!
