//! Extraction of the appendable block that an agent report delimits with
//! `<!-- INBOX_APPEND_START -->` / `<!-- INBOX_APPEND_END -->`.

use vstd::prelude::*;
use crate::text::{
    count_from, count_matches_exec, find, find_from, law_find_from_first, matches_at, find_from_exec, from_chars, lines, lines_exec,
    matches_at_exec, starts_with, string_views, subvec, to_chars, trim_end, trim_start, views,
    vtrim_end, vtrim_start,
};

verus! {

/// Marker opening the appendable block.
pub const SENTINEL_START: &'static str = "<!-- INBOX_APPEND_START -->";

/// Marker closing the appendable block.
pub const SENTINEL_END: &'static str = "<!-- INBOX_APPEND_END -->";

/// Why a report holds no appendable block.
#[derive(Clone, Copy, Debug, PartialEq, Eq, Structural)]
pub enum SentinelError {
    /// No start marker in the report.
    MissingStartMarker,
    /// No end marker after the first start marker.
    MissingEndMarker,
}

/// The message of a sentinel error.
pub open spec fn sentinel_error_text(e: SentinelError) -> Seq<char> {
    match e {
        SentinelError::MissingStartMarker => "missing sentinel start marker `<!-- INBOX_APPEND_START -->` in report"@,
        SentinelError::MissingEndMarker => "missing sentinel end marker `<!-- INBOX_APPEND_END -->` after start"@,
    }
}

impl SentinelError {
    /// The error's message.
    pub fn message(&self) -> (r: &'static str)
        ensures
            r@ == sentinel_error_text(*self),
    {
        match self {
            SentinelError::MissingStartMarker => "missing sentinel start marker `<!-- INBOX_APPEND_START -->` in report",
            SentinelError::MissingEndMarker => "missing sentinel end marker `<!-- INBOX_APPEND_END -->` after start",
        }
    }
}

/// The start marker's characters.
pub open spec fn start_marker() -> Seq<char> {
    "<!-- INBOX_APPEND_START -->"@
}

/// The end marker's characters.
pub open spec fn end_marker() -> Seq<char> {
    "<!-- INBOX_APPEND_END -->"@
}

/// The opening of an HTML comment.
pub open spec fn comment_open() -> Seq<char> {
    "<!--"@
}

/// A right-trimmed block line is kept when it is neither blank nor an HTML comment line.
pub open spec fn keeps_line(l: Seq<char>) -> bool {
    trim_start(l).len() > 0 && !starts_with(trim_start(l), comment_open())
}

/// The kept lines of a block, each with trailing whitespace removed.
pub open spec fn block_rows(ls: Seq<Seq<char>>) -> Seq<Seq<char>>
    decreases ls.len(),
{
    if ls.len() == 0 {
        seq![]
    } else {
        let l = trim_end(ls.last());
        if keeps_line(l) {
            block_rows(ls.drop_last()).push(l)
        } else {
            block_rows(ls.drop_last())
        }
    }
}

/// Position just after the first start marker, and position of the first end
/// marker after it.
pub open spec fn block_bounds(text: Seq<char>) -> Result<(int, int), SentinelError> {
    match find(text, start_marker()) {
        None => Err(SentinelError::MissingStartMarker),
        Some(si) => {
            let after = si + start_marker().len();
            match find_from(text, end_marker(), after) {
                None => Err(SentinelError::MissingEndMarker),
                Some(ei) => Ok((after, ei)),
            }
        }
    }
}

/// The row lines of the first block of `text`: the lines strictly between
/// the first start marker and the first end marker after it, right-trimmed,
/// without blank lines and HTML comment lines.
pub open spec fn spec_extract_block(text: Seq<char>) -> Result<Seq<Seq<char>>, SentinelError> {
    match block_bounds(text) {
        Err(e) => Err(e),
        Ok((after, ei)) => Ok(block_rows(lines(text.subrange(after, ei)))),
    }
}

/// Number of start markers after the end of the first block (0 without a block).
pub open spec fn spec_extra_starts(text: Seq<char>) -> nat {
    match block_bounds(text) {
        Err(_) => 0,
        Ok((after, ei)) => count_from(text, start_marker(), ei + end_marker().len()),
    }
}

/// Every extracted line is right-trimmed, not blank, and not an HTML comment line.
pub proof fn law_block_rows_kept(ls: Seq<Seq<char>>)
    ensures
        forall|i: int| 0 <= i < block_rows(ls).len() ==> keeps_line(#[trigger] block_rows(ls)[i])
            && trim_end(block_rows(ls)[i]) == block_rows(ls)[i],
        block_rows(ls).len() <= ls.len(),
    decreases ls.len(),
{
    if ls.len() > 0 {
        law_block_rows_kept(ls.drop_last());
        lemma_trim_end_idem(ls.last());
    }
}

/// Trimming the end twice is trimming it once.
pub proof fn lemma_trim_end_idem(s: Seq<char>)
    ensures
        trim_end(trim_end(s)) == trim_end(s),
    decreases s.len(),
{
    if s.len() > 0 && crate::text::is_ws(s.last()) {
        lemma_trim_end_idem(s.drop_last());
    }
}

/// Bounds of the first block, as in [`block_bounds`].
fn block_bounds_exec(text: &Vec<char>) -> (r: Result<(usize, usize), SentinelError>)
    ensures
        match r {
            Ok((a, e)) => block_bounds(text@) == Ok::<(int, int), SentinelError>((a as int, e as int)),
            Err(err) => block_bounds(text@) == Err::<(int, int), SentinelError>(err),
        },
        match r {
            Ok((a, e)) => a <= e && e + end_marker().len() <= text@.len(),
            Err(_) => true,
        },
{
    let _n = text.len();
    let sm = to_chars(SENTINEL_START);
    let em = to_chars(SENTINEL_END);
    proof {
        reveal_strlit("<!-- INBOX_APPEND_START -->");
        reveal_strlit("<!-- INBOX_APPEND_END -->");
    }
    let si = match find_from_exec(text, &sm, 0) {
        None => return Err(SentinelError::MissingStartMarker),
        Some(i) => i,
    };
    proof { lemma_find_from_bounds(text@, sm@, 0); }
    let after = si + sm.len();
    match find_from_exec(text, &em, after) {
        None => Err(SentinelError::MissingEndMarker),
        Some(ei) => {
            proof { lemma_find_from_bounds(text@, em@, after as int); }
            Ok((after, ei))
        },
    }
}

/// What `find_from` returns is a match at or after the starting position.
pub proof fn lemma_find_from_bounds(s: Seq<char>, p: Seq<char>, i: int)
    ensures
        find_from(s, p, i) is Some ==> i <= find_from(s, p, i)->0 && find_from(s, p, i)->0 + p.len() <= s.len(),
    decreases s.len() - i,
{
    if !(i < 0 || i + p.len() > s.len()) && !crate::text::matches_at(s, p, i) && i < s.len() {
        lemma_find_from_bounds(s, p, i + 1);
    }
}

/// Extracts the row lines of the first appendable block of `report_text`.
///
/// Returns each non-blank, non-comment line (right-trimmed) between the first
/// start marker and the next end marker; further blocks are ignored.
pub fn extract_block(report_text: &str) -> (r: Result<Vec<String>, SentinelError>)
    ensures
        match r {
            Ok(v) => spec_extract_block(report_text@) == Ok::<Seq<Seq<char>>, SentinelError>(string_views(v@)),
            Err(e) => spec_extract_block(report_text@) == Err::<Seq<Seq<char>>, SentinelError>(e),
        },
{
    let text = to_chars(report_text);
    let (after, ei) = match block_bounds_exec(&text) {
        Err(e) => return Err(e),
        Ok(b) => b,
    };
    let block = subvec(&text, after, ei);
    let ls = lines_exec(&block);
    let cmt = to_chars("<!--");
    let mut out: Vec<String> = Vec::new();
    let mut i: usize = 0;
    while i < ls.len()
        invariant
            i <= ls.len(),
            cmt@ == comment_open(),
            string_views(out@) == block_rows(views(ls@).take(i as int)),
        decreases ls.len() - i,
    {
        let l = vtrim_end(&ls[i]);
        let t = vtrim_start(&l);
        let ghost vs = views(ls@);
        assert(vs.take(i + 1).drop_last() == vs.take(i as int));
        assert(vs.take(i + 1).last() == ls@[i as int]@);
        if t.len() > 0 && !matches_at_exec(&t, &cmt, 0) {
            let ghost before = string_views(out@);
            out.push(from_chars(&l));
            assert(string_views(out@) == before.push(l@));
        }
        i = i + 1;
    }
    assert(views(ls@).take(ls.len() as int) == views(ls@));
    Ok(out)
}

/// Number of start markers after the first block (0 when there is no block);
/// a non-zero count means that further blocks were ignored.
pub fn extra_start_markers(report_text: &str) -> (n: usize)
    ensures
        n == spec_extra_starts(report_text@),
{
    let text = to_chars(report_text);
    match block_bounds_exec(&text) {
        Err(_) => 0,
        Ok((_after, ei)) => {
            let _n = text.len();
            let em = to_chars(SENTINEL_END);
            let sm = to_chars(SENTINEL_START);
            let rest = subvec(&text, ei + em.len(), text.len());
            let n = count_matches_exec(&rest, &sm);
            proof {
                lemma_count_from_skip(text@, sm@, ei + em@.len());
            }
            n
        },
    }
}

/// Counting from position `k` is counting in the suffix from `k`.
pub proof fn lemma_count_from_skip(s: Seq<char>, p: Seq<char>, k: int)
    requires
        0 <= k <= s.len(),
    ensures
        count_from(s, p, k) == count_from(s.skip(k), p, 0),
{
    lemma_count_from_shift(s, p, k, k);
}

proof fn lemma_count_from_shift(s: Seq<char>, p: Seq<char>, k: int, i: int)
    requires
        0 <= k <= i,
        k <= s.len(),
    ensures
        count_from(s, p, i) == count_from(s.skip(k), p, i - k),
    decreases s.len() - i,
{
    if p.len() == 0 || i + p.len() > s.len() {
    } else {
        assert(s.skip(k).subrange(i - k, i - k + p.len()) == s.subrange(i, i + p.len()));
        assert(crate::text::matches_at(s, p, i) == crate::text::matches_at(s.skip(k), p, i - k));
        if crate::text::matches_at(s, p, i) {
            lemma_count_from_shift(s, p, k, i + p.len());
        } else {
            lemma_count_from_shift(s, p, k, i + 1);
        }
    }
}

/// The extracted lines are all the lines, right-trimmed, that are neither
/// blank nor an HTML comment line: none is dropped, none added, and they
/// keep their order.
pub proof fn law_block_rows_all_kept(ls: Seq<Seq<char>>)
    ensures
        block_rows(ls) == ls.map_values(|l: Seq<char>| trim_end(l)).filter(
            |l: Seq<char>| trim_start(l).len() > 0 && !starts_with(trim_start(l), "<!--"@)),
    decreases ls.len(),
{
    reveal(Seq::filter);
    if ls.len() > 0 {
        law_block_rows_all_kept(ls.drop_last());
        let f = |l: Seq<char>| trim_end(l);
        assert(ls.map_values(f).drop_last() =~= ls.drop_last().map_values(f));
        assert(ls.map_values(f).last() == trim_end(ls.last()));
    }
}

/// The block lies between the first start marker of the text and the first
/// end marker after it: `MissingStartMarker` exactly when the text holds no
/// start marker, `MissingEndMarker` exactly when no end marker follows the
/// first start marker.
pub proof fn law_block_bounds_first(text: Seq<char>)
    ensures
        block_bounds(text) matches Err(SentinelError::MissingStartMarker)
            <==> forall|i: int| 0 <= i ==> !#[trigger] matches_at(text, start_marker(), i),
        match block_bounds(text) {
            Err(SentinelError::MissingStartMarker) => true,
            Err(SentinelError::MissingEndMarker) => exists|si: int| {
                &&& #[trigger] matches_at(text, start_marker(), si)
                &&& forall|i: int| 0 <= i < si ==> !#[trigger] matches_at(text, start_marker(), i)
                &&& forall|j: int| si + start_marker().len() <= j ==> !#[trigger] matches_at(text, end_marker(), j)
            },
            Ok((after, ei)) => {
                &&& matches_at(text, start_marker(), after - start_marker().len())
                &&& forall|i: int| 0 <= i < after - start_marker().len() ==> !#[trigger] matches_at(text, start_marker(), i)
                &&& after <= ei
                &&& matches_at(text, end_marker(), ei)
                &&& forall|j: int| after <= j < ei ==> !#[trigger] matches_at(text, end_marker(), j)
            },
        },
{
    law_find_from_first(text, start_marker(), 0);
    if let Some(si) = find(text, start_marker()) {
        law_find_from_first(text, end_marker(), si + start_marker().len());
        assert(matches_at(text, start_marker(), si));
    }
}

} // verus!
