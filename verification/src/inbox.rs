//! The inbox markdown document: inserting rows under `## Rows`, counting the
//! open rows, and parsing the rows back.

use vstd::prelude::*;
use crate::row::{
    decimal, decimal_chars, row_error_text, fits_table, law_row_line_roundtrip, lemma_row_line_shape, parse_row_chars, row_line, spec_parse_row,
    AdvisoryRow, RowParseError, RowView,
};
use crate::sentinel::comment_open;
use crate::text::{
    lemma_trim_trimmed, lacks, lemma_lines_append, lemma_lines_cons, lemma_lines_from_clean, lines_from, lemma_lines_from_last, lemma_lines_single, strip_cr, find_from_exec, from_chars, has_sub, lines, lines_exec, matches_at_exec, push_all, starts_with,
    to_chars, trim, trim_end, trim_start, views, vtrim, vtrim_end, vtrim_start,
};

verus! {

/// Errors of inbox operations.
///
/// `MissingRowsHeading` and `ParseRow` concern the document, `Io` the file.
#[derive(Debug)]
pub enum InboxError {
    /// The document has no line `## Rows` (after trimming its end).
    MissingRowsHeading { path: String },
    /// The file could not be read or written.
    Io { path: String, message: String },
    /// A row line under `## Rows` failed to parse; `line_number` is 1-based in
    /// the whole document.
    ParseRow { path: String, line_number: usize, source: RowParseError },
}

impl InboxError {
    /// Exit status of the command line for this error when it comes from
    /// appending: 1 for a document problem, 2 for a file problem.
    pub fn exit_code(&self) -> (c: i32)
        ensures
            c == match *self {
                InboxError::Io { .. } => 2i32,
                _ => 1i32,
            },
    {
        match self {
            InboxError::Io { .. } => 2,
            _ => 1,
        }
    }

    /// The text of the error's message.
    pub open spec fn message_spec(&self) -> Seq<char> {
        match self {
            InboxError::MissingRowsHeading { path } =>
                "inbox `"@ + path@ + "` is missing `## Rows` heading — cannot determine insert position"@,
            InboxError::Io { path, message } => "inbox `"@ + path@ + "` I/O failure: "@ + message@,
            InboxError::ParseRow { path, line_number, source } =>
                "inbox `"@ + path@ + "` row parse failed at line "@ + decimal(*line_number as nat) + ": "@
                    + row_error_text(*source),
        }
    }

    /// The error's message.
    pub fn message(&self) -> (r: String)
        ensures
            r@ == self.message_spec(),
    {
        let mut v = to_chars("inbox `");
        match self {
            InboxError::MissingRowsHeading { path } => {
                push_all(&mut v, &to_chars(path.as_str()));
                push_all(&mut v, &to_chars("` is missing `## Rows` heading — cannot determine insert position"));
            },
            InboxError::Io { path, message } => {
                push_all(&mut v, &to_chars(path.as_str()));
                push_all(&mut v, &to_chars("` I/O failure: "));
                push_all(&mut v, &to_chars(message.as_str()));
            },
            InboxError::ParseRow { path, line_number, source } => {
                push_all(&mut v, &to_chars(path.as_str()));
                push_all(&mut v, &to_chars("` row parse failed at line "));
                push_all(&mut v, &decimal_chars(*line_number as u64));
                push_all(&mut v, &to_chars(": "));
                push_all(&mut v, &to_chars(source.message().as_str()));
            },
        }
        from_chars(&v)
    }

    /// The same error, naming the file `path`.
    pub fn with_path(self, path: &str) -> (r: InboxError)
        ensures
            match (self, r) {
                (InboxError::MissingRowsHeading { .. }, InboxError::MissingRowsHeading { path: p }) => p@ == path@,
                (InboxError::Io { message: m, .. }, InboxError::Io { path: p, message: m2 }) => p@ == path@ && m2@ == m@,
                (InboxError::ParseRow { line_number: l, source: s, .. }, InboxError::ParseRow { path: p, line_number: l2, source: s2 }) =>
                    p@ == path@ && l2 == l && s2 == s,
                _ => false,
            },
    {
        let p = from_chars(&to_chars(path));
        match self {
            InboxError::MissingRowsHeading { .. } => InboxError::MissingRowsHeading { path: p },
            InboxError::Io { message, .. } => InboxError::Io { path: p, message },
            InboxError::ParseRow { line_number, source, .. } => InboxError::ParseRow { path: p, line_number, source },
        }
    }
}

/// The heading line under which rows live.
pub open spec fn rows_heading() -> Seq<char> {
    "## Rows"@
}

/// The first index at or after `j` of a line that reads `## Rows` once its end is trimmed.
pub open spec fn heading_from(ls: Seq<Seq<char>>, j: int) -> Option<int>
    decreases ls.len() - j,
{
    if j < 0 || j >= ls.len() {
        None
    } else if trim_end(ls[j]) == rows_heading() {
        Some(j)
    } else {
        heading_from(ls, j + 1)
    }
}

/// The index of the first `## Rows` line.
pub open spec fn heading_index(ls: Seq<Seq<char>>) -> Option<int> {
    heading_from(ls, 0)
}

/// Each line followed by `\n`.
pub open spec fn join_lines(ls: Seq<Seq<char>>) -> Seq<char>
    decreases ls.len(),
{
    if ls.len() == 0 {
        seq![]
    } else {
        join_lines(ls.drop_last()) + ls.last() + seq!['\n']
    }
}

/// Each row's table line followed by `\n`.
pub open spec fn rows_text(rs: Seq<RowView>) -> Seq<char>
    decreases rs.len(),
{
    if rs.len() == 0 {
        seq![]
    } else {
        rows_text(rs.drop_last()) + row_line(rs.last()) + seq!['\n']
    }
}

/// The views of a sequence of rows.
pub open spec fn row_views(rs: Seq<AdvisoryRow>) -> Seq<RowView> {
    rs.map_values(|r: AdvisoryRow| r@)
}

/// The text ends with a line feed.
pub open spec fn ends_nl(s: Seq<char>) -> bool {
    s.len() > 0 && s.last() == '\n'
}

/// The document with `rows` inserted right after the `## Rows` line, the
/// first row topmost, the other lines kept in order; the result ends with a
/// line feed exactly when the input did. `None` without a `## Rows` line.
pub open spec fn spec_insert_rows(content: Seq<char>, rows: Seq<RowView>) -> Option<Seq<char>> {
    let ls = lines(content);
    match heading_index(ls) {
        None => None,
        Some(h) => {
            let out = join_lines(ls.take(h + 1)) + rows_text(rows) + join_lines(ls.skip(h + 1));
            Some(if !ends_nl(content) && ends_nl(out) { out.drop_last() } else { out })
        },
    }
}

/// The substring that marks an open row.
pub open spec fn open_marker() -> Seq<char> {
    "| open |"@
}

/// The closing of an HTML comment.
pub open spec fn comment_close() -> Seq<char> {
    "-->"@
}

/// Scans lines for open rows: (inside a comment block, open rows so far).
/// A trimmed line starting `<!--` without `-->` opens a comment block; inside
/// one, a line with `-->` closes it; elsewhere a line holding `| open |` counts.
pub open spec fn open_scan(ls: Seq<Seq<char>>) -> (bool, nat)
    decreases ls.len(),
{
    if ls.len() == 0 {
        (false, 0)
    } else {
        let prev = open_scan(ls.drop_last());
        let line = ls.last();
        let t = trim(line);
        if starts_with(t, comment_open()) && !has_sub(t, comment_close()) {
            (true, prev.1)
        } else if prev.0 {
            (!has_sub(t, comment_close()), prev.1)
        } else if has_sub(line, open_marker()) {
            (false, prev.1 + 1)
        } else {
            (false, prev.1)
        }
    }
}

/// Number of open rows of the document, outside HTML comment blocks.
pub open spec fn spec_count_open(content: Seq<char>) -> nat {
    open_scan(lines(content)).1
}

/// Whether `p` occurs in `s`.
fn contains_exec(s: &Vec<char>, p: &Vec<char>) -> (r: bool)
    ensures
        r == has_sub(s@, p@),
{
    find_from_exec(s, p, 0).is_some()
}

/// Number of open rows among the lines `ls`.
fn count_open_lines(ls: &Vec<Vec<char>>) -> (n: usize)
    ensures
        n == open_scan(views(ls@)).1,
{
    let cmt = to_chars("<!--");
    let close = to_chars("-->");
    let marker = to_chars("| open |");
    let mut in_comment = false;
    let mut n: usize = 0;
    let mut i: usize = 0;
    while i < ls.len()
        invariant
            i <= ls.len(),
            cmt@ == comment_open(),
            close@ == comment_close(),
            marker@ == open_marker(),
            open_scan(views(ls@).take(i as int)) == (in_comment, n as nat),
            n <= i,
        decreases ls.len() - i,
    {
        let ghost vs = views(ls@);
        assert(vs.take(i + 1).drop_last() == vs.take(i as int));
        assert(vs.take(i + 1).last() == ls@[i as int]@);
        let t = vtrim(&ls[i]);
        if matches_at_exec(&t, &cmt, 0) && !contains_exec(&t, &close) {
            in_comment = true;
        } else if in_comment {
            in_comment = !contains_exec(&t, &close);
        } else if contains_exec(&ls[i], &marker) {
            n = n + 1;
        }
        i = i + 1;
    }
    assert(views(ls@).take(ls.len() as int) == views(ls@));
    n
}

/// Counts the rows with status `open` in the inbox content, skipping rows
/// inside HTML comment blocks (`<!-- ... -->`).
pub fn count_open_rows(content: &str) -> (n: usize)
    ensures
        n == spec_count_open(content@),
{
    let ls = lines_exec(&to_chars(content));
    count_open_lines(&ls)
}

/// Appends `ls[a..b]`, each line followed by `\n`.
fn push_lines(out: &mut Vec<char>, ls: &Vec<Vec<char>>, a: usize, b: usize)
    requires
        a <= b <= ls.len(),
    ensures
        final(out)@ == old(out)@ + join_lines(views(ls@).subrange(a as int, b as int)),
{
    let mut k = a;
    assert(views(ls@).subrange(a as int, a as int) == Seq::<Seq<char>>::empty());
    while k < b
        invariant
            a <= k <= b <= ls.len(),
            out@ == old(out)@ + join_lines(views(ls@).subrange(a as int, k as int)),
        decreases b - k,
    {
        let ghost vs = views(ls@);
        assert(vs.subrange(a as int, k + 1).drop_last() == vs.subrange(a as int, k as int));
        assert(vs.subrange(a as int, k + 1).last() == ls@[k as int]@);
        push_all(out, &ls[k]);
        out.push('\n');
        proof { i_assoc(old(out)@, join_lines(vs.subrange(a as int, k as int)), ls@[k as int]@); }
        k = k + 1;
    }
}

/// `(a + b) + c + [\n] == a + (b + c + [\n])`.
proof fn i_assoc(a: Seq<char>, b: Seq<char>, c: Seq<char>)
    ensures
        a + b + c + seq!['\n'] == a + (b + c + seq!['\n']),
{
    assert(a + b + c + seq!['\n'] =~= a + (b + c + seq!['\n']));
}


/// Index of the first `## Rows` line among `ls`.
fn find_heading(ls: &Vec<Vec<char>>) -> (r: Option<usize>)
    ensures
        match r {
            Some(h) => heading_index(views(ls@)) == Some(h as int) && h < ls.len(),
            None => heading_index(views(ls@)) is None,
        },
{
    let heading = to_chars("## Rows");
    let mut j: usize = 0;
    while j < ls.len()
        invariant
            j <= ls.len(),
            heading@ == rows_heading(),
            heading_index(views(ls@)) == heading_from(views(ls@), j as int),
        decreases ls.len() - j,
    {
        let t = vtrim_end(&ls[j]);
        assert(views(ls@)[j as int] == ls@[j as int]@);
        if crate::text::chars_eq(&t, &heading) {
            return Some(j);
        }
        j = j + 1;
    }
    None
}

/// Appends each row's table line followed by `\n`.
fn push_rows(out: &mut Vec<char>, rows: &[AdvisoryRow])
    ensures
        final(out)@ == old(out)@ + rows_text(row_views(rows@)),
{
    let mut i: usize = 0;
    assert(row_views(rows@).take(0) == Seq::<RowView>::empty());
    while i < rows.len()
        invariant
            i <= rows.len(),
            out@ == old(out)@ + rows_text(row_views(rows@).take(i as int)),
        decreases rows.len() - i,
    {
        let ghost rv = row_views(rows@);
        assert(rv.take(i + 1).drop_last() == rv.take(i as int));
        assert(rv.take(i + 1).last() == rows@[i as int]@);
        let line = rows[i].line_chars();
        push_all(out, &line);
        out.push('\n');
        proof { i_assoc(old(out)@, rows_text(rv.take(i as int)), row_line(rows@[i as int]@)); }
        i = i + 1;
    }
    assert(row_views(rows@).take(rows.len() as int) == row_views(rows@));
}

/// Inserts `rows` right after the `## Rows` heading line and returns the new
/// content with the number of open rows in it.
///
/// `rows[0]` ends up topmost; the existing lines keep their order. The result
/// ends with a line feed exactly when `content` did. Without a `## Rows`
/// line the result is `MissingRowsHeading` naming `path`.
pub fn insert_rows(content: &str, rows: &[AdvisoryRow], path: &str) -> (r: Result<(String, usize), InboxError>)
    ensures
        match r {
            Ok((s, n)) => spec_insert_rows(content@, row_views(rows@)) == Some(s@) && n == spec_count_open(s@),
            Err(e) => spec_insert_rows(content@, row_views(rows@)) is None
                && (e matches InboxError::MissingRowsHeading { path: p } && p@ == path@),
        },
{
    let chars = to_chars(content);
    let ls = lines_exec(&chars);
    let h = match find_heading(&ls) {
        None => return Err(InboxError::MissingRowsHeading { path: from_chars(&to_chars(path)) }),
        Some(h) => h,
    };
    let mut out: Vec<char> = Vec::new();
    push_lines(&mut out, &ls, 0, h + 1);
    push_rows(&mut out, rows);
    push_lines(&mut out, &ls, h + 1, ls.len());
    let ghost vs = views(ls@);
    assert(vs.subrange(0, h + 1) == vs.take(h + 1));
    assert(vs.subrange(h + 1, vs.len() as int) == vs.skip(h + 1));
    let ends = chars.len() > 0 && chars[chars.len() - 1] == '\n';
    if !ends && out.len() > 0 && out[out.len() - 1] == '\n' {
        out.pop();
    }
    let s = from_chars(&out);
    let n = count_open_rows(s.as_str());
    Ok((s, n))
}


/// State of the scan of the lines under `## Rows`.
pub ghost enum RowsScan {
    /// Still reading rows; `in_comment` inside an HTML comment block.
    Scanning { in_comment: bool, rows: Seq<RowView> },
    /// Stopped at the next heading.
    Done { rows: Seq<RowView> },
    /// A row line failed to parse at this 1-based line number.
    Failed { line_number: int, error: RowParseError },
}

/// One line of the scan under `## Rows` (`ln` is its 1-based line number):
/// a `## ` or `# ` heading ends the section; HTML comment blocks, blank
/// lines, the separator row and the column-header row are skipped; any other
/// line must parse as a row.
pub open spec fn scan_step(st: RowsScan, line: Seq<char>, ln: int) -> RowsScan {
    match st {
        RowsScan::Scanning { in_comment, rows } => {
            let ts = trim_start(line);
            let t = trim(line);
            if starts_with(ts, "## "@) || starts_with(ts, "# "@) {
                RowsScan::Done { rows }
            } else if in_comment {
                RowsScan::Scanning { in_comment: !has_sub(line, comment_close()), rows }
            } else if has_sub(line, comment_open()) {
                RowsScan::Scanning { in_comment: !has_sub(line, comment_close()), rows }
            } else if t.len() == 0 || starts_with(t, "|---"@) || starts_with(t, "| ---"@)
                || starts_with(t, "| Date |"@) || starts_with(t, "|Date|"@) {
                RowsScan::Scanning { in_comment: false, rows }
            } else {
                match spec_parse_row(line) {
                    Ok(r) => RowsScan::Scanning { in_comment: false, rows: rows.push(r) },
                    Err(e) => RowsScan::Failed { line_number: ln, error: e },
                }
            }
        },
        _ => st,
    }
}

/// The scan after the `k` lines that follow the heading at index `h`.
pub open spec fn rows_scan(ls: Seq<Seq<char>>, h: int, k: int) -> RowsScan
    decreases k,
{
    if k <= 0 {
        RowsScan::Scanning { in_comment: false, rows: seq![] }
    } else {
        scan_step(rows_scan(ls, h, k - 1), ls[h + k], h + k + 1)
    }
}

/// The rows of the `## Rows` section, or the 1-based line number and error of
/// the first line that fails to parse. A document without the heading has no rows.
pub open spec fn spec_parse_rows(content: Seq<char>) -> Result<Seq<RowView>, (int, RowParseError)> {
    let ls = lines(content);
    match heading_index(ls) {
        None => Ok(seq![]),
        Some(h) => match rows_scan(ls, h, ls.len() - h - 1) {
            RowsScan::Scanning { rows, .. } => Ok(rows),
            RowsScan::Done { rows } => Ok(rows),
            RowsScan::Failed { line_number, error } => Err((line_number, error)),
        },
    }
}

/// A finished scan stays finished.
proof fn lemma_scan_settled(ls: Seq<Seq<char>>, h: int, k1: int, k2: int)
    requires
        0 <= k1 <= k2,
        !(rows_scan(ls, h, k1) is Scanning),
    ensures
        rows_scan(ls, h, k2) == rows_scan(ls, h, k1),
    decreases k2 - k1,
{
    if k2 > k1 {
        lemma_scan_settled(ls, h, k1, k2 - 1);
    }
}

/// Parses all rows under the `## Rows` heading.
///
/// Without the heading there are no rows. Blank lines, HTML comment blocks,
/// the column-header row and the separator row are skipped; the section ends
/// at the next `## ` or `# ` heading. A row that fails to parse gives
/// `ParseRow` with its 1-based line number and an empty `path` (the caller
/// names the file with [`InboxError::with_path`]).
pub fn parse_rows(content: &str) -> (r: Result<Vec<AdvisoryRow>, InboxError>)
    ensures
        match r {
            Ok(v) => spec_parse_rows(content@) == Ok::<Seq<RowView>, (int, RowParseError)>(row_views(v@)),
            Err(e) => exists|ln: int, err: RowParseError|
                spec_parse_rows(content@) == Err::<Seq<RowView>, (int, RowParseError)>((ln, err))
                && (e matches InboxError::ParseRow { path, line_number, source }
                    && path@.len() == 0 && line_number == ln && source == err),
        },
{
    let chars = to_chars(content);
    let ls = lines_exec(&chars);
    let ghost vs = views(ls@);
    let h = match find_heading(&ls) {
        None => {
            let v: Vec<AdvisoryRow> = Vec::new();
            assert(row_views(v@) == Seq::<RowView>::empty());
            return Ok(v);
        },
        Some(h) => h,
    };
    let h2 = to_chars("## ");
    let h1 = to_chars("# ");
    let cmt = to_chars("<!--");
    let close = to_chars("-->");
    let sep1 = to_chars("|---");
    let sep2 = to_chars("| ---");
    let hd1 = to_chars("| Date |");
    let hd2 = to_chars("|Date|");
    let mut rows: Vec<AdvisoryRow> = Vec::new();
    let mut in_comment = false;
    let mut idx: usize = h + 1;
    assert(row_views(rows@) == Seq::<RowView>::empty());
    while idx < ls.len()
        invariant
            h < idx <= ls.len(),
            vs == views(ls@),
            vs == lines(content@),
            heading_index(vs) == Some(h as int),
            h2@ == "## "@,
            h1@ == "# "@,
            cmt@ == comment_open(),
            close@ == comment_close(),
            sep1@ == "|---"@,
            sep2@ == "| ---"@,
            hd1@ == "| Date |"@,
            hd2@ == "|Date|"@,
            rows_scan(vs, h as int, idx - h - 1) == (RowsScan::Scanning { in_comment, rows: row_views(rows@) }),
        decreases ls.len() - idx,
    {
        let k: Ghost<int> = Ghost(idx - h);
        assert(vs[h + k@] == ls@[idx as int]@);
        assert(rows_scan(vs, h as int, k@) == scan_step(rows_scan(vs, h as int, k@ - 1), vs[h + k@], h + k@ + 1));
        let line = &ls[idx];
        let ts = vtrim_start(line);
        if matches_at_exec(&ts, &h2, 0) || matches_at_exec(&ts, &h1, 0) {
            assert(rows_scan(vs, h as int, k@) == (RowsScan::Done { rows: row_views(rows@) }));
            proof { lemma_scan_settled(vs, h as int, k@, vs.len() - h - 1); }
            assert(rows_scan(vs, h as int, vs.len() - h - 1) == (RowsScan::Done { rows: row_views(rows@) }));
            return Ok(rows);
        }
        let t = vtrim(line);
        if in_comment {
            in_comment = !contains_exec(line, &close);
        } else if contains_exec(line, &cmt) {
            in_comment = !contains_exec(line, &close);
        } else if t.len() == 0 || matches_at_exec(&t, &sep1, 0) || matches_at_exec(&t, &sep2, 0)
            || matches_at_exec(&t, &hd1, 0) || matches_at_exec(&t, &hd2, 0) {
        } else {
            match parse_row_chars(line) {
                Ok(row) => {
                    let ghost before = row_views(rows@);
                    rows.push(row);
                    assert(row_views(rows@) == before.push(row@));
                },
                Err(e) => {
                    proof { lemma_scan_settled(vs, h as int, k@, vs.len() - h - 1); }
                    assert(spec_parse_rows(content@) == Err::<Seq<RowView>, (int, RowParseError)>(((idx + 1) as int, e)));
                    return Err(InboxError::ParseRow { path: String::new(), line_number: idx + 1, source: e });
                },
            }
        }
        idx = idx + 1;
    }
    Ok(rows)
}


/// Lines without `\n` and without a final `\r`: joining them with `\n` and
/// splitting again gives them back.
pub open spec fn clean_lines(ls: Seq<Seq<char>>) -> bool {
    forall|i: int| 0 <= i < ls.len() ==> lacks(#[trigger] ls[i], '\n') && (ls[i].len() > 0 ==> ls[i].last() != '\r')
}

proof fn lemma_join_lines_cons(ls: Seq<Seq<char>>)
    requires
        ls.len() > 0,
    ensures
        join_lines(ls) == ls[0] + seq!['\n'] + join_lines(ls.drop_first()),
    decreases ls.len(),
{
    if ls.len() == 1 {
        assert(ls.drop_first() == Seq::<Seq<char>>::empty());
        assert(ls.drop_last() == Seq::<Seq<char>>::empty());
        assert(join_lines(ls.drop_last()) == Seq::<char>::empty());
        assert(join_lines(ls) == Seq::<char>::empty() + ls[0] + seq!['\n']);
    } else {
        let p = ls.drop_last();
        lemma_join_lines_cons(p);
        assert(p.drop_first() == ls.drop_first().drop_last());
        assert(p[0] == ls[0]);
        assert(ls.drop_first().last() == ls.last());
        assert(join_lines(ls.drop_first()) == join_lines(p.drop_first()) + ls.last() + seq!['\n']);
        assert(ls[0] + seq!['\n'] + join_lines(p.drop_first()) + ls.last() + seq!['\n']
            =~= ls[0] + seq!['\n'] + (join_lines(p.drop_first()) + ls.last() + seq!['\n']));
    }
}

proof fn lemma_join_lines_add(a: Seq<Seq<char>>, b: Seq<Seq<char>>)
    ensures
        join_lines(a + b) == join_lines(a) + join_lines(b),
    decreases b.len(),
{
    if b.len() == 0 {
        assert(a + b == a);
        assert(join_lines(a) + Seq::<char>::empty() == join_lines(a));
    } else {
        lemma_join_lines_add(a, b.drop_last());
        assert((a + b).drop_last() == a + b.drop_last());
        assert((a + b).last() == b.last());
        assert(join_lines(a) + join_lines(b.drop_last()) + b.last() + seq!['\n']
            =~= join_lines(a) + (join_lines(b.drop_last()) + b.last() + seq!['\n']));
    }
}

/// The table lines of the rows.
pub open spec fn row_lines(rs: Seq<RowView>) -> Seq<Seq<char>> {
    rs.map_values(|r: RowView| row_line(r))
}

proof fn lemma_rows_text_join(rs: Seq<RowView>)
    ensures
        rows_text(rs) == join_lines(row_lines(rs)),
    decreases rs.len(),
{
    if rs.len() > 0 {
        lemma_rows_text_join(rs.drop_last());
        assert(row_lines(rs).drop_last() == row_lines(rs.drop_last()));
    }
}

proof fn lemma_lines_join(ls: Seq<Seq<char>>)
    requires
        clean_lines(ls),
    ensures
        lines(join_lines(ls)) == ls,
        ls.len() > 0 && ls.last().len() > 0 ==> lines(join_lines(ls).drop_last()) == ls,
    decreases ls.len(),
{
    if ls.len() == 0 {
        assert(lines(Seq::<char>::empty()) == Seq::<Seq<char>>::empty());
    } else {
        let rest = ls.drop_first();
        assert(clean_lines(rest)) by {
            assert forall|i: int| 0 <= i < rest.len() implies lacks(#[trigger] rest[i], '\n') && (rest[i].len() > 0 ==> rest[i].last() != '\r') by {
                assert(rest[i] == ls[i + 1]);
            }
        }
        lemma_lines_join(rest);
        lemma_join_lines_cons(ls);
        assert(lacks(ls[0], '\n') && (ls[0].len() > 0 ==> ls[0].last() != '\r'));
        assert(strip_cr(ls[0]) == ls[0]);
        lemma_lines_cons(ls[0], join_lines(rest));
        assert(seq![ls[0]] + rest == ls);
        if ls.last().len() > 0 {
            if rest.len() == 0 {
                assert(join_lines(ls).drop_last() == ls[0]);
                lemma_lines_single(ls[0]);
            } else {
                assert(rest.last() == ls.last());
                assert(join_lines(rest).len() > 0);
                assert(join_lines(ls).drop_last() == ls[0] + seq!['\n'] + join_lines(rest).drop_last());
                lemma_lines_cons(ls[0], join_lines(rest).drop_last());
            }
        }
    }
}


/// The lines of `ls` with the table lines of `rs` inserted after index `h`.
pub open spec fn inserted_lines(ls: Seq<Seq<char>>, h: int, rs: Seq<RowView>) -> Seq<Seq<char>> {
    ls.take(h + 1) + row_lines(rs) + ls.skip(h + 1)
}

/// A row whose table line is one line of text.
pub open spec fn single_line_row(r: RowView) -> bool {
    lacks(row_line(r), '\n')
}

/// The document that `insert_rows` writes splits into the original lines
/// with the rows' lines right after the heading.
proof fn lemma_insert_lines(content: Seq<char>, rs: Seq<RowView>)
    requires
        spec_insert_rows(content, rs) is Some,
        lacks(content, '\r'),
        forall|i: int| 0 <= i < rs.len() ==> single_line_row(#[trigger] rs[i]),
    ensures
        lines(spec_insert_rows(content, rs)->0) == inserted_lines(lines(content), heading_index(lines(content))->0, rs),
{
    let ls = lines(content);
    let h = heading_index(ls)->0;
    lemma_heading_bounds(ls, 0);
    lemma_lines_from_clean(content, 0, 0);
    let rl = row_lines(rs);
    let lp = inserted_lines(ls, h, rs);
    assert forall|i: int| 0 <= i < rl.len() implies #[trigger] rl[i].len() > 0 && rl[i].last() == '|' && lacks(rl[i], '\n') by {
        assert(rl[i] == row_line(rs[i]));
        assert(single_line_row(rs[i]));
    }
    assert(clean_lines(lp)) by {
        assert forall|i: int| 0 <= i < lp.len() implies lacks(#[trigger] lp[i], '\n') && (lp[i].len() > 0 ==> lp[i].last() != '\r') by {
            if i <= h {
                assert(lp[i] == ls[i]);
            } else if i <= h + rl.len() {
                assert(lp[i] == rl[i - h - 1]);
            } else {
                assert(lp[i] == ls[i - rl.len()]);
            }
        }
    }
    lemma_rows_text_join(rs);
    lemma_join_lines_add(ls.take(h + 1), rl);
    lemma_join_lines_add(ls.take(h + 1) + rl, ls.skip(h + 1));
    let out0 = join_lines(ls.take(h + 1)) + rows_text(rs) + join_lines(ls.skip(h + 1));
    assert(out0 == join_lines(lp));
    lemma_lines_join(lp);
    if !ends_nl(content) && ends_nl(out0) {
        assert(content.len() > 0) by {
            if content.len() == 0 {
                assert(ls.len() == 0);
            }
        }
        lemma_lines_from_last(content, 0, 0);
        if h + 1 < ls.len() {
            assert(lp.last() == ls.last());
        } else if rl.len() > 0 {
            assert(lp.last() == rl.last());
            assert(rl.last() == rl[rl.len() - 1]);
        } else {
            assert(lp.last() == ls[h]);
        }
    }
}

proof fn lemma_heading_bounds(ls: Seq<Seq<char>>, j: int)
    ensures
        heading_from(ls, j) matches Some(h) ==> j <= h < ls.len() && trim_end(ls[h]) == rows_heading(),
    decreases ls.len() - j,
{
    if 0 <= j < ls.len() && trim_end(ls[j]) != rows_heading() {
        lemma_heading_bounds(ls, j + 1);
    }
}


/// A row whose table line the inbox scan reads back as that row.
pub open spec fn reads_back(r: RowView) -> bool {
    fits_table(r) && single_line_row(r) && !has_sub(row_line(r), comment_open())
}

/// The scan state of a document with `rs` inserted before the scanned lines.
pub open spec fn shift_scan(st: RowsScan, rs: Seq<RowView>) -> RowsScan {
    match st {
        RowsScan::Scanning { in_comment, rows } => RowsScan::Scanning { in_comment, rows: rs + rows },
        RowsScan::Done { rows } => RowsScan::Done { rows: rs + rows },
        RowsScan::Failed { line_number, error } => RowsScan::Failed { line_number: line_number + rs.len(), error },
    }
}

proof fn lemma_scan_row_line(r: RowView, rows: Seq<RowView>, ln: int)
    requires
        reads_back(r),
    ensures
        scan_step(RowsScan::Scanning { in_comment: false, rows }, row_line(r), ln)
            == (RowsScan::Scanning { in_comment: false, rows: rows.push(r) }),
{
    let line = row_line(r);
    lemma_row_line_shape(r);
    law_row_line_roundtrip(r);
    lemma_trim_trimmed(line);
    assert(trim_start(line) == line);
    reveal_strlit("## ");
    reveal_strlit("# ");
    reveal_strlit("|---");
    reveal_strlit("| ---");
    reveal_strlit("| Date |");
    reveal_strlit("|Date|");
    assert(!starts_with(line, "## "@)) by {
        if starts_with(line, "## "@) {
            assert(line.subrange(0, 3)[0] == line[0]);
        }
    }
    assert(!starts_with(line, "# "@)) by {
        if starts_with(line, "# "@) {
            assert(line.subrange(0, 2)[0] == line[0]);
        }
    }
    assert(!starts_with(line, "|---"@)) by {
        if starts_with(line, "|---"@) {
            assert(line.subrange(0, 4)[2] == line[2]);
        }
    }
    assert(!starts_with(line, "| ---"@)) by {
        if starts_with(line, "| ---"@) {
            assert(line.subrange(0, 5)[2] == line[2]);
        }
    }
    assert(!starts_with(line, "| Date |"@)) by {
        if starts_with(line, "| Date |"@) {
            assert(line.subrange(0, 8)[2] == line[2]);
        }
    }
    assert(!starts_with(line, "|Date|"@)) by {
        if starts_with(line, "|Date|"@) {
            assert(line.subrange(0, 6)[1] == line[1]);
        }
    }
}

proof fn lemma_scan_step_shift(st: RowsScan, line: Seq<char>, ln: int, rs: Seq<RowView>)
    ensures
        scan_step(shift_scan(st, rs), line, ln + rs.len()) == shift_scan(scan_step(st, line, ln), rs),
{
    if let RowsScan::Scanning { in_comment, rows } = st {
        if let Ok(r) = spec_parse_row(line) {
            assert((rs + rows).push(r) == rs + rows.push(r));
        }
    }
}

proof fn lemma_heading_same(ls: Seq<Seq<char>>, lp: Seq<Seq<char>>, j: int, h: int)
    requires
        0 <= j <= h < ls.len(),
        h < lp.len(),
        heading_from(ls, j) == Some(h),
        forall|k: int| j <= k <= h ==> #[trigger] lp[k] == ls[k],
    ensures
        heading_from(lp, j) == Some(h),
    decreases h - j,
{
    if j < h {
        assert(lp[j] == ls[j]);
        if trim_end(ls[j]) == rows_heading() {
            assert(heading_from(ls, j) == Some(j));
        }
        lemma_heading_same(ls, lp, j + 1, h);
    } else {
        assert(lp[h] == ls[h]);
        lemma_heading_bounds(ls, h + 1);
        assert(trim_end(ls[h]) == rows_heading());
    }
}

proof fn lemma_scan_inserted(lp: Seq<Seq<char>>, h: int, rs: Seq<RowView>, k: int)
    requires
        0 <= k <= rs.len(),
        h + rs.len() < lp.len(),
        forall|i: int| 0 <= i < rs.len() ==> reads_back(#[trigger] rs[i]),
        forall|i: int| 0 <= i < rs.len() ==> #[trigger] lp[h + 1 + i] == row_line(rs[i]),
    ensures
        rows_scan(lp, h, k) == (RowsScan::Scanning { in_comment: false, rows: rs.take(k) }),
    decreases k,
{
    if k == 0 {
        assert(rs.take(0) == Seq::<RowView>::empty());
    } else {
        lemma_scan_inserted(lp, h, rs, k - 1);
        assert(lp[h + 1 + (k - 1)] == row_line(rs[k - 1]));
        assert(reads_back(rs[k - 1]));
        lemma_scan_row_line(rs[k - 1], rs.take(k - 1), h + k + 1);
        assert(rs.take(k - 1).push(rs[k - 1]) == rs.take(k));
    }
}

proof fn lemma_scan_after_inserted(ls: Seq<Seq<char>>, lp: Seq<Seq<char>>, h: int, rs: Seq<RowView>, j: int)
    requires
        0 <= h < ls.len(),
        0 <= j <= ls.len() - h - 1,
        lp == inserted_lines(ls, h, rs),
        forall|i: int| 0 <= i < rs.len() ==> reads_back(#[trigger] rs[i]),
    ensures
        rows_scan(lp, h, rs.len() + j) == shift_scan(rows_scan(ls, h, j), rs),
    decreases j,
{
    let n = rs.len() as int;
    if j == 0 {
        assert forall|i: int| 0 <= i < rs.len() implies #[trigger] lp[h + 1 + i] == row_line(rs[i]) by {
            assert(lp[h + 1 + i] == row_lines(rs)[i]);
        }
        lemma_scan_inserted(lp, h, rs, n);
        assert(rs.take(n) == rs);
        assert(rs + Seq::<RowView>::empty() == rs);
    } else {
        lemma_scan_after_inserted(ls, lp, h, rs, j - 1);
        assert(lp[h + n + j] == ls[h + j]);
        lemma_scan_step_shift(rows_scan(ls, h, j - 1), ls[h + j], h + j + 1, rs);
        assert(rows_scan(lp, h, n + j) == scan_step(rows_scan(lp, h, n + j - 1), lp[h + n + j], h + n + j + 1));
    }
}

/// What `insert_rows` writes, `parse_rows` reads back: the inserted rows
/// first, then the rows the document held before (an error of the old
/// document moves down by the number of inserted lines). Holds for documents
/// without carriage returns and rows whose line is a single line that reads
/// back as the row and holds no `<!--`.
pub proof fn law_insert_then_parse(content: Seq<char>, rs: Seq<RowView>)
    requires
        spec_insert_rows(content, rs) is Some,
        lacks(content, '\r'),
        forall|i: int| 0 <= i < rs.len() ==> reads_back(#[trigger] rs[i]),
    ensures
        spec_parse_rows(spec_insert_rows(content, rs)->0) == match spec_parse_rows(content) {
            Ok(old) => Ok::<Seq<RowView>, (int, RowParseError)>(rs + old),
            Err((ln, e)) => Err::<Seq<RowView>, (int, RowParseError)>((ln + rs.len(), e)),
        },
{
    let ls = lines(content);
    let h = heading_index(ls)->0;
    lemma_heading_bounds(ls, 0);
    lemma_insert_lines(content, rs);
    let lp = inserted_lines(ls, h, rs);
    assert forall|k: int| 0 <= k <= h implies #[trigger] lp[k] == ls[k] by {}
    lemma_heading_same(ls, lp, 0, h);
    let n = rs.len() as int;
    lemma_scan_after_inserted(ls, lp, h, rs, ls.len() - h - 1);
    assert(lp.len() - h - 1 == n + (ls.len() - h - 1));
}

/// Joining the lines of a text without `\r` gives the text back, with a
/// final `\n` added when the text is non-empty and lacks one.
proof fn lemma_join_lines_from(s: Seq<char>, start: int, i: int)
    requires
        0 <= start <= i <= s.len(),
        lacks(s, '\r'),
        forall|k: int| start <= k < i ==> #[trigger] s[k] != '\n',
    ensures
        join_lines(lines_from(s, start, i)) == (if ends_nl(s) || start == s.len() { s.skip(start) } else { s.skip(start) + seq!['\n'] }),
    decreases s.len() - i,
{
    if i >= s.len() {
        if start < s.len() {
            let only = s.subrange(start, s.len() as int);
            assert(lines_from(s, start, i) == seq![only]);
            let one: Seq<Seq<char>> = seq![only];
            assert(one.drop_last() == Seq::<Seq<char>>::empty());
            assert(one.last() == only);
            assert(join_lines(one.drop_last()) == Seq::<char>::empty());
            assert(join_lines(one) == only + seq!['\n']);
            assert(s[s.len() - 1] != '\n');
            assert(only == s.skip(start));
        } else {
            assert(s.skip(start) == Seq::<char>::empty());
        }
    } else if s[i] == '\n' {
        lemma_join_lines_from(s, i + 1, i + 1);
        let first = s.subrange(start, i);
        assert forall|k: int| 0 <= k < first.len() implies #[trigger] first[k] != '\r' by {
            assert(first[k] == s[start + k]);
        }
        assert(strip_cr(first) == first);
        let rest = lines_from(s, i + 1, i + 1);
        let all = lines_from(s, start, i);
        assert(all == seq![first] + rest);
        lemma_join_lines_cons(all);
        assert(all.drop_first() == rest);
        if i + 1 == s.len() {
            assert(ends_nl(s));
        }
        assert(first + seq!['\n'] + s.skip(i + 1) == s.skip(start));
        assert(first + seq!['\n'] + (s.skip(i + 1) + seq!['\n']) == s.skip(start) + seq!['\n']);
    } else {
        lemma_join_lines_from(s, start, i + 1);
    }
}

/// Inserting no rows gives the document back unchanged (only the count of
/// open rows is computed anew). Holds for documents with a `## Rows` line
/// and without carriage returns, which `str::lines` would drop.
pub proof fn law_insert_nothing(content: Seq<char>)
    requires
        spec_insert_rows(content, seq![]) is Some,
        lacks(content, '\r'),
    ensures
        spec_insert_rows(content, seq![]) == Some(content),
{
    let ls = lines(content);
    let h = heading_index(ls)->0;
    lemma_heading_bounds(ls, 0);
    lemma_join_lines_add(ls.take(h + 1), ls.skip(h + 1));
    assert(ls.take(h + 1) + ls.skip(h + 1) == ls);
    let empty = Seq::<RowView>::empty();
    assert(rows_text(empty) == Seq::<char>::empty());
    let out = join_lines(ls.take(h + 1)) + rows_text(empty) + join_lines(ls.skip(h + 1));
    assert(out == join_lines(ls));
    lemma_join_lines_from(content, 0, 0);
    assert(content.skip(0) == content);
    assert(content.len() > 0) by {
        if content.len() == 0 {
            assert(ls.len() == 0);
        }
    }
    if !ends_nl(content) {
        assert(out == content + seq!['\n']);
        assert(ends_nl(out));
        assert(out.drop_last() == content);
    }
}

/// One step of the open-row scan over `line`, from the state `prev`.
pub open spec fn open_step(prev: (bool, nat), line: Seq<char>) -> (bool, nat) {
    let t = trim(line);
    if starts_with(t, comment_open()) && !has_sub(t, comment_close()) {
        (true, prev.1)
    } else if prev.0 {
        (!has_sub(t, comment_close()), prev.1)
    } else if has_sub(line, open_marker()) {
        (false, prev.1 + 1)
    } else {
        (false, prev.1)
    }
}

/// The open-row scan over `ls` from the state `st`.
pub open spec fn open_fold(st: (bool, nat), ls: Seq<Seq<char>>) -> (bool, nat)
    decreases ls.len(),
{
    if ls.len() == 0 {
        st
    } else {
        open_step(open_fold(st, ls.drop_last()), ls.last())
    }
}

/// Number of rows whose table line holds `| open |`.
pub open spec fn marked_open(rs: Seq<RowView>) -> nat
    decreases rs.len(),
{
    if rs.len() == 0 {
        0
    } else {
        marked_open(rs.drop_last()) + if has_sub(row_line(rs.last()), open_marker()) { 1nat } else { 0nat }
    }
}

/// Whether the `## Rows` line of the document lies inside an HTML comment block.
pub open spec fn heading_in_comment(content: Seq<char>) -> bool {
    let ls = lines(content);
    match heading_index(ls) {
        None => false,
        Some(h) => open_scan(ls.take(h + 1)).0,
    }
}

proof fn lemma_scan_fold(ls: Seq<Seq<char>>)
    ensures
        open_scan(ls) == open_fold((false, 0nat), ls),
    decreases ls.len(),
{
    if ls.len() > 0 {
        lemma_scan_fold(ls.drop_last());
    }
}

proof fn lemma_fold_add(st: (bool, nat), a: Seq<Seq<char>>, b: Seq<Seq<char>>)
    ensures
        open_fold(st, a + b) == open_fold(open_fold(st, a), b),
    decreases b.len(),
{
    if b.len() == 0 {
        assert(a + b == a);
    } else {
        lemma_fold_add(st, a, b.drop_last());
        assert((a + b).drop_last() == a + b.drop_last());
        assert((a + b).last() == b.last());
    }
}

proof fn lemma_fold_shift(c: bool, n: nat, k: nat, b: Seq<Seq<char>>)
    ensures
        open_fold((c, n + k), b) == (open_fold((c, n), b).0, open_fold((c, n), b).1 + k),
    decreases b.len(),
{
    if b.len() > 0 {
        lemma_fold_shift(c, n, k, b.drop_last());
    }
}

proof fn lemma_fold_rows(n: nat, rs: Seq<RowView>)
    requires
        forall|i: int| 0 <= i < rs.len() ==> (#[trigger] rs[i]).date.wf(),
    ensures
        open_fold((false, n), row_lines(rs)) == (false, n + marked_open(rs)),
    decreases rs.len(),
{
    if rs.len() > 0 {
        let p = rs.drop_last();
        assert forall|i: int| 0 <= i < p.len() implies (#[trigger] p[i]).date.wf() by {
            assert(p[i] == rs[i]);
        }
        lemma_fold_rows(n, p);
        assert(row_lines(rs).drop_last() == row_lines(p));
        let r = rs.last();
        assert(r == rs[rs.len() - 1]);
        let line = row_line(r);
        assert(row_lines(rs).last() == line);
        lemma_row_line_shape(r);
        lemma_trim_trimmed(line);
        reveal_strlit("<!--");
        assert(!starts_with(trim(line), comment_open())) by {
            if starts_with(trim(line), comment_open()) {
                assert(line.subrange(0, 4)[0] == line[0]);
            }
        }
    }
}

/// Inserting rows adds to the count of open rows exactly the inserted rows
/// whose line holds `| open |` (a row with status `open` always does). Holds
/// for documents without carriage returns whose `## Rows` line is outside
/// an HTML comment block, and rows whose table line is one line.
pub proof fn law_insert_counts_open(content: Seq<char>, rs: Seq<RowView>)
    requires
        spec_insert_rows(content, rs) is Some,
        lacks(content, '\r'),
        !heading_in_comment(content),
        forall|i: int| 0 <= i < rs.len() ==> (#[trigger] rs[i]).date.wf() && single_line_row(rs[i]),
    ensures
        spec_count_open(spec_insert_rows(content, rs)->0) == spec_count_open(content) + marked_open(rs),
{
    let ls = lines(content);
    let h = heading_index(ls)->0;
    lemma_heading_bounds(ls, 0);
    assert forall|i: int| 0 <= i < rs.len() implies single_line_row(#[trigger] rs[i]) by {}
    lemma_insert_lines(content, rs);
    let a = ls.take(h + 1);
    let b = ls.skip(h + 1);
    let rl = row_lines(rs);
    let init = (false, 0nat);
    lemma_scan_fold(a);
    lemma_scan_fold(ls);
    lemma_scan_fold(inserted_lines(ls, h, rs));
    let st = open_fold(init, a);
    assert(!st.0);
    lemma_fold_add(init, a + rl, b);
    lemma_fold_add(init, a, rl);
    lemma_fold_rows(st.1, rs);
    lemma_fold_add(init, a, b);
    assert(a + b == ls);
    lemma_fold_shift(false, st.1, marked_open(rs), b);
}

/// A line that ends the `## Rows` section: a `## ` or `# ` heading.
pub open spec fn ends_section(line: Seq<char>) -> bool {
    starts_with(trim_start(line), "## "@) || starts_with(trim_start(line), "# "@)
}

/// The scan state with the line number of a failure moved down by `n`.
pub open spec fn shift_line(st: RowsScan, n: int) -> RowsScan {
    match st {
        RowsScan::Failed { line_number, error } => RowsScan::Failed { line_number: line_number + n, error },
        _ => st,
    }
}

proof fn lemma_heading_at(ls: Seq<Seq<char>>, j: int, n: int)
    requires
        0 <= j <= n < ls.len(),
        forall|k: int| j <= k < n ==> trim_end(#[trigger] ls[k]) != rows_heading(),
        trim_end(ls[n]) == rows_heading(),
    ensures
        heading_from(ls, j) == Some(n),
    decreases n - j,
{
    if j < n {
        lemma_heading_at(ls, j + 1, n);
    }
}

proof fn lemma_scan_moved(la: Seq<Seq<char>>, lb: Seq<Seq<char>>, n: int, k: int)
    requires
        0 <= n,
        0 <= k < lb.len(),
        n + k < la.len(),
        forall|j: int| 1 <= j <= k ==> #[trigger] la[n + j] == lb[j],
    ensures
        rows_scan(la, n, k) == shift_line(rows_scan(lb, 0, k), n),
    decreases k,
{
    if k > 0 {
        lemma_scan_moved(la, lb, n, k - 1);
        assert(la[n + k] == lb[k]);
        let st = rows_scan(lb, 0, k - 1);
        if let RowsScan::Scanning { in_comment, rows } = st {
            assert(scan_step(st, lb[k], k + 1 + n) == shift_line(scan_step(st, lb[k], k + 1), n));
        }
    }
}

/// Where the `## Rows` section sits does not matter to `parse_rows`: text
/// before the heading (with no `## Rows` line of its own) and text after a
/// line that ends the section leave the rows as they are, and a failure's
/// line number moves down by the number of lines before the heading.
pub proof fn law_parse_rows_local(p: Seq<char>, sec: Seq<char>, next: Seq<char>, t: Seq<char>)
    requires
        p.len() == 0 || p.last() == '\n',
        forall|i: int| 0 <= i < lines(p).len() ==> trim_end(#[trigger] lines(p)[i]) != rows_heading(),
        sec.len() == 0 || sec.last() == '\n',
        lacks(next, '\n'),
        ends_section(strip_cr(next)),
    ensures
        spec_parse_rows(p + rows_heading() + seq!['\n'] + sec + next + seq!['\n'] + t)
            == match spec_parse_rows(rows_heading() + seq!['\n'] + sec) {
                Ok(v) => Ok::<Seq<RowView>, (int, RowParseError)>(v),
                Err((ln, e)) => Err::<Seq<RowView>, (int, RowParseError)>((ln + lines(p).len(), e)),
            },
{
    reveal_strlit("## Rows");
    let rh = rows_heading();
    let a = p + rh + seq!['\n'] + sec + next + seq!['\n'] + t;
    let b = rh + seq!['\n'] + sec;
    let tail = next + seq!['\n'] + t;
    assert(a == p + (rh + seq!['\n'] + (sec + tail)));
    assert(lacks(rh, '\n'));
    assert(strip_cr(rh) == rh);
    assert(trim_end(rh) == rh);
    lemma_lines_append(p, rh + seq!['\n'] + (sec + tail));
    lemma_lines_cons(rh, sec + tail);
    lemma_lines_append(sec, tail);
    lemma_lines_cons(next, t);
    lemma_lines_cons(rh, sec);
    let lp = lines(p);
    let lsec = lines(sec);
    let la = lines(a);
    let lb = lines(b);
    let n = lp.len() as int;
    let m = lsec.len() as int;
    assert(la == lp + (seq![rh] + (lsec + (seq![strip_cr(next)] + lines(t)))));
    assert(lb == seq![rh] + lsec);
    assert(la[n] == rh);
    assert(lb[0] == rh);
    assert forall|k: int| 0 <= k < n implies trim_end(#[trigger] la[k]) != rows_heading() by {
        assert(la[k] == lp[k]);
    }
    lemma_heading_at(la, 0, n);
    lemma_heading_at(lb, 0, 0);
    assert forall|j: int| 1 <= j <= m implies #[trigger] la[n + j] == lb[j] by {
        assert(la[n + j] == lsec[j - 1]);
        assert(lb[j] == lsec[j - 1]);
    }
    lemma_scan_moved(la, lb, n, m);
    assert(lb.len() - 0 - 1 == m);
    assert(la[n + m + 1] == strip_cr(next));
    let total = la.len() - n - 1;
    assert(total >= m + 1);
    let st = rows_scan(la, n, m);
    assert(rows_scan(la, n, m + 1) == scan_step(st, la[n + m + 1], n + m + 2));
    assert(!(rows_scan(la, n, m + 1) is Scanning));
    lemma_scan_settled(la, n, m + 1, total);
}

/// A line that the section scan passes over: blank, a separator row
/// (`|---` or `| ---`) or the column-header row (`| Date |` or `|Date|`),
/// holding no `<!--` and not a heading.
pub open spec fn filler_line(line: Seq<char>) -> bool {
    &&& !has_sub(line, comment_open())
    &&& !ends_section(line)
    &&& (trim(line).len() == 0 || starts_with(trim(line), "|---"@) || starts_with(trim(line), "| ---"@)
        || starts_with(trim(line), "| Date |"@) || starts_with(trim(line), "|Date|"@))
}

/// The text `sec` under a `## Rows` heading ends inside an HTML comment block.
pub open spec fn section_ends_in_comment(sec: Seq<char>) -> bool {
    rows_scan(seq![rows_heading()] + lines(sec), 0, lines(sec).len() as int) matches RowsScan::Scanning { in_comment: true, .. }
}

/// The scan state with failures after line `bound` moved down by one.
pub open spec fn shift_after(st: RowsScan, bound: int) -> RowsScan {
    match st {
        RowsScan::Failed { line_number, error } =>
            RowsScan::Failed { line_number: if line_number > bound { line_number + 1 } else { line_number }, error },
        _ => st,
    }
}

proof fn lemma_scan_same(la: Seq<Seq<char>>, lb: Seq<Seq<char>>, h: int, k: int)
    requires
        0 <= k,
        forall|j: int| 1 <= j <= k ==> #[trigger] la[h + j] == lb[h + j],
    ensures
        rows_scan(la, h, k) == rows_scan(lb, h, k),
    decreases k,
{
    if k > 0 {
        lemma_scan_same(la, lb, h, k - 1);
        assert(la[h + k] == lb[h + k]);
    }
}

proof fn lemma_scan_failed_bound(ls: Seq<Seq<char>>, h: int, k: int)
    requires
        0 <= k,
    ensures
        rows_scan(ls, h, k) matches RowsScan::Failed { line_number, .. } ==> line_number <= h + k + 1,
    decreases k,
{
    if k > 0 {
        lemma_scan_failed_bound(ls, h, k - 1);
    }
}

proof fn lemma_scan_after_filler(la: Seq<Seq<char>>, lb: Seq<Seq<char>>, h: int, m: int, k: int)
    requires
        0 <= m <= k,
        forall|j: int| 1 <= j <= m ==> #[trigger] la[h + j] == lb[h + j],
        filler_line(la[h + m + 1]),
        forall|j: int| m < j <= k ==> #[trigger] la[h + j + 1] == lb[h + j],
        !(rows_scan(lb, h, m) matches RowsScan::Scanning { in_comment: true, .. }),
    ensures
        rows_scan(la, h, k + 1) == shift_after(rows_scan(lb, h, k), h + m + 1),
    decreases k - m,
{
    if k == m {
        lemma_scan_same(la, lb, h, m);
        lemma_scan_failed_bound(lb, h, m);
        assert(rows_scan(la, h, m + 1) == scan_step(rows_scan(la, h, m), la[h + m + 1], h + m + 2));
    } else {
        lemma_scan_after_filler(la, lb, h, m, k - 1);
        assert(la[h + k + 1] == lb[h + k]);
        assert(rows_scan(la, h, k + 1) == scan_step(rows_scan(la, h, k), la[h + k + 1], h + k + 2));
        assert(rows_scan(lb, h, k) == scan_step(rows_scan(lb, h, k - 1), lb[h + k], h + k + 1));
    }
}

/// A blank line, a separator row or the column-header row in the `## Rows`
/// section, outside an HTML comment block, is passed over: the document
/// parses to the same rows with or without it, and a failure further down
/// keeps its line, one lower. (The text before the heading has no `## Rows`
/// line; `sec` is the section's text before the inserted line.)
pub proof fn law_parse_rows_skips_filler(p: Seq<char>, sec: Seq<char>, line: Seq<char>, rest: Seq<char>)
    requires
        p.len() == 0 || p.last() == '\n',
        forall|i: int| 0 <= i < lines(p).len() ==> trim_end(#[trigger] lines(p)[i]) != rows_heading(),
        sec.len() == 0 || sec.last() == '\n',
        !section_ends_in_comment(sec),
        lacks(line, '\n'),
        filler_line(strip_cr(line)),
    ensures
        spec_parse_rows(p + rows_heading() + seq!['\n'] + sec + line + seq!['\n'] + rest)
            == match spec_parse_rows(p + rows_heading() + seq!['\n'] + sec + rest) {
                Ok(v) => Ok::<Seq<RowView>, (int, RowParseError)>(v),
                Err((ln, e)) => Err::<Seq<RowView>, (int, RowParseError)>(
                    (if ln > lines(p).len() + lines(sec).len() + 1 { ln + 1 } else { ln }, e)),
            },
{
    reveal_strlit("## Rows");
    let rh = rows_heading();
    let a = p + rh + seq!['\n'] + sec + line + seq!['\n'] + rest;
    let b = p + rh + seq!['\n'] + sec + rest;
    let tail = line + seq!['\n'] + rest;
    assert(a == p + (rh + seq!['\n'] + (sec + tail)));
    assert(b == p + (rh + seq!['\n'] + (sec + rest)));
    assert(lacks(rh, '\n'));
    assert(strip_cr(rh) == rh);
    assert(trim_end(rh) == rh);
    lemma_lines_append(p, rh + seq!['\n'] + (sec + tail));
    lemma_lines_append(p, rh + seq!['\n'] + (sec + rest));
    lemma_lines_cons(rh, sec + tail);
    lemma_lines_cons(rh, sec + rest);
    lemma_lines_append(sec, tail);
    lemma_lines_append(sec, rest);
    lemma_lines_cons(line, rest);
    let lp = lines(p);
    let lsec = lines(sec);
    let lrest = lines(rest);
    let l1 = strip_cr(line);
    let la = lines(a);
    let lb = lines(b);
    let n = lp.len() as int;
    let m = lsec.len() as int;
    assert(la == lp + (seq![rh] + (lsec + (seq![l1] + lrest))));
    assert(lb == lp + (seq![rh] + (lsec + lrest)));
    assert(la.len() == lb.len() + 1);
    assert(la[n] == rh);
    assert(lb[n] == rh);
    assert forall|k: int| 0 <= k < n implies trim_end(#[trigger] la[k]) != rows_heading() by {
        assert(la[k] == lp[k]);
    }
    assert forall|k: int| 0 <= k < n implies trim_end(#[trigger] lb[k]) != rows_heading() by {
        assert(lb[k] == lp[k]);
    }
    lemma_heading_at(la, 0, n);
    lemma_heading_at(lb, 0, n);
    let lc = seq![rh] + lsec;
    assert forall|j: int| 1 <= j <= m implies #[trigger] lb[n + j] == lc[j] by {
        assert(lb[n + j] == lsec[j - 1]);
    }
    lemma_scan_moved(lb, lc, n, m);
    assert forall|j: int| 1 <= j <= m implies #[trigger] la[n + j] == lb[n + j] by {
        assert(la[n + j] == lsec[j - 1]);
        assert(lb[n + j] == lsec[j - 1]);
    }
    assert(la[n + m + 1] == l1);
    let kb = lb.len() - n - 1;
    assert forall|j: int| m < j <= kb implies #[trigger] la[n + j + 1] == lb[n + j] by {
        assert(la[n + j + 1] == lrest[j - m - 1]);
        assert(lb[n + j] == lrest[j - m - 1]);
    }
    lemma_scan_after_filler(la, lb, n, m, kb);
    assert(la.len() - n - 1 == kb + 1);
}

/// Outside a comment block, a blank line, a separator row or the
/// column-header row adds no row and ends nothing: the scan goes on as it was.
pub proof fn law_scan_passes_filler(rows: Seq<RowView>, line: Seq<char>, ln: int)
    requires
        filler_line(line),
    ensures
        scan_step(RowsScan::Scanning { in_comment: false, rows }, line, ln)
            == (RowsScan::Scanning { in_comment: false, rows }),
{
}

proof fn lemma_heading_from_first(ls: Seq<Seq<char>>, j: int)
    requires
        0 <= j,
    ensures
        match heading_from(ls, j) {
            Some(h) => j <= h < ls.len() && trim_end(ls[h]) == rows_heading()
                && forall|k: int| j <= k < h ==> trim_end(#[trigger] ls[k]) != rows_heading(),
            None => forall|k: int| j <= k < ls.len() ==> trim_end(#[trigger] ls[k]) != rows_heading(),
        },
    decreases ls.len() - j,
{
    if j < ls.len() && trim_end(ls[j]) != rows_heading() {
        lemma_heading_from_first(ls, j + 1);
    }
}

/// The `## Rows` heading is the first line that reads `## Rows` once its end
/// is trimmed; there is none exactly when no line reads so.
pub proof fn law_heading_is_first(ls: Seq<Seq<char>>)
    ensures
        match heading_index(ls) {
            Some(h) => 0 <= h < ls.len() && trim_end(ls[h]) == rows_heading()
                && forall|k: int| 0 <= k < h ==> trim_end(#[trigger] ls[k]) != rows_heading(),
            None => forall|k: int| 0 <= k < ls.len() ==> trim_end(#[trigger] ls[k]) != rows_heading(),
        },
{
    lemma_heading_from_first(ls, 0);
}

} // verus!
