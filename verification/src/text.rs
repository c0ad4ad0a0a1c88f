//! Character-level text operations (line splitting, whitespace trimming,
//! substring search) over `Seq<char>` models.

use vstd::prelude::*;

verus! {

/// Unicode `White_Space` property, as `char::is_whitespace` documents it.
pub open spec fn is_ws(c: char) -> bool {
    ||| c == '\t' || c == '\n' || c == '\u{0B}' || c == '\u{0C}' || c == '\r' || c == ' '
    ||| c == '\u{85}' || c == '\u{A0}' || c == '\u{1680}'
    ||| ('\u{2000}' <= c && c <= '\u{200A}')
    ||| c == '\u{2028}' || c == '\u{2029}' || c == '\u{202F}' || c == '\u{205F}' || c == '\u{3000}'
}

/// Executable whitespace test.
pub fn char_is_ws(c: char) -> (r: bool)
    ensures
        r == is_ws(c),
{
    c == '\t' || c == '\n' || c == '\u{0B}' || c == '\u{0C}' || c == '\r' || c == ' '
        || c == '\u{85}' || c == '\u{A0}' || c == '\u{1680}' || ('\u{2000}' <= c && c <= '\u{200A}')
        || c == '\u{2028}' || c == '\u{2029}' || c == '\u{202F}' || c == '\u{205F}' || c == '\u{3000}'
}

/// Appends one character to a string (`String::push`).
#[verifier::external_body]
fn push_char(s: &mut String, c: char)
    ensures
        final(s)@ == old(s)@.push(c),
{
    s.push(c);
}

/// The characters of `s`, in order.
pub fn to_chars(s: &str) -> (v: Vec<char>)
    ensures
        v@ == s@,
{
    let mut v: Vec<char> = Vec::new();
    for c in it: s.chars()
        invariant
            v@ == it.seq().take(it.index() as int),
    {
        v.push(c);
    }
    v
}

/// The string made of the characters of `v`.
pub fn from_chars(v: &Vec<char>) -> (s: String)
    ensures
        s@ == v@,
{
    let mut s = String::new();
    let mut i: usize = 0;
    while i < v.len()
        invariant
            i <= v.len(),
            s@ == v@.take(i as int),
        decreases v.len() - i,
    {
        push_char(&mut s, v[i]);
        assert(v@.take(i as int + 1) == v@.take(i as int).push(v@[i as int]));
        i = i + 1;
    }
    assert(v@.take(v.len() as int) == v@);
    s
}


/// `str::trim_start`: drops leading whitespace.
pub open spec fn trim_start(s: Seq<char>) -> Seq<char>
    decreases s.len(),
{
    if s.len() > 0 && is_ws(s[0]) {
        trim_start(s.drop_first())
    } else {
        s
    }
}

/// `str::trim_end`: drops trailing whitespace.
pub open spec fn trim_end(s: Seq<char>) -> Seq<char>
    decreases s.len(),
{
    if s.len() > 0 && is_ws(s.last()) {
        trim_end(s.drop_last())
    } else {
        s
    }
}

/// `str::trim`: drops leading and trailing whitespace.
pub open spec fn trim(s: Seq<char>) -> Seq<char> {
    trim_end(trim_start(s))
}

/// `p` occurs in `s` at position `i`.
pub open spec fn matches_at(s: Seq<char>, p: Seq<char>, i: int) -> bool {
    0 <= i && i + p.len() <= s.len() && s.subrange(i, i + p.len()) == p
}

/// `s` begins with `p`.
pub open spec fn starts_with(s: Seq<char>, p: Seq<char>) -> bool {
    matches_at(s, p, 0)
}

/// The first position at or after `i` where `p` occurs in `s`.
pub open spec fn find_from(s: Seq<char>, p: Seq<char>, i: int) -> Option<int>
    decreases s.len() - i,
{
    if i < 0 || i + p.len() > s.len() {
        None
    } else if matches_at(s, p, i) {
        Some(i)
    } else if i >= s.len() {
        None
    } else {
        find_from(s, p, i + 1)
    }
}

/// `str::find`: the first position where `p` occurs in `s`.
pub open spec fn find(s: Seq<char>, p: Seq<char>) -> Option<int> {
    find_from(s, p, 0)
}

/// `str::contains`: `p` occurs somewhere in `s`.
pub open spec fn has_sub(s: Seq<char>, p: Seq<char>) -> bool {
    find(s, p) is Some
}

/// A line with its terminating carriage return (of a `\r\n`) removed.
pub open spec fn strip_cr(t: Seq<char>) -> Seq<char> {
    if t.len() > 0 && t.last() == '\r' {
        t.drop_last()
    } else {
        t
    }
}

/// The lines of `s[start..]`, scanning from position `i` for the next `\n`.
pub open spec fn lines_from(s: Seq<char>, start: int, i: int) -> Seq<Seq<char>>
    decreases s.len() - i,
{
    if i >= s.len() {
        if start < s.len() {
            seq![s.subrange(start, s.len() as int)]
        } else {
            seq![]
        }
    } else if s[i] == '\n' {
        seq![strip_cr(s.subrange(start, i))] + lines_from(s, i + 1, i + 1)
    } else {
        lines_from(s, start, i + 1)
    }
}

/// `str::lines`: the text split at `\n` (and `\r\n`), with no empty line
/// after a final terminator.
pub open spec fn lines(s: Seq<char>) -> Seq<Seq<char>> {
    lines_from(s, 0, 0)
}

/// The pieces of `s[start..]` between occurrences of `c`, scanning from `i`.
pub open spec fn split_from(s: Seq<char>, c: char, start: int, i: int) -> Seq<Seq<char>>
    decreases s.len() - i,
{
    if i >= s.len() {
        seq![s.subrange(start, s.len() as int)]
    } else if s[i] == c {
        seq![s.subrange(start, i)] + split_from(s, c, i + 1, i + 1)
    } else {
        split_from(s, c, start, i + 1)
    }
}

/// `str::split(c)`: the pieces between occurrences of `c` (always at least one).
pub open spec fn split(s: Seq<char>, c: char) -> Seq<Seq<char>> {
    split_from(s, c, 0, 0)
}

/// Number of non-overlapping occurrences of `p` in `s[i..]`, leftmost first.
pub open spec fn count_from(s: Seq<char>, p: Seq<char>, i: int) -> nat
    decreases s.len() - i,
{
    if p.len() == 0 || i < 0 || i + p.len() > s.len() {
        0
    } else if matches_at(s, p, i) {
        1 + count_from(s, p, i + p.len())
    } else {
        count_from(s, p, i + 1)
    }
}

/// `str::matches(p).count()` for a non-empty `p`.
pub open spec fn count_matches(s: Seq<char>, p: Seq<char>) -> nat {
    count_from(s, p, 0)
}

/// The views of a sequence of character vectors.
pub open spec fn views(v: Seq<Vec<char>>) -> Seq<Seq<char>> {
    v.map_values(|x: Vec<char>| x@)
}

/// The views of a sequence of strings.
pub open spec fn string_views(v: Seq<String>) -> Seq<Seq<char>> {
    v.map_values(|x: String| x@)
}

/// A copy of `s[a..b]`.
pub fn subvec(s: &Vec<char>, a: usize, b: usize) -> (r: Vec<char>)
    requires
        a <= b <= s.len(),
    ensures
        r@ == s@.subrange(a as int, b as int),
{
    let mut r: Vec<char> = Vec::new();
    let mut i = a;
    while i < b
        invariant
            a <= i <= b <= s.len(),
            r@ == s@.subrange(a as int, i as int),
        decreases b - i,
    {
        r.push(s[i]);
        assert(s@.subrange(a as int, i + 1) == s@.subrange(a as int, i as int).push(s@[i as int]));
        i = i + 1;
    }
    r
}

/// Appends all of `w` to `v`.
pub fn push_all(v: &mut Vec<char>, w: &Vec<char>)
    ensures
        final(v)@ == old(v)@ + w@,
{
    let mut i: usize = 0;
    while i < w.len()
        invariant
            i <= w.len(),
            v@ == old(v)@ + w@.take(i as int),
        decreases w.len() - i,
    {
        v.push(w[i]);
        assert(w@.take(i + 1) == w@.take(i as int).push(w@[i as int]));
        i = i + 1;
    }
    assert(w@.take(w.len() as int) == w@);
}

/// Character-wise equality.
pub fn chars_eq(a: &Vec<char>, b: &Vec<char>) -> (r: bool)
    ensures
        r == (a@ == b@),
{
    if a.len() != b.len() {
        return false;
    }
    let mut i: usize = 0;
    while i < a.len()
        invariant
            a.len() == b.len(),
            i <= a.len(),
            a@.take(i as int) == b@.take(i as int),
        decreases a.len() - i,
    {
        if a[i] != b[i] {
            return false;
        }
        assert(a@.take(i + 1) == a@.take(i as int).push(a@[i as int]));
        assert(b@.take(i + 1) == b@.take(i as int).push(b@[i as int]));
        i = i + 1;
    }
    assert(a@.take(a.len() as int) == a@);
    assert(b@.take(b.len() as int) == b@);
    true
}

/// `trim_start` on a character vector.
pub fn vtrim_start(s: &Vec<char>) -> (r: Vec<char>)
    ensures
        r@ == trim_start(s@),
{
    let mut i: usize = 0;
    assert(s@.skip(0) == s@);
    while i < s.len() && char_is_ws(s[i])
        invariant
            i <= s.len(),
            trim_start(s@) == trim_start(s@.skip(i as int)),
        decreases s.len() - i,
    {
        assert(s@.skip(i as int).drop_first() == s@.skip(i + 1));
        i = i + 1;
    }
    let r = subvec(s, i, s.len());
    assert(r@ == s@.skip(i as int));
    r
}

/// `trim_end` on a character vector.
pub fn vtrim_end(s: &Vec<char>) -> (r: Vec<char>)
    ensures
        r@ == trim_end(s@),
{
    let mut j: usize = s.len();
    assert(s@.take(s.len() as int) == s@);
    while j > 0 && char_is_ws(s[j - 1])
        invariant
            j <= s.len(),
            trim_end(s@) == trim_end(s@.take(j as int)),
        decreases j,
    {
        assert(s@.take(j as int).drop_last() == s@.take(j - 1));
        j = j - 1;
    }
    let r = subvec(s, 0, j);
    assert(r@ == s@.take(j as int));
    r
}

/// `trim` on a character vector.
pub fn vtrim(s: &Vec<char>) -> (r: Vec<char>)
    ensures
        r@ == trim(s@),
{
    let t = vtrim_start(s);
    vtrim_end(&t)
}

/// Whether `p` occurs in `s` at position `i`.
pub fn matches_at_exec(s: &Vec<char>, p: &Vec<char>, i: usize) -> (r: bool)
    ensures
        r == matches_at(s@, p@, i as int),
{
    if i > s.len() || p.len() > s.len() - i {
        return false;
    }
    let mut k: usize = 0;
    while k < p.len()
        invariant
            i + p.len() <= s.len(),
            k <= p.len(),
            s@.subrange(i as int, i + k) == p@.take(k as int),
        decreases p.len() - k,
    {
        if s[i + k] != p[k] {
            assert(s@.subrange(i as int, i + p.len())[k as int] == s@[i + k]);
            return false;
        }
        assert(s@.subrange(i as int, i + k + 1) == s@.subrange(i as int, i + k).push(s@[i + k]));
        assert(p@.take(k + 1) == p@.take(k as int).push(p@[k as int]));
        k = k + 1;
    }
    assert(p@.take(p.len() as int) == p@);
    true
}

/// The first position at or after `i` where `p` occurs in `s`.
pub fn find_from_exec(s: &Vec<char>, p: &Vec<char>, i: usize) -> (r: Option<usize>)
    ensures
        match r {
            Some(j) => find_from(s@, p@, i as int) == Some(j as int),
            None => find_from(s@, p@, i as int) is None,
        },
{
    let mut j = i;
    while j <= s.len() && p.len() <= s.len() - j
        invariant
            i <= j,
            find_from(s@, p@, i as int) == find_from(s@, p@, j as int),
        decreases s.len() + 1 - j,
    {
        if matches_at_exec(s, p, j) {
            return Some(j);
        }
        if j >= s.len() {
            return None;
        }
        j = j + 1;
    }
    None
}

/// The lines of `s` (`str::lines`).
pub fn lines_exec(s: &Vec<char>) -> (r: Vec<Vec<char>>)
    ensures
        views(r@) == lines(s@),
{
    let mut out: Vec<Vec<char>> = Vec::new();
    let mut start: usize = 0;
    let mut i: usize = 0;
    while i < s.len()
        invariant
            start <= i <= s.len(),
            lines(s@) == views(out@) + lines_from(s@, start as int, i as int),
        decreases s.len() - i,
    {
        if s[i] == '\n' {
            let mut line = subvec(s, start, i);
            if line.len() > 0 && line[line.len() - 1] == '\r' {
                line.pop();
            }
            let ghost before = views(out@);
            out.push(line);
            assert(views(out@) == before.push(strip_cr(s@.subrange(start as int, i as int))));
            assert(lines_from(s@, start as int, i as int) == seq![strip_cr(s@.subrange(start as int, i as int))] + lines_from(s@, i + 1, i + 1));
            assert(before + (seq![strip_cr(s@.subrange(start as int, i as int))] + lines_from(s@, i + 1, i + 1))
                == before.push(strip_cr(s@.subrange(start as int, i as int))) + lines_from(s@, i + 1, i + 1));
            start = i + 1;
        }
        i = i + 1;
    }
    if start < s.len() {
        let line = subvec(s, start, s.len());
        let ghost before = views(out@);
        out.push(line);
        assert(views(out@) == before.push(s@.subrange(start as int, s.len() as int)));
    } else {
        assert(views(out@) + seq![] == views(out@));
    }
    out
}

/// The pieces of `s` between occurrences of `c` (`str::split`).
pub fn split_exec(s: &Vec<char>, c: char) -> (r: Vec<Vec<char>>)
    ensures
        views(r@) == split(s@, c),
{
    let mut out: Vec<Vec<char>> = Vec::new();
    let mut start: usize = 0;
    let mut i: usize = 0;
    while i < s.len()
        invariant
            start <= i <= s.len(),
            split(s@, c) == views(out@) + split_from(s@, c, start as int, i as int),
        decreases s.len() - i,
    {
        if s[i] == c {
            let piece = subvec(s, start, i);
            let ghost before = views(out@);
            out.push(piece);
            assert(views(out@) == before.push(s@.subrange(start as int, i as int)));
            assert(before + (seq![s@.subrange(start as int, i as int)] + split_from(s@, c, i + 1, i + 1))
                == before.push(s@.subrange(start as int, i as int)) + split_from(s@, c, i + 1, i + 1));
            start = i + 1;
        }
        i = i + 1;
    }
    let piece = subvec(s, start, s.len());
    let ghost before = views(out@);
    out.push(piece);
    assert(views(out@) == before.push(s@.subrange(start as int, s.len() as int)));
    out
}

/// Number of non-overlapping occurrences of a non-empty `p` in `s`.
pub fn count_matches_exec(s: &Vec<char>, p: &Vec<char>) -> (r: usize)
    ensures
        r == count_matches(s@, p@),
{
    if p.len() == 0 {
        return 0;
    }
    let mut n: usize = 0;
    let mut i: usize = 0;
    while i <= s.len() && p.len() <= s.len() - i
        invariant
            p.len() > 0,
            n + count_from(s@, p@, i as int) == count_matches(s@, p@),
            n <= i,
        decreases s.len() + 1 - i,
    {
        if matches_at_exec(s, p, i) {
            n = n + 1;
            i = i + p.len();
        } else {
            i = i + 1;
        }
    }
    n
}


/// Every character of `w` is whitespace.
pub open spec fn all_ws(w: Seq<char>) -> bool {
    forall|i: int| 0 <= i < w.len() ==> is_ws(#[trigger] w[i])
}

/// `x` has no leading or trailing whitespace.
pub open spec fn is_trimmed(x: Seq<char>) -> bool {
    x.len() == 0 || (!is_ws(x[0]) && !is_ws(x.last()))
}

/// `c` does not occur in `x`.
pub open spec fn lacks(x: Seq<char>, c: char) -> bool {
    forall|i: int| 0 <= i < x.len() ==> #[trigger] x[i] != c
}

/// Leading whitespace is dropped by `trim_start`.
pub proof fn lemma_trim_start_ws_prefix(w: Seq<char>, y: Seq<char>)
    requires
        all_ws(w),
    ensures
        trim_start(w + y) == trim_start(y),
    decreases w.len(),
{
    if w.len() > 0 {
        assert((w + y)[0] == w[0]);
        assert((w + y).drop_first() == w.drop_first() + y);
        lemma_trim_start_ws_prefix(w.drop_first(), y);
    } else {
        assert(w + y == y);
    }
}

/// Trailing whitespace is dropped by `trim_end`.
pub proof fn lemma_trim_end_ws_suffix(y: Seq<char>, w: Seq<char>)
    requires
        all_ws(w),
    ensures
        trim_end(y + w) == trim_end(y),
    decreases w.len(),
{
    if w.len() > 0 {
        assert((y + w).last() == w.last());
        assert((y + w).drop_last() == y + w.drop_last());
        lemma_trim_end_ws_suffix(y, w.drop_last());
    } else {
        assert(y + w == y);
    }
}

/// Trimming whitespace padding around a trimmed text gives the text back.
pub proof fn lemma_trim_padded(w1: Seq<char>, x: Seq<char>, w2: Seq<char>)
    requires
        all_ws(w1),
        all_ws(w2),
        is_trimmed(x),
    ensures
        trim(w1 + x + w2) == x,
{
    assert(w1 + x + w2 == w1 + (x + w2));
    lemma_trim_start_ws_prefix(w1, x + w2);
    if x.len() == 0 {
        assert(x + w2 == w2);
        assert(w2 == seq![] + w2);
        lemma_trim_start_ws_prefix(w2, seq![]);
        assert(trim_start(Seq::<char>::empty()) == Seq::<char>::empty());
        assert(trim_end(Seq::<char>::empty()) == Seq::<char>::empty());
    } else {
        assert((x + w2)[0] == x[0]);
        assert(trim_start(x + w2) == x + w2);
        lemma_trim_end_ws_suffix(x, w2);
        assert(trim_end(x) == x);
    }
}

/// A text whose first and last characters are not whitespace is its own trim.
pub proof fn lemma_trim_trimmed(x: Seq<char>)
    requires
        x.len() > 0,
        !is_ws(x[0]),
        !is_ws(x.last()),
    ensures
        trim(x) == x,
{
}

/// Splitting skips over positions that do not hold the separator.
pub proof fn lemma_split_from_advance(s: Seq<char>, c: char, start: int, i: int, j: int)
    requires
        0 <= i <= j <= s.len(),
        forall|k: int| i <= k < j ==> #[trigger] s[k] != c,
    ensures
        split_from(s, c, start, i) == split_from(s, c, start, j),
    decreases j - i,
{
    if i < j {
        lemma_split_from_advance(s, c, start, i + 1, j);
    }
}

/// Splitting a suffix is splitting the whole from that position on.
pub proof fn lemma_split_from_shift(s: Seq<char>, c: char, k: int, start: int, i: int)
    requires
        0 <= k,
        k <= start <= i <= s.len(),
    ensures
        split_from(s, c, start, i) == split_from(s.skip(k), c, start - k, i - k),
    decreases s.len() - i,
{
    if i < s.len() {
        assert(s.skip(k)[i - k] == s[i]);
        if s[i] == c {
            lemma_split_from_shift(s, c, k, i + 1, i + 1);
            assert(s.skip(k).subrange(start - k, i - k) == s.subrange(start, i));
        } else {
            lemma_split_from_shift(s, c, k, start, i + 1);
        }
    } else {
        assert(s.skip(k).subrange(start - k, s.len() - k) == s.subrange(start, s.len() as int));
    }
}

/// A text without the separator splits into itself.
pub proof fn lemma_split_single(a: Seq<char>, c: char)
    requires
        lacks(a, c),
    ensures
        split(a, c) == seq![a],
{
    lemma_split_from_advance(a, c, 0, 0, a.len() as int);
    assert(a.subrange(0, a.len() as int) == a);
}

/// The first piece of `a + [c] + b` is `a` when `a` lacks `c`.
pub proof fn lemma_split_cons(a: Seq<char>, c: char, b: Seq<char>)
    requires
        lacks(a, c),
    ensures
        split(a + seq![c] + b, c) == seq![a] + split(b, c),
{
    let s = a + seq![c] + b;
    assert forall|k: int| 0 <= k < a.len() implies #[trigger] s[k] != c by {
        assert(s[k] == a[k]);
    }
    lemma_split_from_advance(s, c, 0, 0, a.len() as int);
    assert(s[a.len() as int] == c);
    assert(s.subrange(0, a.len() as int) == a);
    let n: int = a.len() as int + 1;
    lemma_split_from_shift(s, c, n, n, n);
    assert(s.skip(n) == b);
}


/// Scanning for a line end skips over positions without `\n`.
pub proof fn lemma_lines_from_advance(s: Seq<char>, start: int, i: int, j: int)
    requires
        0 <= i <= j <= s.len(),
        forall|k: int| i <= k < j ==> #[trigger] s[k] != '\n',
    ensures
        lines_from(s, start, i) == lines_from(s, start, j),
    decreases j - i,
{
    if i < j {
        lemma_lines_from_advance(s, start, i + 1, j);
    }
}

/// The lines of a suffix are the lines of the whole from that position on.
pub proof fn lemma_lines_from_shift(s: Seq<char>, k: int, start: int, i: int)
    requires
        0 <= k <= start <= i <= s.len(),
    ensures
        lines_from(s, start, i) == lines_from(s.skip(k), start - k, i - k),
    decreases s.len() - i,
{
    if i < s.len() {
        assert(s.skip(k)[i - k] == s[i]);
        if s[i] == '\n' {
            lemma_lines_from_shift(s, k, i + 1, i + 1);
            assert(s.skip(k).subrange(start - k, i - k) == s.subrange(start, i));
        } else {
            lemma_lines_from_shift(s, k, start, i + 1);
        }
    } else {
        assert(s.skip(k).subrange(start - k, s.len() - k) == s.subrange(start, s.len() as int));
    }
}

/// A text without `\n` is one line (none if empty).
pub proof fn lemma_lines_single(x: Seq<char>)
    requires
        lacks(x, '\n'),
    ensures
        lines(x) == (if x.len() == 0 { Seq::<Seq<char>>::empty() } else { seq![x] }),
{
    lemma_lines_from_advance(x, 0, 0, x.len() as int);
    assert(x.subrange(0, x.len() as int) == x);
}

/// The first line of `x + [\n] + y` is `x` (less a final `\r`) when `x` lacks `\n`.
pub proof fn lemma_lines_cons(x: Seq<char>, y: Seq<char>)
    requires
        lacks(x, '\n'),
    ensures
        lines(x + seq!['\n'] + y) == seq![strip_cr(x)] + lines(y),
{
    let s = x + seq!['\n'] + y;
    assert forall|k: int| 0 <= k < x.len() implies #[trigger] s[k] != '\n' by {
        assert(s[k] == x[k]);
    }
    lemma_lines_from_advance(s, 0, 0, x.len() as int);
    assert(s[x.len() as int] == '\n');
    assert(s.subrange(0, x.len() as int) == x);
    let n: int = x.len() as int + 1;
    lemma_lines_from_shift(s, n, n, n);
    assert(s.skip(n) == y);
}

/// The last line of a non-empty text that does not end with `\n` is non-empty.
pub proof fn lemma_lines_from_last(s: Seq<char>, start: int, i: int)
    requires
        0 <= start <= i <= s.len(),
        start < s.len(),
        s.last() != '\n',
    ensures
        lines_from(s, start, i).len() > 0,
        lines_from(s, start, i).last().len() > 0,
    decreases s.len() - i,
{
    if i < s.len() {
        if s[i] == '\n' {
            lemma_lines_from_last(s, i + 1, i + 1);
            let rest = lines_from(s, i + 1, i + 1);
            let first = seq![strip_cr(s.subrange(start, i))];
            assert((first + rest).last() == rest.last());
        } else {
            lemma_lines_from_last(s, start, i + 1);
        }
    }
}

/// Every line lacks `\n`, and lacks `\r` when the text does.
pub proof fn lemma_lines_from_clean(s: Seq<char>, start: int, i: int)
    requires
        0 <= start <= i <= s.len(),
        forall|k: int| start <= k < i ==> #[trigger] s[k] != '\n',
    ensures
        forall|j: int| 0 <= j < lines_from(s, start, i).len() ==> lacks(#[trigger] lines_from(s, start, i)[j], '\n'),
        lacks(s, '\r') ==> forall|j: int| 0 <= j < lines_from(s, start, i).len() ==> lacks(#[trigger] lines_from(s, start, i)[j], '\r'),
    decreases s.len() - i,
{
    if i < s.len() {
        if s[i] == '\n' {
            lemma_lines_from_clean(s, i + 1, i + 1);
            let first = strip_cr(s.subrange(start, i));
            let rest = lines_from(s, i + 1, i + 1);
            assert(lacks(first, '\n')) by {
                assert forall|k: int| 0 <= k < first.len() implies #[trigger] first[k] != '\n' by {
                    assert(first[k] == s[start + k]);
                }
            }
            assert(lacks(s, '\r') ==> lacks(first, '\r')) by {
                if lacks(s, '\r') {
                    assert forall|k: int| 0 <= k < first.len() implies #[trigger] first[k] != '\r' by {
                        assert(first[k] == s[start + k]);
                    }
                }
            }
            let all = lines_from(s, start, i);
            assert(all == seq![first] + rest);
            assert forall|j: int| 0 <= j < all.len() implies lacks(#[trigger] all[j], '\n') by {
                if j > 0 {
                    assert(all[j] == rest[j - 1]);
                }
            }
            if lacks(s, '\r') {
                assert forall|j: int| 0 <= j < all.len() implies lacks(#[trigger] all[j], '\r') by {
                    if j > 0 {
                        assert(all[j] == rest[j - 1]);
                    }
                }
            }
        } else {
            lemma_lines_from_clean(s, start, i + 1);
            assert(lines_from(s, start, i) == lines_from(s, start, i + 1));
        }
    } else if start < s.len() {
        let only = s.subrange(start, s.len() as int);
        assert forall|k: int| 0 <= k < only.len() implies #[trigger] only[k] != '\n' by {
            assert(only[k] == s[start + k]);
        }
        assert(lacks(s, '\r') ==> lacks(only, '\r')) by {
            if lacks(s, '\r') {
                assert forall|k: int| 0 <= k < only.len() implies #[trigger] only[k] != '\r' by {
                    assert(only[k] == s[start + k]);
                }
            }
        }
        assert(lines_from(s, start, i) == seq![only]);
        assert(lines_from(s, start, i)[0] == only);
    } else {
        assert(lines_from(s, start, i).len() == 0);
    }
}

/// A search from `j` finds `p` when `p` occurs at some `i >= j`.
pub proof fn lemma_find_from_found(s: Seq<char>, p: Seq<char>, j: int, i: int)
    requires
        0 <= j <= i,
        matches_at(s, p, i),
    ensures
        find_from(s, p, j) is Some,
    decreases i - j,
{
    if j < i && !matches_at(s, p, j) {
        lemma_find_from_found(s, p, j + 1, i);
    }
}

proof fn lemma_lines_from_prefix(p: Seq<char>, x: Seq<char>, start: int, i: int)
    requires
        p.len() > 0,
        p.last() == '\n',
        0 <= start <= i <= p.len(),
        i == p.len() ==> start == p.len(),
    ensures
        lines_from(p + x, start, i) == lines_from(p, start, i) + lines(x),
    decreases p.len() - i,
{
    let s = p + x;
    if i == p.len() {
        lemma_lines_from_shift(s, i, i, i);
        assert(s.skip(i) == x);
        assert(lines_from(p, start, i) == Seq::<Seq<char>>::empty());
        assert(Seq::<Seq<char>>::empty() + lines(x) == lines(x));
    } else {
        assert(s[i] == p[i]);
        if p[i] == '\n' {
            lemma_lines_from_prefix(p, x, i + 1, i + 1);
            assert(s.subrange(start, i) == p.subrange(start, i));
            let first = seq![strip_cr(p.subrange(start, i))];
            assert(first + (lines_from(p, i + 1, i + 1) + lines(x)) == first + lines_from(p, i + 1, i + 1) + lines(x));
        } else {
            assert(i + 1 < p.len() || p[i] == p.last());
            lemma_lines_from_prefix(p, x, start, i + 1);
        }
    }
}

/// The lines of `p + x` are those of `p` followed by those of `x`, when `p`
/// is empty or ends with `\n`.
pub proof fn lemma_lines_append(p: Seq<char>, x: Seq<char>)
    requires
        p.len() == 0 || p.last() == '\n',
    ensures
        lines(p + x) == lines(p) + lines(x),
{
    if p.len() == 0 {
        assert(p + x == x);
        assert(lines(p) == Seq::<Seq<char>>::empty());
        assert(Seq::<Seq<char>>::empty() + lines(x) == lines(x));
    } else {
        lemma_lines_from_prefix(p, x, 0, 0);
    }
}

/// A search from `i` gives the first position at or after `i` where `p`
/// occurs, and `None` exactly when `p` occurs nowhere from `i` on.
pub proof fn law_find_from_first(s: Seq<char>, p: Seq<char>, i: int)
    requires
        0 <= i,
    ensures
        match find_from(s, p, i) {
            Some(k) => i <= k && matches_at(s, p, k) && forall|j: int| i <= j < k ==> !#[trigger] matches_at(s, p, j),
            None => forall|j: int| i <= j ==> !#[trigger] matches_at(s, p, j),
        },
    decreases s.len() - i,
{
    if !(i + p.len() > s.len()) && !matches_at(s, p, i) && i < s.len() {
        law_find_from_first(s, p, i + 1);
    }
}

} // verus!
