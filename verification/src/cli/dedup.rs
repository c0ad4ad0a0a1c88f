//! `dedup`: split rows into those not yet seen (kept) and those already seen
//! (skipped), against the state's `seen_advisories`.

use vstd::prelude::*;
use crate::inbox::row_views;
use crate::row::{AdvisoryRow, RowView};
use crate::text::string_views;

verus! {

/// Result of deduplication.
#[derive(Debug)]
pub struct DedupOutput {
    /// Rows whose advisory ID is not seen yet, in input order.
    pub kept: Vec<AdvisoryRow>,
    /// Rows whose advisory ID is already seen, in input order.
    pub skipped: Vec<AdvisoryRow>,
    /// The advisory ID of every input row, in input order.
    pub observed_ids: Vec<String>,
}

/// The rows whose advisory ID is not in `seen`.
pub open spec fn kept_rows(seen: Seq<Seq<char>>, rows: Seq<RowView>) -> Seq<RowView>
    decreases rows.len(),
{
    if rows.len() == 0 {
        seq![]
    } else if seen.contains(rows.last().advisory_id) {
        kept_rows(seen, rows.drop_last())
    } else {
        kept_rows(seen, rows.drop_last()).push(rows.last())
    }
}

/// The rows whose advisory ID is in `seen`.
pub open spec fn skipped_rows(seen: Seq<Seq<char>>, rows: Seq<RowView>) -> Seq<RowView>
    decreases rows.len(),
{
    if rows.len() == 0 {
        seq![]
    } else if seen.contains(rows.last().advisory_id) {
        skipped_rows(seen, rows.drop_last()).push(rows.last())
    } else {
        skipped_rows(seen, rows.drop_last())
    }
}

/// The advisory IDs of the rows.
pub open spec fn row_ids(rows: Seq<RowView>) -> Seq<Seq<char>> {
    rows.map_values(|r: RowView| r.advisory_id)
}

/// Whether `x` is among `v`.
pub fn contains_string(v: &Vec<String>, x: &String) -> (r: bool)
    ensures
        r == string_views(v@).contains(x@),
{
    let mut j: usize = 0;
    while j < v.len()
        invariant
            j <= v.len(),
            forall|k: int| 0 <= k < j ==> #[trigger] v@[k]@ != x@,
        decreases v.len() - j,
    {
        if v[j] == *x {
            assert(string_views(v@)[j as int] == x@);
            return true;
        }
        j = j + 1;
    }
    proof {
        if string_views(v@).contains(x@) {
            let k = choose|k: int| 0 <= k < string_views(v@).len() && string_views(v@)[k] == x@;
            assert(v@[k]@ == x@);
        }
    }
    false
}

/// Splits `rows` by whether their advisory ID is in `seen`, keeping input
/// order in both parts, and lists every row's ID.
pub fn dedup_rows(seen: &Vec<String>, rows: &Vec<AdvisoryRow>) -> (r: DedupOutput)
    ensures
        row_views(r.kept@) == kept_rows(string_views(seen@), row_views(rows@)),
        row_views(r.skipped@) == skipped_rows(string_views(seen@), row_views(rows@)),
        string_views(r.observed_ids@) == row_ids(row_views(rows@)),
{
    let ghost sv = string_views(seen@);
    let ghost rv = row_views(rows@);
    let mut kept: Vec<AdvisoryRow> = Vec::new();
    let mut skipped: Vec<AdvisoryRow> = Vec::new();
    let mut observed: Vec<String> = Vec::new();
    let mut i: usize = 0;
    assert(rv.take(0) == Seq::<RowView>::empty());
    assert(row_views(kept@) == Seq::<RowView>::empty());
    assert(string_views(observed@) == row_ids(rv.take(0)));
    while i < rows.len()
        invariant
            i <= rows.len(),
            sv == string_views(seen@),
            rv == row_views(rows@),
            row_views(kept@) == kept_rows(sv, rv.take(i as int)),
            row_views(skipped@) == skipped_rows(sv, rv.take(i as int)),
            string_views(observed@) == row_ids(rv.take(i as int)),
        decreases rows.len() - i,
    {
        assert(rv.take(i + 1).drop_last() == rv.take(i as int));
        assert(rv.take(i + 1).last() == rows@[i as int]@);
        let row = &rows[i];
        let ghost before_obs = string_views(observed@);
        observed.push(row.advisory_id.clone());
        assert(string_views(observed@) == before_obs.push(rows@[i as int]@.advisory_id));
        assert(row_ids(rv.take(i + 1)) == row_ids(rv.take(i as int)).push(rows@[i as int]@.advisory_id));
        if contains_string(seen, &row.advisory_id) {
            let ghost before = row_views(skipped@);
            skipped.push(row.copied());
            assert(row_views(skipped@) == before.push(rows@[i as int]@));
        } else {
            let ghost before = row_views(kept@);
            kept.push(row.copied());
            assert(row_views(kept@) == before.push(rows@[i as int]@));
        }
        i = i + 1;
    }
    assert(rv.take(rows.len() as int) == rv);
    DedupOutput { kept, skipped, observed_ids: observed }
}


/// Dedup partitions the rows: every row is kept or skipped, never both; kept
/// rows are exactly those not seen, skipped rows exactly those seen.
pub proof fn law_dedup_partition(seen: Seq<Seq<char>>, rows: Seq<RowView>)
    ensures
        kept_rows(seen, rows).len() + skipped_rows(seen, rows).len() == rows.len(),
        forall|i: int| 0 <= i < kept_rows(seen, rows).len() ==> !seen.contains(#[trigger] kept_rows(seen, rows)[i].advisory_id),
        forall|i: int| 0 <= i < skipped_rows(seen, rows).len() ==> seen.contains(#[trigger] skipped_rows(seen, rows)[i].advisory_id),
        row_ids(rows).len() == rows.len(),
    decreases rows.len(),
{
    if rows.len() > 0 {
        law_dedup_partition(seen, rows.drop_last());
    }
}

/// When every row's ID is seen, dedup keeps nothing and skips every row.
pub proof fn lemma_dedup_all_seen(seen: Seq<Seq<char>>, rows: Seq<RowView>)
    requires
        forall|i: int| 0 <= i < rows.len() ==> seen.contains(#[trigger] rows[i].advisory_id),
    ensures
        kept_rows(seen, rows) == Seq::<RowView>::empty(),
        skipped_rows(seen, rows) == rows,
    decreases rows.len(),
{
    if rows.len() > 0 {
        let p = rows.drop_last();
        assert forall|i: int| 0 <= i < p.len() implies seen.contains(#[trigger] p[i].advisory_id) by {
            assert(p[i] == rows[i]);
        }
        lemma_dedup_all_seen(seen, p);
        assert(rows.last() == rows[rows.len() - 1]);
        assert(p.push(rows.last()) == rows);
    }
}

/// Dedup passes rows through unchanged and in input order: the kept rows are
/// exactly the input rows whose ID is not seen, the skipped rows exactly those
/// whose ID is seen.
pub proof fn law_dedup_filters(seen: Seq<Seq<char>>, rows: Seq<RowView>)
    ensures
        kept_rows(seen, rows) == rows.filter(|r: RowView| !seen.contains(r.advisory_id)),
        skipped_rows(seen, rows) == rows.filter(|r: RowView| seen.contains(r.advisory_id)),
    decreases rows.len(),
{
    reveal(Seq::filter);
    if rows.len() > 0 {
        law_dedup_filters(seen, rows.drop_last());
    }
}

} // verus!
