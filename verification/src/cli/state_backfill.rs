//! `state-backfill`: add to the state's seen IDs the advisory IDs of the
//! inbox rows that were already reviewed (`processed` or `dismissed`).

use vstd::prelude::*;
use crate::inbox::row_views;
use crate::row::{AdvisoryRow, RowView, Status};
use crate::seen::{
    lemma_sorted_set_of_sorted, lemma_union_all, lemma_union_all_absorbs, sorted_set, sorted_union,
    strictly_sorted, union_all,
};
use crate::state::{StateFile, StateView};
use crate::text::string_views;

verus! {

/// Result of a backfill.
#[derive(Debug)]
pub struct BackfillResult {
    /// The state with the reviewed IDs added (seen IDs sorted, distinct).
    pub state: StateFile,
    /// Number of IDs that were not seen before.
    pub backfilled_count: usize,
    /// Number of distinct seen IDs afterwards.
    pub total_seen_after: usize,
}

/// The row was reviewed.
pub open spec fn is_reviewed(s: Status) -> bool {
    s == Status::Processed || s == Status::Dismissed
}

/// The advisory IDs of the reviewed rows, in order.
pub open spec fn reviewed_ids(rows: Seq<RowView>) -> Seq<Seq<char>>
    decreases rows.len(),
{
    if rows.len() == 0 {
        seq![]
    } else if is_reviewed(rows.last().status) {
        reviewed_ids(rows.drop_last()).push(rows.last().advisory_id)
    } else {
        reviewed_ids(rows.drop_last())
    }
}

/// The seen IDs after a backfill: the distinct previous IDs and the reviewed
/// rows' IDs, sorted.
pub open spec fn backfilled_seen(pre: Seq<Seq<char>>, rows: Seq<RowView>) -> Seq<Seq<char>> {
    union_all(sorted_set(pre), reviewed_ids(rows))
}

/// The state after a backfill: seen IDs as [`backfilled_seen`], all else kept
/// (a backfill is not a scan: `last_scan_at` is unchanged).
pub open spec fn backfilled_state(pre: StateView, rows: Seq<RowView>) -> StateView {
    StateView {
        schema_version: pre.schema_version,
        last_scan_at: pre.last_scan_at,
        seen: backfilled_seen(pre.seen, rows),
        agent_version: pre.agent_version,
    }
}

/// The advisory IDs of the reviewed rows.
fn collect_reviewed(rows: &Vec<AdvisoryRow>) -> (ids: Vec<String>)
    ensures
        string_views(ids@) == reviewed_ids(row_views(rows@)),
{
    let ghost rv = row_views(rows@);
    let mut ids: Vec<String> = Vec::new();
    let mut i: usize = 0;
    assert(string_views(ids@) == Seq::<Seq<char>>::empty());
    while i < rows.len()
        invariant
            i <= rows.len(),
            rv == row_views(rows@),
            string_views(ids@) == reviewed_ids(rv.take(i as int)),
        decreases rows.len() - i,
    {
        assert(rv.take(i + 1).drop_last() == rv.take(i as int));
        assert(rv.take(i + 1).last() == rows@[i as int]@);
        match rows[i].status {
            Status::Processed | Status::Dismissed => {
                let ghost before = string_views(ids@);
                ids.push(rows[i].advisory_id.clone());
                assert(string_views(ids@) == before.push(rows@[i as int]@.advisory_id));
            },
            Status::Open => {},
        }
        i = i + 1;
    }
    assert(rv.take(rows.len() as int) == rv);
    ids
}

/// Adds the IDs of the reviewed rows to the state's seen IDs.
///
/// The seen IDs come out distinct and sorted; `backfilled_count` is how many
/// were not there before, `total_seen_after` how many there are now.
pub fn backfill(pre: &StateFile, rows: &Vec<AdvisoryRow>) -> (r: BackfillResult)
    ensures
        r.state@ == backfilled_state(pre@, row_views(rows@)),
        r.total_seen_after == r.state@.seen.len(),
        r.backfilled_count == r.state@.seen.len() - sorted_set(pre@.seen).len(),
{
    let reviewed = collect_reviewed(rows);
    let none: Vec<String> = Vec::new();
    let before = sorted_union(&pre.seen_advisories, &none);
    assert(string_views(none@) == Seq::<Seq<char>>::empty());
    let after = sorted_union(&pre.seen_advisories, &reviewed);
    proof {
        lemma_sorted_set_of_sorted(Seq::<Seq<char>>::empty());
        lemma_union_all(Seq::<Seq<char>>::empty(), pre@.seen);
        lemma_union_all(sorted_set(pre@.seen), reviewed_ids(row_views(rows@)));
    }
    let total = after.len();
    let backfilled = after.len() - before.len();
    BackfillResult {
        state: StateFile {
            schema_version: pre.schema_version,
            last_scan_at: pre.last_scan_at,
            seen_advisories: after,
            agent_version: pre.agent_version.clone(),
        },
        backfilled_count: backfilled,
        total_seen_after: total,
    }
}

/// A backfill keeps every previously seen ID, adds every reviewed row's ID,
/// adds nothing else, and leaves the seen IDs strictly sorted.
pub proof fn law_backfill_monotone(pre: StateView, rows: Seq<RowView>)
    ensures
        strictly_sorted(backfilled_state(pre, rows).seen),
        forall|id: Seq<char>| #[trigger] backfilled_state(pre, rows).seen.contains(id)
            <==> (pre.seen.contains(id) || reviewed_ids(rows).contains(id)),
{
    lemma_union_all(Seq::<Seq<char>>::empty(), pre.seen);
    lemma_union_all(sorted_set(pre.seen), reviewed_ids(rows));
    assert forall|id: Seq<char>| #[trigger] backfilled_state(pre, rows).seen.contains(id)
        <==> (pre.seen.contains(id) || reviewed_ids(rows).contains(id)) by {
        assert(sorted_set(pre.seen).contains(id) <==> pre.seen.contains(id));
    }
}

/// Backfilling twice from the same rows gives the same state as once, and the
/// second backfill adds nothing.
pub proof fn law_backfill_idempotent(pre: StateView, rows: Seq<RowView>)
    ensures
        backfilled_state(backfilled_state(pre, rows), rows) == backfilled_state(pre, rows),
        sorted_set(backfilled_state(pre, rows).seen).len() == backfilled_state(pre, rows).seen.len(),
{
    let once = backfilled_state(pre, rows);
    law_backfill_monotone(pre, rows);
    lemma_sorted_set_of_sorted(once.seen);
    let ids = reviewed_ids(rows);
    assert forall|i: int| 0 <= i < ids.len() implies once.seen.contains(#[trigger] ids[i]) by {
        assert(ids.contains(ids[i]));
    }
    lemma_union_all_absorbs(once.seen, ids);
}

proof fn lemma_reviewed_ids_of_rows(rows: Seq<RowView>)
    ensures
        forall|i: int| 0 <= i < rows.len() && is_reviewed(rows[i].status)
            ==> reviewed_ids(rows).contains(#[trigger] rows[i].advisory_id),
    decreases rows.len(),
{
    if rows.len() > 0 {
        let p = rows.drop_last();
        let r = rows.last();
        lemma_reviewed_ids_of_rows(p);
        assert forall|i: int| 0 <= i < rows.len() && is_reviewed(rows[i].status)
            implies reviewed_ids(rows).contains(#[trigger] rows[i].advisory_id) by {
            if i < rows.len() - 1 {
                assert(rows[i] == p[i]);
                assert(reviewed_ids(p).contains(p[i].advisory_id));
                let k = choose|k: int| 0 <= k < reviewed_ids(p).len() && reviewed_ids(p)[k] == p[i].advisory_id;
                assert(reviewed_ids(rows)[k] == reviewed_ids(p)[k]);
            } else {
                assert(rows[i] == r);
                assert(reviewed_ids(rows)[reviewed_ids(rows).len() - 1] == r.advisory_id);
            }
        }
    }
}

/// The reviewed IDs are the advisory IDs of exactly the rows whose status is
/// `processed` or `dismissed`, every one of them, in the rows' order; in
/// particular each such row's ID is among them.
pub proof fn law_reviewed_ids(rows: Seq<RowView>)
    ensures
        reviewed_ids(rows) == rows.filter(|r: RowView| r.status == Status::Processed || r.status == Status::Dismissed)
            .map_values(|r: RowView| r.advisory_id),
        forall|i: int| 0 <= i < rows.len() && (rows[i].status == Status::Processed || rows[i].status == Status::Dismissed)
            ==> reviewed_ids(rows).contains(#[trigger] rows[i].advisory_id),
    decreases rows.len(),
{
    lemma_reviewed_ids_of_rows(rows);
    reveal(Seq::filter);
    if rows.len() > 0 {
        let p = rows.drop_last();
        let r = rows.last();
        law_reviewed_ids(p);
        let pred = |x: RowView| x.status == Status::Processed || x.status == Status::Dismissed;
        let f = |x: RowView| x.advisory_id;
        assert(rows.filter(pred) == if pred(r) { p.filter(pred).push(r) } else { p.filter(pred) });
        if pred(r) {
            assert(p.filter(pred).push(r).map_values(f) =~= p.filter(pred).map_values(f).push(r.advisory_id));
        }
    }
}

} // verus!
