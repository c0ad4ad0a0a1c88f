//! `scan-and-append`: the composite of dedup, inbox insertion and state
//! update, computed from the report's rows, the previous state and the inbox.

use vstd::prelude::*;
use crate::cli::dedup::{dedup_rows, kept_rows, lemma_dedup_all_seen, row_ids, skipped_rows};
use crate::inbox::{insert_rows, law_insert_nothing, row_views, spec_count_open, spec_insert_rows, InboxError};
use crate::row::{AdvisoryRow, RowView};
use crate::seen::{lemma_sorted_set_of_sorted, lemma_union_all, lemma_union_all_absorbs, sorted_set, sorted_union, strictly_sorted, union_all};
use crate::state::{StateFile, StateView, Timestamp};
use crate::text::lacks;

verus! {

/// What a scan-and-append writes and reports.
#[derive(Debug)]
pub struct ScanOutcome {
    /// The inbox content with the kept rows inserted.
    pub inbox_content: String,
    /// The updated state.
    pub state: StateFile,
    /// Number of rows inserted.
    pub appended: usize,
    /// Number of rows skipped as already seen.
    pub skipped_dedup: usize,
    /// Number of open rows in the new inbox content.
    pub total_open: usize,
}

/// The state after a scan that observed `rows` at `now`: every observed ID is
/// added to the distinct previous IDs (sorted), `last_scan_at` becomes `now`,
/// the rest is kept.
pub open spec fn scanned_state(pre: StateView, rows: Seq<RowView>, now: Timestamp) -> StateView {
    StateView {
        schema_version: pre.schema_version,
        last_scan_at: now,
        seen: union_all(sorted_set(pre.seen), row_ids(rows)),
        agent_version: pre.agent_version,
    }
}

/// Dedups `rows` against `pre`'s seen IDs, inserts the kept ones into the
/// inbox content, and builds the state that records the scan at `now`.
pub fn plan_scan(rows: &Vec<AdvisoryRow>, pre: &StateFile, inbox_content: &str, inbox_path: &str, now: Timestamp)
    -> (r: Result<ScanOutcome, InboxError>)
    ensures
        match r {
            Ok(o) => {
                &&& spec_insert_rows(inbox_content@, kept_rows(pre@.seen, row_views(rows@))) == Some(o.inbox_content@)
                &&& o.total_open == spec_count_open(o.inbox_content@)
                &&& o.state@ == scanned_state(pre@, row_views(rows@), now)
                &&& o.appended == kept_rows(pre@.seen, row_views(rows@)).len()
                &&& o.skipped_dedup == skipped_rows(pre@.seen, row_views(rows@)).len()
            },
            Err(e) => {
                &&& spec_insert_rows(inbox_content@, kept_rows(pre@.seen, row_views(rows@))) is None
                &&& e matches InboxError::MissingRowsHeading { path }
                &&& path@ == inbox_path@
            },
        },
{
    let d = dedup_rows(&pre.seen_advisories, rows);
    let (content, total_open) = match insert_rows(inbox_content, d.kept.as_slice(), inbox_path) {
        Err(e) => return Err(e),
        Ok(x) => x,
    };
    let seen = sorted_union(&pre.seen_advisories, &d.observed_ids);
    Ok(ScanOutcome {
        inbox_content: content,
        state: StateFile {
            schema_version: pre.schema_version,
            last_scan_at: now,
            seen_advisories: seen,
            agent_version: pre.agent_version.clone(),
        },
        appended: d.kept.len(),
        skipped_dedup: d.skipped.len(),
        total_open,
    })
}

/// A scan keeps every previously seen ID, adds every observed ID and nothing
/// else, leaves the seen IDs strictly sorted, records `now` and keeps the
/// schema version and agent version.
pub proof fn law_scan_monotone(pre: StateView, rows: Seq<RowView>, now: Timestamp)
    ensures
        strictly_sorted(scanned_state(pre, rows, now).seen),
        forall|id: Seq<char>| #[trigger] scanned_state(pre, rows, now).seen.contains(id)
            <==> (pre.seen.contains(id) || row_ids(rows).contains(id)),
        scanned_state(pre, rows, now).last_scan_at == now,
        scanned_state(pre, rows, now).agent_version == pre.agent_version,
        scanned_state(pre, rows, now).schema_version == pre.schema_version,
{
    lemma_union_all(Seq::<Seq<char>>::empty(), pre.seen);
    lemma_union_all(sorted_set(pre.seen), row_ids(rows));
    assert forall|id: Seq<char>| #[trigger] scanned_state(pre, rows, now).seen.contains(id)
        <==> (pre.seen.contains(id) || row_ids(rows).contains(id)) by {
        assert(sorted_set(pre.seen).contains(id) <==> pre.seen.contains(id));
    }
}

/// When every observed ID was already seen, the scan leaves the seen IDs as
/// the distinct previous ones: nothing is added.
pub proof fn law_scan_all_seen(pre: StateView, rows: Seq<RowView>, now: Timestamp)
    requires
        forall|i: int| 0 <= i < rows.len() ==> pre.seen.contains(#[trigger] rows[i].advisory_id),
    ensures
        scanned_state(pre, rows, now).seen == sorted_set(pre.seen),
{
    lemma_union_all(Seq::<Seq<char>>::empty(), pre.seen);
    let ids = row_ids(rows);
    assert forall|i: int| 0 <= i < ids.len() implies sorted_set(pre.seen).contains(#[trigger] ids[i]) by {
        assert(ids[i] == rows[i].advisory_id);
        assert(pre.seen.contains(rows[i].advisory_id));
    }
    lemma_union_all_absorbs(sorted_set(pre.seen), ids);
}

/// Scanning the same rows again after a scan adds nothing: every row is
/// skipped, none is kept, an inbox document (with a `## Rows` line and no
/// carriage return) is left as it was, and the seen IDs stay the same.
pub proof fn law_rescan_keeps_nothing(pre: StateView, rows: Seq<RowView>, now: Timestamp, later: Timestamp, content: Seq<char>)
    ensures
        kept_rows(scanned_state(pre, rows, now).seen, rows) == Seq::<RowView>::empty(),
        skipped_rows(scanned_state(pre, rows, now).seen, rows) == rows,
        scanned_state(scanned_state(pre, rows, now), rows, later).seen == scanned_state(pre, rows, now).seen,
        spec_insert_rows(content, seq![]) is Some && lacks(content, '\r')
            ==> spec_insert_rows(content, kept_rows(scanned_state(pre, rows, now).seen, rows)) == Some(content),
{
    let s1 = scanned_state(pre, rows, now);
    law_scan_monotone(pre, rows, now);
    let ids = row_ids(rows);
    assert forall|i: int| 0 <= i < rows.len() implies s1.seen.contains(#[trigger] rows[i].advisory_id) by {
        assert(ids[i] == rows[i].advisory_id);
        assert(ids.contains(rows[i].advisory_id));
    }
    lemma_dedup_all_seen(s1.seen, rows);
    lemma_sorted_set_of_sorted(s1.seen);
    assert forall|i: int| 0 <= i < ids.len() implies s1.seen.contains(#[trigger] ids[i]) by {
        assert(ids[i] == rows[i].advisory_id);
    }
    lemma_union_all_absorbs(s1.seen, ids);
    if spec_insert_rows(content, seq![]) is Some && lacks(content, '\r') {
        law_insert_nothing(content);
    }
}

} // verus!
