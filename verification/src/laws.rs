//! What holds of every merge: ids only grow, references end at rows of the
//! destination, and an origin that is already known is never inserted again.

use vstd::prelude::*;
use crate::fetch::{delta_bookmarks, id_between};
use crate::reconcile::{
    bookmark_obstacle,
    bookmarks_reconciled,
    lemma_failed_run_stays,
    marked,
    marked_rows,
    new_place_ids,
    origin_step,
    place_obstacle,
    placed,
    placed_rows,
    places_reconciled,
    reconcile_origins,
    Reconciled,
    SyncError,
};
use crate::rows::{Bookmark, Origin, Place};
use crate::store::{
    bookmarks_ascending,
    bookmarks_linked,
    has_origin,
    has_place,
    last_with_key,
    lemma_last_with_key,
    origins_ascending,
    places_ascending,
    places_linked,
    Store,
};
use crate::sync::{delta_origins, delta_places};

verus! {

/// A snapshot whose newest bookmark is not newer than the anchor, or that has
/// no bookmark at all, contributes nothing to a merge, in any tier.
pub proof fn lemma_no_delta_at_or_past_latest(snapshot: Store, anchor: i64)
    requires
        snapshot.bookmarks@.len() == 0 || anchor >= snapshot.bookmarks@.last().id,
    ensures
        delta_bookmarks(snapshot.bookmarks@, anchor).len() == 0,
        delta_places(snapshot, anchor).len() == 0,
        delta_origins(snapshot, anchor).len() == 0,
{
}

/// Selecting the bookmarks of an id range from a table in ascending order of
/// id gives rows of that range, in ascending order of id, all of the table.
pub proof fn lemma_range_keeps_order(rows: Seq<Bookmark>, low: i64, high: i64)
    requires
        bookmarks_ascending(rows),
    ensures
        bookmarks_ascending(rows.filter(id_between(low, high))),
        forall|k: int|
            0 <= k < rows.filter(id_between(low, high)).len() ==> low < (
            #[trigger] rows.filter(id_between(low, high))[k]).id <= high,
        forall|k: int|
            0 <= k < rows.filter(id_between(low, high)).len() ==> rows.contains(
                #[trigger] rows.filter(id_between(low, high))[k],
            ),
    decreases rows.len(),
{
    reveal(Seq::filter);
    if rows.len() > 0 {
        let head = rows.drop_last();
        let chosen = head.filter(id_between(low, high));
        let all = rows.filter(id_between(low, high));
        lemma_range_keeps_order(head, low, high);
        assert forall|k: int| 0 <= k < chosen.len() implies (#[trigger] chosen[k]).id
            < rows.last().id && rows.contains(chosen[k]) by {
            assert(head.contains(chosen[k]));
            let j = choose|j: int| 0 <= j < head.len() && head[j] == chosen[k];
            assert(rows[j] == head[j]);
        }
        assert forall|k: int| 0 <= k < all.len() implies rows.contains(#[trigger] all[k]) by {
            if k < chosen.len() {
                assert(all[k] == chosen[k]);
            } else {
                assert(rows[rows.len() - 1] == all[k]);
            }
        }
    }
}

/// Every fetched bookmark has an id above the anchor and not above the
/// snapshot's newest, and the fetched bookmarks ascend by id.
pub proof fn lemma_delta_in_range(rows: Seq<Bookmark>, anchor: i64)
    requires
        bookmarks_ascending(rows),
    ensures
        bookmarks_ascending(delta_bookmarks(rows, anchor)),
        forall|k: int|
            0 <= k < delta_bookmarks(rows, anchor).len() ==> anchor < (#[trigger] delta_bookmarks(
                rows,
                anchor,
            )[k]).id <= rows.last().id,
{
    if rows.len() > 0 && anchor < rows.last().id {
        lemma_range_keeps_order(rows, anchor, rows.last().id);
    }
}

/// Whether the table holds a row under the id that has the natural key of
/// `wanted`.
pub open spec fn holds_origin(table: Seq<Origin>, id: i64, wanted: Origin) -> bool {
    exists|j: int| 0 <= j < table.len() && (#[trigger] table[j]).id == id && table[j].same_key(wanted)
}

/// Whether `head` is the beginning of `whole`.
pub open spec fn begins_with<T>(whole: Seq<T>, head: Seq<T>) -> bool {
    &&& head.len() <= whole.len()
    &&& forall|k: int| 0 <= k < head.len() ==> whole[k] == head[k]
}

/// A run that has not failed has got through every row it was given, and no
/// run gets through more.
pub proof fn lemma_run_progress(table: Seq<Origin>, batch: Seq<Origin>, n: nat)
    ensures
        reconcile_origins(table, batch, n).done <= n,
        reconcile_origins(table, batch, n).error is None ==> reconcile_origins(table, batch, n).done
            == n,
    decreases n,
{
    if n > 0 {
        lemma_run_progress(table, batch, (n - 1) as nat);
    }
}

/// A run that ends without failure had not failed at any earlier row.
pub proof fn lemma_run_clean_before(table: Seq<Origin>, batch: Seq<Origin>, k: nat, n: nat)
    requires
        k <= n,
        reconcile_origins(table, batch, n).error is None,
    ensures
        reconcile_origins(table, batch, k).error is None,
{
    if reconcile_origins(table, batch, k).error is Some {
        lemma_failed_run_stays(table, batch, k, n);
    }
}

/// An origin merge only appends: the table it started from is the beginning
/// of the table after any number of rows, and the table after fewer rows is
/// the beginning of the table after more.
pub proof fn lemma_run_appends(table: Seq<Origin>, batch: Seq<Origin>, k: nat, n: nat)
    requires
        k <= n,
    ensures
        begins_with(reconcile_origins(table, batch, n).table, reconcile_origins(table, batch, k).table),
        begins_with(reconcile_origins(table, batch, n).table, table),
    decreases n,
{
    if n > 0 {
        lemma_run_appends(table, batch, 0, (n - 1) as nat);
        if k < n {
            lemma_run_appends(table, batch, k, (n - 1) as nat);
        }
    }
}

/// Allocated origin ids only grow: where the table was in ascending order of
/// id, it still is after the merge, so every appended row has an id above
/// those of all rows before it.
pub proof fn lemma_origin_ids_ascend(table: Seq<Origin>, batch: Seq<Origin>, n: nat)
    requires
        origins_ascending(table),
    ensures
        origins_ascending(reconcile_origins(table, batch, n).table),
        begins_with(reconcile_origins(table, batch, n).table, table),
    decreases n,
{
    lemma_run_appends(table, batch, 0, n);
    if n > 0 {
        lemma_origin_ids_ascend(table, batch, (n - 1) as nat);
    }
}

/// A key that a table holds is still held after rows were appended.
pub proof fn lemma_key_stays(head: Seq<Origin>, whole: Seq<Origin>, wanted: Origin)
    requires
        begins_with(whole, head),
        last_with_key(head, wanted) is Some,
    ensures
        last_with_key(whole, wanted) is Some,
{
    lemma_last_with_key(head, wanted);
    lemma_last_with_key(whole, wanted);
    let at = last_with_key(head, wanted).unwrap();
    assert(whole[at].same_key(wanted));
}

/// After an origin was merged, the table holds its natural key.
pub proof fn lemma_step_learns_key(table: Seq<Origin>, origin: Origin)
    requires
        origin_step(table, origin) is Ok,
    ensures
        last_with_key(origin_step(table, origin).unwrap().0, origin) is Some,
{
}

/// An origin whose natural key the destination already holds is not inserted:
/// a merge of origins that are all known leaves the table as it was, and gets
/// through all of them.
pub proof fn lemma_known_origins_insert_nothing(table: Seq<Origin>, batch: Seq<Origin>, n: nat)
    requires
        n <= batch.len(),
        forall|i: int| 0 <= i < n ==> last_with_key(table, #[trigger] batch[i]) is Some,
    ensures
        reconcile_origins(table, batch, n).table == table,
        reconcile_origins(table, batch, n).error is None,
        reconcile_origins(table, batch, n).done == n,
    decreases n,
{
    if n > 0 {
        lemma_known_origins_insert_nothing(table, batch, (n - 1) as nat);
        assert(last_with_key(table, batch[n - 1]) is Some);
    }
}

/// Where a run stands once it is over: the state it reached at the last row
/// it got through, and, where it failed, the failure of the row after that.
pub proof fn lemma_run_shape(table: Seq<Origin>, batch: Seq<Origin>, n: nat)
    ensures
        ({
            let run = reconcile_origins(table, batch, n);
            let reached = reconcile_origins(table, batch, run.done);
            &&& run.done <= n
            &&& reached.error is None
            &&& reached.done == run.done
            &&& reached.table == run.table
            &&& reached.ids == run.ids
            &&& reached.rows == run.rows
            &&& run.error is None ==> run.done == n
            &&& run.error is Some ==> run.done < n && origin_step(run.table, batch[run.done as int])
                == Err::<(Seq<Origin>, i64), SyncError>(run.error.unwrap())
        }),
    decreases n,
{
    if n > 0 {
        lemma_run_shape(table, batch, (n - 1) as nat);
        lemma_run_progress(table, batch, (n - 1) as nat);
    }
}

/// Merging origins is idempotent: after a merge, merging the same batch again
/// inserts no row, gets as far as the first merge did and ends as it did.
pub proof fn lemma_second_merge_inserts_nothing(table: Seq<Origin>, batch: Seq<Origin>)
    ensures
        ({
            let first = reconcile_origins(table, batch, batch.len());
            let second = reconcile_origins(first.table, batch, batch.len());
            &&& second.table == first.table
            &&& second.error == first.error
            &&& second.done == first.done
        }),
{
    let first = reconcile_origins(table, batch, batch.len());
    let reached = first.done;
    lemma_run_shape(table, batch, batch.len());
    assert forall|i: int| 0 <= i < reached implies last_with_key(
        first.table,
        #[trigger] batch[i],
    ) is Some by {
        let before = reconcile_origins(table, batch, i as nat);
        let after = reconcile_origins(table, batch, (i + 1) as nat);
        lemma_run_clean_before(table, batch, i as nat, reached);
        lemma_run_clean_before(table, batch, (i + 1) as nat, reached);
        assert(origin_step(before.table, batch[i]) is Ok);
        lemma_step_learns_key(before.table, batch[i]);
        lemma_run_appends(table, batch, (i + 1) as nat, reached);
        lemma_key_stays(after.table, first.table, batch[i]);
    }
    lemma_known_origins_insert_nothing(first.table, batch, reached);
    if reached < batch.len() {
        let again = reconcile_origins(first.table, batch, reached + 1);
        assert(again.error == first.error);
        lemma_failed_run_stays(first.table, batch, reached + 1, batch.len());
    }
}

/// The batch as a run leaves it differs from the batch it was given in ids
/// only, and only in the rows that the run got through.
pub proof fn lemma_run_rows(table: Seq<Origin>, batch: Seq<Origin>, n: nat)
    requires
        n <= batch.len(),
    ensures
        ({
            let run = reconcile_origins(table, batch, n);
            &&& run.rows.len() == batch.len()
            &&& forall|i: int| 0 <= i < batch.len() ==> (#[trigger] run.rows[i]).same_key(batch[i])
            &&& forall|i: int| run.done <= i < batch.len() ==> #[trigger] run.rows[i] == batch[i]
        }),
    decreases n,
{
    if n > 0 {
        lemma_run_rows(table, batch, (n - 1) as nat);
        lemma_run_progress(table, batch, (n - 1) as nat);
    }
}

/// Origins with the same natural key are found at the same row.
pub proof fn lemma_key_decides(table: Seq<Origin>, a: Origin, b: Origin)
    requires
        a.same_key(b),
    ensures
        last_with_key(table, a) == last_with_key(table, b),
    decreases table.len(),
{
    if table.len() > 0 {
        lemma_key_decides(table.drop_last(), a, b);
    }
}

/// Merging is idempotent on the batch as the first merge left it, too:
/// merging the renumbered origins again inserts no row and ends as the first
/// merge did.
pub proof fn lemma_merged_batch_inserts_nothing(table: Seq<Origin>, batch: Seq<Origin>)
    ensures
        ({
            let first = reconcile_origins(table, batch, batch.len());
            let second = reconcile_origins(first.table, first.rows, batch.len());
            &&& second.table == first.table
            &&& second.error == first.error
            &&& second.done == first.done
        }),
{
    let first = reconcile_origins(table, batch, batch.len());
    let reached = first.done;
    lemma_run_shape(table, batch, batch.len());
    lemma_run_rows(table, batch, batch.len());
    assert forall|i: int| 0 <= i < reached implies last_with_key(
        first.table,
        #[trigger] first.rows[i],
    ) is Some by {
        let before = reconcile_origins(table, batch, i as nat);
        let after = reconcile_origins(table, batch, (i + 1) as nat);
        lemma_run_clean_before(table, batch, i as nat, reached);
        lemma_run_clean_before(table, batch, (i + 1) as nat, reached);
        assert(origin_step(before.table, batch[i]) is Ok);
        lemma_step_learns_key(before.table, batch[i]);
        lemma_run_appends(table, batch, (i + 1) as nat, reached);
        lemma_key_stays(after.table, first.table, batch[i]);
        lemma_key_decides(first.table, first.rows[i], batch[i]);
    }
    lemma_known_origins_insert_nothing(first.table, first.rows, reached);
    if reached < batch.len() {
        let again = reconcile_origins(first.table, first.rows, reached + 1);
        assert(first.rows[reached as int] == batch[reached as int]);
        assert(again.error == first.error);
        lemma_failed_run_stays(first.table, first.rows, reached + 1, batch.len());
    }
}

/// Every id that a merge hands out is the id of a destination row, and that
/// row has the natural key of an origin of the batch with the snapshot id.
pub proof fn lemma_origin_ids_name_rows(table: Seq<Origin>, batch: Seq<Origin>, n: nat)
    requires
        n <= batch.len(),
    ensures
        forall|k: i64| #[trigger]
            reconcile_origins(table, batch, n).ids.contains_key(k) ==> exists|i: int|
                0 <= i < reconcile_origins(table, batch, n).done && (#[trigger] batch[i]).id == k
                    && holds_origin(
                    reconcile_origins(table, batch, n).table,
                    reconcile_origins(table, batch, n).ids[k],
                    batch[i],
                ),
    decreases n,
{
    if n > 0 {
        let before = reconcile_origins(table, batch, (n - 1) as nat);
        let run = reconcile_origins(table, batch, n);
        lemma_origin_ids_name_rows(table, batch, (n - 1) as nat);
        lemma_run_progress(table, batch, (n - 1) as nat);
        lemma_run_progress(table, batch, n);
        lemma_run_appends(table, batch, (n - 1) as nat, n);
        if before.error is None && origin_step(before.table, batch[n - 1]) is Ok {
            let origin = batch[n - 1];
            lemma_last_with_key(before.table, origin);
            assert forall|k: i64| #[trigger] run.ids.contains_key(k) implies exists|i: int|
                0 <= i < run.done && (#[trigger] batch[i]).id == k && holds_origin(
                    run.table,
                    run.ids[k],
                    batch[i],
                ) by {
                if k == origin.id {
                    match last_with_key(before.table, origin) {
                        Some(at) => {
                            assert(run.table[at].same_key(origin));
                        },
                        None => {
                            let at = run.table.len() - 1;
                            assert(run.table[at].same_key(origin));
                        },
                    }
                    assert(batch[n - 1].id == k && holds_origin(run.table, run.ids[k], batch[n - 1]));
                } else {
                    assert(before.ids.contains_key(k));
                    let i = choose|i: int|
                        0 <= i < before.done && (#[trigger] batch[i]).id == k && holds_origin(
                            before.table,
                            before.ids[k],
                            batch[i],
                        );
                    let j = choose|j: int|
                        0 <= j < before.table.len() && (#[trigger] before.table[j]).id
                            == before.ids[k] && before.table[j].same_key(batch[i]);
                    assert(run.table[j] == before.table[j]);
                    assert(batch[i].id == k && holds_origin(run.table, run.ids[k], batch[i]));
                }
            }
        }
    }
}

/// The id that a merge gives for an origin is the id of a destination row
/// with that origin's natural key. Stated of a batch with pairwise distinct
/// snapshot ids, as a fetch delivers it.
pub proof fn lemma_origin_ids_match_keys(table: Seq<Origin>, batch: Seq<Origin>, n: nat)
    requires
        n <= batch.len(),
        origins_ascending(batch),
    ensures
        forall|i: int|
            0 <= i < reconcile_origins(table, batch, n).done ==> {
                let run = reconcile_origins(table, batch, n);
                &&& run.ids.contains_key((#[trigger] batch[i]).id)
                &&& holds_origin(run.table, run.ids[batch[i].id], batch[i])
            },
    decreases n,
{
    if n > 0 {
        let before = reconcile_origins(table, batch, (n - 1) as nat);
        let run = reconcile_origins(table, batch, n);
        lemma_origin_ids_match_keys(table, batch, (n - 1) as nat);
        lemma_run_progress(table, batch, (n - 1) as nat);
        lemma_run_progress(table, batch, n);
        lemma_run_appends(table, batch, (n - 1) as nat, n);
        if before.error is None && origin_step(before.table, batch[n - 1]) is Ok {
            let origin = batch[n - 1];
            lemma_last_with_key(before.table, origin);
            assert forall|i: int| 0 <= i < run.done implies run.ids.contains_key(
                (#[trigger] batch[i]).id,
            ) && holds_origin(run.table, run.ids[batch[i].id], batch[i]) by {
                if i < n - 1 {
                    assert(batch[i].id < batch[n - 1].id);
                    assert(holds_origin(before.table, before.ids[batch[i].id], batch[i]));
                    let j = choose|j: int|
                        0 <= j < before.table.len() && (#[trigger] before.table[j]).id
                            == before.ids[batch[i].id] && before.table[j].same_key(batch[i]);
                    assert(run.table[j] == before.table[j]);
                } else {
                    match last_with_key(before.table, origin) {
                        Some(at) => {
                            assert(run.table[at].same_key(origin));
                        },
                        None => {
                            let at = run.table.len() - 1;
                            assert(run.table[at].same_key(origin));
                        },
                    }
                }
            }
        }
    }
}

/// Allocated place ids only grow: where the table was in ascending order of
/// id, a place stage leaves it so, with the old rows at the beginning. Every
/// inserted row therefore has an id above those of all rows before it.
pub proof fn lemma_place_ids_ascend(
    table: Seq<Place>,
    batch: Seq<Place>,
    origin_ids: Map<i64, i64>,
    after: Seq<Place>,
    r: Reconciled,
)
    requires
        places_ascending(table),
        places_reconciled(table, batch, origin_ids, after, r),
    ensures
        places_ascending(after),
        begins_with(after, table),
        forall|i: int| 0 <= i < r.done ==> (#[trigger] after[table.len() + i]).id == table.last().id + i + 1,
{
    assert forall|i: int| 0 <= i < r.done implies (#[trigger] after[table.len() + i]).id
        == table.last().id + i + 1 by {
        assert(place_obstacle(table, batch, origin_ids, i) is None);
        assert(after[table.len() + i] == placed(table, batch, origin_ids, i));
    }
    assert forall|i: int, j: int| 0 <= i < j < after.len() implies after[i].id < after[j].id by {
        if j >= table.len() {
            assert(after[table.len() + (j - table.len())] == after[j]);
            if i >= table.len() {
                assert(after[table.len() + (i - table.len())] == after[i]);
            } else {
                assert(after[i] == table[i]);
            }
        } else {
            assert(after[i] == table[i] && after[j] == table[j]);
        }
    }
}

/// Allocated bookmark ids only grow, as for places.
pub proof fn lemma_bookmark_ids_ascend(
    table: Seq<Bookmark>,
    batch: Seq<Bookmark>,
    place_ids: Map<i64, i64>,
    after: Seq<Bookmark>,
    r: Reconciled,
)
    requires
        bookmarks_ascending(table),
        bookmarks_reconciled(table, batch, place_ids, after, r),
    ensures
        bookmarks_ascending(after),
        begins_with(after, table),
        forall|i: int| 0 <= i < r.done ==> (#[trigger] after[table.len() + i]).id == table.last().id + i + 1,
{
    assert forall|i: int| 0 <= i < r.done implies (#[trigger] after[table.len() + i]).id
        == table.last().id + i + 1 by {
        assert(bookmark_obstacle(table, batch, place_ids, i) is None);
        assert(after[table.len() + i] == marked(table, batch, place_ids, i));
    }
    assert forall|i: int, j: int| 0 <= i < j < after.len() implies after[i].id < after[j].id by {
        if j >= table.len() {
            assert(after[table.len() + (j - table.len())] == after[j]);
            if i >= table.len() {
                assert(after[table.len() + (i - table.len())] == after[i]);
            } else {
                assert(after[i] == table[i]);
            }
        } else {
            assert(after[i] == table[i] && after[j] == table[j]);
        }
    }
}

/// Every id that a place stage hands out is the id of the row it inserted
/// for a place of the batch with the snapshot id.
pub proof fn lemma_place_ids_name_rows(table: Seq<Place>, batch: Seq<Place>, n: nat)
    requires
        n <= batch.len(),
    ensures
        forall|k: i64| #[trigger]
            new_place_ids(table, batch, n).contains_key(k) ==> exists|p: int|
                0 <= p < n && (#[trigger] batch[p]).id == k && new_place_ids(table, batch, n)[k] == (
                table.last().id + p + 1) as i64,
    decreases n,
{
    if n > 0 {
        lemma_place_ids_name_rows(table, batch, (n - 1) as nat);
        let before = new_place_ids(table, batch, (n - 1) as nat);
        let ids = new_place_ids(table, batch, n);
        assert forall|k: i64| #[trigger] ids.contains_key(k) implies exists|p: int|
            0 <= p < n && (#[trigger] batch[p]).id == k && ids[k] == (table.last().id + p + 1) as i64 by {
            if k == batch[n - 1].id {
                assert(batch[n - 1].id == k && ids[k] == (table.last().id + (n - 1) + 1) as i64);
            } else {
                assert(before.contains_key(k));
                let p = choose|p: int|
                    0 <= p < n - 1 && (#[trigger] batch[p]).id == k && before[k] == (table.last().id
                        + p + 1) as i64;
                assert(batch[p].id == k && ids[k] == (table.last().id + p + 1) as i64);
            }
        }
    }
}

/// In a batch with pairwise distinct snapshot ids, as a fetch delivers it,
/// each place that the stage got through is mapped to the id of its own row.
pub proof fn lemma_place_ids_of_distinct(table: Seq<Place>, batch: Seq<Place>, n: nat)
    requires
        n <= batch.len(),
        places_ascending(batch),
    ensures
        forall|i: int|
            0 <= i < n ==> new_place_ids(table, batch, n).contains_key((#[trigger] batch[i]).id)
                && new_place_ids(table, batch, n)[batch[i].id] == (table.last().id + i + 1) as i64,
    decreases n,
{
    if n > 0 {
        lemma_place_ids_of_distinct(table, batch, (n - 1) as nat);
        assert forall|i: int| 0 <= i < n implies new_place_ids(table, batch, n).contains_key(
            (#[trigger] batch[i]).id,
        ) && new_place_ids(table, batch, n)[batch[i].id] == (table.last().id + i + 1) as i64 by {
            if i < n - 1 {
                assert(batch[i].id < batch[n - 1].id);
            }
        }
    }
}

/// An inserted place points at a destination origin, never at a snapshot id:
/// its origin reference is the id of a destination row that has the natural
/// key of an origin of the batch with the snapshot id it pointed at.
pub proof fn lemma_place_points_at_matching_origin(
    origin_table: Seq<Origin>,
    origin_batch: Seq<Origin>,
    place_table: Seq<Place>,
    place_batch: Seq<Place>,
    i: int,
)
    requires
        0 <= i < place_batch.len(),
        place_batch[i].origin_id is Some,
        place_obstacle(
            place_table,
            place_batch,
            reconcile_origins(origin_table, origin_batch, origin_batch.len()).ids,
            i,
        ) is None,
    ensures
        ({
            let run = reconcile_origins(origin_table, origin_batch, origin_batch.len());
            let row = placed(place_table, place_batch, run.ids, i);
            &&& row.origin_id is Some
            &&& exists|o: int|
                0 <= o < run.done && (#[trigger] origin_batch[o]).id
                    == place_batch[i].origin_id.unwrap() && holds_origin(
                    run.table,
                    row.origin_id.unwrap(),
                    origin_batch[o],
                )
        }),
{
    let run = reconcile_origins(origin_table, origin_batch, origin_batch.len());
    lemma_origin_ids_name_rows(origin_table, origin_batch, origin_batch.len());
    assert(run.ids.contains_key(place_batch[i].origin_id.unwrap()));
}

/// An inserted bookmark points at a destination place, never at a snapshot
/// id: its place reference is the id of the row that the place stage inserted
/// for a place of the batch with the snapshot id it pointed at.
pub proof fn lemma_bookmark_points_at_inserted_place(
    place_table: Seq<Place>,
    place_batch: Seq<Place>,
    origin_ids: Map<i64, i64>,
    places_after: Seq<Place>,
    places: Reconciled,
    bookmark_table: Seq<Bookmark>,
    bookmark_batch: Seq<Bookmark>,
    i: int,
)
    requires
        places_reconciled(place_table, place_batch, origin_ids, places_after, places),
        0 <= i < bookmark_batch.len(),
        bookmark_batch[i].fk is Some,
        bookmark_obstacle(bookmark_table, bookmark_batch, places.ids@, i) is None,
    ensures
        ({
            let row = marked(bookmark_table, bookmark_batch, places.ids@, i);
            &&& row.fk is Some
            &&& exists|p: int|
                0 <= p < places.done && (#[trigger] place_batch[p]).id
                    == bookmark_batch[i].fk.unwrap() && places_after[place_table.len() + p]
                    == placed(place_table, place_batch, origin_ids, p)
                    && places_after[place_table.len() + p].id == row.fk.unwrap()
        }),
{
    let fk = bookmark_batch[i].fk.unwrap();
    lemma_place_ids_name_rows(place_table, place_batch, places.done as nat);
    assert(places.ids@.contains_key(fk));
    let p = choose|p: int|
        0 <= p < places.done && (#[trigger] place_batch[p]).id == fk && places.ids@[fk] == (
        place_table.last().id + p + 1) as i64;
    assert(place_obstacle(place_table, place_batch, origin_ids, p) is None);
    assert(place_batch[p].id == fk && places_after[place_table.len() + p] == placed(
        place_table,
        place_batch,
        origin_ids,
        p,
    ));
}

/// A bookmark that points at a place which the place stage did not get to is
/// not inserted with a dangling reference: the bookmark stage stops at it.
pub proof fn lemma_unmerged_place_stops_bookmark(
    place_table: Seq<Place>,
    place_batch: Seq<Place>,
    done: nat,
    bookmark_table: Seq<Bookmark>,
    bookmark_batch: Seq<Bookmark>,
    i: int,
)
    requires
        done <= place_batch.len(),
        0 <= i < bookmark_batch.len(),
        bookmark_batch[i].fk is Some,
        forall|p: int| 0 <= p < done ==> (#[trigger] place_batch[p]).id != bookmark_batch[i].fk.unwrap(),
    ensures
        bookmark_obstacle(
            bookmark_table,
            bookmark_batch,
            new_place_ids(place_table, place_batch, done),
            i,
        ) == Some(SyncError::MissingReference),
{
    lemma_place_ids_name_rows(place_table, place_batch, done);
}

/// A place stage keeps the references of the places table intact: where
/// every place pointed at a row of the origins table before the merge, every
/// place, old or inserted, points at a row of the origins table after it.
pub proof fn lemma_places_stay_linked(
    origin_table: Seq<Origin>,
    origin_batch: Seq<Origin>,
    place_table: Seq<Place>,
    place_batch: Seq<Place>,
    places_after: Seq<Place>,
    r: Reconciled,
)
    requires
        places_linked(place_table, origin_table),
        places_reconciled(
            place_table,
            place_batch,
            reconcile_origins(origin_table, origin_batch, origin_batch.len()).ids,
            places_after,
            r,
        ),
    ensures
        places_linked(
            places_after,
            reconcile_origins(origin_table, origin_batch, origin_batch.len()).table,
        ),
{
    let run = reconcile_origins(origin_table, origin_batch, origin_batch.len());
    lemma_run_appends(origin_table, origin_batch, 0, origin_batch.len());
    lemma_origin_ids_name_rows(origin_table, origin_batch, origin_batch.len());
    assert forall|i: int|
        0 <= i < places_after.len() && (#[trigger] places_after[i]).origin_id is Some implies has_origin(
        run.table,
        places_after[i].origin_id.unwrap(),
    ) by {
        if i < place_table.len() {
            assert(places_after[i] == place_table[i]);
            let at = choose|at: int|
                0 <= at < origin_table.len() && (#[trigger] origin_table[at]).id
                    == place_table[i].origin_id.unwrap();
            assert(run.table[at] == origin_table[at]);
        } else {
            let k = i - place_table.len();
            assert(places_after[i] == placed_rows(place_table, place_batch, run.ids, r.done as nat)[k]);
            assert(place_obstacle(place_table, place_batch, run.ids, k) is None);
            let o = place_batch[k].origin_id.unwrap();
            assert(run.ids.contains_key(o));
            let b = choose|b: int|
                0 <= b < run.done && (#[trigger] origin_batch[b]).id == o && holds_origin(
                    run.table,
                    run.ids[o],
                    origin_batch[b],
                );
            let at = choose|at: int|
                0 <= at < run.table.len() && (#[trigger] run.table[at]).id == run.ids[o]
                    && run.table[at].same_key(origin_batch[b]);
            assert(run.table[at].id == places_after[i].origin_id.unwrap());
        }
    }
}

/// A bookmark stage keeps the references of the bookmarks table intact:
/// where every bookmark pointed at a row of the places table before the
/// merge, every bookmark, old or inserted, points at a row of the places
/// table after it.
pub proof fn lemma_bookmarks_stay_linked(
    place_table: Seq<Place>,
    place_batch: Seq<Place>,
    origin_ids: Map<i64, i64>,
    places_after: Seq<Place>,
    places: Reconciled,
    bookmark_table: Seq<Bookmark>,
    bookmark_batch: Seq<Bookmark>,
    bookmarks_after: Seq<Bookmark>,
    r: Reconciled,
)
    requires
        bookmarks_linked(bookmark_table, place_table),
        places_reconciled(place_table, place_batch, origin_ids, places_after, places),
        bookmarks_reconciled(bookmark_table, bookmark_batch, places.ids@, bookmarks_after, r),
    ensures
        bookmarks_linked(bookmarks_after, places_after),
{
    assert forall|i: int|
        0 <= i < bookmarks_after.len() && (#[trigger] bookmarks_after[i]).fk is Some implies has_place(
        places_after,
        bookmarks_after[i].fk.unwrap(),
    ) by {
        if i < bookmark_table.len() {
            assert(bookmarks_after[i] == bookmark_table[i]);
            let at = choose|at: int|
                0 <= at < place_table.len() && (#[trigger] place_table[at]).id
                    == bookmark_table[i].fk.unwrap();
            assert(places_after[at] == place_table[at]);
        } else {
            let k = i - bookmark_table.len();
            assert(bookmarks_after[i] == marked_rows(
                bookmark_table,
                bookmark_batch,
                places.ids@,
                r.done as nat,
            )[k]);
            assert(bookmark_obstacle(bookmark_table, bookmark_batch, places.ids@, k) is None);
            lemma_bookmark_points_at_inserted_place(
                place_table,
                place_batch,
                origin_ids,
                places_after,
                places,
                bookmark_table,
                bookmark_batch,
                k,
            );
            let p = choose|p: int|
                0 <= p < places.done && (#[trigger] place_batch[p]).id
                    == bookmark_batch[k].fk.unwrap() && places_after[place_table.len() + p]
                    == placed(place_table, place_batch, origin_ids, p)
                    && places_after[place_table.len() + p].id == marked(
                    bookmark_table,
                    bookmark_batch,
                    places.ids@,
                    k,
                ).fk.unwrap();
            assert(places_after[place_table.len() + p].id == bookmarks_after[i].fk.unwrap());
        }
    }
}

} // verus!
