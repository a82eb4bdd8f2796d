//! Merging fetched rows into a destination store: every new row gets the id
//! that follows the greatest one in its table, references are rewritten to
//! destination ids, and an origin that the destination already knows by its
//! natural key is reused instead of inserted.

use std::collections::HashMap;
use vstd::prelude::*;
use crate::rows::{Bookmark, Origin, Place};
use crate::store::{last_with_key, lemma_last_with_key, Store};

verus! {

broadcast use vstd::std_specs::hash::group_hash_axioms;

/// Why a stage of the merge stopped.
#[derive(Debug, Clone, Copy, PartialEq, Eq, Structural)]
pub enum SyncError {
    /// The destination table has no row, so it has no greatest id to count
    /// on from.
    EmptyTable,
    /// The greatest id of the destination table is the last one there is.
    IdOverflow,
    /// A row points at a place or an origin that was not merged.
    MissingReference,
}

/// What one stage did: how many rows of the batch it got through, in batch
/// order, the destination id of each of them by its snapshot id, and what
/// stopped it if it did not reach the end.
#[derive(Debug)]
pub struct Reconciled {
    pub ids: HashMap<i64, i64>,
    pub done: usize,
    pub error: Option<SyncError>,
}

/// The outcome of each stage of a merge, in the order in which they ran.
#[derive(Debug)]
pub struct SyncReport {
    pub origins: Reconciled,
    pub places: Reconciled,
    pub bookmarks: Reconciled,
}

/// The state of an origin merge after some rows of the batch: the
/// destination table, the ids given out by snapshot id, the batch with the
/// merged rows renumbered, how many rows were merged, and what stopped the
/// run.
pub struct OriginRun {
    pub table: Seq<Origin>,
    pub ids: Map<i64, i64>,
    pub rows: Seq<Origin>,
    pub done: nat,
    pub error: Option<SyncError>,
}

/// Merging one origin into a table: the table afterwards and the origin's
/// destination id. A row with the same natural key is reused; otherwise the
/// origin is appended under the id that follows the table's greatest.
pub open spec fn origin_step(table: Seq<Origin>, origin: Origin) -> Result<
    (Seq<Origin>, i64),
    SyncError,
> {
    match last_with_key(table, origin) {
        Some(at) => Ok((table, table[at].id)),
        None => if table.len() == 0 {
            Err(SyncError::EmptyTable)
        } else if table.last().id == i64::MAX {
            Err(SyncError::IdOverflow)
        } else {
            let id = (table.last().id + 1) as i64;
            Ok((table.push(origin.renumbered(id)), id))
        },
    }
}

/// Merging the first `n` origins of a batch, one after the other, each
/// against the table as the ones before left it. The first failure ends the
/// run.
pub open spec fn reconcile_origins(table: Seq<Origin>, batch: Seq<Origin>, n: nat) -> OriginRun
    decreases n,
{
    if n == 0 {
        OriginRun { table, ids: Map::empty(), rows: batch, done: 0, error: None }
    } else {
        let before = reconcile_origins(table, batch, (n - 1) as nat);
        if before.error is Some {
            before
        } else {
            match origin_step(before.table, batch[n - 1]) {
                Ok((after, id)) => OriginRun {
                    table: after,
                    ids: before.ids.insert(batch[n - 1].id, id),
                    rows: before.rows.update(n - 1, batch[n - 1].renumbered(id)),
                    done: n,
                    error: None,
                },
                Err(e) => OriginRun { error: Some(e), ..before },
            }
        }
    }
}

/// Once a run has failed, further rows of the batch change nothing.
pub proof fn lemma_failed_run_stays(table: Seq<Origin>, batch: Seq<Origin>, k: nat, n: nat)
    requires
        k <= n,
        reconcile_origins(table, batch, k).error is Some,
    ensures
        reconcile_origins(table, batch, n) == reconcile_origins(table, batch, k),
    decreases n - k,
{
    if k < n {
        lemma_failed_run_stays(table, batch, k, (n - 1) as nat);
    }
}

/// What an origin stage must leave behind: the table and the outcome of the
/// run over the whole batch.
pub open spec fn origins_reconciled(
    table: Seq<Origin>,
    batch: Seq<Origin>,
    after: Seq<Origin>,
    r: Reconciled,
) -> bool {
    let run = reconcile_origins(table, batch, batch.len());
    &&& after == run.table
    &&& r.ids@ == run.ids
    &&& r.done == run.done
    &&& r.error == run.error
}

/// The batch as an origin stage leaves it: each origin it got through
/// carries its destination id, the rest is untouched.
pub open spec fn renumbered_origins(table: Seq<Origin>, batch: Seq<Origin>) -> Seq<Origin> {
    reconcile_origins(table, batch, batch.len()).rows
}

/// What stands in the way of the place at position `i` of the batch, with
/// every place before it merged: nothing, or the first of an origin reference
/// that the mapping does not hold, an empty table, an exhausted id range.
pub open spec fn place_obstacle(
    table: Seq<Place>,
    batch: Seq<Place>,
    origin_ids: Map<i64, i64>,
    i: int,
) -> Option<SyncError> {
    if batch[i].origin_id is Some && !origin_ids.contains_key(batch[i].origin_id.unwrap()) {
        Some(SyncError::MissingReference)
    } else if table.len() == 0 {
        Some(SyncError::EmptyTable)
    } else if table.last().id + i + 1 > i64::MAX {
        Some(SyncError::IdOverflow)
    } else {
        None
    }
}

/// A reference carried over to the destination: the id that the mapping
/// gives for it.
pub open spec fn rewritten(reference: Option<i64>, ids: Map<i64, i64>) -> Option<i64> {
    match reference {
        Some(id) => Some(ids[id]),
        None => None,
    }
}

/// The row inserted for the place at position `i` of the batch: its id is the
/// table's greatest plus `i + 1`, its origin the destination id of the one it
/// pointed at.
pub open spec fn placed(
    table: Seq<Place>,
    batch: Seq<Place>,
    origin_ids: Map<i64, i64>,
    i: int,
) -> Place {
    batch[i].relinked((table.last().id + i + 1) as i64, rewritten(batch[i].origin_id, origin_ids))
}

/// The rows inserted for the first `n` places of the batch.
pub open spec fn placed_rows(
    table: Seq<Place>,
    batch: Seq<Place>,
    origin_ids: Map<i64, i64>,
    n: nat,
) -> Seq<Place> {
    Seq::new(n, |i: int| placed(table, batch, origin_ids, i))
}

/// The batch as a place stage leaves it: each of the first `done` places is
/// the row that was inserted for it, the rest is untouched.
pub open spec fn relinked_places(
    table: Seq<Place>,
    batch: Seq<Place>,
    origin_ids: Map<i64, i64>,
    done: nat,
) -> Seq<Place> {
    Seq::new(
        batch.len(),
        |i: int|
            if i < done {
                placed(table, batch, origin_ids, i)
            } else {
                batch[i]
            },
    )
}

/// Snapshot id to destination id for the first `n` places of the batch.
pub open spec fn new_place_ids(table: Seq<Place>, batch: Seq<Place>, n: nat) -> Map<i64, i64>
    decreases n,
{
    if n == 0 {
        Map::empty()
    } else {
        new_place_ids(table, batch, (n - 1) as nat).insert(
            batch[n - 1].id,
            (table.last().id + n) as i64,
        )
    }
}

/// What a place stage must leave behind: it got through the rows before the
/// first obstacle and no further, appended their rewritten copies in batch
/// order, and reports that obstacle.
pub open spec fn places_reconciled(
    table: Seq<Place>,
    batch: Seq<Place>,
    origin_ids: Map<i64, i64>,
    after: Seq<Place>,
    r: Reconciled,
) -> bool {
    &&& r.done <= batch.len()
    &&& forall|k: int| 0 <= k < r.done ==> place_obstacle(table, batch, origin_ids, k) is None
    &&& r.done < batch.len() ==> r.error is Some && r.error == place_obstacle(
        table,
        batch,
        origin_ids,
        r.done as int,
    )
    &&& r.done == batch.len() ==> r.error is None
    &&& after == table + placed_rows(table, batch, origin_ids, r.done as nat)
    &&& r.ids@ == new_place_ids(table, batch, r.done as nat)
}

/// What stands in the way of the bookmark at position `i` of the batch, with
/// every bookmark before it merged.
pub open spec fn bookmark_obstacle(
    table: Seq<Bookmark>,
    batch: Seq<Bookmark>,
    place_ids: Map<i64, i64>,
    i: int,
) -> Option<SyncError> {
    if batch[i].fk is Some && !place_ids.contains_key(batch[i].fk.unwrap()) {
        Some(SyncError::MissingReference)
    } else if table.len() == 0 {
        Some(SyncError::EmptyTable)
    } else if table.last().id + i + 1 > i64::MAX {
        Some(SyncError::IdOverflow)
    } else {
        None
    }
}

/// The row inserted for the bookmark at position `i` of the batch: its id is
/// the table's greatest plus `i + 1`, its place the destination id of the one
/// it pointed at.
pub open spec fn marked(
    table: Seq<Bookmark>,
    batch: Seq<Bookmark>,
    place_ids: Map<i64, i64>,
    i: int,
) -> Bookmark {
    batch[i].relinked((table.last().id + i + 1) as i64, rewritten(batch[i].fk, place_ids))
}

/// The rows inserted for the first `n` bookmarks of the batch.
pub open spec fn marked_rows(
    table: Seq<Bookmark>,
    batch: Seq<Bookmark>,
    place_ids: Map<i64, i64>,
    n: nat,
) -> Seq<Bookmark> {
    Seq::new(n, |i: int| marked(table, batch, place_ids, i))
}

/// The batch as a bookmark stage leaves it: each of the first `done`
/// bookmarks is the row that was inserted for it, the rest is untouched.
pub open spec fn relinked_bookmarks(
    table: Seq<Bookmark>,
    batch: Seq<Bookmark>,
    place_ids: Map<i64, i64>,
    done: nat,
) -> Seq<Bookmark> {
    Seq::new(
        batch.len(),
        |i: int|
            if i < done {
                marked(table, batch, place_ids, i)
            } else {
                batch[i]
            },
    )
}

/// Snapshot id to destination id for the first `n` bookmarks of the batch.
pub open spec fn new_bookmark_ids(table: Seq<Bookmark>, batch: Seq<Bookmark>, n: nat) -> Map<
    i64,
    i64,
>
    decreases n,
{
    if n == 0 {
        Map::empty()
    } else {
        new_bookmark_ids(table, batch, (n - 1) as nat).insert(
            batch[n - 1].id,
            (table.last().id + n) as i64,
        )
    }
}

/// What a bookmark stage must leave behind, as for places.
pub open spec fn bookmarks_reconciled(
    table: Seq<Bookmark>,
    batch: Seq<Bookmark>,
    place_ids: Map<i64, i64>,
    after: Seq<Bookmark>,
    r: Reconciled,
) -> bool {
    &&& r.done <= batch.len()
    &&& forall|k: int| 0 <= k < r.done ==> bookmark_obstacle(table, batch, place_ids, k) is None
    &&& r.done < batch.len() ==> r.error is Some && r.error == bookmark_obstacle(
        table,
        batch,
        place_ids,
        r.done as int,
    )
    &&& r.done == batch.len() ==> r.error is None
    &&& after == table + marked_rows(table, batch, place_ids, r.done as nat)
    &&& r.ids@ == new_bookmark_ids(table, batch, r.done as nat)
}

/// The id that follows the greatest one of a table.
pub fn next_id(max_id: Option<i64>) -> (r: Result<i64, SyncError>)
    ensures
        match max_id {
            None => r == Err::<i64, SyncError>(SyncError::EmptyTable),
            Some(max) => if max == i64::MAX {
                r == Err::<i64, SyncError>(SyncError::IdOverflow)
            } else {
                r == Ok::<i64, SyncError>((max + 1) as i64)
            },
        },
{
    match max_id {
        None => Err(SyncError::EmptyTable),
        Some(max) => if max == i64::MAX {
            Err(SyncError::IdOverflow)
        } else {
            Ok(max + 1)
        },
    }
}

/// Carries a reference over to the destination, or fails where the mapping
/// does not hold it. A row without a reference keeps none.
pub fn rewrite_reference(reference: Option<i64>, ids: &HashMap<i64, i64>) -> (r: Result<
    Option<i64>,
    SyncError,
>)
    ensures
        match reference {
            Some(id) => if ids@.contains_key(id) {
                r == Ok::<Option<i64>, SyncError>(Some(ids@[id]))
            } else {
                r == Err::<Option<i64>, SyncError>(SyncError::MissingReference)
            },
            None => r == Ok::<Option<i64>, SyncError>(None),
        },
{
    match reference {
        None => Ok(None),
        Some(id) => match ids.get(&id) {
            None => Err(SyncError::MissingReference),
            Some(to) => Ok(Some(*to)),
        },
    }
}

/// Merges the fetched origins into the destination, in batch order. An origin
/// whose natural key the destination already holds is mapped to that row and
/// not inserted; any other is inserted under the id that follows the table's
/// greatest at that moment. Either way the origin of the batch is given its
/// destination id. The run stops at the first origin that cannot get an id.
pub fn insert_new_origins(store: &mut Store, new_origins: &mut Vec<Origin>) -> (r: Reconciled)
    requires
        old(store).wf(),
    ensures
        final(store).wf(),
        final(store).bookmarks == old(store).bookmarks,
        final(store).places == old(store).places,
        origins_reconciled(old(store).origins@, old(new_origins)@, final(store).origins@, r),
        final(new_origins)@ == renumbered_origins(old(store).origins@, old(new_origins)@),
{
    let ghost table = store.origins@;
    let ghost batch = new_origins@;
    let ghost before = *store;
    let mut ids: HashMap<i64, i64> = HashMap::new();
    let mut i: usize = 0;
    while i < new_origins.len()
        invariant
            i <= batch.len(),
            batch == old(new_origins)@,
            new_origins@.len() == batch.len(),
            store.wf(),
            before == *old(store),
            store.bookmarks == before.bookmarks,
            store.places == before.places,
            table == before.origins@,
            reconcile_origins(table, batch, i as nat).error is None,
            reconcile_origins(table, batch, i as nat).done == i,
            reconcile_origins(table, batch, i as nat).table == store.origins@,
            reconcile_origins(table, batch, i as nat).ids == ids@,
            reconcile_origins(table, batch, i as nat).rows == new_origins@,
            forall|k: int| i <= k < batch.len() ==> new_origins@[k] == batch[k],
        decreases batch.len() - i,
    {
        let ghost next = reconcile_origins(table, batch, (i + 1) as nat);
        proof {
            lemma_last_with_key(store.origins@, batch[i as int]);
        }
        let snapshot_id = new_origins[i].id;
        match store.find_origin(&new_origins[i]) {
            Some(id) => {
                new_origins[i].id = id;
                ids.insert(snapshot_id, id);
            },
            None => {
                let id = match next_id(store.max_origin_id()) {
                    Err(e) => {
                        proof {
                            assert(next.error == Some(e));
                            lemma_failed_run_stays(table, batch, (i + 1) as nat, batch.len());
                        }
                        return Reconciled { ids, done: i, error: Some(e) };
                    },
                    Ok(id) => id,
                };
                new_origins[i].id = id;
                let row = new_origins[i].duplicate();
                store.origins.push(row);
                ids.insert(snapshot_id, id);
            },
        }
        assert(new_origins@ =~= next.rows);
        i += 1;
    }
    Reconciled { ids, done: i, error: None }
}

/// Merges the fetched places into the destination, in batch order. Each place
/// has its origin reference replaced by what `origin_ids` gives for it and is
/// then inserted under the id that follows the table's greatest at that
/// moment; the place of the batch is left as the row that was inserted. The
/// run stops at the first place whose origin the mapping does not hold, or
/// that cannot get an id.
pub fn insert_new_places(
    store: &mut Store,
    new_places: &mut Vec<Place>,
    origin_ids: &HashMap<i64, i64>,
) -> (r: Reconciled)
    requires
        old(store).wf(),
    ensures
        final(store).wf(),
        final(store).bookmarks == old(store).bookmarks,
        final(store).origins == old(store).origins,
        places_reconciled(
            old(store).places@,
            old(new_places)@,
            origin_ids@,
            final(store).places@,
            r,
        ),
        final(new_places)@ == relinked_places(
            old(store).places@,
            old(new_places)@,
            origin_ids@,
            r.done as nat,
        ),
{
    let ghost table = store.places@;
    let ghost batch = new_places@;
    let ghost before = *store;
    let mut ids: HashMap<i64, i64> = HashMap::new();
    let mut i: usize = 0;
    assert(store.places@ =~= table + placed_rows(table, batch, origin_ids@, 0));
    assert(new_places@ =~= relinked_places(table, batch, origin_ids@, 0));
    while i < new_places.len()
        invariant
            i <= batch.len(),
            batch == old(new_places)@,
            store.wf(),
            before == *old(store),
            store.bookmarks == before.bookmarks,
            store.origins == before.origins,
            table == before.places@,
            forall|k: int| 0 <= k < i ==> place_obstacle(table, batch, origin_ids@, k) is None,
            store.places@ == table + placed_rows(table, batch, origin_ids@, i as nat),
            new_places@ == relinked_places(table, batch, origin_ids@, i as nat),
            ids@ == new_place_ids(table, batch, i as nat),
        decreases batch.len() - i,
    {
        proof {
            if i > 0 {
                assert(place_obstacle(table, batch, origin_ids@, i - 1) is None);
                assert(store.places@.last() == placed(table, batch, origin_ids@, i - 1));
            } else {
                assert(store.places@ =~= table);
            }
        }
        let snapshot_id = new_places[i].id;
        let origin_id = match rewrite_reference(new_places[i].origin_id, origin_ids) {
            Err(e) => {
                return Reconciled { ids, done: i, error: Some(e) };
            },
            Ok(origin_id) => origin_id,
        };
        let id = match next_id(store.max_place_id()) {
            Err(e) => {
                return Reconciled { ids, done: i, error: Some(e) };
            },
            Ok(id) => id,
        };
        new_places[i].id = id;
        new_places[i].origin_id = origin_id;
        let row = new_places[i].duplicate();
        store.places.push(row);
        ids.insert(snapshot_id, id);
        proof {
            assert(row == placed(table, batch, origin_ids@, i as int));
            assert(store.places@ =~= table + placed_rows(
                table,
                batch,
                origin_ids@,
                (i + 1) as nat,
            ));
            assert(new_places@ =~= relinked_places(table, batch, origin_ids@, (i + 1) as nat));
        }
        i += 1;
    }
    Reconciled { ids, done: i, error: None }
}

/// Merges the fetched bookmarks into the destination, oldest first. Each
/// bookmark has its place reference replaced by what `place_ids` gives for it
/// and is then inserted under the id that follows the table's greatest at
/// that moment; the bookmark of the batch is left as the row that was
/// inserted. The run stops at the first bookmark whose place the mapping does
/// not hold, or that cannot get an id.
pub fn insert_new_bookmarks(
    store: &mut Store,
    new_bookmarks: &mut Vec<Bookmark>,
    place_ids: &HashMap<i64, i64>,
) -> (r: Reconciled)
    requires
        old(store).wf(),
    ensures
        final(store).wf(),
        final(store).places == old(store).places,
        final(store).origins == old(store).origins,
        bookmarks_reconciled(
            old(store).bookmarks@,
            old(new_bookmarks)@,
            place_ids@,
            final(store).bookmarks@,
            r,
        ),
        final(new_bookmarks)@ == relinked_bookmarks(
            old(store).bookmarks@,
            old(new_bookmarks)@,
            place_ids@,
            r.done as nat,
        ),
{
    let ghost table = store.bookmarks@;
    let ghost batch = new_bookmarks@;
    let ghost before = *store;
    let mut ids: HashMap<i64, i64> = HashMap::new();
    let mut i: usize = 0;
    assert(store.bookmarks@ =~= table + marked_rows(table, batch, place_ids@, 0));
    assert(new_bookmarks@ =~= relinked_bookmarks(table, batch, place_ids@, 0));
    while i < new_bookmarks.len()
        invariant
            i <= batch.len(),
            batch == old(new_bookmarks)@,
            store.wf(),
            before == *old(store),
            store.places == before.places,
            store.origins == before.origins,
            table == before.bookmarks@,
            forall|k: int| 0 <= k < i ==> bookmark_obstacle(table, batch, place_ids@, k) is None,
            store.bookmarks@ == table + marked_rows(table, batch, place_ids@, i as nat),
            new_bookmarks@ == relinked_bookmarks(table, batch, place_ids@, i as nat),
            ids@ == new_bookmark_ids(table, batch, i as nat),
        decreases batch.len() - i,
    {
        proof {
            if i > 0 {
                assert(bookmark_obstacle(table, batch, place_ids@, i - 1) is None);
                assert(store.bookmarks@.last() == marked(table, batch, place_ids@, i - 1));
            } else {
                assert(store.bookmarks@ =~= table);
            }
        }
        let snapshot_id = new_bookmarks[i].id;
        let fk = match rewrite_reference(new_bookmarks[i].fk, place_ids) {
            Err(e) => {
                return Reconciled { ids, done: i, error: Some(e) };
            },
            Ok(fk) => fk,
        };
        let id = match next_id(store.max_bookmark_id()) {
            Err(e) => {
                return Reconciled { ids, done: i, error: Some(e) };
            },
            Ok(id) => id,
        };
        new_bookmarks[i].id = id;
        new_bookmarks[i].fk = fk;
        let row = new_bookmarks[i].duplicate();
        store.bookmarks.push(row);
        ids.insert(snapshot_id, id);
        proof {
            assert(row == marked(table, batch, place_ids@, i as int));
            assert(store.bookmarks@ =~= table + marked_rows(
                table,
                batch,
                place_ids@,
                (i + 1) as nat,
            ));
            assert(new_bookmarks@ =~= relinked_bookmarks(table, batch, place_ids@, (i + 1) as nat));
        }
        i += 1;
    }
    Reconciled { ids, done: i, error: None }
}

} // verus!
