//! The merge as a whole: fetch what the snapshot gained, then insert it into
//! the destination in the order of dependency, origins before places before
//! bookmarks.

use vstd::prelude::*;
use crate::fetch::{delta_bookmarks, get_new_entries, referenced_origins, referenced_places};
use crate::laws::{lemma_bookmarks_stay_linked, lemma_places_stay_linked};
use crate::reconcile::{
    bookmarks_reconciled,
    insert_new_bookmarks,
    insert_new_origins,
    insert_new_places,
    origins_reconciled,
    places_reconciled,
    relinked_bookmarks,
    relinked_places,
    renumbered_origins,
    SyncReport,
};
use crate::rows::{Bookmark, Origin, Place};
use crate::store::Store;

verus! {

/// The rows of a fetched tier; a tier reported as absent has none.
pub open spec fn rows_of<T>(tier: Option<Vec<T>>) -> Seq<T> {
    match tier {
        Some(rows) => rows@,
        None => Seq::empty(),
    }
}

/// The places a snapshot contributes to a merge from the anchor id on.
pub open spec fn delta_places(snapshot: Store, anchor: i64) -> Seq<Place> {
    let bookmarks = delta_bookmarks(snapshot.bookmarks@, anchor);
    if bookmarks.len() == 0 {
        Seq::empty()
    } else {
        referenced_places(snapshot.places@, bookmarks)
    }
}

/// The origins a snapshot contributes to a merge from the anchor id on.
pub open spec fn delta_origins(snapshot: Store, anchor: i64) -> Seq<Origin> {
    let places = delta_places(snapshot, anchor);
    if places.len() == 0 {
        Seq::empty()
    } else {
        referenced_origins(snapshot.origins@, places)
    }
}

/// How a stage leaves a fetched tier: an absent tier stays absent, a present
/// one holds `rows`.
pub open spec fn tier_holds<T>(before: Option<Vec<T>>, after: Option<Vec<T>>, rows: Seq<T>) -> bool {
    match before {
        Some(_) => after is Some && after.unwrap()@ == rows,
        None => after is None,
    }
}

/// Inserts what was fetched into the destination: the origins, then the
/// places with the origin ids that the first stage produced, then the
/// bookmarks with the place ids that the second produced. An absent tier is
/// an empty batch. A stage that stops early does not keep the next from
/// running: the next works with the ids that were produced up to there, and
/// stops itself at the first row that needs one that was not. The fetched
/// rows that a stage got through are left as they were inserted. A
/// destination whose references all ended at rows of its own still has none
/// that dangles afterwards.
pub fn insert_new_entries(
    store: &mut Store,
    new_bookmarks: &mut Option<Vec<Bookmark>>,
    new_places: &mut Option<Vec<Place>>,
    new_origins: &mut Option<Vec<Origin>>,
) -> (r: SyncReport)
    requires
        old(store).wf(),
    ensures
        final(store).wf(),
        old(store).linked() ==> final(store).linked(),
        origins_reconciled(
            old(store).origins@,
            rows_of(*old(new_origins)),
            final(store).origins@,
            r.origins,
        ),
        places_reconciled(
            old(store).places@,
            rows_of(*old(new_places)),
            r.origins.ids@,
            final(store).places@,
            r.places,
        ),
        bookmarks_reconciled(
            old(store).bookmarks@,
            rows_of(*old(new_bookmarks)),
            r.places.ids@,
            final(store).bookmarks@,
            r.bookmarks,
        ),
        tier_holds(
            *old(new_origins),
            *final(new_origins),
            renumbered_origins(old(store).origins@, rows_of(*old(new_origins))),
        ),
        tier_holds(
            *old(new_places),
            *final(new_places),
            relinked_places(
                old(store).places@,
                rows_of(*old(new_places)),
                r.origins.ids@,
                r.places.done as nat,
            ),
        ),
        tier_holds(
            *old(new_bookmarks),
            *final(new_bookmarks),
            relinked_bookmarks(
                old(store).bookmarks@,
                rows_of(*old(new_bookmarks)),
                r.places.ids@,
                r.bookmarks.done as nat,
            ),
        ),
{
    let origins = match new_origins {
        Some(batch) => insert_new_origins(store, batch),
        None => {
            let mut batch: Vec<Origin> = Vec::new();
            insert_new_origins(store, &mut batch)
        },
    };
    let places = match new_places {
        Some(batch) => insert_new_places(store, batch, &origins.ids),
        None => {
            let mut batch: Vec<Place> = Vec::new();
            insert_new_places(store, &mut batch, &origins.ids)
        },
    };
    let bookmarks = match new_bookmarks {
        Some(batch) => insert_new_bookmarks(store, batch, &places.ids),
        None => {
            let mut batch: Vec<Bookmark> = Vec::new();
            insert_new_bookmarks(store, &mut batch, &places.ids)
        },
    };
    proof {
        if old(store).linked() {
            lemma_places_stay_linked(
                old(store).origins@,
                rows_of(*old(new_origins)),
                old(store).places@,
                rows_of(*old(new_places)),
                store.places@,
                places,
            );
            lemma_bookmarks_stay_linked(
                old(store).places@,
                rows_of(*old(new_places)),
                origins.ids@,
                store.places@,
                places,
                old(store).bookmarks@,
                rows_of(*old(new_bookmarks)),
                store.bookmarks@,
                bookmarks,
            );
        }
    }
    SyncReport { origins, places, bookmarks }
}

/// Merges into `original` everything that `snapshot` gained after the anchor
/// bookmark, and reports how each stage went. Where the snapshot has nothing
/// newer than the anchor, the destination stays as it is. A destination whose
/// references all ended at rows of its own still has none that dangles
/// afterwards.
pub fn run_sync(original: &mut Store, snapshot: &Store, anchor: &Bookmark) -> (r: SyncReport)
    requires
        old(original).wf(),
        snapshot.wf(),
    ensures
        final(original).wf(),
        old(original).linked() ==> final(original).linked(),
        snapshot.bookmarks@.len() == 0 || anchor.id >= snapshot.bookmarks@.last().id ==> {
            &&& final(original).bookmarks@ == old(original).bookmarks@
            &&& final(original).places@ == old(original).places@
            &&& final(original).origins@ == old(original).origins@
        },
        origins_reconciled(
            old(original).origins@,
            delta_origins(*snapshot, anchor.id),
            final(original).origins@,
            r.origins,
        ),
        places_reconciled(
            old(original).places@,
            delta_places(*snapshot, anchor.id),
            r.origins.ids@,
            final(original).places@,
            r.places,
        ),
        bookmarks_reconciled(
            old(original).bookmarks@,
            delta_bookmarks(snapshot.bookmarks@, anchor.id),
            r.places.ids@,
            final(original).bookmarks@,
            r.bookmarks,
        ),
{
    let (mut new_bookmarks, mut new_places, mut new_origins) = get_new_entries(snapshot, anchor);
    let report = insert_new_entries(original, &mut new_bookmarks, &mut new_places, &mut new_origins);
    proof {
        if snapshot.bookmarks@.len() == 0 || anchor.id >= snapshot.bookmarks@.last().id {
            assert(original.bookmarks@ =~= old(original).bookmarks@);
            assert(original.places@ =~= old(original).places@);
        }
    }
    report
}

} // verus!
