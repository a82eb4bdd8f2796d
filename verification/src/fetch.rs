//! Finding what a snapshot store gained after an anchor: the new bookmarks,
//! the places they point at, and the origins those places point at.

use vstd::prelude::*;
use crate::rows::{Bookmark, Origin, Place};
use crate::store::{bookmarks_ascending, origins_ascending, places_ascending, Store};

verus! {

/// The test a bookmark passes when its id lies above `low` and not above
/// `high`.
pub open spec fn id_between(low: i64, high: i64) -> spec_fn(Bookmark) -> bool {
    |b: Bookmark| low < b.id <= high
}

/// The bookmark rows created after the anchor id, in table order: none where
/// the table is empty or its newest id is not above the anchor, else every
/// row whose id lies above the anchor and not above the newest id.
pub open spec fn delta_bookmarks(rows: Seq<Bookmark>, anchor: i64) -> Seq<Bookmark> {
    if rows.len() == 0 || anchor >= rows.last().id {
        Seq::empty()
    } else {
        rows.filter(id_between(anchor, rows.last().id))
    }
}

/// Whether some bookmark of the batch points at the place id.
pub open spec fn references_place(bookmarks: Seq<Bookmark>, id: i64) -> bool {
    exists|i: int| 0 <= i < bookmarks.len() && (#[trigger] bookmarks[i]).fk == Some(id)
}

/// The test a place passes when a bookmark of the batch points at it.
pub open spec fn place_wanted(bookmarks: Seq<Bookmark>) -> spec_fn(Place) -> bool {
    |p: Place| references_place(bookmarks, p.id)
}

/// The place rows that the batch of bookmarks points at, each once, in table
/// order.
pub open spec fn referenced_places(rows: Seq<Place>, bookmarks: Seq<Bookmark>) -> Seq<Place> {
    rows.filter(place_wanted(bookmarks))
}

/// Whether some place of the batch points at the origin id.
pub open spec fn references_origin(places: Seq<Place>, id: i64) -> bool {
    exists|i: int| 0 <= i < places.len() && (#[trigger] places[i]).origin_id == Some(id)
}

/// The test an origin passes when a place of the batch points at it.
pub open spec fn origin_wanted(places: Seq<Place>) -> spec_fn(Origin) -> bool {
    |o: Origin| references_origin(places, o.id)
}

/// The origin rows that the batch of places points at, each once, in table
/// order.
pub open spec fn referenced_origins(rows: Seq<Origin>, places: Seq<Place>) -> Seq<Origin> {
    rows.filter(origin_wanted(places))
}

/// How a fetch reports rows: the rows themselves where there are any, and
/// nothing at all where there are none.
pub open spec fn reports<T>(r: Option<Vec<T>>, rows: Seq<T>) -> bool {
    match r {
        Some(found) => found@ == rows && rows.len() > 0,
        None => rows.len() == 0,
    }
}

/// The newest bookmark of a store: the row with the greatest id, `None` for
/// an empty table.
pub fn get_latest_bookmark(store: &Store) -> (r: Option<Bookmark>)
    requires
        store.wf(),
    ensures
        r is None <==> store.bookmarks@.len() == 0,
        r is Some ==> r.unwrap() == store.bookmarks@.last(),
        r is Some ==> forall|i: int|
            0 <= i < store.bookmarks@.len() ==> store.bookmarks@[i].id <= r.unwrap().id,
{
    let n = store.bookmarks.len();
    if n == 0 {
        None
    } else {
        Some(store.bookmarks[n - 1].duplicate())
    }
}

/// The bookmarks that the snapshot holds beyond the anchor, oldest first.
/// Nothing is reported where the snapshot has no bookmark or its newest is
/// not newer than the anchor.
pub fn get_bookmarks_between_two(store: &Store, first_bookmark: &Bookmark) -> (r: Option<
    Vec<Bookmark>,
>)
    requires
        store.wf(),
    ensures
        reports(r, delta_bookmarks(store.bookmarks@, first_bookmark.id)),
        r is None <==> store.bookmarks@.len() == 0 || first_bookmark.id
            >= store.bookmarks@.last().id,
        r is Some ==> bookmarks_ascending(r.unwrap()@),
        r is Some ==> forall|k: int|
            0 <= k < r.unwrap()@.len() ==> first_bookmark.id < (#[trigger] r.unwrap()@[k]).id
                <= store.bookmarks@.last().id,
{
    let latest = match get_latest_bookmark(store) {
        None => {
            return None;
        },
        Some(bookmark) => bookmark,
    };
    if first_bookmark.id >= latest.id {
        return None;
    }
    let low = first_bookmark.id;
    let high = latest.id;
    let ghost rows = store.bookmarks@;
    let ghost pred = id_between(low, high);
    let mut found: Vec<Bookmark> = Vec::new();
    let mut i: usize = 0;
    proof {
        reveal(Seq::filter);
        assert(rows.take(0).filter(pred) =~= found@);
    }
    while i < store.bookmarks.len()
        invariant
            i <= rows.len(),
            rows == store.bookmarks@,
            pred == id_between(low, high),
            bookmarks_ascending(rows),
            found@ == rows.take(i as int).filter(pred),
            bookmarks_ascending(found@),
            forall|k: int| 0 <= k < found@.len() ==> low < (#[trigger] found@[k]).id <= high,
            forall|k: int, j: int|
                0 <= k < found@.len() && i <= j < rows.len() ==> (#[trigger] found@[k]).id < (
                #[trigger] rows[j]).id,
            rows.len() > 0 && low < rows.last().id <= high,
            i == rows.len() ==> found@.len() > 0,
        decreases rows.len() - i,
    {
        proof {
            reveal(Seq::filter);
            let head = rows.take(i + 1);
            assert(head.drop_last() =~= rows.take(i as int));
            assert(head.last() == rows[i as int]);
        }
        let row = &store.bookmarks[i];
        if low < row.id && row.id <= high {
            found.push(row.duplicate());
        }
        i += 1;
    }
    assert(rows.take(i as int) =~= rows);
    if found.len() == 0 {
        None
    } else {
        Some(found)
    }
}

/// Whether a bookmark of the batch points at the place id.
pub fn points_at_place(bookmarks: &Vec<Bookmark>, id: i64) -> (r: bool)
    ensures
        r == references_place(bookmarks@, id),
{
    let mut i: usize = 0;
    while i < bookmarks.len()
        invariant
            i <= bookmarks@.len(),
            forall|k: int| 0 <= k < i ==> (#[trigger] bookmarks@[k]).fk != Some(id),
        decreases bookmarks.len() - i,
    {
        match bookmarks[i].fk {
            Some(fk) => {
                if fk == id {
                    return true;
                }
            },
            None => {},
        }
        i += 1;
    }
    false
}

/// Whether a place of the batch points at the origin id.
pub fn points_at_origin(places: &Vec<Place>, id: i64) -> (r: bool)
    ensures
        r == references_origin(places@, id),
{
    let mut i: usize = 0;
    while i < places.len()
        invariant
            i <= places@.len(),
            forall|k: int| 0 <= k < i ==> (#[trigger] places@[k]).origin_id != Some(id),
        decreases places.len() - i,
    {
        match places[i].origin_id {
            Some(origin_id) => {
                if origin_id == id {
                    return true;
                }
            },
            None => {},
        }
        i += 1;
    }
    false
}

/// The places that the fetched bookmarks depend on. A place that several
/// bookmarks point at is reported once; a bookmark without a place, or one
/// whose place the snapshot lacks, contributes nothing.
pub fn get_new_places(store: &Store, bookmarks: &Vec<Bookmark>) -> (r: Option<Vec<Place>>)
    requires
        store.wf(),
    ensures
        reports(r, referenced_places(store.places@, bookmarks@)),
        r is Some ==> places_ascending(r.unwrap()@),
{
    let ghost rows = store.places@;
    let ghost pred = place_wanted(bookmarks@);
    let mut found: Vec<Place> = Vec::new();
    let mut i: usize = 0;
    proof {
        reveal(Seq::filter);
        assert(rows.take(0).filter(pred) =~= found@);
    }
    while i < store.places.len()
        invariant
            i <= rows.len(),
            rows == store.places@,
            pred == place_wanted(bookmarks@),
            places_ascending(rows),
            found@ == rows.take(i as int).filter(pred),
            places_ascending(found@),
            forall|k: int, j: int|
                0 <= k < found@.len() && i <= j < rows.len() ==> (#[trigger] found@[k]).id < (
                #[trigger] rows[j]).id,
        decreases rows.len() - i,
    {
        proof {
            reveal(Seq::filter);
            let head = rows.take(i + 1);
            assert(head.drop_last() =~= rows.take(i as int));
            assert(head.last() == rows[i as int]);
        }
        let row = &store.places[i];
        if points_at_place(bookmarks, row.id) {
            found.push(row.duplicate());
        }
        i += 1;
    }
    assert(rows.take(i as int) =~= rows);
    if found.len() == 0 {
        None
    } else {
        Some(found)
    }
}

/// The origins that the fetched places depend on, each reported once.
pub fn get_new_origins(store: &Store, places: &Vec<Place>) -> (r: Option<Vec<Origin>>)
    requires
        store.wf(),
    ensures
        reports(r, referenced_origins(store.origins@, places@)),
        r is Some ==> origins_ascending(r.unwrap()@),
{
    let ghost rows = store.origins@;
    let ghost pred = origin_wanted(places@);
    let mut found: Vec<Origin> = Vec::new();
    let mut i: usize = 0;
    proof {
        reveal(Seq::filter);
        assert(rows.take(0).filter(pred) =~= found@);
    }
    while i < store.origins.len()
        invariant
            i <= rows.len(),
            rows == store.origins@,
            pred == origin_wanted(places@),
            origins_ascending(rows),
            found@ == rows.take(i as int).filter(pred),
            origins_ascending(found@),
            forall|k: int, j: int|
                0 <= k < found@.len() && i <= j < rows.len() ==> (#[trigger] found@[k]).id < (
                #[trigger] rows[j]).id,
        decreases rows.len() - i,
    {
        proof {
            reveal(Seq::filter);
            let head = rows.take(i + 1);
            assert(head.drop_last() =~= rows.take(i as int));
            assert(head.last() == rows[i as int]);
        }
        let row = &store.origins[i];
        if points_at_origin(places, row.id) {
            found.push(row.duplicate());
        }
        i += 1;
    }
    assert(rows.take(i as int) =~= rows);
    if found.len() == 0 {
        None
    } else {
        Some(found)
    }
}

/// Everything the snapshot gained after the anchor, tier by tier: the new
/// bookmarks, the places they point at, the origins those places point at.
/// A tier without rows is reported as `None`, and so is every tier below it.
pub fn get_new_entries(store: &Store, first_bookmark: &Bookmark) -> (r: (
    Option<Vec<Bookmark>>,
    Option<Vec<Place>>,
    Option<Vec<Origin>>,
))
    requires
        store.wf(),
    ensures
        reports(r.0, delta_bookmarks(store.bookmarks@, first_bookmark.id)),
        r.0 is None ==> r.1 is None && r.2 is None,
        r.0 is Some ==> reports(r.1, referenced_places(store.places@, r.0.unwrap()@)),
        r.1 is None ==> r.2 is None,
        r.1 is Some ==> reports(r.2, referenced_origins(store.origins@, r.1.unwrap()@)),
        store.bookmarks@.len() == 0 || first_bookmark.id >= store.bookmarks@.last().id ==> r.0 is None
            && r.1 is None && r.2 is None,
        r.0 is Some ==> bookmarks_ascending(r.0.unwrap()@),
        r.0 is Some ==> forall|k: int|
            0 <= k < r.0.unwrap()@.len() ==> first_bookmark.id < (#[trigger] r.0.unwrap()@[k]).id
                <= store.bookmarks@.last().id,
        r.1 is Some ==> places_ascending(r.1.unwrap()@),
        r.2 is Some ==> origins_ascending(r.2.unwrap()@),
{
    let new_bookmarks = match get_bookmarks_between_two(store, first_bookmark) {
        None => {
            return (None, None, None);
        },
        Some(new_bookmarks) => new_bookmarks,
    };
    let new_places = match get_new_places(store, &new_bookmarks) {
        None => {
            return (Some(new_bookmarks), None, None);
        },
        Some(new_places) => new_places,
    };
    let new_origins = get_new_origins(store, &new_places);
    (Some(new_bookmarks), Some(new_places), new_origins)
}

} // verus!
