//! A profile store: the three tables, each kept in ascending order of id.

use vstd::prelude::*;
use crate::rows::{Bookmark, Origin, Place};

verus! {

/// Whether bookmark rows stand in strictly ascending order of id. Ids are
/// then pairwise distinct and the last row carries the greatest.
pub open spec fn bookmarks_ascending(rows: Seq<Bookmark>) -> bool {
    forall|i: int, j: int| 0 <= i < j < rows.len() ==> rows[i].id < rows[j].id
}

/// Whether place rows stand in strictly ascending order of id.
pub open spec fn places_ascending(rows: Seq<Place>) -> bool {
    forall|i: int, j: int| 0 <= i < j < rows.len() ==> rows[i].id < rows[j].id
}

/// Whether origin rows stand in strictly ascending order of id.
pub open spec fn origins_ascending(rows: Seq<Origin>) -> bool {
    forall|i: int, j: int| 0 <= i < j < rows.len() ==> rows[i].id < rows[j].id
}

/// Whether some place row carries the id.
pub open spec fn has_place(rows: Seq<Place>, id: i64) -> bool {
    exists|i: int| 0 <= i < rows.len() && (#[trigger] rows[i]).id == id
}

/// Whether some origin row carries the id.
pub open spec fn has_origin(rows: Seq<Origin>, id: i64) -> bool {
    exists|i: int| 0 <= i < rows.len() && (#[trigger] rows[i]).id == id
}

/// Whether every place that points at an origin points at a row of
/// `origins`.
pub open spec fn places_linked(places: Seq<Place>, origins: Seq<Origin>) -> bool {
    forall|i: int|
        0 <= i < places.len() && (#[trigger] places[i]).origin_id is Some ==> has_origin(
            origins,
            places[i].origin_id.unwrap(),
        )
}

/// Whether every bookmark that points at a place points at a row of
/// `places`.
pub open spec fn bookmarks_linked(bookmarks: Seq<Bookmark>, places: Seq<Place>) -> bool {
    forall|i: int|
        0 <= i < bookmarks.len() && (#[trigger] bookmarks[i]).fk is Some ==> has_place(
            places,
            bookmarks[i].fk.unwrap(),
        )
}

/// The position of the last origin row that has the natural key of `wanted`,
/// if any row has it.
pub open spec fn last_with_key(rows: Seq<Origin>, wanted: Origin) -> Option<int>
    decreases rows.len(),
{
    if rows.len() == 0 {
        None
    } else if rows.last().same_key(wanted) {
        Some(rows.len() - 1)
    } else {
        last_with_key(rows.drop_last(), wanted)
    }
}

/// What `last_with_key` finds is a row with the key, and no row behind it has
/// the key; where it finds nothing, no row has the key.
pub proof fn lemma_last_with_key(rows: Seq<Origin>, wanted: Origin)
    ensures
        match last_with_key(rows, wanted) {
            Some(at) => {
                &&& 0 <= at < rows.len()
                &&& rows[at].same_key(wanted)
                &&& forall|k: int| at < k < rows.len() ==> !rows[k].same_key(wanted)
            },
            None => forall|k: int| 0 <= k < rows.len() ==> !rows[k].same_key(wanted),
        },
    decreases rows.len(),
{
    if rows.len() > 0 && !rows.last().same_key(wanted) {
        let head = rows.drop_last();
        lemma_last_with_key(head, wanted);
        assert(forall|k: int| 0 <= k < head.len() ==> head[k] == rows[k]);
    }
}

/// The tables of one profile store, with public rows so that a caller can
/// read what a merge appended.
#[derive(Debug, PartialEq, Eq)]
pub struct Store {
    pub bookmarks: Vec<Bookmark>,
    pub places: Vec<Place>,
    pub origins: Vec<Origin>,
}

impl Store {
    /// The store's invariant: in each table the ids ascend strictly, as a
    /// primary key read in key order does.
    pub open spec fn wf(&self) -> bool {
        &&& bookmarks_ascending(self.bookmarks@)
        &&& places_ascending(self.places@)
        &&& origins_ascending(self.origins@)
    }

    /// Referential integrity: no place points at an origin that the store
    /// lacks, and no bookmark at a place that it lacks.
    pub open spec fn linked(&self) -> bool {
        &&& places_linked(self.places@, self.origins@)
        &&& bookmarks_linked(self.bookmarks@, self.places@)
    }

    /// A store with three empty tables.
    pub fn new() -> (r: Store)
        ensures
            r.wf(),
            r.linked(),
            r.bookmarks@.len() == 0,
            r.places@.len() == 0,
            r.origins@.len() == 0,
    {
        Store { bookmarks: Vec::new(), places: Vec::new(), origins: Vec::new() }
    }

    /// Checks the invariant on rows that came from outside.
    pub fn is_valid(&self) -> (r: bool)
        ensures
            r == self.wf(),
    {
        let mut i: usize = 1;
        while i < self.bookmarks.len()
            invariant
                1 <= i,
                forall|k: int| 0 < k < i && k < self.bookmarks@.len() ==> self.bookmarks@[k - 1].id
                    < #[trigger] self.bookmarks@[k].id,
            decreases self.bookmarks.len() - i,
        {
            if self.bookmarks[i - 1].id >= self.bookmarks[i].id {
                return false;
            }
            i += 1;
        }
        proof {
            lemma_bookmarks_stepwise(self.bookmarks@);
        }
        let mut i: usize = 1;
        while i < self.places.len()
            invariant
                1 <= i,
                forall|k: int| 0 < k < i && k < self.places@.len() ==> self.places@[k - 1].id
                    < #[trigger] self.places@[k].id,
            decreases self.places.len() - i,
        {
            if self.places[i - 1].id >= self.places[i].id {
                return false;
            }
            i += 1;
        }
        proof {
            lemma_places_stepwise(self.places@);
        }
        let mut i: usize = 1;
        while i < self.origins.len()
            invariant
                1 <= i,
                forall|k: int| 0 < k < i && k < self.origins@.len() ==> self.origins@[k - 1].id
                    < #[trigger] self.origins@[k].id,
            decreases self.origins.len() - i,
        {
            if self.origins[i - 1].id >= self.origins[i].id {
                return false;
            }
            i += 1;
        }
        proof {
            lemma_origins_stepwise(self.origins@);
        }
        true
    }

    /// Builds a store from rows read elsewhere; `None` where a table is not
    /// in strictly ascending order of id.
    pub fn from_rows(bookmarks: Vec<Bookmark>, places: Vec<Place>, origins: Vec<Origin>) -> (r:
        Option<Store>)
        ensures
            r is Some <==> bookmarks_ascending(bookmarks@) && places_ascending(places@)
                && origins_ascending(origins@),
            r is Some ==> r.unwrap().wf() && r.unwrap().bookmarks == bookmarks && r.unwrap().places
                == places && r.unwrap().origins == origins,
    {
        let store = Store { bookmarks, places, origins };
        if store.is_valid() {
            Some(store)
        } else {
            None
        }
    }

    /// Whether the places table has a row under the id.
    pub fn holds_place(&self, id: i64) -> (r: bool)
        ensures
            r == has_place(self.places@, id),
    {
        let mut i: usize = 0;
        while i < self.places.len()
            invariant
                i <= self.places@.len(),
                forall|k: int| 0 <= k < i ==> (#[trigger] self.places@[k]).id != id,
            decreases self.places.len() - i,
        {
            if self.places[i].id == id {
                return true;
            }
            i += 1;
        }
        false
    }

    /// Whether the origins table has a row under the id.
    pub fn holds_origin(&self, id: i64) -> (r: bool)
        ensures
            r == has_origin(self.origins@, id),
    {
        let mut i: usize = 0;
        while i < self.origins.len()
            invariant
                i <= self.origins@.len(),
                forall|k: int| 0 <= k < i ==> (#[trigger] self.origins@[k]).id != id,
            decreases self.origins.len() - i,
        {
            if self.origins[i].id == id {
                return true;
            }
            i += 1;
        }
        false
    }

    /// Checks that no reference of the store dangles.
    pub fn is_linked(&self) -> (r: bool)
        ensures
            r == self.linked(),
    {
        let mut i: usize = 0;
        while i < self.places.len()
            invariant
                i <= self.places@.len(),
                forall|k: int|
                    0 <= k < i && (#[trigger] self.places@[k]).origin_id is Some ==> has_origin(
                        self.origins@,
                        self.places@[k].origin_id.unwrap(),
                    ),
            decreases self.places.len() - i,
        {
            match self.places[i].origin_id {
                Some(origin_id) => {
                    if !self.holds_origin(origin_id) {
                        return false;
                    }
                },
                None => {},
            }
            i += 1;
        }
        let mut i: usize = 0;
        while i < self.bookmarks.len()
            invariant
                i <= self.bookmarks@.len(),
                places_linked(self.places@, self.origins@),
                forall|k: int|
                    0 <= k < i && (#[trigger] self.bookmarks@[k]).fk is Some ==> has_place(
                        self.places@,
                        self.bookmarks@[k].fk.unwrap(),
                    ),
            decreases self.bookmarks.len() - i,
        {
            match self.bookmarks[i].fk {
                Some(fk) => {
                    if !self.holds_place(fk) {
                        return false;
                    }
                },
                None => {},
            }
            i += 1;
        }
        true
    }

    /// The greatest bookmark id, `None` for an empty table.
    pub fn max_bookmark_id(&self) -> (r: Option<i64>)
        requires
            self.wf(),
        ensures
            r is None <==> self.bookmarks@.len() == 0,
            r is Some ==> r.unwrap() == self.bookmarks@.last().id,
            r is Some ==> forall|i: int|
                0 <= i < self.bookmarks@.len() ==> self.bookmarks@[i].id <= r.unwrap(),
    {
        let n = self.bookmarks.len();
        if n == 0 {
            None
        } else {
            Some(self.bookmarks[n - 1].id)
        }
    }

    /// The greatest place id, `None` for an empty table.
    pub fn max_place_id(&self) -> (r: Option<i64>)
        requires
            self.wf(),
        ensures
            r is None <==> self.places@.len() == 0,
            r is Some ==> r.unwrap() == self.places@.last().id,
            r is Some ==> forall|i: int|
                0 <= i < self.places@.len() ==> self.places@[i].id <= r.unwrap(),
    {
        let n = self.places.len();
        if n == 0 {
            None
        } else {
            Some(self.places[n - 1].id)
        }
    }

    /// The greatest origin id, `None` for an empty table.
    pub fn max_origin_id(&self) -> (r: Option<i64>)
        requires
            self.wf(),
        ensures
            r is None <==> self.origins@.len() == 0,
            r is Some ==> r.unwrap() == self.origins@.last().id,
            r is Some ==> forall|i: int|
                0 <= i < self.origins@.len() ==> self.origins@[i].id <= r.unwrap(),
    {
        let n = self.origins.len();
        if n == 0 {
            None
        } else {
            Some(self.origins[n - 1].id)
        }
    }

    /// The id of the last origin row that has the natural key of `wanted`.
    pub fn find_origin(&self, wanted: &Origin) -> (r: Option<i64>)
        ensures
            match last_with_key(self.origins@, *wanted) {
                Some(at) => r == Some(self.origins@[at].id),
                None => r is None,
            },
    {
        let mut i: usize = self.origins.len();
        assert(self.origins@.take(i as int) =~= self.origins@);
        while i > 0
            invariant
                i <= self.origins@.len(),
                last_with_key(self.origins@, *wanted) == last_with_key(
                    self.origins@.take(i as int),
                    *wanted,
                ),
            decreases i,
        {
            proof {
                let head = self.origins@.take(i as int);
                assert(head.last() == self.origins@[i - 1]);
                assert(head.drop_last() =~= self.origins@.take(i - 1));
                lemma_last_with_key(head, *wanted);
            }
            if self.origins[i - 1].has_same_key(wanted) {
                return Some(self.origins[i - 1].id);
            }
            i -= 1;
        }
        None
    }
}

/// Neighbouring bookmark rows in order make the whole table ascending.
pub proof fn lemma_bookmarks_stepwise(rows: Seq<Bookmark>)
    requires
        forall|k: int| 0 < k < rows.len() ==> rows[k - 1].id < #[trigger] rows[k].id,
    ensures
        bookmarks_ascending(rows),
{
    assert forall|i: int, j: int| 0 <= i < j < rows.len() implies rows[i].id < rows[j].id by {
        lemma_bookmarks_climb(rows, i, j);
    }
}

proof fn lemma_bookmarks_climb(rows: Seq<Bookmark>, i: int, j: int)
    requires
        forall|k: int| 0 < k < rows.len() ==> rows[k - 1].id < #[trigger] rows[k].id,
        0 <= i < j < rows.len(),
    ensures
        rows[i].id < rows[j].id,
    decreases j - i,
{
    assert(rows[j - 1].id < rows[j].id);
    if i < j - 1 {
        lemma_bookmarks_climb(rows, i, j - 1);
    }
}

/// Neighbouring place rows in order make the whole table ascending.
pub proof fn lemma_places_stepwise(rows: Seq<Place>)
    requires
        forall|k: int| 0 < k < rows.len() ==> rows[k - 1].id < #[trigger] rows[k].id,
    ensures
        places_ascending(rows),
{
    assert forall|i: int, j: int| 0 <= i < j < rows.len() implies rows[i].id < rows[j].id by {
        lemma_places_climb(rows, i, j);
    }
}

proof fn lemma_places_climb(rows: Seq<Place>, i: int, j: int)
    requires
        forall|k: int| 0 < k < rows.len() ==> rows[k - 1].id < #[trigger] rows[k].id,
        0 <= i < j < rows.len(),
    ensures
        rows[i].id < rows[j].id,
    decreases j - i,
{
    assert(rows[j - 1].id < rows[j].id);
    if i < j - 1 {
        lemma_places_climb(rows, i, j - 1);
    }
}

/// Neighbouring origin rows in order make the whole table ascending.
pub proof fn lemma_origins_stepwise(rows: Seq<Origin>)
    requires
        forall|k: int| 0 < k < rows.len() ==> rows[k - 1].id < #[trigger] rows[k].id,
    ensures
        origins_ascending(rows),
{
    assert forall|i: int, j: int| 0 <= i < j < rows.len() implies rows[i].id < rows[j].id by {
        lemma_origins_climb(rows, i, j);
    }
}

proof fn lemma_origins_climb(rows: Seq<Origin>, i: int, j: int)
    requires
        forall|k: int| 0 < k < rows.len() ==> rows[k - 1].id < #[trigger] rows[k].id,
        0 <= i < j < rows.len(),
    ensures
        rows[i].id < rows[j].id,
    decreases j - i,
{
    assert(rows[j - 1].id < rows[j].id);
    if i < j - 1 {
        lemma_origins_climb(rows, i, j - 1);
    }
}

} // verus!
