use std::collections::HashMap;

use fftemplates::bookmarks::{insert_new_entries, run_sync};
use fftemplates::reconcile::{
    insert_new_bookmarks, insert_new_origins, insert_new_places, next_id, rewrite_reference,
    SyncError,
};
use fftemplates::rows::{Bookmark, Origin, Place};
use fftemplates::store::Store;

fn entry(id: i64, fk: Option<i64>) -> Bookmark {
    Bookmark {
        id,
        bookmark_type: Some(1),
        fk,
        parent: Some(2),
        position: Some(0),
        title: Some(format!("bookmark {}", id)),
        keyword_id: None,
        folder_type: None,
        date_added: Some(1_600_000_000),
        last_modified: Some(1_600_000_001),
        guid: Some(format!("guid-b-{}", id)),
        sync_status: 1,
        sync_change_counter: 0,
    }
}

fn page(id: i64, origin_id: Option<i64>) -> Place {
    Place {
        id,
        url: Some(format!("http://example.com/{}", id)),
        title: None,
        rev_host: Some("moc.elpmaxe.".to_string()),
        visit_count: Some(3),
        hidden: 0,
        typed: 1,
        favicon_id: None,
        frecency: 100,
        last_visit_date: None,
        guid: Some(format!("guid-p-{}", id)),
        foreign_count: 1,
        url_hash: 47_000_000 + id,
        description: None,
        preview_image_url: None,
        origin_id,
    }
}

fn source(id: i64, prefix: &str, host: &str, frecency: i64) -> Origin {
    Origin { id, prefix: prefix.to_string(), host: host.to_string(), frecency }
}

fn mapping(pairs: &[(i64, i64)]) -> HashMap<i64, i64> {
    pairs.iter().cloned().collect()
}

fn destination() -> Store {
    Store::from_rows(
        vec![entry(1, None), entry(100, Some(50))],
        vec![page(50, Some(5)), page(60, None)],
        vec![source(5, "http://", "example.com", 10)],
    )
    .unwrap()
}

#[test]
fn next_id_follows_the_greatest() {
    assert_eq!(next_id(Some(100)), Ok(101));
    assert_eq!(next_id(Some(-1)), Ok(0));
    assert_eq!(next_id(Some(i64::MAX - 1)), Ok(i64::MAX));
}

#[test]
fn next_id_of_an_empty_table_fails() {
    assert_eq!(next_id(None), Err(SyncError::EmptyTable));
}

#[test]
fn next_id_beyond_the_last_id_fails() {
    assert_eq!(next_id(Some(i64::MAX)), Err(SyncError::IdOverflow));
}

#[test]
fn rewrite_reference_looks_the_id_up() {
    let ids = mapping(&[(7, 200), (8, 201)]);
    assert_eq!(rewrite_reference(Some(7), &ids), Ok(Some(200)));
    assert_eq!(rewrite_reference(Some(8), &ids), Ok(Some(201)));
    assert_eq!(rewrite_reference(None, &ids), Ok(None));
}

#[test]
fn rewrite_reference_fails_on_an_unknown_id() {
    let ids = mapping(&[(7, 200)]);
    assert_eq!(rewrite_reference(Some(200), &ids), Err(SyncError::MissingReference));
    assert_eq!(rewrite_reference(Some(9), &HashMap::new()), Err(SyncError::MissingReference));
}

#[test]
fn known_origin_is_reused_and_not_inserted() {
    let mut store = destination();
    let mut batch = vec![source(1, "http://", "example.com", 10)];
    let r = insert_new_origins(&mut store, &mut batch);
    assert_eq!(r.error, None);
    assert_eq!(r.done, 1);
    assert_eq!(r.ids, mapping(&[(1, 5)]));
    assert_eq!(store, destination());
    assert_eq!(batch, vec![source(5, "http://", "example.com", 10)]);
}

#[test]
fn unknown_origin_gets_the_next_id() {
    let mut store = destination();
    let mut batch = vec![source(1, "https://", "example.com", 10), source(2, "http://", "b.org", 7)];
    let r = insert_new_origins(&mut store, &mut batch);
    assert_eq!(r.error, None);
    assert_eq!(r.done, 2);
    assert_eq!(r.ids, mapping(&[(1, 6), (2, 7)]));
    assert_eq!(
        store.origins,
        vec![
            source(5, "http://", "example.com", 10),
            source(6, "https://", "example.com", 10),
            source(7, "http://", "b.org", 7),
        ]
    );
    assert_eq!(store.bookmarks, destination().bookmarks);
    assert_eq!(store.places, destination().places);
    assert_eq!(batch[..], store.origins[1..]);
}

#[test]
fn origin_that_already_has_the_next_id_keeps_it() {
    let mut store = destination();
    let r = insert_new_origins(&mut store, &mut vec![source(6, "http://", "new.org", 1)]);
    assert_eq!(r.ids, mapping(&[(6, 6)]));
    assert_eq!(store.origins[1], source(6, "http://", "new.org", 1));
}

#[test]
fn origin_inserted_earlier_in_the_run_is_reused() {
    let mut store = destination();
    let mut batch = vec![source(1, "http://", "twice.org", 3), source(2, "http://", "twice.org", 3)];
    let r = insert_new_origins(&mut store, &mut batch);
    assert_eq!(r.error, None);
    assert_eq!(r.ids, mapping(&[(1, 6), (2, 6)]));
    assert_eq!(store.origins.len(), 2);
}

fn three_origins() -> Vec<Origin> {
    vec![
        source(1, "http://", "example.com", 10),
        source(2, "http://", "b.org", 7),
        source(3, "http://", "c.org", 7),
    ]
}

#[test]
fn merging_origins_twice_inserts_nothing_more() {
    let mut store = destination();
    let first = insert_new_origins(&mut store, &mut three_origins());
    assert_eq!(first.error, None);
    assert_eq!(store.origins.len(), 3);
    let after_first = store.origins.iter().map(|o| o.duplicate()).collect::<Vec<Origin>>();
    let second = insert_new_origins(&mut store, &mut three_origins());
    assert_eq!(second.error, None);
    assert_eq!(second.done, 3);
    assert_eq!(store.origins, after_first);
    assert_eq!(second.ids, first.ids);
    assert_eq!(second.ids, mapping(&[(1, 5), (2, 6), (3, 7)]));
}

#[test]
fn merging_the_renumbered_origins_again_inserts_nothing() {
    let mut store = destination();
    let mut batch = three_origins();
    insert_new_origins(&mut store, &mut batch);
    assert_eq!(batch, store.origins);
    let again = insert_new_origins(&mut store, &mut batch);
    assert_eq!(again.error, None);
    assert_eq!(again.ids, mapping(&[(5, 5), (6, 6), (7, 7)]));
    assert_eq!(store.origins.len(), 3);
    assert_eq!(batch, store.origins);
}

#[test]
fn origins_cannot_be_inserted_into_an_empty_table() {
    let mut store = Store::new();
    let r = insert_new_origins(&mut store, &mut vec![source(1, "http://", "example.com", 10)]);
    assert_eq!(r.error, Some(SyncError::EmptyTable));
    assert_eq!(r.done, 0);
    assert!(r.ids.is_empty());
    assert_eq!(store, Store::new());
}

#[test]
fn origin_ids_cannot_pass_the_last_id() {
    let mut store =
        Store::from_rows(vec![], vec![], vec![source(i64::MAX, "http://", "example.com", 10)])
            .unwrap();
    let mut batch = vec![source(1, "http://", "example.com", 10), source(2, "http://", "b.org", 7)];
    let r = insert_new_origins(&mut store, &mut batch);
    assert_eq!(r.error, Some(SyncError::IdOverflow));
    assert_eq!(r.done, 1);
    assert_eq!(r.ids, mapping(&[(1, i64::MAX)]));
    assert_eq!(store.origins.len(), 1);
    assert_eq!(
        batch,
        vec![source(i64::MAX, "http://", "example.com", 10), source(2, "http://", "b.org", 7)]
    );
}

#[test]
fn empty_batches_change_nothing() {
    let mut store = Store::new();
    let origins = insert_new_origins(&mut store, &mut Vec::new());
    let places = insert_new_places(&mut store, &mut Vec::new(), &HashMap::new());
    let bookmarks = insert_new_bookmarks(&mut store, &mut Vec::new(), &HashMap::new());
    assert_eq!((origins.done, origins.error), (0, None));
    assert_eq!((places.done, places.error), (0, None));
    assert_eq!((bookmarks.done, bookmarks.error), (0, None));
    assert_eq!(store, Store::new());
}

#[test]
fn places_get_new_ids_and_destination_origins() {
    let mut store = destination();
    let mut batch = vec![page(7, Some(1)), page(8, None), page(9, Some(2))];
    let r = insert_new_places(&mut store, &mut batch, &mapping(&[(1, 5), (2, 6)]));
    assert_eq!(r.error, None);
    assert_eq!(r.done, 3);
    assert_eq!(r.ids, mapping(&[(7, 61), (8, 62), (9, 63)]));
    let mut first = page(7, Some(5));
    first.id = 61;
    let mut second = page(8, None);
    second.id = 62;
    let mut third = page(9, Some(6));
    third.id = 63;
    assert_eq!(batch[..], store.places[2..]);
    assert_eq!(store.places, vec![page(50, Some(5)), page(60, None), first, second, third]);
    assert_eq!(store.bookmarks, destination().bookmarks);
    assert_eq!(store.origins, destination().origins);
}

#[test]
fn place_with_an_unmerged_origin_stops_the_stage() {
    let mut store = destination();
    let mut batch = vec![page(7, Some(1)), page(8, Some(9)), page(10, Some(1))];
    let r = insert_new_places(&mut store, &mut batch, &mapping(&[(1, 5)]));
    assert_eq!(r.error, Some(SyncError::MissingReference));
    assert_eq!(r.done, 1);
    assert_eq!(r.ids, mapping(&[(7, 61)]));
    assert_eq!(store.places.len(), 3);
    assert_eq!(store.places[2].id, 61);
    assert_eq!(store.places[2].origin_id, Some(5));
    assert_eq!(batch[0], store.places[2]);
    assert_eq!(batch[1..], [page(8, Some(9)), page(10, Some(1))]);
}

#[test]
fn missing_origin_fails_the_place_and_its_bookmarks() {
    let mut store = destination();
    let mut fetched = vec![page(8, Some(9))];
    let places = insert_new_places(&mut store, &mut fetched, &HashMap::new());
    assert_eq!(fetched, vec![page(8, Some(9))]);
    assert_eq!(places.error, Some(SyncError::MissingReference));
    assert_eq!(places.done, 0);
    assert!(places.ids.is_empty());
    assert_eq!(store.places, destination().places);
    let bookmarks = insert_new_bookmarks(&mut store, &mut vec![entry(3, Some(8))], &places.ids);
    assert_eq!(bookmarks.error, Some(SyncError::MissingReference));
    assert_eq!(bookmarks.done, 0);
    assert_eq!(store, destination());
}

#[test]
fn places_cannot_be_inserted_into_an_empty_table() {
    let mut store = Store::new();
    let r = insert_new_places(&mut store, &mut vec![page(8, None)], &HashMap::new());
    assert_eq!(r.error, Some(SyncError::EmptyTable));
    assert_eq!(r.done, 0);
    assert!(store.places.is_empty());
}

#[test]
fn a_missing_reference_is_reported_before_an_empty_table() {
    let mut store = Store::new();
    let r = insert_new_places(&mut store, &mut vec![page(8, Some(9))], &HashMap::new());
    assert_eq!(r.error, Some(SyncError::MissingReference));
    let r = insert_new_bookmarks(&mut store, &mut vec![entry(8, Some(9))], &HashMap::new());
    assert_eq!(r.error, Some(SyncError::MissingReference));
    let r = insert_new_bookmarks(&mut store, &mut vec![entry(8, Some(9))], &mapping(&[(9, 3)]));
    assert_eq!(r.error, Some(SyncError::EmptyTable));
}

#[test]
fn a_missing_reference_is_reported_before_an_exhausted_id_range() {
    let mut store =
        Store::from_rows(vec![entry(i64::MAX, None)], vec![page(i64::MAX, None)], vec![]).unwrap();
    let r = insert_new_places(&mut store, &mut vec![page(8, Some(9))], &HashMap::new());
    assert_eq!(r.error, Some(SyncError::MissingReference));
    let r = insert_new_bookmarks(&mut store, &mut vec![entry(8, Some(9))], &HashMap::new());
    assert_eq!(r.error, Some(SyncError::MissingReference));
}

#[test]
fn place_ids_cannot_pass_the_last_id() {
    let mut store = Store::from_rows(vec![], vec![page(i64::MAX - 1, None)], vec![]).unwrap();
    let r = insert_new_places(&mut store, &mut vec![page(1, None), page(2, None)], &HashMap::new());
    assert_eq!(r.error, Some(SyncError::IdOverflow));
    assert_eq!(r.done, 1);
    assert_eq!(r.ids, mapping(&[(1, i64::MAX)]));
    assert_eq!(store.places.len(), 2);
    assert_eq!(store.places[1].id, i64::MAX);
}

#[test]
fn bookmarks_follow_the_greatest_id_and_the_place_mapping() {
    let mut store = destination();
    let mut batch = vec![entry(3, Some(7)), entry(4, Some(8))];
    let r = insert_new_bookmarks(&mut store, &mut batch, &mapping(&[(7, 200), (8, 201)]));
    assert_eq!(r.error, None);
    assert_eq!(r.done, 2);
    assert_eq!(store.bookmarks.len(), 4);
    let mut first = entry(3, Some(200));
    first.id = 101;
    let mut second = entry(4, Some(201));
    second.id = 102;
    assert_eq!(store.bookmarks[2], first);
    assert_eq!(store.bookmarks[3], second);
    assert_eq!(batch[..], store.bookmarks[2..]);
    assert_eq!(r.ids, mapping(&[(3, 101), (4, 102)]));
    assert_eq!(store.places, destination().places);
    assert_eq!(store.origins, destination().origins);
}

#[test]
fn bookmark_without_a_place_keeps_none() {
    let mut store = destination();
    let r = insert_new_bookmarks(&mut store, &mut vec![entry(3, None)], &HashMap::new());
    assert_eq!(r.error, None);
    assert_eq!(store.bookmarks[2].id, 101);
    assert_eq!(store.bookmarks[2].fk, None);
}

#[test]
fn bookmark_with_an_unmerged_place_stops_the_stage() {
    let mut store = destination();
    let mut batch = vec![entry(3, Some(7)), entry(4, Some(8)), entry(5, Some(7))];
    let r = insert_new_bookmarks(&mut store, &mut batch, &mapping(&[(7, 200)]));
    assert_eq!(r.error, Some(SyncError::MissingReference));
    assert_eq!(r.done, 1);
    assert_eq!(store.bookmarks.len(), 3);
    assert_eq!(store.bookmarks[2].fk, Some(200));
    assert_eq!(batch[0], store.bookmarks[2]);
    assert_eq!(batch[1..], [entry(4, Some(8)), entry(5, Some(7))]);
}

#[test]
fn bookmark_ids_cannot_pass_the_last_id() {
    let mut store = Store::from_rows(vec![entry(i64::MAX, None)], vec![], vec![]).unwrap();
    let r = insert_new_bookmarks(&mut store, &mut vec![entry(1, None)], &HashMap::new());
    assert_eq!(r.error, Some(SyncError::IdOverflow));
    assert_eq!(r.done, 0);
    assert_eq!(store.bookmarks.len(), 1);
}

#[test]
fn allocated_ids_ascend_within_a_run() {
    let mut store = destination();
    let mut origins = vec![
        source(30, "http://", "x.org", 1),
        source(31, "http://", "y.org", 1),
        source(32, "http://", "z.org", 1),
    ];
    let mut places = vec![page(90, None), page(91, None), page(95, None)];
    let mut bookmarks = vec![entry(40, None), entry(41, None), entry(49, None)];
    insert_new_origins(&mut store, &mut origins);
    insert_new_places(&mut store, &mut places, &HashMap::new());
    insert_new_bookmarks(&mut store, &mut bookmarks, &HashMap::new());
    assert_eq!(store.origins.iter().map(|o| o.id).collect::<Vec<i64>>(), vec![5, 6, 7, 8]);
    assert_eq!(store.places.iter().map(|p| p.id).collect::<Vec<i64>>(), vec![50, 60, 61, 62, 63]);
    assert_eq!(
        store.bookmarks.iter().map(|b| b.id).collect::<Vec<i64>>(),
        vec![1, 100, 101, 102, 103]
    );
    assert!(store.is_valid());
}

#[test]
fn entries_are_inserted_in_the_order_of_dependency() {
    let mut store = destination();
    let mut origins = Some(vec![source(1, "http://", "example.com", 10), source(2, "http://", "n.org", 4)]);
    let mut places = Some(vec![page(7, Some(1)), page(8, Some(2))]);
    let mut bookmarks = Some(vec![entry(3, Some(7)), entry(4, Some(8)), entry(5, None)]);
    let report = insert_new_entries(&mut store, &mut bookmarks, &mut places, &mut origins);
    assert_eq!(report.origins.error, None);
    assert_eq!(report.places.error, None);
    assert_eq!(report.bookmarks.error, None);
    assert_eq!(report.origins.ids, mapping(&[(1, 5), (2, 6)]));
    assert_eq!(report.places.ids, mapping(&[(7, 61), (8, 62)]));
    assert_eq!(store.origins.len(), 2);
    assert_eq!(store.origins[1], source(6, "http://", "n.org", 4));
    assert_eq!(store.places[2].origin_id, Some(5));
    assert_eq!(store.places[3].origin_id, Some(6));
    assert_eq!(store.bookmarks[2].fk, Some(61));
    assert_eq!(store.bookmarks[3].fk, Some(62));
    assert_eq!(store.bookmarks[4].fk, None);
    assert_eq!(origins.unwrap()[1], store.origins[1]);
    assert_eq!(places.unwrap()[..], store.places[2..]);
    assert_eq!(bookmarks.unwrap()[..], store.bookmarks[2..]);
    for place in &store.places {
        if let Some(origin_id) = place.origin_id {
            assert!(store.origins.iter().any(|o| o.id == origin_id));
        }
    }
    for bookmark in &store.bookmarks[2..] {
        if let Some(fk) = bookmark.fk {
            assert!(store.places.iter().any(|p| p.id == fk));
        }
    }
}

#[test]
fn absent_tiers_are_empty_batches() {
    let mut store = destination();
    let report = insert_new_entries(&mut store, &mut Some(vec![entry(3, None)]), &mut None, &mut None);
    assert_eq!((report.origins.done, report.origins.error), (0, None));
    assert_eq!((report.places.done, report.places.error), (0, None));
    assert_eq!((report.bookmarks.done, report.bookmarks.error), (1, None));
    assert_eq!(store.bookmarks.len(), 3);
    let mut untouched = destination();
    let report = insert_new_entries(&mut untouched, &mut None, &mut None, &mut None);
    assert_eq!(report.bookmarks.done, 0);
    assert_eq!(untouched, destination());
}

#[test]
fn a_failed_stage_does_not_keep_the_next_from_running() {
    let mut store = Store::from_rows(
        vec![entry(1, None)],
        vec![page(50, None)],
        vec![],
    )
    .unwrap();
    let mut origins = Some(vec![source(1, "http://", "example.com", 10)]);
    let mut places = Some(vec![page(7, None), page(8, Some(1))]);
    let mut bookmarks = Some(vec![entry(3, Some(7)), entry(4, Some(8)), entry(5, None)]);
    let report = insert_new_entries(&mut store, &mut bookmarks, &mut places, &mut origins);
    assert_eq!(report.origins.error, Some(SyncError::EmptyTable));
    assert_eq!(report.places.error, Some(SyncError::MissingReference));
    assert_eq!(report.places.done, 1);
    assert_eq!(report.bookmarks.error, Some(SyncError::MissingReference));
    assert_eq!(report.bookmarks.done, 1);
    assert!(store.origins.is_empty());
    assert_eq!(store.places.len(), 2);
    assert_eq!(store.bookmarks.len(), 2);
    assert_eq!(store.bookmarks[1].fk, Some(51));
    assert!(store.is_valid());
    assert!(store.is_linked());
}

#[test]
fn run_sync_merges_what_the_snapshot_gained() {
    let mut original = destination();
    let snapshot = Store::from_rows(
        vec![entry(1, None), entry(100, Some(50)), entry(101, Some(61)), entry(102, Some(50))],
        vec![page(50, Some(5)), page(60, None), page(61, Some(6))],
        vec![source(5, "http://", "example.com", 10), source(6, "https://", "fresh.org", 2)],
    )
    .unwrap();
    let report = run_sync(&mut original, &snapshot, &entry(100, Some(50)));
    assert_eq!(report.origins.error, None);
    assert_eq!(report.places.error, None);
    assert_eq!(report.bookmarks.error, None);
    assert_eq!(report.origins.ids, mapping(&[(5, 5), (6, 6)]));
    assert_eq!(report.places.ids, mapping(&[(50, 61), (61, 62)]));
    assert_eq!(original.origins.len(), 2);
    assert_eq!(original.places.len(), 4);
    assert_eq!(original.bookmarks.len(), 4);
    assert_eq!((original.bookmarks[2].id, original.bookmarks[2].fk), (101, Some(62)));
    assert_eq!((original.bookmarks[3].id, original.bookmarks[3].fk), (102, Some(61)));
    assert_eq!(original.places[3].origin_id, Some(6));
    assert!(original.is_valid());
    assert!(original.is_linked());
}

#[test]
fn run_sync_without_a_delta_changes_nothing() {
    let mut original = destination();
    let snapshot = destination();
    let report = run_sync(&mut original, &snapshot, &entry(100, Some(50)));
    assert_eq!(report.bookmarks.done, 0);
    assert_eq!(report.bookmarks.error, None);
    assert_eq!(original, destination());
}
