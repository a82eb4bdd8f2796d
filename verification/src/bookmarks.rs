//! The bookmark synchronisation API in one place.

pub use crate::fetch::{
    get_bookmarks_between_two,
    get_latest_bookmark,
    get_new_entries,
    get_new_origins,
    get_new_places,
};
pub use crate::reconcile::{
    insert_new_bookmarks,
    insert_new_origins,
    insert_new_places,
    Reconciled,
    SyncError,
    SyncReport,
};
pub use crate::rows::{Bookmark, Origin, Place};
pub use crate::store::Store;
pub use crate::sync::{insert_new_entries, run_sync};
