//! Running a browser on a throw-away copy of a profile, and carrying the
//! bookmarks made in the copy back into the profile it was taken from.
//!
//! The larger part is the bookmark merge. A profile store holds three tables
//! linked by references: bookmarks point at places, places point at origins.
//! `fetch` finds the bookmarks that a snapshot store gained after an anchor
//! and the places and origins they depend on; `reconcile` inserts them into a
//! destination store, giving every new row a fresh id and rewriting the
//! references accordingly; `sync` puts the two together; `laws` proves what
//! holds of every merge. `bookmarks` names the whole of it in one place.
//!
//! The rest prepares the copy: `config` holds what a run is asked to do,
//! `profile` finds the profile folder and decides what is copied, `session`
//! and `extensions` rewrite the preferences and the extension manifest with
//! the regular expressions of `pattern`, `command` takes the browser's
//! command line apart. Nothing here reads or writes a file: the caller does,
//! and hands over texts and rows.

pub mod rows;
pub mod store;
pub mod fetch;
pub mod reconcile;
pub mod sync;
pub mod laws;
pub mod bookmarks;

pub mod config;
pub mod pattern;
pub mod session;
pub mod extensions;
pub mod profile;
pub mod command;
