//! The three kinds of rows a profile store keeps.

use vstd::prelude::*;

verus! {

/// A row of the bookmarks table. `fk` points at a place, `parent` at another
/// bookmark; both are ids local to the store that holds the row.
#[derive(Debug, PartialEq, Eq)]
pub struct Bookmark {
    pub id: i64,
    pub bookmark_type: Option<i64>,
    pub fk: Option<i64>,
    pub parent: Option<i64>,
    pub position: Option<i64>,
    pub title: Option<String>,
    pub keyword_id: Option<i64>,
    pub folder_type: Option<String>,
    pub date_added: Option<i64>,
    pub last_modified: Option<i64>,
    pub guid: Option<String>,
    pub sync_status: i64,
    pub sync_change_counter: i64,
}

/// A row of the places table. `origin_id` points at an origin of the same
/// store.
#[derive(Debug, PartialEq, Eq)]
pub struct Place {
    pub id: i64,
    pub url: Option<String>,
    pub title: Option<String>,
    pub rev_host: Option<String>,
    pub visit_count: Option<i64>,
    pub hidden: i64,
    pub typed: i64,
    pub favicon_id: Option<i64>,
    pub frecency: i64,
    pub last_visit_date: Option<i64>,
    pub guid: Option<String>,
    pub foreign_count: i64,
    pub url_hash: i64,
    pub description: Option<String>,
    pub preview_image_url: Option<String>,
    pub origin_id: Option<i64>,
}

/// A row of the origins table. Two origins with the same prefix, host and
/// frecency are the same origin, whatever their ids.
#[derive(Debug, PartialEq, Eq)]
pub struct Origin {
    pub id: i64,
    pub prefix: String,
    pub host: String,
    pub frecency: i64,
}

/// A copy of an optional text column.
pub fn copy_text(text: &Option<String>) -> (r: Option<String>)
    ensures
        r == *text,
{
    match text {
        Some(s) => Some(s.clone()),
        None => None,
    }
}

impl Bookmark {
    /// This row with its id and its place reference replaced.
    pub open spec fn relinked(self, id: i64, fk: Option<i64>) -> Bookmark {
        Bookmark { id, fk, ..self }
    }

    /// A copy of this row, equal to it in every column.
    pub fn duplicate(&self) -> (r: Bookmark)
        ensures
            r == *self,
    {
        Bookmark {
            id: self.id,
            bookmark_type: self.bookmark_type,
            fk: self.fk,
            parent: self.parent,
            position: self.position,
            title: copy_text(&self.title),
            keyword_id: self.keyword_id,
            folder_type: copy_text(&self.folder_type),
            date_added: self.date_added,
            last_modified: self.last_modified,
            guid: copy_text(&self.guid),
            sync_status: self.sync_status,
            sync_change_counter: self.sync_change_counter,
        }
    }
}

impl Place {
    /// This row with its id and its origin reference replaced.
    pub open spec fn relinked(self, id: i64, origin_id: Option<i64>) -> Place {
        Place { id, origin_id, ..self }
    }

    /// A copy of this row, equal to it in every column.
    pub fn duplicate(&self) -> (r: Place)
        ensures
            r == *self,
    {
        Place {
            id: self.id,
            url: copy_text(&self.url),
            title: copy_text(&self.title),
            rev_host: copy_text(&self.rev_host),
            visit_count: self.visit_count,
            hidden: self.hidden,
            typed: self.typed,
            favicon_id: self.favicon_id,
            frecency: self.frecency,
            last_visit_date: self.last_visit_date,
            guid: copy_text(&self.guid),
            foreign_count: self.foreign_count,
            url_hash: self.url_hash,
            description: copy_text(&self.description),
            preview_image_url: copy_text(&self.preview_image_url),
            origin_id: self.origin_id,
        }
    }
}

impl Origin {
    /// This row under another id.
    pub open spec fn renumbered(self, id: i64) -> Origin {
        Origin { id, ..self }
    }

    /// Whether two origins carry the same natural key: prefix, host and
    /// frecency, compared by content.
    pub open spec fn same_key(self, other: Origin) -> bool {
        &&& self.prefix@ == other.prefix@
        &&& self.host@ == other.host@
        &&& self.frecency == other.frecency
    }

    /// Compares the natural keys of two origins.
    pub fn has_same_key(&self, other: &Origin) -> (r: bool)
        ensures
            r == self.same_key(*other),
    {
        self.frecency == other.frecency && self.prefix == other.prefix && self.host == other.host
    }

    /// A copy of this row, equal to it in every column.
    pub fn duplicate(&self) -> (r: Origin)
        ensures
            r == *self,
    {
        Origin {
            id: self.id,
            prefix: self.prefix.clone(),
            host: self.host.clone(),
            frecency: self.frecency,
        }
    }
}

} // verus!
