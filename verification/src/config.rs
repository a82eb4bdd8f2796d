//! What a run is asked to do.

use std::path::PathBuf;
use vstd::prelude::*;

verus! {

/// A path of the standard library, carried through and never looked into.
#[verifier::external_type_specification]
#[verifier::external_body]
pub struct ExPathBuf(std::path::PathBuf);

/// The settings of one run: which profile to copy, where the profiles are,
/// whether the bookmarks are carried back, and which session files are
/// loaded and saved.
pub struct Config {
    pub profile_name: String,
    pub profile_folder: PathBuf,
    pub bookmarks_sync: bool,
    pub session_file_to_load: Option<String>,
    pub file_to_store_session_to: Option<String>,
    pub same_load_and_save: Option<bool>,
}

impl Config {
    /// The settings for what was asked on the command line. A file given to
    /// load and save in one takes the place of both files given apart.
    pub fn new(
        profile_name: String,
        profile_folder: PathBuf,
        bookmarks_sync: bool,
        load_session: Option<String>,
        save_session: Option<String>,
        save_load_session: Option<String>,
    ) -> (r: Config)
        ensures
            r.profile_name == profile_name,
            r.profile_folder == profile_folder,
            r.bookmarks_sync == bookmarks_sync,
            match save_load_session {
                Some(file) => {
                    &&& r.session_file_to_load == Some(file)
                    &&& r.file_to_store_session_to == Some(file)
                    &&& r.same_load_and_save == Some(true)
                },
                None => {
                    &&& r.session_file_to_load == load_session
                    &&& r.file_to_store_session_to == save_session
                    &&& r.same_load_and_save is None
                },
            },
    {
        match save_load_session {
            Some(file) => Config {
                profile_name,
                profile_folder,
                bookmarks_sync,
                session_file_to_load: Some(file.clone()),
                file_to_store_session_to: Some(file),
                same_load_and_save: Some(true),
            },
            None => Config {
                profile_name,
                profile_folder,
                bookmarks_sync,
                session_file_to_load: load_session,
                file_to_store_session_to: save_session,
                same_load_and_save: None,
            },
        }
    }

    /// Whether the preferences of the copy have to be rewritten: a session is
    /// loaded or saved.
    pub fn uses_session(&self) -> (r: bool)
        ensures
            r == (self.session_file_to_load is Some || self.file_to_store_session_to is Some),
    {
        self.session_file_to_load.is_some() || self.file_to_store_session_to.is_some()
    }

    /// Whether a session file that does not exist stops the run: it does
    /// unless the same file is loaded and saved, which may start from
    /// nothing.
    pub fn needs_session_file(&self) -> (r: bool)
        ensures
            r == (self.same_load_and_save != Some(true)),
    {
        match self.same_load_and_save {
            Some(same) => !same,
            None => true,
        }
    }
}

} // verus!
