//! Finding a profile among the folders of a browser and choosing what to
//! copy of it.

use vstd::prelude::*;
use vstd::string::{StrSliceExecFns, StringExecFns};

verus! {

/// Whether two texts are the same.
pub fn same_text(a: &str, b: &str) -> (r: bool)
    ensures
        r == (a@ == b@),
{
    String::from_str(a) == String::from_str(b)
}

/// What follows the first `.` of a name, `None` where the name has no `.`.
pub open spec fn after_first_dot(name: Seq<char>) -> Option<Seq<char>>
    decreases name.len(),
{
    if name.len() == 0 {
        None
    } else if name[0] == '.' {
        Some(name.drop_first())
    } else {
        after_first_dot(name.drop_first())
    }
}

/// Whether a folder holds the profile of that name: folders are named by a
/// hash, a `.` and the profile's name, which may itself hold a `.`.
pub open spec fn names_profile(folder: Seq<char>, profile: Seq<char>) -> bool {
    after_first_dot(folder) == Some(profile)
}

/// Whether the folder `folder_name` holds the profile `profile_name`.
pub fn is_profile_folder(folder_name: &str, profile_name: &str) -> (r: bool)
    ensures
        r == names_profile(folder_name@, profile_name@),
{
    let n = folder_name.unicode_len();
    let mut i: usize = 0;
    assert(folder_name@.skip(0) =~= folder_name@);
    while i < n
        invariant
            n == folder_name@.len(),
            i <= n,
            after_first_dot(folder_name@) == after_first_dot(folder_name@.skip(i as int)),
        decreases n - i,
    {
        proof {
            let rest = folder_name@.skip(i as int);
            assert(rest[0] == folder_name@[i as int]);
            assert(rest.drop_first() =~= folder_name@.skip(i + 1));
            assert(rest.drop_first() =~= folder_name@.subrange(i + 1, n as int));
        }
        if folder_name.get_char(i) == '.' {
            return same_text(folder_name.substring_char(i + 1, n), profile_name);
        }
        i += 1;
    }
    false
}

/// Whether an entry of a profile folder is left out of a copy: caches, locks
/// and write-ahead logs, which belong to the running browser.
pub open spec fn ignored(name: Seq<char>) -> bool {
    ||| name == "cache2"@
    ||| name == "cookies.sqlite-wal"@
    ||| name == "favicons.sqlite-wal"@
    ||| name == "lock"@
    ||| name == "places.sqlite-wal"@
    ||| name == "safebrowsing"@
    ||| name == "sessionstore-backups"@
    ||| name == "startupCache"@
    ||| name == "webappsstore.sqllite-wal"@
}

/// Whether the entry `name` of a profile folder is left out of a copy.
pub fn is_ignored(name: &str) -> (r: bool)
    ensures
        r == ignored(name@),
{
    same_text(name, "cache2") || same_text(name, "cookies.sqlite-wal") || same_text(
        name,
        "favicons.sqlite-wal",
    ) || same_text(name, "lock") || same_text(name, "places.sqlite-wal") || same_text(
        name,
        "safebrowsing",
    ) || same_text(name, "sessionstore-backups") || same_text(name, "startupCache") || same_text(
        name,
        "webappsstore.sqllite-wal",
    )
}

} // verus!
