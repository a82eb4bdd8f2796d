use fftemplates::command::split_command;
use fftemplates::profile::{is_ignored, is_profile_folder, same_text};

fn strings(parts: &[&str]) -> Option<Vec<String>> {
    Some(parts.iter().map(|p| p.to_string()).collect())
}

#[test]
fn same_text_compares_contents() {
    assert!(same_text("lock", "lock"));
    assert!(same_text("", ""));
    assert!(!same_text("lock", "lock "));
    assert!(!same_text("lock", "Lock"));
    assert!(!same_text("", "a"));
}

#[test]
fn profile_folder_is_named_by_hash_and_profile() {
    assert!(is_profile_folder("x7k2p9ab.default", "default"));
    assert!(is_profile_folder("x7k2p9ab.work", "work"));
    assert!(!is_profile_folder("x7k2p9ab.default", "work"));
    assert!(!is_profile_folder("x7k2p9ab.default", "defaul"));
    assert!(!is_profile_folder("x7k2p9ab.default", "default "));
}

#[test]
fn profile_name_starts_behind_the_first_dot() {
    assert!(is_profile_folder("x7k2p9ab.default-release.old", "default-release.old"));
    assert!(!is_profile_folder("x7k2p9ab.default-release.old", "old"));
    assert!(is_profile_folder(".hidden", "hidden"));
    assert!(is_profile_folder("abc.", ""));
    assert!(is_profile_folder("a..b", ".b"));
    assert!(is_profile_folder("h\u{e4}sh.pr\u{f6}fil", "pr\u{f6}fil"));
}

#[test]
fn folder_without_a_dot_holds_no_profile() {
    assert!(!is_profile_folder("default", "default"));
    assert!(!is_profile_folder("default", ""));
    assert!(!is_profile_folder("", ""));
    assert!(!is_profile_folder("Crash Reports", "Crash Reports"));
}

#[test]
fn caches_locks_and_logs_are_ignored() {
    for name in [
        "cache2",
        "cookies.sqlite-wal",
        "favicons.sqlite-wal",
        "lock",
        "places.sqlite-wal",
        "safebrowsing",
        "sessionstore-backups",
        "startupCache",
        "webappsstore.sqllite-wal",
    ] {
        assert!(is_ignored(name));
    }
}

#[test]
fn everything_else_is_copied() {
    for name in [
        "places.sqlite",
        "cookies.sqlite",
        "prefs.js",
        "extensions.json",
        "extensions",
        "Lock",
        "lock ",
        "cache",
        "webappsstore.sqlite-wal",
        "",
    ] {
        assert!(!is_ignored(name));
    }
}

#[test]
fn command_is_split_at_spaces() {
    assert_eq!(
        split_command("firefox --profile /tmp/x/1700"),
        strings(&["firefox", "--profile", "/tmp/x/1700"])
    );
    assert_eq!(split_command("firefox"), strings(&["firefox"]));
    assert_eq!(split_command("f\u{fc}chs -\u{e4}"), strings(&["f\u{fc}chs", "-\u{e4}"]));
}

#[test]
fn spaces_in_a_row_give_empty_arguments() {
    assert_eq!(split_command("a  b"), strings(&["a", "", "b"]));
    assert_eq!(split_command("a "), strings(&["a", ""]));
    assert_eq!(split_command("a b  "), strings(&["a", "b", "", ""]));
    assert_eq!(split_command("a\tb"), strings(&["a\tb"]));
}

#[test]
fn command_without_a_program_is_refused() {
    assert_eq!(split_command(""), None);
    assert_eq!(split_command(" "), None);
    assert_eq!(split_command(" firefox"), None);
    assert_eq!(split_command("  firefox --profile x"), None);
}
