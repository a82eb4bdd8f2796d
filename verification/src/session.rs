//! Rewriting a profile's preferences so that the browser keeps its history
//! and restores the previous session, and deciding what happens to a session
//! file.

use vstd::prelude::*;
use vstd::string::StringExecFns;
use crate::pattern::{has_match, regex_is_match, regex_replace_all, rewrite, PatternError};

verus! {

/// The preference that switches the history on or off, in four groups: the
/// call, the name, the value, the end.
pub const HISTORY_PATTERN: &'static str =
    r#"(user_pref)(\("places.history.enabled", )(false|true)(\);)"#;

/// The same preference with the value `true`.
pub const HISTORY_ENABLED: &'static str = "${1}${2}true${4}";

/// The preference that says what the browser opens with.
pub const STARTUP_PATTERN: &'static str = r#"user_pref\("browser.startup.page", (\d)\);"#;

/// The preference that makes the browser open with the previous session.
pub const STARTUP_LINE: &'static str = r#"user_pref("browser.startup.page", 3);"#;

/// The preference that makes the browser clear the history when it closes, in
/// four groups as above.
pub const SANITIZE_PATTERN: &'static str =
    r#"(user_pref)(\("privacy.sanitize.sanitizeOnShutdown", )(false|true)(\);)"#;

/// The same preference with the value `false`.
pub const SANITIZE_DISABLED: &'static str = "${1}${2}false${4}";

/// What is done with a session file that is to be put into a profile.
#[derive(Debug, Clone, Copy, PartialEq, Eq, Structural)]
pub enum SessionFileStep {
    /// The file is there and is copied.
    Copy,
    /// The file is not there, and the profile starts without a session.
    Skip,
    /// The file is not there though it has to be.
    Fail,
}

/// Decides what is done with a session file: one that exists is copied, one
/// that does not is an error where it is needed and is passed over where it
/// is not.
pub fn session_file_step(exists: bool, fail_if_does_not_exist: bool) -> (r: SessionFileStep)
    ensures
        exists ==> r == SessionFileStep::Copy,
        !exists && fail_if_does_not_exist ==> r == SessionFileStep::Fail,
        !exists && !fail_if_does_not_exist ==> r == SessionFileStep::Skip,
{
    if exists {
        SessionFileStep::Copy
    } else if fail_if_does_not_exist {
        SessionFileStep::Fail
    } else {
        SessionFileStep::Skip
    }
}

/// Preferences that open the browser with the previous session: the text
/// itself where it already says what to open with, else the text with the
/// startup line behind it.
pub open spec fn startup_page_set(content: Seq<char>, has_setting: bool) -> Seq<char> {
    if has_setting {
        content
    } else {
        content + STARTUP_LINE@
    }
}

/// The preferences after all three adjustments: history switched on, the
/// startup page set where none was, and, on request, clearing the history on
/// close switched off. `None` where a pattern is not accepted.
pub open spec fn adjusted_preferences(
    content: Seq<char>,
    disable_clean_history_on_close: bool,
) -> Option<Seq<char>> {
    match regex_replace_all(HISTORY_PATTERN@, content, HISTORY_ENABLED@) {
        None => None,
        Some(with_history) => match regex_is_match(STARTUP_PATTERN@, with_history) {
            None => None,
            Some(has_setting) => {
                let with_startup = startup_page_set(with_history, has_setting);
                if disable_clean_history_on_close {
                    regex_replace_all(SANITIZE_PATTERN@, with_startup, SANITIZE_DISABLED@)
                } else {
                    Some(with_startup)
                }
            },
        },
    }
}

/// Appends the startup line to preferences that do not say what the browser
/// opens with, and leaves the others as they are.
pub fn with_startup_page(content: String, has_setting: bool) -> (r: String)
    ensures
        r@ == startup_page_set(content@, has_setting),
{
    if has_setting {
        content
    } else {
        content.concat(STARTUP_LINE)
    }
}

/// Rewrites the text of a preferences file: switches the history on, makes
/// the browser open with the previous session unless the text already says
/// what to open with, and, where `disable_clean_history_on_close` is set,
/// switches off clearing the history on close.
pub fn adjust_preferences(content: &str, disable_clean_history_on_close: bool) -> (r: Result<
    String,
    PatternError,
>)
    ensures
        match adjusted_preferences(content@, disable_clean_history_on_close) {
            Some(text) => r is Ok && r.unwrap()@ == text,
            None => r == Err::<String, PatternError>(PatternError::Rejected),
        },
{
    let with_history = match rewrite(HISTORY_PATTERN, content, HISTORY_ENABLED) {
        Err(e) => {
            return Err(e);
        },
        Ok(text) => text,
    };
    let has_setting = match has_match(STARTUP_PATTERN, with_history.as_str()) {
        Err(e) => {
            return Err(e);
        },
        Ok(found) => found,
    };
    let with_startup = with_startup_page(with_history, has_setting);
    if !disable_clean_history_on_close {
        return Ok(with_startup);
    }
    rewrite(SANITIZE_PATTERN, with_startup.as_str(), SANITIZE_DISABLED)
}

} // verus!
