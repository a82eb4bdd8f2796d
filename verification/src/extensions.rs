//! Pointing the extension manifest of a copied profile at the copy.

use vstd::prelude::*;
use vstd::string::{StrSliceExecFns, StringExecFns};
use crate::pattern::{regex_replace_all, rewrite, PatternError};

verus! {

/// A `"path":` entry of the manifest whose value ends in the file of an
/// extension below `extensions`, in six groups: the key, the opening quote,
/// the whole value, what stands before `extensions`, the rest of the value,
/// the closing quote.
pub const EXTENSION_PATH_PATTERN: &'static str = r#"(?x)
    ("path":)                       # starting with "path":
    (")(                              # "
    ([\w\W--"]+)                    # any number of words or characters except for " to avoid going over the value in json
    (extensions[\w\W--"]+\.xpi)     # trying to match ending of extenstions/some.extension@name.xpi
    )(")                              # "
    "#;

/// What a replacement starts with: the key and the opening quote.
pub const ENTRY_HEAD: &'static str = "${1}${2}";

/// What a replacement ends with: the extension's file and the closing quote.
pub const ENTRY_TAIL: &'static str = "${5}${6}";

/// The text in which every `$` is doubled, so that a replacement takes it
/// literally.
pub open spec fn dollars_doubled(text: Seq<char>) -> Seq<char>
    decreases text.len(),
{
    if text.len() == 0 {
        Seq::empty()
    } else if text.last() == '$' {
        dollars_doubled(text.drop_last()).push('$').push('$')
    } else {
        dollars_doubled(text.drop_last()).push(text.last())
    }
}

/// The replacement that puts `folder` in front of an extension's file.
pub open spec fn entry_replacement(folder: Seq<char>) -> Seq<char> {
    ENTRY_HEAD@ + dollars_doubled(folder) + ENTRY_TAIL@
}

/// Doubles every `$` of the text.
pub fn double_dollars(text: &str) -> (r: String)
    ensures
        r@ == dollars_doubled(text@),
{
    let n = text.unicode_len();
    let mut doubled = String::new();
    let mut i: usize = 0;
    assert(text@.take(0) =~= Seq::empty());
    while i < n
        invariant
            n == text@.len(),
            i <= n,
            doubled@ == dollars_doubled(text@.take(i as int)),
        decreases n - i,
    {
        proof {
            let head = text@.take(i + 1);
            assert(head.drop_last() =~= text@.take(i as int));
            assert(head.last() == text@[i as int]);
        }
        if text.get_char(i) == '$' {
            proof {
                reveal_strlit("$$");
                assert("$$"@ =~= seq!['$', '$']);
            }
            doubled.append("$$");
            assert(doubled@ =~= dollars_doubled(text@.take(i + 1)));
        } else {
            let one = text.substring_char(i, i + 1);
            assert(one@ =~= seq![text@[i as int]]);
            doubled.append(one);
            assert(doubled@ =~= dollars_doubled(text@.take(i + 1)));
        }
        i += 1;
    }
    assert(text@.take(n as int) =~= text@);
    doubled
}

/// Rewrites the text of an extension manifest: in every `"path":` entry that
/// ends in the file of an extension, what stands before `extensions` is
/// replaced by `folder`, which is taken as it is, separator included.
pub fn relocate_extensions(content: &str, folder: &str) -> (r: Result<String, PatternError>)
    ensures
        match regex_replace_all(EXTENSION_PATH_PATTERN@, content@, entry_replacement(folder@)) {
            Some(text) => r is Ok && r.unwrap()@ == text,
            None => r == Err::<String, PatternError>(PatternError::Rejected),
        },
{
    let replacement = String::from_str(ENTRY_HEAD).concat(double_dollars(folder).as_str()).concat(
        ENTRY_TAIL,
    );
    rewrite(EXTENSION_PATH_PATTERN, content, replacement.as_str())
}

} // verus!
