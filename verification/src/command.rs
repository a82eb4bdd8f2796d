//! Taking a command line apart.

use vstd::prelude::*;
use vstd::string::{StrSliceExecFns, StringExecFns};

verus! {

/// The parts of a text between its spaces, in order. Two spaces in a row have
/// an empty part between them, and a text of `n` spaces has `n + 1` parts.
pub open spec fn split_on_spaces(text: Seq<char>) -> Seq<Seq<char>>
    decreases text.len(),
{
    if text.len() == 0 {
        seq![Seq::empty()]
    } else {
        let before = split_on_spaces(text.drop_last());
        if text.last() == ' ' {
            before.push(Seq::empty())
        } else {
            before.drop_last().push(before.last().push(text.last()))
        }
    }
}

/// The texts of a list of strings.
pub open spec fn texts(parts: Seq<String>) -> Seq<Seq<char>> {
    parts.map_values(|part: String| part@)
}

/// The first part of a text is empty exactly where the text is empty or
/// begins with a space, and a text that begins with a space has a second
/// part.
pub proof fn lemma_first_part(text: Seq<char>)
    ensures
        split_on_spaces(text).len() > 0,
        split_on_spaces(text)[0].len() == 0 <==> text.len() == 0 || text[0] == ' ',
        text.len() > 0 && text[0] == ' ' ==> split_on_spaces(text).len() >= 2,
    decreases text.len(),
{
    if text.len() > 0 {
        let head = text.drop_last();
        let before = split_on_spaces(head);
        lemma_first_part(head);
        if head.len() > 0 {
            assert(head[0] == text[0]);
        }
        if text.last() != ' ' && before.len() == 1 {
            assert(split_on_spaces(text)[0] == before[0].push(text.last()));
        }
    }
}

/// Splits a command line at its spaces into the program and its arguments.
/// `None` where there is no program: the line is empty or begins with a
/// space.
pub fn split_command(cmd: &str) -> (r: Option<Vec<String>>)
    ensures
        r is None <==> cmd@.len() == 0 || cmd@[0] == ' ',
        r is Some ==> texts(r.unwrap()@) == split_on_spaces(cmd@),
{
    let n = cmd.unicode_len();
    let mut parts: Vec<String> = Vec::new();
    let mut part = String::new();
    let mut i: usize = 0;
    assert(cmd@.take(0) =~= Seq::empty());
    assert(texts(parts@).push(part@) =~= split_on_spaces(cmd@.take(0)));
    while i < n
        invariant
            n == cmd@.len(),
            i <= n,
            texts(parts@).push(part@) == split_on_spaces(cmd@.take(i as int)),
        decreases n - i,
    {
        let ghost before = split_on_spaces(cmd@.take(i as int));
        proof {
            let head = cmd@.take(i + 1);
            assert(head.drop_last() =~= cmd@.take(i as int));
            assert(head.last() == cmd@[i as int]);
            assert(before.last() == part@);
            assert(before.drop_last() =~= texts(parts@));
        }
        if cmd.get_char(i) == ' ' {
            parts.push(part);
            part = String::new();
            assert(texts(parts@).push(part@) =~= before.push(Seq::empty()));
        } else {
            let one = cmd.substring_char(i, i + 1);
            assert(one@ =~= seq![cmd@[i as int]]);
            part.append(one);
            assert(part@ =~= before.last().push(cmd@[i as int]));
            assert(texts(parts@).push(part@) =~= before.drop_last().push(
                before.last().push(cmd@[i as int]),
            ));
        }
        i += 1;
    }
    parts.push(part);
    proof {
        assert(cmd@.take(n as int) =~= cmd@);
        assert(texts(parts@) =~= split_on_spaces(cmd@));
        lemma_first_part(cmd@);
        assert(texts(parts@)[0] == parts@[0]@);
    }
    if parts[0].as_str().unicode_len() == 0 {
        None
    } else {
        Some(parts)
    }
}

} // verus!
