//! Appending a line to a text file such as `/etc/fstab`.

use vstd::prelude::*;

use crate::text::{contains, find, lemma_find_result, occurs_at};

verus! {

/// `current` followed by `line` and a newline, with a newline first when `current` is not
/// empty and does not already end in one.
pub open spec fn appended(current: Seq<char>, line: Seq<char>) -> Seq<char> {
    if current.len() == 0 || current.last() == '\n' {
        current + line + "\n"@
    } else {
        current + "\n"@ + line + "\n"@
    }
}

/// The text of a file after appending the line `line`.
pub fn append_line(current: &str, line: &str) -> (r: String)
    ensures
        r@ == appended(current@, line@),
{
    let cs = crate::text::chars_of(current);
    let mut s = String::from_str(current);
    if !(cs.len() == 0 || cs[cs.len() - 1] == '\n') {
        s.append("\n");
    }
    s.append(line);
    s.append("\n");
    s
}

/// A text contains every piece placed in it.
pub proof fn lemma_contains_middle(a: Seq<char>, b: Seq<char>, c: Seq<char>)
    ensures
        contains(a + b + c, b),
{
    let s = a + b + c;
    assert(s.subrange(a.len() as int, (a.len() + b.len()) as int) =~= b);
    assert(occurs_at(s, b, a.len() as int));
    lemma_find_result(s, b);
}

/// Appending keeps the old text as a prefix, ends the text with the new line, and puts that
/// line at the start of a line of its own.
pub proof fn law_append_line(current: Seq<char>, line: Seq<char>)
    ensures
        current.is_prefix_of(appended(current, line)),
        (line + "\n"@).is_suffix_of(appended(current, line)),
        contains(appended(current, line), line),
        ({
            let r = appended(current, line);
            let start = r.len() - line.len() - "\n"@.len();
            start == 0 || r[start - 1] == '\n'
        }),
{
    reveal_strlit("\n");
    let r = appended(current, line);
    if current.len() == 0 || current.last() == '\n' {
        assert(r.subrange(0, current.len() as int) =~= current);
        assert(r.subrange(current.len() as int, r.len() as int) =~= line + "\n"@);
        lemma_contains_middle(current, line, "\n"@);
        if current.len() > 0 {
            assert(r[current.len() - 1] == current.last());
        }
    } else {
        assert(r.subrange(0, current.len() as int) =~= current);
        assert(r.subrange((current.len() + 1) as int, r.len() as int) =~= line + "\n"@);
        lemma_contains_middle(current + "\n"@, line, "\n"@);
        assert(r[current.len() as int] == '\n');
    }
}

} // verus!
