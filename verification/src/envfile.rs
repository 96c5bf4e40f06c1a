//! Reading `KEY=value` assignments from `.env`-style text.

use vstd::prelude::*;

use crate::text::{
    drop_leading, drop_trailing, equals_char, is_ws, lemma_drop_leading_run, lemma_one_line,
    lemma_trim_unchanged,
    strip_cr,
    lines, split_lines, strip_prefix_str, trim, trim_char, trim_char_str, trim_start_char,
    trim_start_char_str, trim_str, views,
};

verus! {

/// A line as the assignment search sees it: with `uncomment`, leading `#`s are dropped and
/// the rest trimmed; otherwise the line as it is.
pub open spec fn assignment_line(l: Seq<char>, uncomment: bool) -> Seq<char> {
    if uncomment {
        trim(trim_start_char(l, '#'))
    } else {
        l
    }
}

/// The text after `key=` on the first line (as [`assignment_line`] sees it) that starts
/// with `key=`.
pub open spec fn first_assignment(ls: Seq<Seq<char>>, key: Seq<char>, uncomment: bool) -> Option<
    Seq<char>,
>
    decreases ls.len(),
{
    if ls.len() == 0 {
        None
    } else {
        let l = assignment_line(ls[0], uncomment);
        if (key + "="@).is_prefix_of(l) {
            Some(l.subrange((key + "="@).len() as int, l.len() as int))
        } else {
            first_assignment(ls.drop_first(), key, uncomment)
        }
    }
}

/// The value assigned to `key` in the text `content`: the rest of the first line that starts
/// with `key=` (commented-out lines count, without their `#`s, when `uncomment` holds).
pub fn find_assignment<'a>(content: &'a str, key: &str, uncomment: bool) -> (r: Option<&'a str>)
    ensures
        match first_assignment(lines(content@), key@, uncomment) {
            Some(v) => r matches Some(s) && s@ == v,
            None => r is None,
        },
{
    let ls = split_lines(content);
    let ghost l = lines(content@);
    let mut prefix = String::from_str(key);
    prefix.append("=");
    let n = ls.len();
    let mut i: usize = 0;
    proof {
        assert(views(ls@).len() == ls@.len());
        assert(l.skip(0) =~= l);
    }
    while i < n
        invariant
            n == ls@.len(),
            l == views(ls@),
            l.len() == n,
            prefix@ == key@ + "="@,
            i <= n,
            first_assignment(lines(content@), key@, uncomment) == first_assignment(
                l.skip(i as int),
                key@,
                uncomment,
            ),
            l == lines(content@),
        decreases n - i,
    {
        let line = if uncomment {
            trim_str(trim_start_char_str(ls[i], '#'))
        } else {
            ls[i]
        };
        proof {
            assert(l.skip(i as int)[0] == ls@[i as int]@);
            assert(l.skip(i as int).drop_first() =~= l.skip(i + 1));
        }
        match strip_prefix_str(line, prefix.as_str()) {
            Some(v) => {
                return Some(v);
            },
            None => {},
        }
        i = i + 1;
    }
    None
}

/// `read_env`: the value of `key` with comments considered, trimmed and stripped of
/// surrounding `"`; `None` when there is no assignment or its value is empty.
pub open spec fn env_value(content: Seq<char>, key: Seq<char>) -> Option<Seq<char>> {
    match first_assignment(lines(content), key, true) {
        Some(raw) => {
            let v = trim_char(trim(raw), '"');
            if v.len() > 0 {
                Some(v)
            } else {
                None
            }
        },
        None => None,
    }
}

/// The value of `key` in a control-plane `.env` text (see [`env_value`]).
pub fn read_env_value(content: &str, key: &str) -> (r: Option<String>)
    ensures
        match env_value(content@, key@) {
            Some(v) => r matches Some(s) && s@ == v,
            None => r is None,
        },
{
    match find_assignment(content, key, true) {
        Some(raw) => {
            let v = trim_char_str(trim_str(raw), '"');
            if v.is_empty() {
                None
            } else {
                Some(String::from_str(v))
            }
        },
        None => None,
    }
}

/// The admin token of a control-plane `.env` text: the trimmed value of
/// `VAULTWARDEN_ADMIN_TOKEN` (comments considered), unless empty.
pub open spec fn admin_token_value(content: Seq<char>) -> Option<Seq<char>> {
    match first_assignment(lines(content), "VAULTWARDEN_ADMIN_TOKEN"@, true) {
        Some(raw) => if trim(raw).len() > 0 {
            Some(trim(raw))
        } else {
            None
        },
        None => None,
    }
}

/// The admin token of a control-plane `.env` text (see [`admin_token_value`]).
pub fn admin_token(content: &str) -> (r: Option<String>)
    ensures
        match admin_token_value(content@) {
            Some(v) => r matches Some(s) && s@ == v,
            None => r is None,
        },
{
    match find_assignment(content, "VAULTWARDEN_ADMIN_TOKEN", true) {
        Some(raw) => {
            let v = trim_str(raw);
            if v.is_empty() {
                None
            } else {
                Some(String::from_str(v))
            }
        },
        None => None,
    }
}

/// The value of `key` on the first line starting with `key=` (comments not considered),
/// trimmed and stripped of surrounding `"`, possibly empty.
pub open spec fn plain_env_value(content: Seq<char>, key: Seq<char>) -> Option<Seq<char>> {
    match first_assignment(lines(content), key, false) {
        Some(raw) => Some(trim_char(trim(raw), '"')),
        None => None,
    }
}

/// The value of `key` in a host `.env` text (see [`plain_env_value`]).
pub fn read_plain_env_value(content: &str, key: &str) -> (r: Option<String>)
    ensures
        match plain_env_value(content@, key@) {
            Some(v) => r matches Some(s) && s@ == v,
            None => r is None,
        },
{
    match find_assignment(content, key, false) {
        Some(raw) => Some(String::from_str(trim_char_str(trim_str(raw), '"'))),
        None => None,
    }
}

/// The value of a `dotenvx` key in a `.env` text: the rest of the first line starting with
/// `key=`, stripped of surrounding `"`.
pub open spec fn dotenv_key_value(content: Seq<char>, key: Seq<char>) -> Option<Seq<char>> {
    match first_assignment(lines(content), key, false) {
        Some(raw) => Some(trim_char(raw, '"')),
        None => None,
    }
}

/// The value of a `dotenvx` key (see [`dotenv_key_value`]).
pub fn read_dotenv_key(content: &str, key: &str) -> (r: Option<String>)
    ensures
        match dotenv_key_value(content@, key@) {
            Some(v) => r matches Some(s) && s@ == v,
            None => r is None,
        },
{
    match find_assignment(content, key, false) {
        Some(raw) => Some(String::from_str(trim_char_str(raw, '"'))),
        None => None,
    }
}

/// A line `KEY="V"` sets `KEY` to `V` exactly, inner white space included: only the
/// surrounding quotes are removed. A commented-out line (`#KEY="V"`, any number of `#`)
/// counts the same. (For a key that does not start with `#` or white space, and a nonempty
/// value that neither starts nor ends with a quote.)
pub proof fn law_env_value_quoted(marks: Seq<char>, key: Seq<char>, value: Seq<char>)
    requires
        forall|i: int| 0 <= i < marks.len() ==> marks[i] == '#',
        key.len() > 0,
        key[0] != '#',
        !is_ws(key[0]),
        forall|i: int| 0 <= i < key.len() ==> key[i] != '\n',
        value.len() > 0,
        value[0] != '"',
        value.last() != '"',
        forall|i: int| 0 <= i < value.len() ==> value[i] != '\n',
    ensures
        env_value(marks + key + "=\""@ + value + "\"\n"@, key) == Some(value),
{
    reveal_strlit("=\"");
    reveal_strlit("\"\n");
    reveal_strlit("\n");
    reveal_strlit("=");
    reveal_strlit("\"");
    let line = key + "=\""@ + value + "\""@;
    let full = marks + line;
    assert(marks + key + "=\""@ + value + "\"\n"@ =~= full + "\n"@);
    assert forall|i: int| 0 <= i < full.len() implies full[i] != '\n' by {
        if i < marks.len() {
            assert(full[i] == marks[i]);
        } else if i < marks.len() + key.len() {
            assert(full[i] == key[i - marks.len()]);
        } else if marks.len() + key.len() + 1 < i < marks.len() + key.len() + 2 + value.len() {
            assert(full[i] == value[i - marks.len() - key.len() - 2]);
        } else {
            assert(full[i] == line[i - marks.len()]);
        }
    }
    lemma_one_line(full);
    assert(full.last() == '"');
    assert(strip_cr(full) == full);
    let ls = seq![full];
    assert(line[0] == key[0]);
    lemma_drop_leading_run(marks, line, equals_char('#'));
    assert(trim_start_char(full, '#') == line);
    lemma_trim_unchanged(line);
    assert(assignment_line(full, true) == line);
    assert((key + "="@).is_prefix_of(line)) by {
        assert(line.subrange(0, key.len() + 1 as int) =~= key + "="@);
    }
    let raw = line.subrange((key + "="@).len() as int, line.len() as int);
    assert(raw =~= "\""@ + value + "\""@);
    assert(first_assignment(ls, key, true) == Some(raw));
    lemma_trim_unchanged(raw);
    let q = equals_char('"');
    assert(raw.drop_first() =~= value + "\""@);
    assert(drop_leading(value + "\""@, q) == value + "\""@) by {
        assert((value + "\""@)[0] == value[0]);
    }
    assert(drop_leading(raw, q) == value + "\""@);
    assert((value + "\""@).drop_last() =~= value);
    assert(drop_trailing(value, q) == value);
    assert(drop_trailing(value + "\""@, q) == value);
}

} // verus!
