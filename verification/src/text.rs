//! Character-level model of the `str` operations the tools rely on
//! (`trim`, `lines`, `split_whitespace`, `find`, prefix and suffix tests,
//! decimal numbers), with executable versions proved against it.

use vstd::prelude::*;

verus! {

/// The Unicode `White_Space` property: the characters `char::is_whitespace` accepts.
pub open spec fn is_ws(c: char) -> bool {
    let u = c as u32;
    ||| 0x9 <= u <= 0xd
    ||| u == 0x20
    ||| u == 0x85
    ||| u == 0xa0
    ||| u == 0x1680
    ||| 0x2000 <= u <= 0x200a
    ||| u == 0x2028
    ||| u == 0x2029
    ||| u == 0x202f
    ||| u == 0x205f
    ||| u == 0x3000
}

/// Whether `c` is Unicode white space.
pub fn is_whitespace(c: char) -> (b: bool)
    ensures
        b == is_ws(c),
{
    let u = c as u32;
    (0x9 <= u && u <= 0xd) || u == 0x20 || u == 0x85 || u == 0xa0 || u == 0x1680 || (0x2000 <= u
        && u <= 0x200a) || u == 0x2028 || u == 0x2029 || u == 0x202f || u == 0x205f || u == 0x3000
}

/// The characters of `s`, in order.
pub fn chars_of(s: &str) -> (r: Vec<char>)
    ensures
        r@ == s@,
{
    let mut v: Vec<char> = Vec::new();
    for c in it: s.chars()
        invariant
            v@ == it.seq().take(it.index() as int),
    {
        v.push(c);
    }
    v
}

/// String equality, character by character.
pub fn str_eq(a: &str, b: &str) -> (r: bool)
    ensures
        r == (a@ == b@),
{
    let x = chars_of(a);
    let y = chars_of(b);
    if x.len() != y.len() {
        return false;
    }
    let mut i: usize = 0;
    while i < x.len()
        invariant
            x@ == a@,
            y@ == b@,
            x@.len() == y@.len(),
            i <= x@.len(),
            forall|k: int| 0 <= k < i ==> x@[k] == y@[k],
        decreases x@.len() - i,
    {
        if x[i] != y[i] {
            return false;
        }
        i = i + 1;
    }
    assert(x@ =~= y@);
    true
}

/// `s` with every leading character that satisfies `p` removed.
pub open spec fn drop_leading(s: Seq<char>, p: spec_fn(char) -> bool) -> Seq<char>
    decreases s.len(),
{
    if s.len() > 0 && p(s[0]) {
        drop_leading(s.drop_first(), p)
    } else {
        s
    }
}

/// `s` with every trailing character that satisfies `p` removed.
pub open spec fn drop_trailing(s: Seq<char>, p: spec_fn(char) -> bool) -> Seq<char>
    decreases s.len(),
{
    if s.len() > 0 && p(s.last()) {
        drop_trailing(s.drop_last(), p)
    } else {
        s
    }
}

/// `str::trim_start`: leading white space removed.
pub open spec fn trim_start(s: Seq<char>) -> Seq<char> {
    drop_leading(s, |c: char| is_ws(c))
}

/// `str::trim_end`: trailing white space removed.
pub open spec fn trim_end(s: Seq<char>) -> Seq<char> {
    drop_trailing(s, |c: char| is_ws(c))
}

/// `str::trim`: leading and trailing white space removed.
pub open spec fn trim(s: Seq<char>) -> Seq<char> {
    trim_end(trim_start(s))
}

/// The predicate "is the character `c`".
pub open spec fn equals_char(c: char) -> spec_fn(char) -> bool {
    |x: char| x == c
}

/// `str::trim_matches(c)`: every leading and trailing `c` removed.
pub open spec fn trim_char(s: Seq<char>, c: char) -> Seq<char> {
    drop_trailing(drop_leading(s, equals_char(c)), equals_char(c))
}

/// `str::trim_start_matches(c)`: every leading `c` removed.
pub open spec fn trim_start_char(s: Seq<char>, c: char) -> Seq<char> {
    drop_leading(s, equals_char(c))
}

proof fn lemma_drop_leading_at(s: Seq<char>, p: spec_fn(char) -> bool, i: int)
    requires
        0 <= i <= s.len(),
        forall|k: int| 0 <= k < i ==> p(s[k]),
        i == s.len() || !p(s[i]),
    ensures
        drop_leading(s, p) == s.subrange(i, s.len() as int),
    decreases i,
{
    if i == 0 {
        assert(s.subrange(0, s.len() as int) =~= s);
    } else {
        let t = s.drop_first();
        assert forall|k: int| 0 <= k < i - 1 implies p(t[k]) by {
            assert(t[k] == s[k + 1]);
        }
        lemma_drop_leading_at(t, p, i - 1);
        assert(t.subrange(i - 1, t.len() as int) =~= s.subrange(i, s.len() as int));
    }
}

proof fn lemma_drop_trailing_at(s: Seq<char>, p: spec_fn(char) -> bool, j: int)
    requires
        0 <= j <= s.len(),
        forall|k: int| j <= k < s.len() ==> p(s[k]),
        j == 0 || !p(s[j - 1]),
    ensures
        drop_trailing(s, p) == s.subrange(0, j),
    decreases s.len() - j,
{
    if j == s.len() {
        assert(s.subrange(0, s.len() as int) =~= s);
    } else {
        let t = s.drop_last();
        lemma_drop_trailing_at(t, p, j);
        assert(t.subrange(0, j) =~= s.subrange(0, j));
    }
}

/// Index of the first character at or after `from` that fails `keep`
/// (`keep` is white space when `ws` holds, else equality with `c`).
fn skip_forward(cs: &Vec<char>, from: usize, to: usize, ws: bool, c: char) -> (i: usize)
    requires
        from <= to <= cs@.len(),
    ensures
        from <= i <= to,
        forall|k: int|
            from <= k < i ==> (if ws {
                is_ws(cs@[k])
            } else {
                cs@[k] == c
            }),
        i == to || !(if ws {
            is_ws(cs@[i as int])
        } else {
            cs@[i as int] == c
        }),
{
    let mut i = from;
    while i < to
        invariant
            from <= i <= to <= cs@.len(),
            forall|k: int|
                from <= k < i ==> (if ws {
                    is_ws(cs@[k])
                } else {
                    cs@[k] == c
                }),
        decreases to - i,
    {
        let hit = if ws {
            is_whitespace(cs[i])
        } else {
            cs[i] == c
        };
        if !hit {
            return i;
        }
        i = i + 1;
    }
    i
}

/// Index just past the last character before `to` (and not before `from`) that fails `keep`.
fn skip_backward(cs: &Vec<char>, from: usize, to: usize, ws: bool, c: char) -> (j: usize)
    requires
        from <= to <= cs@.len(),
    ensures
        from <= j <= to,
        forall|k: int|
            j <= k < to ==> (if ws {
                is_ws(cs@[k])
            } else {
                cs@[k] == c
            }),
        j == from || !(if ws {
            is_ws(cs@[j - 1])
        } else {
            cs@[j - 1] == c
        }),
{
    let mut j = to;
    while j > from
        invariant
            from <= j <= to <= cs@.len(),
            forall|k: int|
                j <= k < to ==> (if ws {
                    is_ws(cs@[k])
                } else {
                    cs@[k] == c
                }),
        decreases j - from,
    {
        let hit = if ws {
            is_whitespace(cs[j - 1])
        } else {
            cs[j - 1] == c
        };
        if !hit {
            return j;
        }
        j = j - 1;
    }
    j
}

/// `str::trim`.
pub fn trim_str(s: &str) -> (r: &str)
    ensures
        r@ == trim(s@),
{
    let cs = chars_of(s);
    let n = cs.len();
    let i = skip_forward(&cs, 0, n, true, ' ');
    let j = skip_backward(&cs, i, n, true, ' ');
    proof {
        let p = |c: char| is_ws(c);
        lemma_drop_leading_at(s@, p, i as int);
        let t = s@.subrange(i as int, n as int);
        assert forall|k: int| j - i <= k < t.len() implies p(t[k]) by {
            assert(t[k] == s@[k + i]);
        }
        if j > i {
            assert(t[j - i - 1] == s@[j - 1]);
        }
        lemma_drop_trailing_at(t, p, j - i);
        assert(t.subrange(0, j - i) =~= s@.subrange(i as int, j as int));
    }
    s.substring_char(i, j)
}

/// `str::trim_start`.
pub fn trim_start_str(s: &str) -> (r: &str)
    ensures
        r@ == trim_start(s@),
{
    let cs = chars_of(s);
    let n = cs.len();
    let i = skip_forward(&cs, 0, n, true, ' ');
    proof {
        lemma_drop_leading_at(s@, |c: char| is_ws(c), i as int);
    }
    s.substring_char(i, n)
}

/// `str::trim_start_matches(c)` for a single character.
pub fn trim_start_char_str(s: &str, c: char) -> (r: &str)
    ensures
        r@ == trim_start_char(s@, c),
{
    let cs = chars_of(s);
    let n = cs.len();
    let i = skip_forward(&cs, 0, n, false, c);
    proof {
        lemma_drop_leading_at(s@, equals_char(c), i as int);
    }
    s.substring_char(i, n)
}

/// `str::trim_matches(c)` for a single character.
pub fn trim_char_str(s: &str, c: char) -> (r: &str)
    ensures
        r@ == trim_char(s@, c),
{
    let cs = chars_of(s);
    let n = cs.len();
    let i = skip_forward(&cs, 0, n, false, c);
    let j = skip_backward(&cs, i, n, false, c);
    proof {
        let p = equals_char(c);
        lemma_drop_leading_at(s@, p, i as int);
        let t = s@.subrange(i as int, n as int);
        assert forall|k: int| j - i <= k < t.len() implies p(t[k]) by {
            assert(t[k] == s@[k + i]);
        }
        if j > i {
            assert(t[j - i - 1] == s@[j - 1]);
        }
        lemma_drop_trailing_at(t, p, j - i);
        assert(t.subrange(0, j - i) =~= s@.subrange(i as int, j as int));
    }
    s.substring_char(i, j)
}


/// A line without its `'\r'` when it ended in `"\r\n"`.
pub open spec fn strip_cr(l: Seq<char>) -> Seq<char> {
    if l.len() > 0 && l.last() == '\r' {
        l.drop_last()
    } else {
        l
    }
}

/// Scanning `s` for `str::lines`: the finished lines, and the text after the last `'\n'`.
pub open spec fn lines_scan(s: Seq<char>) -> (Seq<Seq<char>>, Seq<char>)
    decreases s.len(),
{
    if s.len() == 0 {
        (seq![], seq![])
    } else {
        let p = lines_scan(s.drop_last());
        if s.last() == '\n' {
            (p.0.push(strip_cr(p.1)), seq![])
        } else {
            (p.0, p.1.push(s.last()))
        }
    }
}

/// `str::lines`: the text split at `'\n'` (a `'\r'` before it dropped), the final line
/// ending optional.
pub open spec fn lines(s: Seq<char>) -> Seq<Seq<char>> {
    let p = lines_scan(s);
    if p.1.len() > 0 {
        p.0.push(p.1)
    } else {
        p.0
    }
}

/// Scanning `s` for `str::split_whitespace`: the finished words and the word being read.
pub open spec fn words_scan(s: Seq<char>) -> (Seq<Seq<char>>, Seq<char>)
    decreases s.len(),
{
    if s.len() == 0 {
        (seq![], seq![])
    } else {
        let p = words_scan(s.drop_last());
        if is_ws(s.last()) {
            (
                if p.1.len() > 0 {
                    p.0.push(p.1)
                } else {
                    p.0
                },
                seq![],
            )
        } else {
            (p.0, p.1.push(s.last()))
        }
    }
}

/// `str::split_whitespace`: the maximal runs of non-white-space characters.
pub open spec fn words(s: Seq<char>) -> Seq<Seq<char>> {
    let p = words_scan(s);
    if p.1.len() > 0 {
        p.0.push(p.1)
    } else {
        p.0
    }
}

/// The views of a sequence of string slices.
pub open spec fn views(v: Seq<&str>) -> Seq<Seq<char>> {
    v.map_values(|x: &str| x@)
}

proof fn lemma_views_push(v: Seq<&str>, x: &str)
    ensures
        views(v.push(x)) == views(v).push(x@),
{
    assert(views(v.push(x)) =~= views(v).push(x@));
}

/// `str::lines`.
pub fn split_lines(s: &str) -> (r: Vec<&str>)
    ensures
        views(r@) == lines(s@),
{
    let cs = chars_of(s);
    let n = cs.len();
    let mut v: Vec<&str> = Vec::new();
    let mut start: usize = 0;
    let mut i: usize = 0;
    while i < n
        invariant
            cs@ == s@,
            n == s@.len(),
            start <= i <= n,
            lines_scan(s@.take(i as int)) == (views(v@), s@.subrange(start as int, i as int)),
        decreases n - i,
    {
        proof {
            assert(s@.take(i + 1).drop_last() =~= s@.take(i as int));
            assert(s@.take(i + 1).last() == s@[i as int]);
        }
        if cs[i] == '\n' {
            let end = if i > start && cs[i - 1] == '\r' {
                i - 1
            } else {
                i
            };
            let line = s.substring_char(start, end);
            proof {
                let cur = s@.subrange(start as int, i as int);
                if i > start && cs@[i - 1] == '\r' {
                    assert(cur.last() == '\r');
                    assert(cur.drop_last() =~= s@.subrange(start as int, end as int));
                } else {
                    assert(cur =~= s@.subrange(start as int, end as int));
                }
                lemma_views_push(v@, line);
            }
            v.push(line);
            start = i + 1;
            proof {
                assert(s@.subrange(start as int, (i + 1) as int) =~= Seq::<char>::empty());
            }
        } else {
            proof {
                assert(s@.subrange(start as int, i as int).push(s@[i as int]) =~= s@.subrange(
                    start as int,
                    i + 1,
                ));
            }
        }
        i = i + 1;
    }
    proof {
        assert(s@.take(n as int) =~= s@);
    }
    if start < n {
        let last = s.substring_char(start, n);
        proof {
            lemma_views_push(v@, last);
        }
        v.push(last);
    }
    v
}

/// `str::split_whitespace`.
pub fn split_ws(s: &str) -> (r: Vec<&str>)
    ensures
        views(r@) == words(s@),
{
    let cs = chars_of(s);
    let n = cs.len();
    let mut v: Vec<&str> = Vec::new();
    let mut start: usize = 0;
    let mut i: usize = 0;
    while i < n
        invariant
            cs@ == s@,
            n == s@.len(),
            start <= i <= n,
            words_scan(s@.take(i as int)) == (views(v@), s@.subrange(start as int, i as int)),
        decreases n - i,
    {
        proof {
            assert(s@.take(i + 1).drop_last() =~= s@.take(i as int));
            assert(s@.take(i + 1).last() == s@[i as int]);
        }
        if is_whitespace(cs[i]) {
            if start < i {
                let w = s.substring_char(start, i);
                proof {
                    lemma_views_push(v@, w);
                }
                v.push(w);
            }
            start = i + 1;
            proof {
                assert(s@.subrange(start as int, (i + 1) as int) =~= Seq::<char>::empty());
            }
        } else {
            proof {
                assert(s@.subrange(start as int, i as int).push(s@[i as int]) =~= s@.subrange(
                    start as int,
                    i + 1,
                ));
            }
        }
        i = i + 1;
    }
    proof {
        assert(s@.take(n as int) =~= s@);
    }
    if start < n {
        let last = s.substring_char(start, n);
        proof {
            lemma_views_push(v@, last);
        }
        v.push(last);
    }
    v
}


/// `p` occurs in `s` starting at index `i`.
pub open spec fn occurs_at(s: Seq<char>, p: Seq<char>, i: int) -> bool {
    0 <= i && i + p.len() <= s.len() && s.subrange(i, i + p.len()) == p
}

/// The first index at or after `i` where `p` occurs in `s`.
pub open spec fn find_from(s: Seq<char>, p: Seq<char>, i: int) -> Option<int>
    decreases s.len() + 1 - i,
{
    if i < 0 || i + p.len() > s.len() {
        None
    } else if occurs_at(s, p, i) {
        Some(i)
    } else {
        find_from(s, p, i + 1)
    }
}

/// `str::find`: the first index (in characters) where `p` occurs in `s`.
pub open spec fn find(s: Seq<char>, p: Seq<char>) -> Option<int> {
    find_from(s, p, 0)
}

/// `str::contains`.
pub open spec fn contains(s: Seq<char>, p: Seq<char>) -> bool {
    find(s, p) is Some
}

proof fn lemma_find_from_none(s: Seq<char>, p: Seq<char>, i: int)
    requires
        0 <= i,
        forall|k: int| i <= k && k + p.len() <= s.len() ==> !occurs_at(s, p, k),
    ensures
        find_from(s, p, i) is None,
    decreases s.len() + 1 - i,
{
    if i + p.len() <= s.len() {
        lemma_find_from_none(s, p, i + 1);
    }
}

proof fn lemma_find_from_some(s: Seq<char>, p: Seq<char>, i: int, j: int)
    requires
        0 <= i <= j,
        occurs_at(s, p, j),
        forall|k: int| i <= k < j ==> !occurs_at(s, p, k),
    ensures
        find_from(s, p, i) == Some(j),
    decreases j - i,
{
    if i < j {
        lemma_find_from_some(s, p, i + 1, j);
    }
}

/// A `find_from` result lies inside the text and marks an occurrence.
pub proof fn lemma_find_from_result(s: Seq<char>, p: Seq<char>, i: int)
    ensures
        find_from(s, p, i) matches Some(j) ==> i <= j && occurs_at(s, p, j),
    decreases s.len() + 1 - i,
{
    if !(i < 0 || i + p.len() > s.len()) && !occurs_at(s, p, i) {
        lemma_find_from_result(s, p, i + 1);
    }
}

/// A `find` result, spelled out: the first occurrence, or none at all.
pub proof fn lemma_find_result(s: Seq<char>, p: Seq<char>)
    ensures
        match find(s, p) {
            Some(i) => occurs_at(s, p, i) && forall|k: int| 0 <= k < i ==> !occurs_at(s, p, k),
            None => forall|k: int| !occurs_at(s, p, k),
        },
{
    if exists|k: int| occurs_at(s, p, k) {
        let k0 = choose|k: int| occurs_at(s, p, k);
        lemma_first_occurrence(s, p, k0);
    } else {
        lemma_find_from_none(s, p, 0);
    }
}

proof fn lemma_first_occurrence(s: Seq<char>, p: Seq<char>, k0: int)
    requires
        occurs_at(s, p, k0),
    ensures
        match find(s, p) {
            Some(i) => occurs_at(s, p, i) && forall|k: int| 0 <= k < i ==> !occurs_at(s, p, k),
            None => false,
        },
    decreases k0,
{
    if exists|k: int| 0 <= k < k0 && occurs_at(s, p, k) {
        let k1 = choose|k: int| 0 <= k < k0 && occurs_at(s, p, k);
        lemma_first_occurrence(s, p, k1);
    } else {
        lemma_find_from_some(s, p, 0, k0);
    }
}

/// A character that does not occur in `s` is not found in it.
pub proof fn lemma_absent_char(s: Seq<char>, c: char)
    requires
        forall|k: int| 0 <= k < s.len() ==> s[k] != c,
    ensures
        !contains(s, seq![c]),
{
    lemma_find_result(s, seq![c]);
    if let Some(i) = find(s, seq![c]) {
        assert(s.subrange(i, i + 1)[0] == s[i]);
    }
}

/// Whether `p` occurs at index `i` of `cs`.
fn matches_at(cs: &Vec<char>, p: &Vec<char>, i: usize) -> (r: bool)
    requires
        i + p@.len() <= cs@.len(),
    ensures
        r == occurs_at(cs@, p@, i as int),
{
    let n = cs.len();
    let mut k: usize = 0;
    while k < p.len()
        invariant
            n == cs@.len(),
            i + p@.len() <= n,
            k <= p@.len(),
            forall|m: int| 0 <= m < k ==> cs@[i + m] == p@[m],
        decreases p@.len() - k,
    {
        if cs[i + k] != p[k] {
            assert(cs@.subrange(i as int, i + p@.len())[k as int] != p@[k as int]);
            return false;
        }
        k = k + 1;
    }
    assert(cs@.subrange(i as int, i + p@.len()) =~= p@);
    true
}

/// `str::find` on character vectors, searching from `from`.
pub(crate) fn find_chars(cs: &Vec<char>, p: &Vec<char>, from: usize) -> (r: Option<usize>)
    requires
        from <= cs@.len(),
    ensures
        match r {
            Some(i) => from <= i && find_from(cs@, p@, from as int) == Some(i as int),
            None => find_from(cs@, p@, from as int) is None,
        },
{
    if p.len() > cs.len() {
        return None;
    }
    if p.len() == 0 {
        proof {
            assert(cs@.subrange(from as int, from as int) =~= p@);
            lemma_find_from_some(cs@, p@, from as int, from as int);
        }
        return Some(from);
    }
    let n = cs.len();
    let last = n - p.len();
    let mut i = from;
    while i <= last
        invariant
            n == cs@.len(),
            last + p@.len() == n,
            p@.len() > 0,
            from <= i,
            i <= cs@.len(),
            forall|k: int| from <= k < i ==> !occurs_at(cs@, p@, k),
        decreases cs@.len() + 1 - i,
    {
        if matches_at(cs, p, i) {
            proof {
                lemma_find_from_some(cs@, p@, from as int, i as int);
            }
            return Some(i);
        }
        i = i + 1;
    }
    proof {
        lemma_find_from_none(cs@, p@, from as int);
    }
    None
}

/// `str::find`, giving a character index.
pub fn find_str(s: &str, p: &str) -> (r: Option<usize>)
    ensures
        match r {
            Some(i) => find(s@, p@) == Some(i as int) && occurs_at(s@, p@, i as int),
            None => find(s@, p@) is None,
        },
{
    let cs = chars_of(s);
    let ps = chars_of(p);
    proof {
        lemma_find_from_result(s@, p@, 0);
    }
    find_chars(&cs, &ps, 0)
}

/// `str::contains`.
pub fn contains_str(s: &str, p: &str) -> (r: bool)
    ensures
        r == contains(s@, p@),
{
    find_str(s, p).is_some()
}

/// `str::strip_prefix`.
pub fn strip_prefix_str<'a>(s: &'a str, p: &str) -> (r: Option<&'a str>)
    ensures
        r is Some <==> p@.is_prefix_of(s@),
        r matches Some(t) ==> t@ == s@.subrange(p@.len() as int, s@.len() as int),
{
    let cs = chars_of(s);
    let ps = chars_of(p);
    if ps.len() > cs.len() {
        return None;
    }
    if matches_at(&cs, &ps, 0) {
        Some(s.substring_char(ps.len(), cs.len()))
    } else {
        None
    }
}

/// `str::strip_suffix`.
pub fn strip_suffix_str<'a>(s: &'a str, p: &str) -> (r: Option<&'a str>)
    ensures
        r is Some <==> p@.is_suffix_of(s@),
        r matches Some(t) ==> t@ == s@.subrange(0, s@.len() - p@.len()),
{
    let cs = chars_of(s);
    let ps = chars_of(p);
    if ps.len() > cs.len() {
        return None;
    }
    let at = cs.len() - ps.len();
    if matches_at(&cs, &ps, at) {
        Some(s.substring_char(0, at))
    } else {
        None
    }
}

/// The value of the decimal digit `c`.
pub open spec fn digit_value(c: char) -> nat {
    (c as u32 - 48) as nat
}

/// `c` is one of `'0'..='9'`.
pub open spec fn is_digit(c: char) -> bool {
    48 <= c as u32 <= 57
}

/// The number a string of decimal digits denotes.
pub open spec fn digits_value(s: Seq<char>) -> nat
    decreases s.len(),
{
    if s.len() == 0 {
        0
    } else {
        digits_value(s.drop_last()) * 10 + digit_value(s.last())
    }
}

/// Every character of `d` is a decimal digit.
pub open spec fn all_digits(d: Seq<char>) -> bool {
    forall|i: int| 0 <= i < d.len() ==> is_digit(d[i])
}

/// `s` without one leading `'+'`.
pub open spec fn unsigned_part(s: Seq<char>) -> Seq<char> {
    if s.len() > 0 && s[0] == '+' {
        s.drop_first()
    } else {
        s
    }
}

/// `<u64 as FromStr>::from_str`: an optional `'+'`, then at least one decimal digit,
/// and a value that fits in `u64`.
pub open spec fn parse_u64(s: Seq<char>) -> Option<u64> {
    let d = unsigned_part(s);
    if d.len() > 0 && all_digits(d) && digits_value(d) <= u64::MAX {
        Some(digits_value(d) as u64)
    } else {
        None
    }
}

proof fn lemma_digits_value_grows(d: Seq<char>, i: int)
    requires
        0 <= i <= d.len(),
        forall|k: int| 0 <= k < d.len() ==> is_digit(d[k]),
    ensures
        digits_value(d.take(i)) <= digits_value(d),
    decreases d.len() - i,
{
    if i < d.len() {
        lemma_digits_value_grows(d, i + 1);
        assert(d.take(i + 1).drop_last() =~= d.take(i));
    } else {
        assert(d.take(i) =~= d);
    }
}

/// `str::parse::<u64>`.
pub fn parse_u64_str(s: &str) -> (r: Option<u64>)
    ensures
        r == parse_u64(s@),
{
    let cs = chars_of(s);
    let start: usize = if cs.len() > 0 && cs[0] == '+' {
        1
    } else {
        0
    };
    let ghost d = unsigned_part(s@);
    assert(d =~= s@.subrange(start as int, s@.len() as int));
    if start == cs.len() {
        return None;
    }
    let mut v: u64 = 0;
    let mut i = start;
    while i < cs.len()
        invariant
            cs@ == s@,
            start <= i <= cs@.len(),
            d == s@.subrange(start as int, s@.len() as int),
            d == unsigned_part(s@),
            forall|k: int| 0 <= k < i - start ==> is_digit(d[k]),
            v as nat == digits_value(d.take(i - start)),
        decreases cs@.len() - i,
    {
        let c = cs[i];
        let u = c as u32;
        assert(d[i - start] == c);
        if !(48 <= u && u <= 57) {
            assert(!is_digit(c));
            assert(!is_digit(d[i - start]));
            return None;
        }
        let dig = (u - 48) as u64;
        proof {
            assert(d.take(i - start + 1).drop_last() =~= d.take(i - start));
            assert(d.take(i - start + 1).last() == c);
        }
        match v.checked_mul(10) {
            Some(m) => match m.checked_add(dig) {
                Some(w) => {
                    v = w;
                },
                None => {
                    proof {
                        lemma_overflow_is_final(d, i - start + 1);
                    }
                    return None;
                },
            },
            None => {
                proof {
                    lemma_overflow_is_final(d, i - start + 1);
                }
                return None;
            },
        }
        i = i + 1;
    }
    assert(d.take(i - start) =~= d);
    Some(v)
}

proof fn lemma_overflow_is_final(d: Seq<char>, i: int)
    requires
        0 < i <= d.len(),
        forall|k: int| 0 <= k < i ==> is_digit(d[k]),
        digits_value(d.take(i)) > u64::MAX,
    ensures
        !(d.len() > 0 && all_digits(d) && digits_value(d) <= u64::MAX),
{
    if all_digits(d) {
        lemma_digits_value_grows(d, i);
    }
}

/// The digit character for `n < 10`.
pub open spec fn digit_char(n: nat) -> char {
    (48 + n) as char
}

/// The decimal rendering of `n` (`ToString` on an unsigned integer).
pub open spec fn decimal(n: nat) -> Seq<char>
    decreases n,
{
    if n < 10 {
        seq![digit_char(n)]
    } else {
        decimal(n / 10).push(digit_char(n % 10))
    }
}

/// `String::push`. Trusted: the string afterwards is the old one with `c` appended, as
/// the standard library documents.
#[verifier::external_body]
pub(crate) fn push_char(s: &mut String, c: char)
    ensures
        final(s)@ == old(s)@.push(c),
{
    s.push(c);
}

/// Appends the decimal rendering of `n` to `s`.
pub fn push_decimal(s: &mut String, n: u64)
    ensures
        final(s)@ == old(s)@ + decimal(n as nat),
    decreases n,
{
    if n >= 10 {
        push_decimal(s, n / 10);
    }
    push_char(s, digit_to_char(n % 10));
    proof {
        if n >= 10 {
            assert(decimal(n as nat) == decimal((n / 10) as nat).push(digit_char((n % 10) as nat)));
        }
    }
}

/// The character of the digit `d < 10`.
fn digit_to_char(d: u64) -> (c: char)
    requires
        d < 10,
    ensures
        c == digit_char(d as nat),
{
    match d {
        0 => '0',
        1 => '1',
        2 => '2',
        3 => '3',
        4 => '4',
        5 => '5',
        6 => '6',
        7 => '7',
        8 => '8',
        _ => '9',
    }
}

/// `n.to_string()` for an unsigned integer.
pub fn decimal_string(n: u64) -> (r: String)
    ensures
        r@ == decimal(n as nat),
{
    let mut s = String::new();
    push_decimal(&mut s, n);
    assert(s@ =~= decimal(n as nat));
    s
}


/// `a < b` in the order of `String` (lexicographic by code point, which is the byte order
/// of UTF-8).
pub open spec fn str_lt(a: Seq<char>, b: Seq<char>) -> bool
    decreases a.len(),
{
    if a.len() == 0 {
        b.len() > 0
    } else if b.len() == 0 {
        false
    } else if a[0] != b[0] {
        (a[0] as int) < (b[0] as int)
    } else {
        str_lt(a.drop_first(), b.drop_first())
    }
}

/// No string is below itself.
pub proof fn lemma_str_lt_irreflexive(a: Seq<char>)
    ensures
        !str_lt(a, a),
    decreases a.len(),
{
    if a.len() > 0 {
        lemma_str_lt_irreflexive(a.drop_first());
    }
}

/// The string order is transitive.
pub proof fn lemma_str_lt_transitive(a: Seq<char>, b: Seq<char>, c: Seq<char>)
    requires
        str_lt(a, b),
        str_lt(b, c),
    ensures
        str_lt(a, c),
    decreases a.len(),
{
    if a.len() > 0 && b.len() > 0 && c.len() > 0 && a[0] == b[0] && b[0] == c[0] {
        lemma_str_lt_transitive(a.drop_first(), b.drop_first(), c.drop_first());
    }
}

/// Two different strings are ordered one way or the other.
pub proof fn lemma_str_lt_total(a: Seq<char>, b: Seq<char>)
    ensures
        a == b || str_lt(a, b) || str_lt(b, a),
    decreases a.len(),
{
    if a.len() > 0 && b.len() > 0 {
        if a[0] == b[0] {
            lemma_str_lt_total(a.drop_first(), b.drop_first());
            if a.drop_first() == b.drop_first() {
                assert(a.drop_first().len() == b.drop_first().len());
                assert(a.len() == b.len());
                assert forall|k: int| 0 <= k < a.len() implies a[k] == b[k] by {
                    if k > 0 {
                        assert(a[k] == a.drop_first()[k - 1]);
                        assert(b[k] == b.drop_first()[k - 1]);
                    }
                }
                assert(a =~= b);
            }
        } else {
            assert((a[0] as int) != (b[0] as int));
        }
    } else if a.len() == 0 && b.len() == 0 {
        assert(a =~= b);
    }
}

proof fn lemma_str_lt_skip(a: Seq<char>, b: Seq<char>, i: int)
    requires
        0 <= i <= a.len(),
        i <= b.len(),
        forall|k: int| 0 <= k < i ==> a[k] == b[k],
    ensures
        str_lt(a, b) == str_lt(a.skip(i), b.skip(i)),
    decreases i,
{
    if i > 0 {
        lemma_str_lt_skip(a.drop_first(), b.drop_first(), i - 1);
        assert(a.drop_first().skip(i - 1) =~= a.skip(i));
        assert(b.drop_first().skip(i - 1) =~= b.skip(i));
    } else {
        assert(a.skip(0) =~= a);
        assert(b.skip(0) =~= b);
    }
}

/// `a < b` for strings.
pub fn str_less(a: &str, b: &str) -> (r: bool)
    ensures
        r == str_lt(a@, b@),
{
    let x = chars_of(a);
    let y = chars_of(b);
    let mut i: usize = 0;
    while i < x.len() && i < y.len()
        invariant
            x@ == a@,
            y@ == b@,
            i <= x@.len(),
            i <= y@.len(),
            forall|k: int| 0 <= k < i ==> x@[k] == y@[k],
        decreases x@.len() - i,
    {
        if x[i] != y[i] {
            proof {
                lemma_str_lt_skip(a@, b@, i as int);
                assert(a@.skip(i as int)[0] == x@[i as int]);
                assert(b@.skip(i as int)[0] == y@[i as int]);
            }
            return x[i] < y[i];
        }
        i = i + 1;
    }
    proof {
        lemma_str_lt_skip(a@, b@, i as int);
    }
    i == x.len() && i < y.len()
}


/// The first occurrence of `p` in `s` is at `k` when it occurs there and nowhere before.
pub proof fn lemma_find_first(s: Seq<char>, p: Seq<char>, k: int)
    requires
        occurs_at(s, p, k),
        forall|j: int| 0 <= j < k ==> !occurs_at(s, p, j),
    ensures
        find(s, p) == Some(k),
{
    lemma_find_from_some(s, p, 0, k);
}

/// A character is first found right after a prefix that does not contain it.
pub proof fn lemma_find_char_after(a: Seq<char>, c: char, b: Seq<char>)
    requires
        forall|i: int| 0 <= i < a.len() ==> a[i] != c,
    ensures
        find(a + seq![c] + b, seq![c]) == Some(a.len() as int),
{
    let s = a + seq![c] + b;
    assert(s.subrange(a.len() as int, a.len() + 1 as int) =~= seq![c]);
    assert forall|j: int| 0 <= j < a.len() implies !occurs_at(s, seq![c], j) by {
        assert(s.subrange(j, j + 1)[0] == a[j]);
    }
    lemma_find_first(s, seq![c], a.len() as int);
}

/// Leading white space is what `trim_start` removes: it stops at the first other character.
pub proof fn lemma_trim_start_after_ws(w: Seq<char>, x: Seq<char>)
    requires
        forall|i: int| 0 <= i < w.len() ==> is_ws(w[i]),
        x.len() > 0,
        !is_ws(x[0]),
    ensures
        trim_start(w + x) == x,
    decreases w.len(),
{
    if w.len() == 0 {
        assert(w + x =~= x);
    } else {
        assert((w + x).drop_first() =~= w.drop_first() + x);
        lemma_trim_start_after_ws(w.drop_first(), x);
    }
}

/// Text that neither starts nor ends with white space is its own trim.
pub proof fn lemma_trim_unchanged(s: Seq<char>)
    requires
        s.len() > 0,
        !is_ws(s[0]),
        !is_ws(s.last()),
    ensures
        trim(s) == s,
{
    assert(trim_start(s) == s);
}

/// Scanning text without a line break only extends the current line.
pub proof fn lemma_lines_scan_append(pre: Seq<char>, s: Seq<char>)
    requires
        forall|i: int| 0 <= i < s.len() ==> s[i] != '\n',
    ensures
        lines_scan(pre + s) == (lines_scan(pre).0, lines_scan(pre).1 + s),
    decreases s.len(),
{
    if s.len() == 0 {
        assert(pre + s =~= pre);
        assert(lines_scan(pre).1 + s =~= lines_scan(pre).1);
    } else {
        assert((pre + s).drop_last() =~= pre + s.drop_last());
        lemma_lines_scan_append(pre, s.drop_last());
        assert(lines_scan(pre).1 + s.drop_last() + seq![s.last()] =~= lines_scan(pre).1 + s);
        assert((pre + s).last() == s.last());
    }
}

/// The lines of `a + "\n" + b + "\n"`, where neither `a` nor `b` holds a line break:
/// `a` and `b`, each without a final `'\r'`.
pub proof fn lemma_two_lines(a: Seq<char>, b: Seq<char>)
    requires
        forall|i: int| 0 <= i < a.len() ==> a[i] != '\n',
        forall|i: int| 0 <= i < b.len() ==> b[i] != '\n',
    ensures
        lines(a + "\n"@ + b + "\n"@) == seq![strip_cr(a), strip_cr(b)],
{
    reveal_strlit("\n");
    let e = Seq::<char>::empty();
    lemma_lines_scan_append(e, a);
    assert(e + a =~= a);
    let a1 = a + "\n"@;
    assert(a1.drop_last() =~= a);
    assert(lines_scan(a1) == (seq![strip_cr(a)], e));
    lemma_lines_scan_append(a1, b);
    let ab = a1 + b + "\n"@;
    assert(ab.drop_last() =~= a1 + b);
    assert(lines_scan(ab) == (seq![strip_cr(a), strip_cr(b)], e));
}

/// The lines of `a + "\n" + b`, where `b` holds no line break and is not empty: the lines
/// of `a + "\n"`, then `b`.
pub proof fn lemma_last_line(a: Seq<char>, b: Seq<char>)
    requires
        b.len() > 0,
        forall|i: int| 0 <= i < b.len() ==> b[i] != '\n',
    ensures
        lines(a + "\n"@ + b) == lines(a + "\n"@).push(b),
{
    reveal_strlit("\n");
    let a1 = a + "\n"@;
    assert(a1.drop_last() =~= a);
    assert(lines_scan(a1).1.len() == 0);
    lemma_lines_scan_append(a1, b);
    assert(lines_scan(a1).1 + b =~= b);
}

/// Words joined by single spaces.
pub open spec fn spaced(ws: Seq<Seq<char>>) -> Seq<char>
    decreases ws.len(),
{
    if ws.len() == 0 {
        seq![]
    } else if ws.len() == 1 {
        ws[0]
    } else {
        spaced(ws.drop_last()) + " "@ + ws.last()
    }
}

/// Scanning text without white space only extends the current word.
proof fn lemma_words_scan_append(pre: Seq<char>, w: Seq<char>)
    requires
        forall|i: int| 0 <= i < w.len() ==> !is_ws(w[i]),
    ensures
        words_scan(pre + w) == (words_scan(pre).0, words_scan(pre).1 + w),
    decreases w.len(),
{
    if w.len() == 0 {
        assert(pre + w =~= pre);
        assert(words_scan(pre).1 + w =~= words_scan(pre).1);
    } else {
        assert((pre + w).drop_last() =~= pre + w.drop_last());
        lemma_words_scan_append(pre, w.drop_last());
        assert(words_scan(pre).1 + w.drop_last() + seq![w.last()] =~= words_scan(pre).1 + w);
        assert((pre + w).last() == w.last());
    }
}

/// Nonempty words without white space, joined by single spaces, split back into those
/// words; the joined text starts with the first word's first character, ends with the last
/// word's last character, and holds only their characters and spaces.
pub proof fn lemma_words_spaced(ws: Seq<Seq<char>>)
    requires
        ws.len() > 0,
        forall|k: int| 0 <= k < ws.len() ==> #[trigger] ws[k].len() > 0,
        forall|k: int, i: int| 0 <= k < ws.len() && 0 <= i < ws[k].len() ==> !is_ws(#[trigger] ws[k][i]),
    ensures
        words_scan(spaced(ws)) == (ws.drop_last(), ws.last()),
        words(spaced(ws)) == ws,
        spaced(ws).len() > 0,
        spaced(ws)[0] == ws[0][0],
        spaced(ws).last() == ws.last().last(),
        forall|i: int| 0 <= i < spaced(ws).len() ==> #[trigger] spaced(ws)[i] == ' ' || !is_ws(spaced(ws)[i]),
    decreases ws.len(),
{
    reveal_strlit(" ");
    let e = Seq::<char>::empty();
    if ws.len() == 1 {
        lemma_words_scan_append(e, ws[0]);
        assert(e + ws[0] =~= ws[0]);
        assert(e + ws[0] =~= ws[0]);
        assert(ws.drop_last() =~= Seq::<Seq<char>>::empty());
        assert(seq![ws[0]] =~= ws);
    } else {
        let w0 = ws.drop_last();
        assert forall|k: int| 0 <= k < w0.len() implies #[trigger] w0[k].len() > 0 by {
            assert(w0[k] == ws[k]);
        }
        assert forall|k: int, i: int| 0 <= k < w0.len() && 0 <= i < w0[k].len() implies !is_ws(#[trigger] w0[k][i]) by {
            assert(w0[k] == ws[k]);
        }
        lemma_words_spaced(w0);
        let p = spaced(w0);
        let p1 = p + " "@;
        assert(p1.drop_last() =~= p);
        assert(p1.last() == ' ');
        assert(words_scan(p1) == (w0.drop_last().push(w0.last()), e));
        assert(w0.drop_last().push(w0.last()) =~= w0);
        lemma_words_scan_append(p1, ws.last());
        assert(spaced(ws) == p1 + ws.last());
        assert(e + ws.last() =~= ws.last());
        assert(w0.push(ws.last()) =~= ws);
        let s = spaced(ws);
        assert(s[0] == p[0]);
        assert forall|i: int| 0 <= i < s.len() implies #[trigger] s[i] == ' ' || !is_ws(s[i]) by {
            if i < p.len() {
                assert(s[i] == p[i]);
            } else if i > p.len() {
                assert(s[i] == ws.last()[i - p.len() - 1]);
            }
        }
    }
}

/// The lines of `a + "\n"`, where `a` holds no line break: `a` alone, without a final
/// `'\r'`.
pub proof fn lemma_one_line(a: Seq<char>)
    requires
        forall|i: int| 0 <= i < a.len() ==> a[i] != '\n',
    ensures
        lines(a + "\n"@) == seq![strip_cr(a)],
{
    reveal_strlit("\n");
    let e = Seq::<char>::empty();
    lemma_lines_scan_append(e, a);
    assert(e + a =~= a);
    let a1 = a + "\n"@;
    assert(a1.drop_last() =~= a);
    assert(lines_scan(a1) == (seq![strip_cr(a)], e));
}

/// Lines, each ended by a line break.
pub open spec fn line_block(ls: Seq<Seq<char>>) -> Seq<char>
    decreases ls.len(),
{
    if ls.len() == 0 {
        seq![]
    } else {
        line_block(ls.drop_last()) + ls.last() + "\n"@
    }
}

proof fn lemma_lines_scan_block(head: Seq<char>, ls: Seq<Seq<char>>)
    requires
        forall|i: int| 0 <= i < head.len() ==> head[i] != '\n',
        forall|k: int, i: int| 0 <= k < ls.len() && 0 <= i < ls[k].len() ==> #[trigger] ls[k][i] != '\n',
        forall|k: int| 0 <= k < ls.len() && #[trigger] ls[k].len() > 0 ==> ls[k].last() != '\r',
    ensures
        lines_scan(head + "\n"@ + line_block(ls)) == (seq![strip_cr(head)] + ls, Seq::<char>::empty()),
    decreases ls.len(),
{
    reveal_strlit("\n");
    let e = Seq::<char>::empty();
    if ls.len() == 0 {
        lemma_lines_scan_append(e, head);
        assert(e + head =~= head);
        let h1 = head + "\n"@;
        assert(h1.drop_last() =~= head);
        assert(head + "\n"@ + line_block(ls) =~= h1);
        assert(seq![strip_cr(head)] + ls =~= seq![strip_cr(head)]);
    } else {
        let l0 = ls.drop_last();
        let l = ls.last();
        assert forall|k: int, i: int| 0 <= k < l0.len() && 0 <= i < l0[k].len() implies #[trigger] l0[k][i] != '\n' by {
            assert(l0[k] == ls[k]);
        }
        assert forall|k: int| 0 <= k < l0.len() && #[trigger] l0[k].len() > 0 implies l0[k].last() != '\r' by {
            assert(l0[k] == ls[k]);
        }
        lemma_lines_scan_block(head, l0);
        let x = head + "\n"@ + line_block(l0);
        assert forall|i: int| 0 <= i < l.len() implies l[i] != '\n' by {
            assert(ls[ls.len() - 1][i] != '\n');
        }
        lemma_lines_scan_append(x, l);
        assert(lines_scan(x).1 + l =~= l);
        let full = x + l + "\n"@;
        assert(head + "\n"@ + line_block(ls) =~= full);
        assert(full.drop_last() =~= x + l);
        assert(strip_cr(l) == l) by {
            if l.len() > 0 {
                assert(ls[ls.len() - 1].len() > 0);
            }
        }
        assert((seq![strip_cr(head)] + l0).push(l) =~= seq![strip_cr(head)] + ls);
    }
}

/// The lines of a head line followed by lines each ended by a line break: the head (without
/// a final `'\r'`), then those lines.
pub proof fn lemma_lines_block(head: Seq<char>, ls: Seq<Seq<char>>)
    requires
        forall|i: int| 0 <= i < head.len() ==> head[i] != '\n',
        forall|k: int, i: int| 0 <= k < ls.len() && 0 <= i < ls[k].len() ==> #[trigger] ls[k][i] != '\n',
        forall|k: int| 0 <= k < ls.len() && #[trigger] ls[k].len() > 0 ==> ls[k].last() != '\r',
    ensures
        lines(head + "\n"@ + line_block(ls)) == seq![strip_cr(head)] + ls,
{
    lemma_lines_scan_block(head, ls);
}

/// `drop_leading` removes exactly a leading run of characters that satisfy `p`, stopping at
/// the first one that does not.
pub proof fn lemma_drop_leading_run(w: Seq<char>, x: Seq<char>, p: spec_fn(char) -> bool)
    requires
        forall|i: int| 0 <= i < w.len() ==> p(w[i]),
        x.len() > 0,
        !p(x[0]),
    ensures
        drop_leading(w + x, p) == x,
    decreases w.len(),
{
    if w.len() == 0 {
        assert(w + x =~= x);
    } else {
        assert((w + x).drop_first() =~= w.drop_first() + x);
        lemma_drop_leading_run(w.drop_first(), x, p);
    }
}

} // verus!
