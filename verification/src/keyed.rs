//! Entries keyed by name, held in a `Vec`: lookup by key, and inserts that keep every key
//! once, either in place (map semantics) or in ascending key order (ordered map semantics).

use vstd::prelude::*;

use crate::text::{
    lemma_str_lt_irreflexive, lemma_str_lt_total, lemma_str_lt_transitive, str_eq, str_less,
    str_lt,
};

verus! {

/// The value stored under the key `k` (the first such entry).
pub open spec fn key_lookup<V>(es: Seq<(String, V)>, k: Seq<char>) -> Option<V>
    decreases es.len(),
{
    if es.len() == 0 {
        None
    } else if es[0].0@ == k {
        Some(es[0].1)
    } else {
        key_lookup(es.drop_first(), k)
    }
}

/// No key occurs twice.
pub open spec fn keys_unique<V>(es: Seq<(String, V)>) -> bool {
    forall|i: int, j: int| 0 <= i < j < es.len() ==> es[i].0@ != es[j].0@
}

/// The keys are strictly ascending in string order (so none occurs twice).
pub open spec fn keys_ascending<V>(es: Seq<(String, V)>) -> bool {
    forall|i: int, j: int| 0 <= i < j < es.len() ==> str_lt(es[i].0@, es[j].0@)
}

/// An entry that no earlier entry shares its key with is what the lookup of that key finds.
pub proof fn lemma_key_lookup_first<V>(es: Seq<(String, V)>, i: int)
    requires
        0 <= i < es.len(),
        forall|j: int| 0 <= j < i ==> es[j].0@ != es[i].0@,
    ensures
        key_lookup(es, es[i].0@) == Some(es[i].1),
    decreases i,
{
    if i > 0 {
        let t = es.drop_first();
        assert(t[i - 1] == es[i]);
        assert forall|j: int| 0 <= j < i - 1 implies #[trigger] t[j].0@ != t[i - 1].0@ by {
            assert(t[j] == es[j + 1]);
        }
        lemma_key_lookup_first(t, i - 1);
    }
}

/// A key that no entry has is not found.
pub proof fn lemma_key_lookup_absent<V>(es: Seq<(String, V)>, k: Seq<char>)
    requires
        forall|j: int| 0 <= j < es.len() ==> es[j].0@ != k,
    ensures
        key_lookup(es, k) is None,
    decreases es.len(),
{
    if es.len() > 0 {
        let t = es.drop_first();
        assert forall|j: int| 0 <= j < t.len() implies t[j].0@ != k by {
            assert(t[j] == es[j + 1]);
        }
        lemma_key_lookup_absent(t, k);
    }
}

/// With unique keys, every entry is found under its key.
pub proof fn lemma_key_lookup_unique<V>(es: Seq<(String, V)>, i: int)
    requires
        keys_unique(es),
        0 <= i < es.len(),
    ensures
        key_lookup(es, es[i].0@) == Some(es[i].1),
{
    lemma_key_lookup_first(es, i);
}

/// Ascending keys are unique.
pub proof fn lemma_ascending_unique<V>(es: Seq<(String, V)>)
    requires
        keys_ascending(es),
    ensures
        keys_unique(es),
{
    assert forall|i: int, j: int| 0 <= i < j < es.len() implies es[i].0@ != es[j].0@ by {
        if es[i].0@ == es[j].0@ {
            lemma_str_lt_irreflexive(es[i].0@);
        }
    }
}

/// When `new` holds `(key, v)` at `p`, its other entries come from `old`, and every entry of
/// `old` under another key stays, then `new` maps `key` to `v` and every other key as `old`.
proof fn lemma_lookup_after<V>(
    old: Seq<(String, V)>,
    new: Seq<(String, V)>,
    key: Seq<char>,
    v: V,
    p: int,
)
    requires
        keys_unique(old),
        keys_unique(new),
        0 <= p < new.len(),
        new[p].0@ == key,
        new[p].1 == v,
        forall|j: int| 0 <= j < new.len() && j != p ==> old.contains(#[trigger] new[j]),
        forall|i: int| 0 <= i < old.len() && old[i].0@ != key ==> new.contains(#[trigger] old[i]),
    ensures
        forall|k: Seq<char>|
            #[trigger] key_lookup(new, k) == (if k == key {
                Some(v)
            } else {
                key_lookup(old, k)
            }),
{
    assert forall|k: Seq<char>|
        #[trigger] key_lookup(new, k) == (if k == key {
            Some(v)
        } else {
            key_lookup(old, k)
        }) by {
        if k == key {
            lemma_key_lookup_unique(new, p);
        } else if exists|i: int| 0 <= i < old.len() && old[i].0@ == k {
            let i = choose|i: int| 0 <= i < old.len() && old[i].0@ == k;
            lemma_key_lookup_unique(old, i);
            assert(new.contains(old[i]));
            let j = choose|j: int| 0 <= j < new.len() && new[j] == old[i];
            lemma_key_lookup_unique(new, j);
        } else {
            lemma_key_lookup_absent(old, k);
            assert forall|j: int| 0 <= j < new.len() implies new[j].0@ != k by {
                if j != p {
                    assert(old.contains(new[j]));
                }
            }
            lemma_key_lookup_absent(new, k);
        }
    }
}

/// Stores `v` under `key`: the entry with that key is replaced in place, or a new entry is
/// appended (the insert of a hash map, whose order does not matter).
pub fn insert_unique<V>(es: &mut Vec<(String, V)>, key: String, v: V)
    requires
        keys_unique(old(es)@),
    ensures
        keys_unique(final(es)@),
        forall|k: Seq<char>|
            #[trigger] key_lookup(final(es)@, k) == (if k == key@ {
                Some(v)
            } else {
                key_lookup(old(es)@, k)
            }),
{
    let ghost o = es@;
    let n = es.len();
    let mut i: usize = 0;
    while i < n
        invariant
            n == es@.len(),
            es@ == o,
            o == old(es)@,
            keys_unique(o),
            i <= n,
            forall|j: int| 0 <= j < i ==> es@[j].0@ != key@,
        decreases n - i,
    {
        if str_eq(es[i].0.as_str(), key.as_str()) {
            let ghost kv = key@;
            es.set(i, (key, v));
            proof {
                let new = es@;
                assert(new =~= o.update(i as int, new[i as int]));
                assert forall|a: int, b: int| 0 <= a < b < new.len() implies new[a].0@
                    != new[b].0@ by {
                    assert(new[a].0@ == o[a].0@);
                    assert(new[b].0@ == o[b].0@);
                }
                assert forall|j: int| 0 <= j < new.len() && j != i implies o.contains(
                    #[trigger] new[j],
                ) by {
                    assert(new[j] == o[j]);
                }
                assert forall|m: int| 0 <= m < o.len() && o[m].0@ != kv implies new.contains(
                    #[trigger] o[m],
                ) by {
                    assert(m != i);
                    assert(new[m] == o[m]);
                }
                lemma_lookup_after(o, new, kv, new[i as int].1, i as int);
            }
            return;
        }
        i = i + 1;
    }
    let ghost kv = key@;
    es.push((key, v));
    proof {
        let new = es@;
        assert(new =~= o.push(new[n as int]));
        assert forall|a: int, b: int| 0 <= a < b < new.len() implies new[a].0@ != new[b].0@ by {
            if b < n {
                assert(new[a] == o[a]);
                assert(new[b] == o[b]);
            } else {
                assert(new[a] == o[a]);
            }
        }
        assert forall|j: int| 0 <= j < new.len() && j != n implies o.contains(#[trigger] new[j]) by {
            assert(new[j] == o[j]);
        }
        assert forall|m: int| 0 <= m < o.len() && o[m].0@ != kv implies new.contains(
            #[trigger] o[m],
        ) by {
            assert(new[m] == o[m]);
        }
        lemma_lookup_after(o, new, kv, new[n as int].1, n as int);
    }
}

/// Stores `v` under `key` keeping the keys ascending: the entry with that key is replaced, or
/// a new entry is inserted before the first greater key (the insert of an ordered map).
pub fn insert_ascending<V>(es: &mut Vec<(String, V)>, key: String, v: V)
    requires
        keys_ascending(old(es)@),
    ensures
        keys_ascending(final(es)@),
        forall|k: Seq<char>|
            #[trigger] key_lookup(final(es)@, k) == (if k == key@ {
                Some(v)
            } else {
                key_lookup(old(es)@, k)
            }),
{
    let ghost o = es@;
    let n = es.len();
    let mut i: usize = 0;
    while i < n && str_less(es[i].0.as_str(), key.as_str())
        invariant
            n == es@.len(),
            es@ == o,
            o == old(es)@,
            keys_ascending(o),
            i <= n,
            forall|j: int| 0 <= j < i ==> str_lt(#[trigger] es@[j].0@, key@),
        decreases n - i,
    {
        i = i + 1;
    }
    proof {
        lemma_ascending_unique(o);
    }
    let ghost kv = key@;
    if i < n && str_eq(es[i].0.as_str(), key.as_str()) {
        es.set(i, (key, v));
        proof {
            let new = es@;
            assert(new =~= o.update(i as int, new[i as int]));
            assert forall|a: int, b: int| 0 <= a < b < new.len() implies str_lt(
                new[a].0@,
                new[b].0@,
            ) by {
                assert(new[a].0@ == o[a].0@);
                assert(new[b].0@ == o[b].0@);
            }
            lemma_ascending_unique(new);
            assert forall|j: int| 0 <= j < new.len() && j != i implies o.contains(
                #[trigger] new[j],
            ) by {
                assert(new[j] == o[j]);
            }
            assert forall|m: int| 0 <= m < o.len() && o[m].0@ != kv implies new.contains(
                #[trigger] o[m],
            ) by {
                assert(m != i);
                assert(new[m] == o[m]);
            }
            lemma_lookup_after(o, new, kv, new[i as int].1, i as int);
        }
    } else {
        proof {
            if i < n {
                lemma_str_lt_total(o[i as int].0@, kv);
                assert(str_lt(kv, o[i as int].0@));
            }
        }
        es.insert(i, (key, v));
        proof {
            let new = es@;
            assert(new =~= o.insert(i as int, new[i as int]));
            assert forall|a: int, b: int| 0 <= a < b < new.len() implies str_lt(
                new[a].0@,
                new[b].0@,
            ) by {
                if b < i {
                    assert(new[a] == o[a]);
                    assert(new[b] == o[b]);
                } else if b == i {
                    assert(new[a] == o[a]);
                } else if a < i {
                    assert(new[a] == o[a]);
                    assert(new[b] == o[b - 1]);
                    assert(str_lt(o[a].0@, kv));
                    if a < b - 1 {
                    } else {
                        assert(a == b - 1);
                        assert(a < i);
                        assert(false);
                    }
                } else if a == i {
                    assert(new[b] == o[b - 1]);
                    if b - 1 > i {
                        lemma_str_lt_transitive(kv, o[i as int].0@, o[b - 1].0@);
                    }
                } else {
                    assert(new[a] == o[a - 1]);
                    assert(new[b] == o[b - 1]);
                }
            }
            lemma_ascending_unique(new);
            assert forall|j: int| 0 <= j < new.len() && j != i implies o.contains(
                #[trigger] new[j],
            ) by {
                if j < i {
                    assert(new[j] == o[j]);
                } else {
                    assert(new[j] == o[j - 1]);
                }
            }
            assert forall|m: int| 0 <= m < o.len() && o[m].0@ != kv implies new.contains(
                #[trigger] o[m],
            ) by {
                if m < i {
                    assert(new[m] == o[m]);
                } else {
                    assert(new[m + 1] == o[m]);
                }
            }
            lemma_lookup_after(o, new, kv, new[i as int].1, i as int);
        }
    }
}

} // verus!
