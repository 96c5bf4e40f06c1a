//! The domain registry: the metadata of every installable domain, as exported to
//! `locale.json`, and the lists of available and planned domains.

use vstd::prelude::*;

use crate::brand::{domain_bin, domain_bin_name};
use crate::keyed::{insert_ascending, key_lookup, keys_ascending, lemma_ascending_unique, lemma_key_lookup_unique};
use crate::text::{lemma_str_lt_irreflexive, lemma_str_lt_total, lemma_str_lt_transitive, str_less, str_lt};

verus! {

/// The `locale.json` format version this runtime understands.
pub const SUPPORTED_FORMAT_VERSION: u32 = 1;

/// Tags attached to a domain.
#[derive(Debug, Clone)]
pub struct Tags {
    pub product: Option<String>,
    pub layer: Option<String>,
    pub platform: Option<String>,
}

impl Default for Tags {
    fn default() -> (r: Tags)
        ensures
            r.product is None,
            r.layer is None,
            r.platform is None,
    {
        Tags { product: None, layer: None, platform: None }
    }
}

/// One domain of the registry.
#[derive(Debug, Clone)]
pub struct Domain {
    pub name: String,
    pub description: String,
    pub tags: Tags,
    pub requires: Vec<String>,
    pub provides: Vec<String>,
    /// `false` marks a domain that is planned but not implemented yet.
    pub enabled: bool,
}

/// The default of a domain's `enabled` flag when `locale.json` leaves it out.
pub fn default_true() -> (r: bool)
    ensures
        r,
{
    true
}

/// The registry loaded from `locale.json`: the domains keyed by name. A well-formed registry
/// (see [`Registry::wf`]) holds each key once, in ascending key order, as an ordered map does.
#[derive(Debug, Clone)]
pub struct Registry {
    pub format_version: u32,
    pub domains: Vec<(String, Domain)>,
}

impl Registry {
    /// Each key once, keys ascending.
    pub open spec fn wf(&self) -> bool {
        keys_ascending(self.domains@)
    }

    /// The domain registered under `key`.
    pub open spec fn domain_of(&self, key: Seq<char>) -> Option<Domain> {
        key_lookup(self.domains@, key)
    }

    /// An empty registry of the given format version.
    pub fn new(format_version: u32) -> (r: Registry)
        ensures
            r.wf(),
            r.format_version == format_version,
            r.domains@.len() == 0,
    {
        Registry { format_version, domains: Vec::new() }
    }

    /// Registers `domain` under `key`, replacing the domain registered there before.
    pub fn insert_domain(&mut self, key: String, domain: Domain)
        requires
            old(self).wf(),
        ensures
            final(self).wf(),
            final(self).format_version == old(self).format_version,
            forall|k: Seq<char>|
                #[trigger] final(self).domain_of(k) == (if k == key@ {
                    Some(domain)
                } else {
                    old(self).domain_of(k)
                }),
    {
        insert_ascending(&mut self.domains, key, domain);
    }
}

/// The domains of `entries`, in order.
pub open spec fn entry_domains(entries: Seq<(String, Domain)>) -> Seq<Domain> {
    entries.map_values(|e: (String, Domain)| e.1)
}

/// The domains of `ds` whose `enabled` flag is `enabled`, in order.
pub open spec fn select_enabled(ds: Seq<Domain>, enabled: bool) -> Seq<Domain>
    decreases ds.len(),
{
    if ds.len() == 0 {
        seq![]
    } else if ds.last().enabled == enabled {
        select_enabled(ds.drop_last(), enabled).push(ds.last())
    } else {
        select_enabled(ds.drop_last(), enabled)
    }
}

/// `sorted` with `d` inserted after every element whose name is not above `d`'s.
pub open spec fn insert_by_name(sorted: Seq<Domain>, d: Domain) -> Seq<Domain>
    decreases sorted.len(),
{
    if sorted.len() > 0 && str_lt(d.name@, sorted.last().name@) {
        insert_by_name(sorted.drop_last(), d).push(sorted.last())
    } else {
        sorted.push(d)
    }
}

/// `ds` stably sorted by name (the result of `sort_by` on the names).
pub open spec fn sort_by_name(ds: Seq<Domain>) -> Seq<Domain>
    decreases ds.len(),
{
    if ds.len() == 0 {
        seq![]
    } else {
        insert_by_name(sort_by_name(ds.drop_last()), ds.last())
    }
}

/// The domains behind a sequence of references.
pub open spec fn derefs(v: Seq<&Domain>) -> Seq<Domain> {
    v.map_values(|d: &Domain| *d)
}

/// The domains of the registry with the given `enabled` flag, sorted by name.
pub open spec fn listed(entries: Seq<(String, Domain)>, enabled: bool) -> Seq<Domain> {
    sort_by_name(select_enabled(entry_domains(entries), enabled))
}

/// Inserts `d` into `list`, which is sorted by name, after every entry whose name is not
/// above `d`'s.
fn insert_sorted<'a>(list: &mut Vec<&'a Domain>, d: &'a Domain)
    ensures
        derefs(final(list)@) == insert_by_name(derefs(old(list)@), *d),
{
    let ghost l = derefs(list@);
    let mut j = list.len();
    proof {
        assert(l.take(j as int) =~= l);
        assert(l.skip(j as int) =~= Seq::<Domain>::empty());
        assert(insert_by_name(l, *d) =~= insert_by_name(l.take(j as int), *d) + l.skip(j as int));
    }
    while j > 0 && str_less(d.name.as_str(), list[j - 1].name.as_str())
        invariant
            j <= list@.len(),
            l == derefs(list@),
            l.len() == list@.len(),
            insert_by_name(l, *d) == insert_by_name(l.take(j as int), *d) + l.skip(j as int),
        decreases j,
    {
        proof {
            let t = l.take(j as int);
            assert(t.drop_last() =~= l.take(j - 1));
            assert(t.last() == l[j - 1]);
            assert(l[j - 1] == *list@[j - 1]);
            assert(insert_by_name(t, *d) == insert_by_name(l.take(j - 1), *d).push(l[j - 1]));
            assert(insert_by_name(l.take(j - 1), *d).push(l[j - 1]) + l.skip(j as int)
                =~= insert_by_name(l.take(j - 1), *d) + l.skip(j - 1));
        }
        j = j - 1;
    }
    proof {
        let t = l.take(j as int);
        if j > 0 {
            assert(t.last() == l[j - 1]);
            assert(l[j - 1] == *list@[j - 1]);
        }
        assert(insert_by_name(t, *d) == t.push(*d));
    }
    list.insert(j, d);
    proof {
        assert(derefs(list@) =~= l.take(j as int).push(*d) + l.skip(j as int));
    }
}

impl Registry {
    /// The domains with the given `enabled` flag, sorted by name (ties in key order).
    fn listed_with(&self, enabled: bool) -> (r: Vec<&Domain>)
        ensures
            derefs(r@) == listed(self.domains@, enabled),
    {
        let ghost ds = entry_domains(self.domains@);
        let mut list: Vec<&Domain> = Vec::new();
        let n = self.domains.len();
        let mut i: usize = 0;
        proof {
            assert(ds.take(0) =~= Seq::<Domain>::empty());
            assert(derefs(list@) =~= Seq::<Domain>::empty());
        }
        while i < n
            invariant
                n == self.domains@.len(),
                ds == entry_domains(self.domains@),
                i <= n,
                derefs(list@) == sort_by_name(select_enabled(ds.take(i as int), enabled)),
            decreases n - i,
        {
            let d = &self.domains[i].1;
            proof {
                assert(ds.take(i + 1).drop_last() =~= ds.take(i as int));
                assert(ds.take(i + 1).last() == *d);
            }
            let ghost before = select_enabled(ds.take(i as int), enabled);
            if d.enabled == enabled {
                proof {
                    assert(select_enabled(ds.take(i + 1), enabled) == before.push(*d));
                    assert(before.push(*d).drop_last() =~= before);
                    assert(sort_by_name(before.push(*d)) == insert_by_name(sort_by_name(before), *d));
                }
                insert_sorted(&mut list, d);
            }
            i = i + 1;
        }
        proof {
            assert(ds.take(n as int) =~= ds);
        }
        list
    }

    /// The implemented domains, sorted by name.
    pub fn available(&self) -> (r: Vec<&Domain>)
        ensures
            derefs(r@) == listed(self.domains@, true),
    {
        self.listed_with(true)
    }

    /// The domains not implemented yet, sorted by name.
    pub fn planned(&self) -> (r: Vec<&Domain>)
        ensures
            derefs(r@) == listed(self.domains@, false),
    {
        self.listed_with(false)
    }
}

/// Why the registry could not be loaded.
#[derive(Debug, Clone)]
pub enum RegistryError {
    /// The `locale.json` file exists but could not be read.
    Read { source: String, message: String },
    /// The text is not a valid registry document.
    Json { source: String, message: String },
    /// The document's format version is not the supported one.
    UnsupportedVersion { source: String, found: u32 },
    /// Neither a `locale.json` file nor a usable embedded registry.
    Missing,
}

impl Registry {
    /// Checks a parsed registry document from `source`: a parse failure is reported as a
    /// JSON error, and only the supported format version is accepted.
    pub fn parse_with_version(parsed: Result<Registry, String>, source: &str) -> (r: Result<
        Registry,
        RegistryError,
    >)
        ensures
            match parsed {
                Err(m) => r matches Err(RegistryError::Json { source: s, message: m2 }) && s@
                    == source@ && m2@ == m@,
                Ok(reg) => if reg.format_version == SUPPORTED_FORMAT_VERSION {
                    r == Ok::<Registry, RegistryError>(reg)
                } else {
                    r matches Err(RegistryError::UnsupportedVersion { source: s, found }) && s@
                        == source@ && found == reg.format_version
                },
            },
    {
        match parsed {
            Err(m) => Err(RegistryError::Json { source: String::from_str(source), message: m }),
            Ok(reg) => {
                if reg.format_version != SUPPORTED_FORMAT_VERSION {
                    Err(
                        RegistryError::UnsupportedVersion {
                            source: String::from_str(source),
                            found: reg.format_version,
                        },
                    )
                } else {
                    Ok(reg)
                }
            },
        }
    }

    /// The loading tiers: a `locale.json` file, when there is one, decides alone (its read
    /// or check failure is the result); otherwise the embedded registry, when it passes its
    /// check; otherwise the registry is missing.
    pub fn from_tiers(
        file: Option<Result<Registry, RegistryError>>,
        embedded: Result<Registry, RegistryError>,
    ) -> (r: Result<Registry, RegistryError>)
        ensures
            match file {
                Some(f) => r == f,
                None => match embedded {
                    Ok(reg) => r == Ok::<Registry, RegistryError>(reg),
                    Err(_) => r matches Err(RegistryError::Missing),
                },
            },
    {
        match file {
            Some(f) => f,
            None => match embedded {
                Ok(reg) => Ok(reg),
                Err(_) => Err(RegistryError::Missing),
            },
        }
    }
}

/// The domains older callers know by name, with their descriptions.
pub fn known_domains() -> (r: Vec<(&'static str, &'static str)>)
    ensures
        r@.len() == 2,
        r@[0].0@ == "code-server"@,
        r@[0].1@ == "code-server (VS Code 웹) 설치/제거"@,
        r@[1].0@ == "wordpress"@,
        r@[1].1@ == "WordPress LXC 설치/설정/관리"@,
{
    let mut v = Vec::new();
    v.push(("code-server", "code-server (VS Code 웹) 설치/제거"));
    v.push(("wordpress", "WordPress LXC 설치/설정/관리"));
    v
}

/// The binary name of a domain (the same as `brand::domain_bin`).
pub fn binary_name(domain: &str) -> (r: String)
    ensures
        r@ == domain_bin_name(domain@),
{
    domain_bin(domain)
}

/// `s` is sorted by name, ascending.
pub open spec fn sorted_by_name(s: Seq<Domain>) -> bool {
    forall|i: int, j: int| 0 <= i < j < s.len() ==> !str_lt(s[j].name@, s[i].name@)
}

proof fn lemma_insert_by_name(s: Seq<Domain>, d: Domain)
    requires
        sorted_by_name(s),
    ensures
        sorted_by_name(insert_by_name(s, d)),
        insert_by_name(s, d).to_multiset() == s.to_multiset().insert(d),
        insert_by_name(s, d).len() == s.len() + 1,
        forall|k: int|
            0 <= k < insert_by_name(s, d).len() ==> (#[trigger] insert_by_name(s, d)[k] == d
                || s.contains(insert_by_name(s, d)[k])),
    decreases s.len(),
{
    broadcast use vstd::seq_lib::group_to_multiset_ensures;

    let r = insert_by_name(s, d);
    if s.len() > 0 && str_lt(d.name@, s.last().name@) {
        let s0 = s.drop_last();
        assert(sorted_by_name(s0));
        lemma_insert_by_name(s0, d);
        let r0 = insert_by_name(s0, d);
        assert(r == r0.push(s.last()));
        assert forall|k: int| 0 <= k < r0.len() implies !str_lt(s.last().name@, r0[k].name@) by {
            if r0[k] == d {
                if str_lt(s.last().name@, d.name@) {
                    lemma_str_lt_transitive(s.last().name@, d.name@, s.last().name@);
                    lemma_str_lt_irreflexive(s.last().name@);
                }
            } else {
                assert(s0.contains(r0[k]));
                let m = choose|m: int| 0 <= m < s0.len() && s0[m] == r0[k];
                assert(s[m] == r0[k]);
                assert(!str_lt(s[s.len() - 1].name@, s[m].name@));
            }
        }
        assert forall|k: int| 0 <= k < r.len() implies (r[k] == d || s.contains(r[k])) by {
            if k < r0.len() {
                assert(r[k] == r0[k]);
                if r0[k] != d {
                    let m = choose|m: int| 0 <= m < s0.len() && s0[m] == r0[k];
                    assert(s[m] == r0[k]);
                }
            } else {
                assert(r[k] == s[s.len() - 1]);
            }
        }
        assert(s0.push(s.last()) =~= s);
    } else {
        assert forall|k: int| 0 <= k < s.len() implies !str_lt(d.name@, s[k].name@) by {
            if s.len() > 0 && str_lt(d.name@, s[k].name@) {
                lemma_str_lt_total(s[k].name@, s.last().name@);
                if k < s.len() - 1 {
                    assert(!str_lt(s.last().name@, s[k].name@));
                }
                if str_lt(s[k].name@, s.last().name@) {
                    lemma_str_lt_transitive(d.name@, s[k].name@, s.last().name@);
                }
            }
        }
        assert forall|k: int| 0 <= k < r.len() implies (r[k] == d || s.contains(r[k])) by {
            if k < s.len() {
                assert(r[k] == s[k]);
            }
        }
    }
}

proof fn lemma_sort_by_name(ds: Seq<Domain>)
    ensures
        sorted_by_name(sort_by_name(ds)),
        sort_by_name(ds).to_multiset() == ds.to_multiset(),
    decreases ds.len(),
{
    broadcast use vstd::seq_lib::group_to_multiset_ensures;

    if ds.len() > 0 {
        lemma_sort_by_name(ds.drop_last());
        lemma_insert_by_name(sort_by_name(ds.drop_last()), ds.last());
        assert(ds.drop_last().push(ds.last()) =~= ds);
    } else {
        assert(sort_by_name(ds).to_multiset() =~= ds.to_multiset());
    }
}

proof fn lemma_select_partition(ds: Seq<Domain>)
    ensures
        select_enabled(ds, true).to_multiset().add(select_enabled(ds, false).to_multiset())
            == ds.to_multiset(),
        forall|k: int|
            0 <= k < select_enabled(ds, true).len() ==> #[trigger] select_enabled(
                ds,
                true,
            )[k].enabled,
        forall|k: int|
            0 <= k < select_enabled(ds, false).len() ==> !#[trigger] select_enabled(
                ds,
                false,
            )[k].enabled,
    decreases ds.len(),
{
    broadcast use vstd::seq_lib::group_to_multiset_ensures;
    broadcast use vstd::multiset::group_multiset_axioms;

    if ds.len() > 0 {
        let d0 = ds.drop_last();
        lemma_select_partition(d0);
        assert(d0.push(ds.last()) =~= ds);
        let a = select_enabled(d0, true).to_multiset();
        let b = select_enabled(d0, false).to_multiset();
        if ds.last().enabled {
            assert(a.insert(ds.last()).add(b) =~= a.add(b).insert(ds.last()));
        } else {
            assert(a.add(b.insert(ds.last())) =~= a.add(b).insert(ds.last()));
        }
    } else {
        assert(select_enabled(ds, true).to_multiset().add(select_enabled(ds, false).to_multiset())
            =~= ds.to_multiset());
    }
}

/// `available` and `planned` split the registry: each lists domains of its kind only,
/// sorted by name, and together they hold every domain exactly once.
pub proof fn law_available_planned_partition(reg: Registry)
    ensures
        sorted_by_name(listed(reg.domains@, true)),
        sorted_by_name(listed(reg.domains@, false)),
        forall|k: int|
            0 <= k < listed(reg.domains@, true).len() ==> #[trigger] listed(
                reg.domains@,
                true,
            )[k].enabled,
        forall|k: int|
            0 <= k < listed(reg.domains@, false).len() ==> !#[trigger] listed(
                reg.domains@,
                false,
            )[k].enabled,
        listed(reg.domains@, true).to_multiset().add(listed(reg.domains@, false).to_multiset())
            == entry_domains(reg.domains@).to_multiset(),
{
    broadcast use vstd::seq_lib::group_to_multiset_ensures;

    let ds = entry_domains(reg.domains@);
    let on = select_enabled(ds, true);
    let off = select_enabled(ds, false);
    lemma_select_partition(ds);
    lemma_sort_by_name(on);
    lemma_sort_by_name(off);
    assert forall|k: int| 0 <= k < sort_by_name(on).len() implies #[trigger] sort_by_name(on)[k].enabled by {
        assert(sort_by_name(on).to_multiset().count(sort_by_name(on)[k]) > 0);
        assert(on.contains(sort_by_name(on)[k]));
    }
    assert forall|k: int| 0 <= k < sort_by_name(off).len() implies !#[trigger] sort_by_name(off)[k].enabled by {
        assert(sort_by_name(off).to_multiset().count(sort_by_name(off)[k]) > 0);
        assert(off.contains(sort_by_name(off)[k]));
    }
}

/// In a well-formed registry every domain is found under its own key.
pub proof fn law_registry_lookup(reg: Registry, i: int)
    requires
        reg.wf(),
        0 <= i < reg.domains@.len(),
    ensures
        reg.domain_of(reg.domains@[i].0@) == Some(reg.domains@[i].1),
{
    lemma_ascending_unique(reg.domains@);
    lemma_key_lookup_unique(reg.domains@, i);
}

} // verus!
