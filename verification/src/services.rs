//! The service registry: service aliases and the VMIDs of the guests that run them.

use vstd::prelude::*;

use crate::convention::{canonical_ip_of, ConventionError};
use crate::keyed::{
    insert_unique, key_lookup, keys_unique, lemma_key_lookup_absent, lemma_key_lookup_unique,
};

verus! {

/// One registered service.
#[derive(Debug, Clone)]
pub struct ServiceEntry {
    pub vmid: String,
    pub description: String,
}

/// The services by alias. A well-formed registry (see [`ServicesRegistry::wf`]) holds each
/// alias once, as a map does.
#[derive(Debug, Clone)]
pub struct ServicesRegistry {
    pub services: Vec<(String, ServiceEntry)>,
}

impl ServicesRegistry {
    /// Each alias once.
    pub open spec fn wf(&self) -> bool {
        keys_unique(self.services@)
    }

    /// An empty registry.
    pub fn new() -> (r: ServicesRegistry)
        ensures
            r.wf(),
            r.services@.len() == 0,
    {
        ServicesRegistry { services: Vec::new() }
    }

    /// Registers `entry` under `alias`, replacing the entry registered there before.
    pub fn insert(&mut self, alias: String, entry: ServiceEntry)
        requires
            old(self).wf(),
        ensures
            final(self).wf(),
            forall|a: Seq<char>|
                #[trigger] lookup_alias(final(self).services@, a) == (if a == alias@ {
                    Some(entry)
                } else {
                    lookup_alias(old(self).services@, a)
                }),
    {
        insert_unique(&mut self.services, alias, entry);
    }
}

impl Default for ServicesRegistry {
    fn default() -> (r: ServicesRegistry)
        ensures
            r.wf(),
            r.services@.len() == 0,
    {
        ServicesRegistry { services: Vec::new() }
    }
}

/// The registry file of a development or operations host, looked at first.
pub const CONTROL_PLANE_REGISTRY: &'static str =
    "/root/control-plane/config/services_registry.toml";

/// The registry file of an installed system, looked at second.
pub const SYSTEM_REGISTRY: &'static str = "/etc/pxi/services_registry.toml";

/// The registry file to load, given which of the two files exist: the control-plane one
/// first, else the system one; `None` when neither exists (the registry is not found).
pub fn registry_file(control_plane_exists: bool, system_exists: bool) -> (r: Option<
    &'static str,
>)
    ensures
        control_plane_exists ==> (r matches Some(p) && p@ == CONTROL_PLANE_REGISTRY@),
        !control_plane_exists && system_exists ==> (r matches Some(p) && p@
            == SYSTEM_REGISTRY@),
        !control_plane_exists && !system_exists ==> r is None,
{
    if control_plane_exists {
        Some(CONTROL_PLANE_REGISTRY)
    } else if system_exists {
        Some(SYSTEM_REGISTRY)
    } else {
        None
    }
}

/// Why a service lookup failed.
#[derive(Debug, Clone)]
pub enum ServicesError {
    /// Neither registry file exists.
    NotFound,
    /// The registry file could not be read.
    Read { message: String },
    /// The registry file is not a valid registry.
    Parse { message: String },
    /// The alias is not registered.
    UnknownAlias { alias: String },
    /// The VMID has no canonical address.
    Convention(ConventionError),
}

/// The entry registered under `alias` (the first one, should it appear twice).
pub open spec fn lookup_alias(es: Seq<(String, ServiceEntry)>, alias: Seq<char>) -> Option<
    ServiceEntry,
> {
    key_lookup(es, alias)
}

impl ServicesRegistry {
    /// The VMID of the service `alias`.
    pub fn vmid_for(&self, alias: &str) -> (r: Result<&str, ServicesError>)
        ensures
            match lookup_alias(self.services@, alias@) {
                Some(e) => r matches Ok(v) && v@ == e.vmid@,
                None => r matches Err(ServicesError::UnknownAlias { alias: a }) && a@ == alias@,
            },
    {
        let n = self.services.len();
        let mut i: usize = 0;
        proof {
            assert(self.services@.skip(0) =~= self.services@);
        }
        while i < n
            invariant
                n == self.services@.len(),
                i <= n,
                lookup_alias(self.services@, alias@) == lookup_alias(
                    self.services@.skip(i as int),
                    alias@,
                ),
            decreases n - i,
        {
            let e = &self.services[i];
            proof {
                assert(self.services@.skip(i as int).drop_first() =~= self.services@.skip(i + 1));
                assert(self.services@.skip(i as int)[0] == *e);
            }
            if crate::text::str_eq(e.0.as_str(), alias) {
                return Ok(e.1.vmid.as_str());
            }
            i = i + 1;
        }
        Err(ServicesError::UnknownAlias { alias: String::from_str(alias) })
    }

    /// The canonical address of the guest running the service `alias`.
    pub fn canonical_ip(&self, alias: &str) -> (r: Result<String, ServicesError>)
        ensures
            match lookup_alias(self.services@, alias@) {
                Some(e) => match canonical_ip_of(e.vmid@) {
                    Some(ip) => r matches Ok(s) && s@ == ip,
                    None => r matches Err(
                        ServicesError::Convention(ConventionError::NotAVmid { vmid: v }),
                    ) && v@ == e.vmid@,
                },
                None => r matches Err(ServicesError::UnknownAlias { alias: a }) && a@ == alias@,
            },
    {
        let vmid = self.vmid_for(alias)?;
        match crate::convention::canonical_ip(vmid) {
            Ok(ip) => Ok(ip),
            Err(e) => Err(ServicesError::Convention(e)),
        }
    }
}

/// The VMID of the service `alias` in the registry as loaded (a load failure is the result).
pub fn vmid_for(loaded: Result<ServicesRegistry, ServicesError>, alias: &str) -> (r: Result<
    String,
    ServicesError,
>)
    ensures
        match loaded {
            Err(e) => r == Err::<String, ServicesError>(e),
            Ok(reg) => match lookup_alias(reg.services@, alias@) {
                Some(e) => r matches Ok(v) && v@ == e.vmid@,
                None => r matches Err(ServicesError::UnknownAlias { alias: a }) && a@ == alias@,
            },
        },
{
    let reg = loaded?;
    let v = reg.vmid_for(alias)?;
    Ok(String::from_str(v))
}

/// The canonical address of the service `alias` in the registry as loaded.
pub fn canonical_ip_for(loaded: Result<ServicesRegistry, ServicesError>, alias: &str) -> (r:
    Result<String, ServicesError>)
    ensures
        match loaded {
            Err(e) => r == Err::<String, ServicesError>(e),
            Ok(reg) => match lookup_alias(reg.services@, alias@) {
                Some(e) => match canonical_ip_of(e.vmid@) {
                    Some(ip) => r matches Ok(s) && s@ == ip,
                    None => r matches Err(
                        ServicesError::Convention(ConventionError::NotAVmid { vmid: v }),
                    ) && v@ == e.vmid@,
                },
                None => r matches Err(ServicesError::UnknownAlias { alias: a }) && a@ == alias@,
            },
        },
{
    let reg = loaded?;
    reg.canonical_ip(alias)
}

/// In a well-formed registry the lookup finds exactly the registered entry.
pub proof fn law_lookup_registered(reg: ServicesRegistry, i: int)
    requires
        reg.wf(),
        0 <= i < reg.services@.len(),
    ensures
        lookup_alias(reg.services@, reg.services@[i].0@) == Some(reg.services@[i].1),
{
    lemma_key_lookup_unique(reg.services@, i);
}

/// An alias with no entry is not found.
pub proof fn law_lookup_unregistered(es: Seq<(String, ServiceEntry)>, alias: Seq<char>)
    requires
        forall|j: int| 0 <= j < es.len() ==> es[j].0@ != alias,
    ensures
        lookup_alias(es, alias) is None,
{
    lemma_key_lookup_absent(es, alias);
}

} // verus!
