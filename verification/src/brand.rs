//! Brand constants: the one source of the project's names and system paths.

use vstd::prelude::*;

pub mod paths;

verus! {

/// Short CLI name (binary name, command).
pub const SHORT: &'static str = "pxi";

/// Full project name.
pub const FULL: &'static str = "proxmox-init";

/// GitHub organisation and repository.
pub const REPO: &'static str = "dalsoop/proxmox-init";

/// Name of the configuration directory (`/etc/{NAME}` or `~/.config/{NAME}`).
pub const CONFIG_DIR_NAME: &'static str = "pxi";

/// Name of the data directory (`/var/lib/{NAME}`).
pub const DATA_DIR_NAME: &'static str = "pxi";

/// Prefix of the domain binaries (`pxi-elk`, `pxi-telegram`).
pub const BIN_PREFIX: &'static str = "pxi";

/// The binary name of a domain: `{BIN_PREFIX}-{domain}`.
pub open spec fn domain_bin_name(domain: Seq<char>) -> Seq<char> {
    BIN_PREFIX@ + "-"@ + domain
}

/// The binary name of a domain, `pxi-<domain>`.
pub fn domain_bin(domain: &str) -> (r: String)
    ensures
        r@ == domain_bin_name(domain@),
{
    let mut s = String::from_str(BIN_PREFIX);
    s.append("-");
    s.append(domain);
    s
}

/// The name shown when a domain runs: its binary name, `pxi-<domain>`.
pub fn bin_name(domain: &str) -> (r: String)
    ensures
        r@ == domain_bin_name(domain@),
{
    domain_bin(domain)
}

} // verus!
