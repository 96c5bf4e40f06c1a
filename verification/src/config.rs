//! The runtime configuration (`~/.config/pxi/config.toml` or `/etc/pxi/config.toml`).

use vstd::prelude::*;

verus! {

/// The whole configuration.
#[derive(Debug, Clone)]
pub struct Config {
    pub proxmox: ProxmoxConfig,
    pub network: NetworkConfig,
    pub lxc: LxcConfig,
}

/// Defaults for creating an LXC guest (`pxi run lxc create`).
#[derive(Debug, Clone)]
pub struct LxcConfig {
    pub cores: String,
    pub memory: String,
    pub disk: String,
    pub template: String,
    pub storage: String,
    pub bridge: String,
}

/// The Proxmox host.
#[derive(Debug, Clone)]
pub struct ProxmoxConfig {
    pub host: String,
    pub node: String,
}

/// The guest network.
#[derive(Debug, Clone)]
pub struct NetworkConfig {
    pub bridge: String,
    pub gateway: String,
    pub subnet: u8,
}

/// Default CPU cores of a new LXC guest.
pub fn default_cores() -> (r: String)
    ensures
        r@ == "2"@,
{
    String::from_str("2")
}

/// Default memory (MB) of a new LXC guest.
pub fn default_memory() -> (r: String)
    ensures
        r@ == "2048"@,
{
    String::from_str("2048")
}

/// Default disk size (GB) of a new LXC guest.
pub fn default_disk() -> (r: String)
    ensures
        r@ == "8"@,
{
    String::from_str("8")
}

/// Default template of a new LXC guest.
pub fn default_template() -> (r: String)
    ensures
        r@ == "debian-13"@,
{
    String::from_str("debian-13")
}

/// Default storage of a new LXC guest.
pub fn default_storage() -> (r: String)
    ensures
        r@ == "local-lvm"@,
{
    String::from_str("local-lvm")
}

/// Default bridge of a new LXC guest.
pub fn default_bridge() -> (r: String)
    ensures
        r@ == "vmbr1"@,
{
    String::from_str("vmbr1")
}

/// The subnet prefix length a configuration file gets when it leaves it out.
pub fn default_subnet() -> (r: u8)
    ensures
        r == 16,
{
    16
}

impl Default for LxcConfig {
    fn default() -> (r: LxcConfig)
        ensures
            r.cores@ == "2"@,
            r.memory@ == "2048"@,
            r.disk@ == "8"@,
            r.template@ == "debian-13"@,
            r.storage@ == "local-lvm"@,
            r.bridge@ == "vmbr1"@,
    {
        LxcConfig {
            cores: default_cores(),
            memory: default_memory(),
            disk: default_disk(),
            template: default_template(),
            storage: default_storage(),
            bridge: default_bridge(),
        }
    }
}

impl Default for ProxmoxConfig {
    fn default() -> (r: ProxmoxConfig)
        ensures
            r.host@.len() == 0,
            r.node@.len() == 0,
    {
        ProxmoxConfig { host: String::new(), node: String::new() }
    }
}

impl Default for NetworkConfig {
    /// The in-code default: empty names and a subnet of 0 (a file that omits `subnet`
    /// gets [`default_subnet`] instead).
    fn default() -> (r: NetworkConfig)
        ensures
            r.bridge@.len() == 0,
            r.gateway@.len() == 0,
            r.subnet == 0,
    {
        NetworkConfig { bridge: String::new(), gateway: String::new(), subnet: 0 }
    }
}

impl Default for Config {
    fn default() -> (r: Config)
        ensures
            r.proxmox.host@.len() == 0,
            r.proxmox.node@.len() == 0,
            r.network.bridge@.len() == 0,
            r.network.gateway@.len() == 0,
            r.network.subnet == 0,
            r.lxc.cores@ == "2"@,
            r.lxc.memory@ == "2048"@,
            r.lxc.disk@ == "8"@,
            r.lxc.template@ == "debian-13"@,
            r.lxc.storage@ == "local-lvm"@,
            r.lxc.bridge@ == "vmbr1"@,
    {
        Config {
            proxmox: ProxmoxConfig::default(),
            network: NetworkConfig::default(),
            lxc: LxcConfig::default(),
        }
    }
}

/// Why the configuration file could not be used.
#[derive(Debug, Clone)]
pub enum ConfigError {
    /// The file exists but could not be read.
    Read { path: String, message: String },
    /// The file is not valid TOML for a configuration.
    Parse { path: String, message: String },
}

impl Config {
    /// The loading rule: no file gives the defaults; a file that exists decides alone, so a
    /// read or parse failure is an error rather than a silent fall back to the defaults.
    pub fn from_file(found: Option<Result<Config, ConfigError>>) -> (r: Result<Config, ConfigError>)
        ensures
            match found {
                Some(f) => r == f,
                None => r matches Ok(c) && c.network.subnet == 0 && c.lxc.cores@ == "2"@
                    && c.lxc.memory@ == "2048"@ && c.lxc.disk@ == "8"@ && c.lxc.template@
                    == "debian-13"@ && c.lxc.storage@ == "local-lvm"@ && c.lxc.bridge@
                    == "vmbr1"@ && c.proxmox.host@.len() == 0 && c.proxmox.node@.len() == 0
                    && c.network.bridge@.len() == 0 && c.network.gateway@.len() == 0,
            },
    {
        match found {
            Some(f) => f,
            None => Ok(Config::default()),
        }
    }
}

} // verus!
