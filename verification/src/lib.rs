//! Verified core of the pxi Proxmox/LXC tooling: naming conventions,
//! configuration defaults, domain and service registries, and the parsers
//! for the command outputs that the domain tools read.

pub mod text;
pub mod keyed;
pub mod vm;
pub mod brand;
pub mod registry;
pub mod convention;
pub mod services;
pub mod common;
pub mod config;
pub mod disk;
pub mod fstab;
pub mod envfile;
pub mod vaultwarden;
pub mod nas;
pub mod workspace;
