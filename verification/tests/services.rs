//! Service registry lookups and the address convention.

use pxi_core::convention::{canonical_ip, ConventionError};
use pxi_core::services::{
    canonical_ip_for, registry_file, vmid_for, ServiceEntry, ServicesError, ServicesRegistry,
    CONTROL_PLANE_REGISTRY, SYSTEM_REGISTRY,
};

fn reg() -> ServicesRegistry {
    ServicesRegistry {
        services: vec![
            ("mail".to_string(), ServiceEntry { vmid: "50122".into(), description: "relay".into() }),
            ("vault".to_string(), ServiceEntry { vmid: "50118".into(), description: String::new() }),
            ("odd".to_string(), ServiceEntry { vmid: "abc".into(), description: String::new() }),
        ],
    }
}

#[test]
fn vmid_lookup() {
    assert_eq!(reg().vmid_for("vault").unwrap(), "50118");
    match reg().vmid_for("nope") {
        Err(ServicesError::UnknownAlias { alias }) => assert_eq!(alias, "nope"),
        other => panic!("unexpected {other:?}"),
    }
    assert_eq!(vmid_for(Ok(reg()), "mail").unwrap(), "50122");
    assert!(matches!(vmid_for(Err(ServicesError::NotFound), "mail"), Err(ServicesError::NotFound)));
    assert!(ServicesRegistry::default().vmid_for("mail").is_err());
}

#[test]
fn canonical_addresses() {
    assert_eq!(canonical_ip("50210").unwrap(), "10.0.50.210");
    assert_eq!(canonical_ip("50063").unwrap(), "10.0.50.63");
    assert!(matches!(canonical_ip("+50210"), Err(ConventionError::NotAVmid { .. })));
    assert!(canonical_ip("50300").is_err());
    assert!(canonical_ip("300000").is_err());
    assert!(canonical_ip("").is_err());
    assert!(canonical_ip("99999999999999999999999").is_err());
    assert_eq!(reg().canonical_ip("vault").unwrap(), "10.0.50.118");
    assert!(matches!(reg().canonical_ip("odd"), Err(ServicesError::Convention(_))));
    assert_eq!(canonical_ip_for(Ok(reg()), "mail").unwrap(), "10.0.50.122");
}

#[test]
fn inserts_keep_each_alias_once() {
    let mut r = ServicesRegistry::new();
    r.insert("mail".to_string(), ServiceEntry { vmid: "50122".into(), description: String::new() });
    r.insert("vault".to_string(), ServiceEntry { vmid: "50118".into(), description: String::new() });
    r.insert("mail".to_string(), ServiceEntry { vmid: "50123".into(), description: "moved".into() });
    assert_eq!(r.services.len(), 2);
    assert_eq!(r.vmid_for("mail").unwrap(), "50123");
    assert_eq!(r.vmid_for("vault").unwrap(), "50118");
    assert!(r.vmid_for("gitlab").is_err());
}

#[test]
fn registry_file_order() {
    assert_eq!(registry_file(true, true), Some(CONTROL_PLANE_REGISTRY));
    assert_eq!(registry_file(true, false), Some("/root/control-plane/config/services_registry.toml"));
    assert_eq!(registry_file(false, true), Some("/etc/pxi/services_registry.toml"));
    assert_eq!(registry_file(false, false), None);
    assert_eq!(SYSTEM_REGISTRY, "/etc/pxi/services_registry.toml");
}
