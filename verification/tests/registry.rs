//! Domain registry: listing order, version check, loading tiers.

use pxi_core::registry::{
    binary_name, default_true, known_domains, Domain, Registry, RegistryError, Tags,
};

fn domain(name: &str, enabled: bool) -> Domain {
    Domain {
        name: name.to_string(),
        description: format!("{name} domain"),
        tags: Tags::default(),
        requires: vec![],
        provides: vec![],
        enabled,
    }
}

fn registry(entries: Vec<(&str, Domain)>) -> Registry {
    Registry {
        format_version: 1,
        domains: entries.into_iter().map(|(k, d)| (k.to_string(), d)).collect(),
    }
}

#[test]
fn available_and_planned_sorted_by_name() {
    let reg = registry(vec![
        ("a", domain("zeta", true)),
        ("b", domain("alpha", false)),
        ("c", domain("mail", true)),
        ("d", domain("beta", true)),
        ("e", domain("gamma", false)),
    ]);
    let avail: Vec<&str> = reg.available().iter().map(|d| d.name.as_str()).collect();
    assert_eq!(avail, vec!["beta", "mail", "zeta"]);
    let planned: Vec<&str> = reg.planned().iter().map(|d| d.name.as_str()).collect();
    assert_eq!(planned, vec!["alpha", "gamma"]);
}

#[test]
fn equal_names_keep_key_order() {
    let mut first = domain("same", true);
    first.description = "first".into();
    let mut second = domain("same", true);
    second.description = "second".into();
    let reg = registry(vec![("k1", first), ("k2", domain("aaa", true)), ("k3", second)]);
    let descs: Vec<&str> = reg.available().iter().map(|d| d.description.as_str()).collect();
    assert_eq!(descs, vec!["aaa domain", "first", "second"]);
}

#[test]
fn empty_registry_lists_nothing() {
    let reg = registry(vec![]);
    assert!(reg.available().is_empty());
    assert!(reg.planned().is_empty());
}

#[test]
fn version_check() {
    let ok = Registry::parse_with_version(Ok(registry(vec![])), "<embedded>");
    assert!(ok.is_ok());
    let mut v2 = registry(vec![]);
    v2.format_version = 2;
    match Registry::parse_with_version(Ok(v2), "/x/locale.json") {
        Err(RegistryError::UnsupportedVersion { source, found }) => {
            assert_eq!(source, "/x/locale.json");
            assert_eq!(found, 2);
        }
        other => panic!("unexpected {other:?}"),
    }
    match Registry::parse_with_version(Err("eof".into()), "<embedded>") {
        Err(RegistryError::Json { source, message }) => {
            assert_eq!(source, "<embedded>");
            assert_eq!(message, "eof");
        }
        other => panic!("unexpected {other:?}"),
    }
}

#[test]
fn loading_tiers() {
    let file = Some(Err(RegistryError::Read { source: "f".into(), message: "denied".into() }));
    assert!(matches!(
        Registry::from_tiers(file, Ok(registry(vec![]))),
        Err(RegistryError::Read { .. })
    ));
    let from_embedded = Registry::from_tiers(None, Ok(registry(vec![("a", domain("a", true))])));
    assert_eq!(from_embedded.unwrap().domains.len(), 1);
    assert!(matches!(
        Registry::from_tiers(None, Err(RegistryError::Missing)),
        Err(RegistryError::Missing)
    ));
    let v2 = Registry::parse_with_version(
        Ok(Registry { format_version: 2, domains: vec![] }),
        "<embedded>",
    );
    assert!(matches!(Registry::from_tiers(None, v2), Err(RegistryError::Missing)));
}

#[test]
fn legacy_names() {
    let known = known_domains();
    assert_eq!(known.len(), 2);
    assert_eq!(known[0].0, "code-server");
    assert_eq!(known[1].0, "wordpress");
    assert_eq!(binary_name("elk"), "pxi-elk");
    assert!(default_true());
}

#[test]
fn inserts_keep_each_key_once_in_order() {
    let mut reg = Registry::new(1);
    reg.insert_domain("mail".to_string(), domain("mail", true));
    reg.insert_domain("alpha".to_string(), domain("alpha", false));
    reg.insert_domain("zeta".to_string(), domain("zeta", true));
    let mut replacement = domain("mail", false);
    replacement.description = "replaced".into();
    reg.insert_domain("mail".to_string(), replacement);
    let keys: Vec<&str> = reg.domains.iter().map(|(k, _)| k.as_str()).collect();
    assert_eq!(keys, vec!["alpha", "mail", "zeta"]);
    assert_eq!(reg.domains[1].1.description, "replaced");
    assert_eq!(reg.format_version, 1);
    let planned: Vec<&str> = reg.planned().iter().map(|d| d.name.as_str()).collect();
    assert_eq!(planned, vec!["alpha", "mail"]);
}
