//! Configuration defaults and the loading rule; brand names and paths.

use pxi_core::brand::paths::{config_dir, config_root, data_root, join_path, user_config_dir};
use pxi_core::brand::{bin_name, domain_bin, BIN_PREFIX, SHORT};
use pxi_core::config::{
    default_bridge, default_cores, default_disk, default_memory, default_storage,
    default_subnet, default_template, Config, ConfigError, LxcConfig, NetworkConfig,
};

#[test]
fn lxc_defaults() {
    let l = LxcConfig::default();
    assert_eq!(
        (l.cores.as_str(), l.memory.as_str(), l.disk.as_str()),
        ("2", "2048", "8")
    );
    assert_eq!(
        (l.template.as_str(), l.storage.as_str(), l.bridge.as_str()),
        ("debian-13", "local-lvm", "vmbr1")
    );
    assert_eq!(default_cores(), "2");
    assert_eq!(default_memory(), "2048");
    assert_eq!(default_disk(), "8");
    assert_eq!(default_template(), "debian-13");
    assert_eq!(default_storage(), "local-lvm");
    assert_eq!(default_bridge(), "vmbr1");
    assert_eq!(default_subnet(), 16);
    assert_eq!(NetworkConfig::default().subnet, 0);
}

#[test]
fn load_rule() {
    let c = Config::from_file(None).unwrap();
    assert_eq!(c.lxc.template, "debian-13");
    assert_eq!(c.proxmox.host, "");
    let err = Config::from_file(Some(Err(ConfigError::Parse {
        path: "/etc/pxi/config.toml".into(),
        message: "bad".into(),
    })));
    assert!(matches!(err, Err(ConfigError::Parse { .. })));
    let mut custom = Config::default();
    custom.network.subnet = 24;
    assert_eq!(Config::from_file(Some(Ok(custom))).unwrap().network.subnet, 24);
}

#[test]
fn names_and_paths() {
    assert_eq!(SHORT, "pxi");
    assert_eq!(BIN_PREFIX, "pxi");
    assert_eq!(domain_bin("telegram"), "pxi-telegram");
    assert_eq!(bin_name("elk"), "pxi-elk");
    assert_eq!(config_root(), "/etc/pxi");
    assert_eq!(data_root(), "/var/lib/pxi");
    assert_eq!(join_path("/home/u", "pxi"), "/home/u/pxi");
    assert_eq!(join_path("/home/u/", "pxi"), "/home/u/pxi");
    assert_eq!(join_path("", "pxi"), "pxi");
    assert_eq!(join_path("/a", "/b"), "/b");
    assert_eq!(user_config_dir("/root"), "/root/.config/pxi");
}

#[test]
fn config_dir_choice() {
    assert_eq!(config_dir(Some("/x/cfg"), Some("/root"), true), "/x/cfg/pxi");
    assert_eq!(config_dir(None, Some("/root"), true), "/root/.config/pxi");
    assert_eq!(config_dir(None, Some("/root"), false), "/etc/pxi");
    assert_eq!(config_dir(None, None, true), "/etc/pxi");
}
