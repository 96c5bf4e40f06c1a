//! Commands, disk sizing, fstab entries, NAS mounts and the workspace hooks.

use pxi_core::common::{
    capture_result, command_exists, ensure_lxc_running, has_cmd, lxc_start_if_stopped,
    pct_exec, pct_exec_passthrough, run, run_bash, run_capture, run_str, status_result,
    CommandError,
};
use pxi_core::disk::{
    fstab_with_swap, lv_path, lvcreate_size, next_swap_lv_name, parse_gib, parse_gib_upper,
    resize_root_steps, swap_expansion_steps,
    swap_shortfall, swap_total_bytes, DiskError, GibError, GIB_BYTES,
};
use pxi_core::fstab::append_line;
use pxi_core::nas::{
    credentials_file, credentials_path, nfs_fstab_line, nfs_source, safe_name, smb_fstab_line,
    sanitize_classified, smb_options, smb_source, smb_user, NasError,
};
use pxi_core::workspace::{bashrc_with_source, tmux_backup_name, SOURCE_LINE};

#[test]
fn invocations() {
    let r = run("qm", &["start", "100"]);
    assert_eq!((r.program.as_str(), r.args.clone(), r.capture), ("qm", vec!["start".to_string(), "100".to_string()], false));
    assert!(run_capture("qm", &["list"]).capture);
    assert!(run_str("qm", &["list"]).capture);
    let p = command_exists("tmux");
    assert_eq!((p.program.as_str(), p.args.clone()), ("which", vec!["tmux".to_string()]));
    assert_eq!(has_cmd("qm").args, vec!["qm".to_string()]);
    let b = run_bash("tmux ls | wc -l");
    assert_eq!(b.program, "bash");
    assert_eq!(b.args, vec!["-lc".to_string(), "tmux ls | wc -l".to_string()]);
    let e = pct_exec("50118", &["systemctl", "is-active", "vaultwarden"]);
    assert_eq!(e.args, vec!["exec", "50118", "--", "systemctl", "is-active", "vaultwarden"]);
    assert!(e.capture);
    assert!(!pct_exec_passthrough("100", &["bash"]).capture);
    assert_eq!(ensure_lxc_running("100").args, vec!["status", "100"]);
}

#[test]
fn lxc_start_decision() {
    assert!(lxc_start_if_stopped("100", "status: running").is_none());
    let s = lxc_start_if_stopped("100", "status: stopped").unwrap();
    assert_eq!((s.program.as_str(), s.args.clone()), ("pct", vec!["start".to_string(), "100".to_string()]));
}

#[test]
fn command_outcomes() {
    assert_eq!(capture_result("qm", true, "  out\n", "").unwrap(), "out");
    match capture_result("qm", false, "", "boom") {
        Err(CommandError::Failed { program, detail }) => {
            assert_eq!(program, "qm");
            assert_eq!(detail, "boom");
        }
        other => panic!("unexpected {other:?}"),
    }
    assert!(status_result("qm", true, "").is_ok());
    assert!(status_result("qm", false, "exit status: 1").is_err());
}

#[test]
fn gib_sizes() {
    assert_eq!(parse_gib("40G"), Ok(40));
    assert_eq!(parse_gib(" 40gb "), Ok(40));
    assert_eq!(parse_gib("40GiB"), Ok(40));
    assert_eq!(parse_gib("40 g"), Ok(40));
    assert_eq!(parse_gib("40"), Err(GibError::MissingUnit));
    assert_eq!(parse_gib("xG"), Err(GibError::InvalidNumber));
    assert_eq!(parse_gib_upper("12GIB"), Ok(12));
}

#[test]
fn swap_planning() {
    assert_eq!(swap_total_bytes("8589934592\n\n  4294967296 \nNAME\n"), Some(12884901888));
    assert_eq!(swap_total_bytes(""), Some(0));
    assert_eq!(swap_total_bytes("18446744073709551615\n1\n"), None);
    assert_eq!(swap_shortfall(8 * GIB_BYTES + 5, 40), Some(32));
    assert_eq!(swap_shortfall(40 * GIB_BYTES, 40), None);
    assert_eq!(lvcreate_size(32), "32G");
    assert_eq!(lv_path("pve", "swap2"), "/dev/pve/swap2");
}

#[test]
fn swap_volume_names() {
    assert_eq!(next_swap_lv_name("  root\n  swap\n  data\n").unwrap(), "swap2");
    assert_eq!(next_swap_lv_name("swap2\n swap3 \n").unwrap(), "swap4");
    let all: String = (2..=99).map(|i| format!("  swap{i}\n")).collect();
    assert_eq!(next_swap_lv_name(&all), Err(DiskError::NoFreeSwapName));
}

#[test]
fn fstab_entries() {
    assert_eq!(append_line("", "x"), "x\n");
    assert_eq!(append_line("a\n", "x"), "a\nx\n");
    assert_eq!(append_line("a", "x"), "a\nx\n");
    let once = fstab_with_swap("UUID=1 / ext4 defaults 0 1", "/dev/pve/swap2").unwrap();
    assert_eq!(once, "UUID=1 / ext4 defaults 0 1\n/dev/pve/swap2 none swap sw 0 0\n");
    assert!(fstab_with_swap(&once, "/dev/pve/swap2").is_none());
}

#[test]
fn nas_mount_pieces() {
    assert_eq!(safe_name("192.168.1.10", "media share"), "192_168_1_10_media_share");
    assert_eq!(safe_name("nas", "사진"), "nas_사진");
    assert_eq!(safe_name("nas.local", "x"), "nas_local_x");
    assert_eq!(
        sanitize_classified(&[('a', true), ('.', false), ('_', false), ('é', true), ('-', true)]),
        "a__é-"
    );
    assert_eq!(credentials_path("nas", "a-b"), "/etc/cifs-credentials/nas_a_b");
    assert_eq!(credentials_file("u", ""), "username=u\n");
    assert_eq!(credentials_file("u", "p"), "username=u\npassword=p\n");
    let src = smb_source("nas", "media");
    assert_eq!(src, "//nas/media");
    let opts = smb_options("/etc/cifs-credentials/nas_media");
    assert_eq!(opts, "credentials=/etc/cifs-credentials/nas_media,vers=3.0,iocharset=utf8,_netdev,nofail");
    assert_eq!(smb_fstab_line(&src, "/mnt/nas", &opts), format!("//nas/media /mnt/nas cifs {opts} 0 0"));
    let n = nfs_source("nas", "/export");
    assert_eq!(n, "nas:/export");
    assert_eq!(nfs_fstab_line(&n, "/mnt/n"), "nas:/export /mnt/n nfs _netdev,nofail 0 0");
    assert_eq!(smb_user(Some("admin"), "env"), Ok("admin".to_string()));
    assert_eq!(smb_user(None, "env"), Ok("env".to_string()));
    assert_eq!(smb_user(None, ""), Err(NasError::MissingUser));
    assert_eq!(smb_user(Some(""), "env"), Err(NasError::MissingUser));
}

#[test]
fn workspace_hooks() {
    let added = bashrc_with_source("export A=1").unwrap();
    assert_eq!(added, format!("export A=1\n# prelik-workspace\n{SOURCE_LINE}\n"));
    assert!(bashrc_with_source(&added).is_none());
    assert_eq!(tmux_backup_name("20250101-120000\n"), ".tmux.conf.prelik-backup-20250101-120000");
}

#[test]
fn disk_steps_and_dry_run() {
    assert!(resize_root_steps("+15G", "pve", true).is_empty());
    let r = resize_root_steps("+15G", "pve", false);
    assert_eq!(r.len(), 2);
    assert_eq!((r[0].program.as_str(), r[0].args.clone()), ("lvextend", vec!["-L".to_string(), "+15G".into(), "/dev/pve/root".into()]));
    assert_eq!((r[1].program.as_str(), r[1].args.clone()), ("resize2fs", vec!["/dev/pve/root".to_string()]));
    assert!(!r[0].capture && !r[1].capture);
    assert!(swap_expansion_steps("pve", "swap2", 8, true).is_empty());
    let s = swap_expansion_steps("pve", "swap2", 8, false);
    let got: Vec<(String, Vec<String>)> = s.iter().map(|i| (i.program.clone(), i.args.clone())).collect();
    assert_eq!(got, vec![
        ("lvcreate".to_string(), vec!["-L".to_string(), "8G".into(), "-n".into(), "swap2".into(), "pve".into()]),
        ("mkswap".to_string(), vec!["/dev/pve/swap2".to_string()]),
        ("swapon".to_string(), vec!["/dev/pve/swap2".to_string()]),
    ]);
}
