//! The `qm list` and `qm status` parsers.

use pxi_core::vm::{parse_qm_list, parse_qm_status, VmRow};

// ----- parse_qm_list -----

#[test]
fn list_running_with_pid() {
    let text = "VMID NAME STATUS MEM(MB) BOOTDISK(GB) PID\n\
                100 web running 2048 32 1234\n";
    let rows = parse_qm_list(text).unwrap();
    assert_eq!(rows.len(), 1);
    assert_eq!(rows[0], VmRow {
        vmid: "100".into(), name: "web".into(), status: "running".into(),
        mem_mb: "2048".into(), disk_gb: "32".into(), pid: Some("1234".into()),
    });
}

#[test]
fn list_stopped_pid_zero_normalized_to_none() {
    let text = "VMID NAME STATUS MEM DISK PID\n\
                101 db stopped 4096 64 0\n";
    let rows = parse_qm_list(text).unwrap();
    assert_eq!(rows[0].pid, None);
}

#[test]
fn list_5_columns_no_pid() {
    // qm이 PID 컬럼 자체를 생략하는 경우 (오래된 출력)
    let text = "VMID NAME STATUS MEM DISK\n\
                102 stopped-vm stopped 1024 8\n";
    let rows = parse_qm_list(text).unwrap();
    assert_eq!(rows[0].pid, None);
    assert_eq!(rows[0].name, "stopped-vm");
}

#[test]
fn list_skips_empty_lines() {
    let text = "VMID NAME STATUS MEM DISK PID\n\
                100 a running 2048 32 1\n\
                \n\
                101 b stopped 4096 64 0\n";
    assert_eq!(parse_qm_list(text).unwrap().len(), 2);
}

#[test]
fn list_fails_on_too_few_columns() {
    let text = "VMID NAME STATUS MEM\n\
                100 a running 2048\n";
    assert!(parse_qm_list(text).is_err());
}

#[test]
fn list_fails_on_too_many_columns() {
    let text = "VMID NAME STATUS MEM DISK PID EXTRA\n\
                100 a running 2048 32 1234 x\n";
    assert!(parse_qm_list(text).is_err());
}

#[test]
fn list_only_header_returns_empty() {
    assert!(parse_qm_list("VMID NAME STATUS MEM DISK PID").unwrap().is_empty());
}

#[test]
fn list_fails_on_unknown_status() {
    // status whitelist 위반 — qm이 'unknown'을 emit하면 (LXC 전용 fallback)
    // VM 도메인에선 거부해야 함. status JSON 경로와 동일 계약.
    let text = "VMID NAME STATUS MEM DISK PID\n\
                100 web unknown 2048 32 0\n";
    assert!(parse_qm_list(text).is_err());
}

#[test]
fn list_fails_on_drifted_status() {
    let text = "VMID NAME STATUS MEM DISK PID\n\
                100 web RUNNING 2048 32 0\n"; // 대문자
    assert!(parse_qm_list(text).is_err());
}

// ----- parse_qm_status -----

#[test]
fn status_running() {
    assert_eq!(parse_qm_status("status: running\n").unwrap(), "running");
}

#[test]
fn status_paused() {
    assert_eq!(parse_qm_status("status: paused\n").unwrap(), "paused");
}

#[test]
fn status_suspended() {
    assert_eq!(parse_qm_status("status: suspended\n").unwrap(), "suspended");
}

#[test]
fn status_prelaunch() {
    assert_eq!(parse_qm_status("status: prelaunch\n").unwrap(), "prelaunch");
}

#[test]
fn status_stopped_no_trailing_newline() {
    assert_eq!(parse_qm_status("status: stopped").unwrap(), "stopped");
}

#[test]
fn status_rejects_extra_lines() {
    assert!(parse_qm_status("status: running\nwarning: x\n").is_err());
}

#[test]
fn status_rejects_missing_prefix() {
    assert!(parse_qm_status("state: running\n").is_err());
    assert!(parse_qm_status(" status: running\n").is_err());
}

#[test]
fn status_rejects_value_drift() {
    assert!(parse_qm_status("status: \n").is_err());
    assert!(parse_qm_status("status:  running\n").is_err());
    assert!(parse_qm_status("status: running \n").is_err());
    assert!(parse_qm_status("status: unknown\n").is_err()); // qm은 unknown 안 emit (LXC 전용)
}
