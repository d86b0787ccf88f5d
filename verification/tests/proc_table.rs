//! Live processes, as the kernel reported them.

use cfc_daemon::ebpf::proc_table::{
    ExecEvent, KernelProc, KernelProcTable, ENTRY_TTL_SECS, MAX_ENTRIES,
};

const SEC: u64 = 1_000_000_000;
const COMM_LEN: usize = 16;
const FILENAME_LEN: usize = 256;

fn zeroed() -> ExecEvent {
    ExecEvent {
        pid: 0,
        ppid: 0,
        uid: 0,
        gid: 0,
        comm: vec![0; COMM_LEN],
        filename: vec![0; FILENAME_LEN],
        filename_len: 0,
    }
}

fn exec(pid: u32, exe: &str, uid: u32, ppid: u32) -> ExecEvent {
    let mut e = zeroed();
    e.pid = pid;
    e.ppid = ppid;
    e.uid = uid;
    e.gid = uid;
    let comm = exe.rsplit('/').next().unwrap_or(exe).as_bytes();
    let n = comm.len().min(COMM_LEN - 1);
    e.comm[..n].copy_from_slice(&comm[..n]);
    let path = exe.as_bytes();
    let n = path.len().min(FILENAME_LEN);
    e.filename[..n].copy_from_slice(&path[..n]);
    e.filename_len = n as u16;
    e
}

fn live_table() -> (KernelProcTable, u64) {
    let mut t = KernelProcTable::new();
    t.set_live(true);
    (t, 1_000 * SEC)
}

#[test]
fn a_table_that_is_not_live_never_answers() {
    let mut t = KernelProcTable::new();
    let now = 1_000 * SEC;
    t.observe_exec(&exec(42, "/usr/bin/curl", 1000, 1), Some(500), now);
    assert_eq!(t.len(), 1, "events are still recorded");
    assert!(
        t.get(42, Some(500), now).is_none(),
        "but nothing is served until the tracepoint is attached"
    );
    t.set_live(true);
    assert!(t.get(42, Some(500), now).is_some());
}

#[test]
fn insert_and_lookup_round_trip() {
    let (mut t, now) = live_table();
    t.observe_exec(&exec(42, "/usr/bin/curl", 1000, 7), Some(500), now);
    let p = t.get(42, Some(500), now).unwrap();
    assert_eq!(p.pid, 42);
    assert_eq!(p.uid, 1000);
    assert_eq!(p.gid, 1000);
    assert_eq!(p.ppid, Some(7));
    assert_eq!(p.exe, "/usr/bin/curl");
    assert_eq!(p.comm, "curl");
    assert_eq!(p.absolute_exe(), Some("/usr/bin/curl"));
}

#[test]
fn ppid_zero_means_unknown_not_pid_zero() {
    let (mut t, now) = live_table();
    t.observe_exec(&exec(42, "/usr/bin/curl", 0, 0), None, now);
    assert_eq!(t.get(42, None, now).unwrap().ppid, None);
}

#[test]
fn relative_exec_paths_are_kept_but_not_offered_as_absolute() {
    let (mut t, now) = live_table();
    t.observe_exec(&exec(42, "./configure", 1000, 1), None, now);
    let p = t.get(42, None, now).unwrap();
    assert_eq!(p.exe, "./configure");
    assert_eq!(p.absolute_exe(), None);
}

#[test]
fn a_zero_length_filename_yields_no_path_not_a_stale_one() {
    let mut e = exec(42, "/usr/bin/curl", 1000, 1);
    e.filename_len = 0;

    let p = KernelProc::from_event(&e);
    assert_eq!(
        p.exe,
        "",
        "a stale buffer must not become a path"
    );
    assert_eq!(
        p.absolute_exe(),
        None,
        "and must never reach rule evaluation"
    );
    assert_eq!(p.pid, 42);
    assert_eq!(p.uid, 1000);
}

#[test]
fn exit_evicts() {
    let (mut t, now) = live_table();
    t.observe_exec(&exec(42, "/usr/bin/curl", 1000, 1), Some(500), now);
    t.observe_exit(42);
    assert!(t.get(42, Some(500), now).is_none());
    assert!(t.is_empty());
}

#[test]
fn exit_of_another_pid_is_harmless() {
    let (mut t, now) = live_table();
    t.observe_exec(&exec(42, "/usr/bin/curl", 1000, 1), Some(500), now);
    t.observe_exit(43);
    assert!(t.get(42, Some(500), now).is_some());
}

#[test]
fn a_second_exec_replaces_the_first() {
    let (mut t, now) = live_table();
    t.observe_exec(&exec(42, "/bin/sh", 1000, 1), Some(500), now);
    t.observe_exec(&exec(42, "/usr/bin/curl", 1000, 1), Some(500), now);
    assert_eq!(t.len(), 1);
    assert_eq!(
        t.get(42, Some(500), now).unwrap().exe,
        "/usr/bin/curl"
    );
}

#[test]
fn pid_reuse_is_rejected_by_start_time() {
    let (mut t, now) = live_table();
    t.observe_exec(&exec(42, "/usr/bin/curl", 1000, 1), Some(500), now);
    assert!(t.get(42, Some(999), now).is_none());
    assert!(t.is_empty(), "the stale entry is evicted, not just skipped");
}

#[test]
fn pid_reuse_is_caught_even_when_the_exec_consumer_lost_the_race() {
    let (mut t, now) = live_table();
    t.observe_exec(&exec(42, "/usr/bin/curl", 1000, 1), None, now);
    assert!(t.get(42, Some(500), now).is_some());
    assert!(t.get(42, Some(500), now).is_some());
    assert!(t.get(42, Some(999), now).is_none());
}

#[test]
fn a_dead_process_is_still_named() {
    let (mut t, now) = live_table();
    t.observe_exec(&exec(42, "/usr/bin/curl", 1000, 1), Some(500), now);
    assert_eq!(
        t.get(42, None, now).unwrap().exe,
        "/usr/bin/curl"
    );
}

#[test]
fn entries_expire_after_the_ttl() {
    let (mut t, now) = live_table();
    t.observe_exec(&exec(42, "/usr/bin/curl", 1000, 1), Some(500), now);
    assert!(t.get(42, Some(500), now + ENTRY_TTL_SECS * SEC).is_some());
    assert!(t
        .get(42, Some(500), now + ENTRY_TTL_SECS * SEC + SEC)
        .is_none());
    assert!(t.is_empty(), "expiry drops the entry");
}

#[test]
fn the_table_is_bounded_and_evicts_the_oldest() {
    let (mut t, now) = live_table();
    for pid in 0..MAX_ENTRIES as u32 + 16 {
        t.observe_exec(
            &exec(pid, "/usr/bin/curl", 1000, 1),
            Some(u64::from(pid)),
            now + u64::from(pid) * 1_000_000,
        );
    }
    assert!(t.len() <= MAX_ENTRIES, "len {} > cap", t.len());
    let last = MAX_ENTRIES as u32 + 15;
    assert!(
        t.get(last, Some(u64::from(last)), now).is_some(),
        "the newest entry survives"
    );
    assert!(
        t.get(0, Some(0), now).is_none(),
        "the oldest entry was evicted"
    );
}

#[test]
fn truncated_and_untrusted_event_fields_do_not_panic() {
    let (mut t, now) = live_table();
    let mut e = zeroed();
    e.pid = 1;
    e.filename[..4].copy_from_slice(&[b'/', 0xff, 0xfe, 0]);
    e.filename_len = u16::MAX;
    e.comm[..2].copy_from_slice(&[0xff, 0]);
    t.observe_exec(&e, None, now);
    let p = t.get(1, None, now).unwrap();
    assert!(p.exe.contains('\u{fffd}'));
}

#[test]
fn the_list_of_live_processes_leaves_out_what_expired() {
    let (mut t, now) = live_table();
    t.observe_exec(&exec(1, "/usr/bin/a", 1000, 1), Some(1), now);
    t.observe_exec(&exec(2, "/usr/bin/b", 1000, 1), Some(2), now + 10 * SEC);
    assert_eq!(t.live_processes(now + 10 * SEC).len(), 2);
    let late = t.live_processes(now + ENTRY_TTL_SECS * SEC + SEC);
    assert_eq!(late.len(), 1);
    assert_eq!(late[0].pid, 2);
}
