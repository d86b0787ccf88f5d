//! Loading the object and attaching its programs.

use cfc_daemon::dns_wire::answers;
use cfc_daemon::ebpf::btf::TaskStructOffsets;
use cfc_daemon::ebpf::enforce::EnforceStats;
use cfc_daemon::ebpf::loader::{
    classify_load, classify_verify, decode, dir_is_safe, dns_attach_error, dns_record,
    exec_process, exec_record, file_is_safe, is_missing, pid_record, vet_object, Failure, Inode,
    LoadEvent, LoadRun, LoadStage, ReadOutcome, SweepOutcome, ABSENT, EEXIST,
};
use cfc_daemon::ebpf::proc_table::ExecEvent;
use cfc_daemon::ebpf::tracefs::Resolution;
use cfc_daemon::model::IpAddr;
use cfc_daemon::ebpf::{Degrade, Enforcement, ExecOffset, Trust};

fn failure(text: &str, errno: Option<i32>) -> Failure {
    Failure { text: text.to_string(), errno }
}

fn inode(path: &str, uid: u32, mode: u32) -> Inode {
    Inode { path: path.to_string(), regular: mode & 0o100000 != 0, uid, mode }
}

#[test]
fn only_root_owned_unwritable_files_are_trusted() {
    assert!(
        file_is_safe(0, 0o100644),
        "root:root 0644 is the target case"
    );
    assert!(file_is_safe(0, 0o100600));
    assert!(
        !file_is_safe(1000, 0o100644),
        "a user-owned object is not ours"
    );
    assert!(
        !file_is_safe(0, 0o100664),
        "group-writable lets the group swap it"
    );
    assert!(
        !file_is_safe(0, 0o100666),
        "world-writable lets anyone swap it"
    );
    assert!(!file_is_safe(0, 0o101666));
}

#[test]
fn sticky_root_directories_are_trusted_but_plain_writable_ones_are_not() {
    assert!(dir_is_safe(0, 0o040755));
    assert!(
        dir_is_safe(0, 0o041777),
        "/tmp: world-writable but sticky, so a non-root user still cannot \
         rename root's files"
    );
    assert!(
        !dir_is_safe(0, 0o040777),
        "world-writable without sticky is a rename away from a swapped object"
    );
    assert!(
        !dir_is_safe(1000, 0o040755),
        "a user-owned parent is enough"
    );
    assert!(!dir_is_safe(0, 0o040775), "group-writable counts too");
}

#[test]
fn vetting_names_what_is_wrong() {
    let file = inode("/usr/lib/o", 0, 0o100644);
    let good = vec![inode("/usr/lib", 0, 0o040755), inode("/usr", 0, 0o040755)];
    assert!(vet_object(&file, &good).is_ok());
    let e = vet_object(&inode("/usr/lib/o", 1000, 0o100666), &good).unwrap_err();
    assert_eq!(
        e,
        "/usr/lib/o is uid 1000 mode 666; a BPF object must be root-owned and writable only by root"
    );
    let bad = vec![inode("/usr/lib", 0, 0o040755), inode("/usr", 7, 0o041777)];
    let e = vet_object(&file, &bad).unwrap_err();
    assert_eq!(
        e,
        "/usr/lib/o lies under /usr, which is uid 7 mode 1777; a non-root user could replace the object"
    );
    let e = vet_object(&inode("/dev/null", 0, 0o020666), &good).unwrap_err();
    assert_eq!(e, "/dev/null is not a regular file");
}

fn run(trust: Trust) -> LoadRun {
    LoadRun::new("/opt/cfc-ebpf.o".to_string(), trust, true)
}

#[test]
fn a_world_writable_object_is_refused_but_only_under_refuse() {
    let path = "/opt/cfc-ebpf.o";
    let why = vet_object(&inode(path, 0, 0o100666), &vec![inode("/opt", 0, 0o040755)])
        .expect_err("world-writable lets anyone swap it");
    let fault = || LoadEvent::Vetted(Some(failure(&why, None)));
    let mut refused = run(Trust::Refuse);
    refused.step(&fault());
    assert_eq!(refused.stage, LoadStage::Failed);
    let e = refused.failure.expect("a world-writable object must not be loaded");
    assert_eq!(e.degrade, Degrade::ObjectUntrusted);
    assert_eq!(e.source, why);

    let mut warned = run(Trust::Warn);
    warned.step(&fault());
    assert_eq!(warned.stage, LoadStage::Read);
    assert_eq!(
        warned.report.notes,
        vec![format!("BPF object failed its ownership check: {why}")]
    );
    warned.step(&LoadEvent::ObjectRead(ReadOutcome::Read));
    warned.step(&LoadEvent::Offsets(Ok(TaskStructOffsets { real_parent: 8, tgid: 16 })));
    warned.step(&LoadEvent::Prepared(Ok(false)));
    warned.step(&LoadEvent::ExitFormat(Ok(Some(32))));
    warned.step(&LoadEvent::KernelBtf(Ok(())));
    warned.step(&LoadEvent::ExecFormat(Ok(Resolution::Parsed(8))));
    warned.step(&LoadEvent::Loaded(Err(failure("not an ELF", None))));
    let e = warned.failure.expect("`not an ELF` cannot load either way");
    assert_ne!(
        e.degrade,
        Degrade::ObjectUntrusted,
        "Trust::Warn must have let it past the ownership check"
    );
}

#[test]
fn an_absent_object_is_missing_not_untrusted() {
    let mut r = run(Trust::Refuse);
    r.step(&LoadEvent::Vetted(Some(failure("resolving it", Some(2)))));
    let e = r.failure.unwrap();
    assert_eq!(e.degrade, Degrade::ObjectMissing);
    assert!(e.source.starts_with("no BPF object at /opt/cfc-ebpf.o (build it"), "{}", e.source);
    assert!(e.source.ends_with(": resolving it"), "{}", e.source);
    assert!(is_missing(Some(2)) && !is_missing(Some(13)) && !is_missing(None));
}

#[test]
fn decode_rejects_short_records() {
    assert!(exec_record(&[0u8; 8]).is_none());
    assert!(pid_record(&[0u8; 3]).is_none());
    assert!(dns_record(&[]).is_none());
    assert!(dns_record(&[0u8; 16]).is_none());
}

#[test]
fn decode_round_trips_a_pod_event() {
    let mut bytes = vec![0u8; 292];
    bytes[..4].copy_from_slice(&4242u32.to_le_bytes());
    bytes[8..12].copy_from_slice(&1000u32.to_le_bytes());
    bytes[32..36].copy_from_slice(b"/bin");
    bytes[288..290].copy_from_slice(&4u16.to_le_bytes());
    let got = exec_record(&bytes).unwrap();
    assert_eq!(got.pid, 4242);
    assert_eq!(got.uid, 1000);
    assert_eq!(got.filename_str(), "/bin");
}

fn synthetic_dns_response(name: &str, ip: [u8; 4], ttl: u32) -> Vec<u8> {
    let mut p = Vec::new();
    p.extend_from_slice(&0xbeefu16.to_be_bytes());
    p.extend_from_slice(&0x8180u16.to_be_bytes());
    p.extend_from_slice(&1u16.to_be_bytes());
    p.extend_from_slice(&1u16.to_be_bytes());
    p.extend_from_slice(&0u16.to_be_bytes());
    p.extend_from_slice(&0u16.to_be_bytes());
    for label in name.split('.') {
        p.push(label.len() as u8);
        p.extend_from_slice(label.as_bytes());
    }
    p.push(0);
    p.extend_from_slice(&1u16.to_be_bytes());
    p.extend_from_slice(&1u16.to_be_bytes());
    p.extend_from_slice(&0xc00cu16.to_be_bytes());
    p.extend_from_slice(&1u16.to_be_bytes());
    p.extend_from_slice(&1u16.to_be_bytes());
    p.extend_from_slice(&ttl.to_be_bytes());
    p.extend_from_slice(&4u16.to_be_bytes());
    p.extend_from_slice(&ip);
    p
}

#[test]
fn a_dns_packet_record_decodes_and_parses() {
    let wire = synthetic_dns_response("cache.example", [198, 51, 100, 7], 120);
    let mut record = vec![0u8; 514];
    record[..2].copy_from_slice(&(wire.len() as u16).to_le_bytes());
    record[2..2 + wire.len()].copy_from_slice(&wire);

    let got = dns_record(&record).expect("record decodes");
    assert_eq!(got, wire);

    let seen: Vec<(String, IpAddr, u32)> =
        answers(&got).into_iter().map(|a| (a.name, a.ip, a.ttl)).collect();
    assert_eq!(
        seen,
        vec![("cache.example".to_string(), IpAddr::V4(0xc633_6407), 120)]
    );
}

#[test]
fn only_a_good_response_names_anything() {
    let good = synthetic_dns_response("a.example", [1, 2, 3, 4], 60);
    assert_eq!(answers(&good).len(), 1);
    let mut query = good.clone();
    query[2] = 0x01;
    assert!(answers(&query).is_empty());
    let mut refused = good.clone();
    refused[3] = 0x85;
    assert!(answers(&refused).is_empty());
    for n in 0..good.len() {
        assert!(answers(&good[..n]).is_empty(), "cut off at {n}");
    }
}

#[test]
fn a_name_that_jumps_forward_or_in_circles_is_passed_over() {
    let good = synthetic_dns_response("a.example", [1, 2, 3, 4], 60);
    let at = good.len() - 16;
    assert_eq!(&good[at..at + 2], &[0xc0, 0x0c]);
    let mut circle = good.clone();
    circle[at + 1] = at as u8;
    assert!(answers(&circle).is_empty());
    let mut forward = good.clone();
    forward[at + 1] = at as u8 + 4;
    assert!(answers(&forward).is_empty());
}

#[test]
fn longer_addresses_and_other_records_are_told_apart() {
    let mut p = synthetic_dns_response("a.example", [1, 2, 3, 4], 60);
    p[7] = 3;
    p.extend_from_slice(&[0xc0, 0x0c, 0, 5, 0, 1, 0, 0, 0, 9, 0, 2, 0xc0, 0x0c]);
    p.extend_from_slice(&[0xc0, 0x0c, 0, 28, 0, 1, 0, 0, 0, 9, 0, 16]);
    p.extend_from_slice(&7u128.to_be_bytes());
    let seen: Vec<(IpAddr, u32)> = answers(&p).into_iter().map(|a| (a.ip, a.ttl)).collect();
    assert_eq!(seen, vec![(IpAddr::V4(0x0102_0304), 60), (IpAddr::V6(7), 9)]);
}

#[test]
fn decode_tolerates_a_longer_record() {
    let mut bytes = vec![0u8; 4 + 16];
    bytes[..4].copy_from_slice(&7u32.to_ne_bytes());
    assert_eq!(decode(&bytes, 4).unwrap(), 7u32.to_ne_bytes());
    assert_eq!(pid_record(&bytes), Some(7));
}

#[test]
fn an_exec_event_is_matched_as_a_process() {
    let mut filename = vec![0u8; 256];
    filename[..4].copy_from_slice(b"/bin");
    let e = ExecEvent {
        pid: 4242,
        ppid: 0,
        uid: 1000,
        gid: 100,
        comm: vec![0; 16],
        filename,
        filename_len: 4,
    };
    let p = exec_process(&e);
    assert_eq!((p.pid, p.ppid, p.uid, p.gid), (4242, None, Some(1000), Some(100)));
    assert_eq!(p.exe, "/bin");
    assert!(p.sha256.is_none());
}

#[test]
fn failures_are_told_apart() {
    assert_eq!(classify_load(&failure("x", Some(1))), Degrade::NotPermitted);
    assert_eq!(classify_load(&failure("x", Some(13))), Degrade::NotPermitted);
    assert_eq!(classify_load(&failure("x", Some(22))), Degrade::Unsupported);
    assert_eq!(classify_load(&failure("x", Some(38))), Degrade::Unsupported);
    assert_eq!(classify_load(&failure("x", None)), Degrade::Other);
    assert_eq!(
        classify_load(&failure("symbol CFC_ABI_VERSION not found", Some(1))),
        Degrade::AbiMismatch
    );
    assert_eq!(classify_verify(&failure("x", Some(13))), Degrade::Rejected);
    assert_eq!(classify_verify(&failure("x", Some(7))), Degrade::Rejected);
    assert_eq!(classify_verify(&failure("x", Some(1))), Degrade::NotPermitted);
    assert_eq!(classify_verify(&failure("x", Some(95))), Degrade::Unsupported);
    assert_eq!(classify_verify(&failure("x", None)), Degrade::Rejected);
}

#[test]
fn a_slot_somebody_else_holds_is_named_as_that() {
    let e = dns_attach_error(&failure("busy", Some(EEXIST)), "/sys/fs/cgroup");
    assert!(e.contains("already holds the exclusive"), "{e}");
    let e = dns_attach_error(&failure("denied", Some(1)), "/sys/fs/cgroup");
    assert_eq!(e, "attaching cgroup_skb/ingress to /sys/fs/cgroup: denied");
}

fn up_to_attaching(r: &mut LoadRun, inherited: bool) {
    r.step(&LoadEvent::Vetted(None));
    r.step(&LoadEvent::ObjectRead(ReadOutcome::Read));
    r.step(&LoadEvent::Offsets(Ok(TaskStructOffsets { real_parent: 8, tgid: 16 })));
    r.step(&LoadEvent::Prepared(Ok(inherited)));
    r.step(&LoadEvent::ExitFormat(Ok(Some(32))));
    r.step(&LoadEvent::KernelBtf(Ok(())));
    r.step(&LoadEvent::ExecFormat(Ok(Resolution::Parsed(8))));
    r.step(&LoadEvent::Loaded(Ok(())));
    assert_eq!(r.stage, LoadStage::AttachExec);
}

fn nothing_counted() -> EnforceStats {
    EnforceStats {
        allowed: 0,
        denied: 0,
        unknown: 0,
        stale: 0,
        foreign_mark: 0,
        report_dropped: 0,
    }
}

#[test]
fn a_load_that_goes_well_says_nothing() {
    let mut r = run(Trust::Refuse);
    up_to_attaching(&mut r, false);
    assert_eq!((r.offsets, r.group_dead_off, r.exec_off), (Some((8, 16)), 32, Some(8)));
    r.step(&LoadEvent::Attached(Ok(Some(100))));
    r.step(&LoadEvent::Attached(Ok(None)));
    r.step(&LoadEvent::Attached(Ok(Some(300))));
    assert_eq!(r.stage, LoadStage::Enforce);
    r.step(&LoadEvent::Enforced(Ok(vec![
        ("cfc_connect4".to_string(), Some(40)),
        ("cfc_connect6".to_string(), None),
    ])));
    r.step(&LoadEvent::SockPids(Ok(())));
    r.step(&LoadEvent::Counters(Ok(nothing_counted())));
    r.step(&LoadEvent::Swept(SweepOutcome::Swept));
    r.step(&LoadEvent::Sink(Ok(())));
    for stage in [
        LoadStage::StartExec,
        LoadStage::StartExit,
        LoadStage::StartDeny,
        LoadStage::StartDns,
    ] {
        assert_eq!(r.stage, stage);
        r.step(&LoadEvent::Started(Ok(())));
    }
    assert_eq!(r.stage, LoadStage::Done);
    assert!(r.report.exec_tracking && r.report.exit_tracking && r.report.dns_capture);
    assert_eq!(r.report.enforcement, Enforcement::Pinned);
    assert!(r.report.notes.is_empty(), "{:?}", r.report.notes);
    assert_eq!(r.report.degrade, None);
    assert_eq!(r.report.exec_offset, ExecOffset::Parsed(8));
    assert_eq!(
        r.report.verified_insns,
        vec![
            ("cfc_sched_process_exec".to_string(), 100),
            ("cfc_dns_ingress".to_string(), 300),
            ("cfc_connect4".to_string(), 40),
        ]
    );
}

#[test]
fn an_event_out_of_turn_changes_nothing() {
    let mut r = run(Trust::Refuse);
    r.step(&LoadEvent::Started(Ok(())));
    assert_eq!(r.stage, LoadStage::Vet);
}

#[test]
fn exec_records_are_not_trusted_without_exit_records() {
    let mut r = run(Trust::Refuse);
    up_to_attaching(&mut r, false);
    r.step(&LoadEvent::Attached(Ok(None)));
    r.step(&LoadEvent::Attached(Err(failure("no tracefs", Some(13)))));
    r.step(&LoadEvent::Attached(Err(failure("no slot", Some(1)))));
    r.step(&LoadEvent::Enforced(Err(failure("no cgroup", None))));
    assert_eq!(r.stage, LoadStage::Done, "nothing is left to drain");
    assert!(!r.report.exec_tracking);
    assert_eq!(r.report.enforcement, Enforcement::Unavailable);
    assert_eq!(r.report.degrade, Some(Degrade::Rejected), "the first reason stands");
    assert_eq!(
        r.report.notes,
        vec![
            "sched_process_exit not attached: no tracefs".to_string(),
            "cgroup_skb/ingress not attached: no slot".to_string(),
            "cgroup/connect4|6 not attached: no cgroup".to_string(),
            "exit tracking is unavailable, so exec records could outlive their processes; \
             disabling kernel-sourced process identity"
                .to_string(),
        ]
    );
}

#[test]
fn enforcement_of_a_previous_daemon_is_steered() {
    let mut r = LoadRun::new("/o".to_string(), Trust::Warn, false);
    up_to_attaching(&mut r, true);
    for _ in 0..3 {
        r.step(&LoadEvent::Attached(Ok(None)));
    }
    assert_eq!(r.stage, LoadStage::SockPids);
    assert_eq!(r.report.enforcement, Enforcement::Inherited);
    r.step(&LoadEvent::SockPids(Err("odd".to_string())));
    r.step(&LoadEvent::Counters(Ok(EnforceStats { denied: 48, unknown: 2, ..nothing_counted() })));
    r.step(&LoadEvent::Swept(SweepOutcome::NotAMap("odd".to_string())));
    assert_eq!(r.stage, LoadStage::StartExec, "without rules no verdict is written");
    r.step(&LoadEvent::Started(Err("a".to_string())));
    assert_eq!(r.stage, LoadStage::StartDeny);
    r.step(&LoadEvent::Started(Err("b".to_string())));
    r.step(&LoadEvent::Started(Err("c".to_string())));
    assert_eq!(r.stage, LoadStage::Done);
    assert!(!r.report.exec_tracking && !r.report.dns_capture);
    assert_eq!(
        r.report.notes,
        vec![
            "in-kernel enforcement was already attached and pinned at \
             /sys/fs/bpf/colony-firewall/v4; steering it rather than replacing it"
                .to_string(),
            "SOCK_PIDS unusable: odd".to_string(),
            "in-kernel enforcement carried over: 48 connect() refused, 0 allowed, 2 passed to \
             the packet path since the pins were made"
                .to_string(),
            "VERDICTS is not a hash map: odd".to_string(),
            "EXEC_EVENTS consumer not started: a".to_string(),
            "DENY_EVENTS consumer not started: b; in-kernel denials will be enforced but not \
             reported"
                .to_string(),
            "DNS_PACKETS consumer not started: c".to_string(),
        ]
    );
}

#[test]
fn what_could_not_be_found_out_is_said() {
    let mut r = run(Trust::Refuse);
    r.step(&LoadEvent::Vetted(None));
    r.step(&LoadEvent::ObjectRead(ReadOutcome::Read));
    r.step(&LoadEvent::Offsets(Ok(TaskStructOffsets { real_parent: 8, tgid: 0 })));
    r.step(&LoadEvent::Prepared(Err("no bpffs".to_string())));
    r.step(&LoadEvent::ExitFormat(Ok(None)));
    r.step(&LoadEvent::KernelBtf(Err("none".to_string())));
    r.step(&LoadEvent::ExecFormat(Ok(Resolution::Unsupported)));
    assert_eq!(r.stage, LoadStage::Load);
    assert_eq!((r.offsets, r.group_dead_off, r.exec_off), (None, ABSENT, Some(0)));
    assert_eq!(r.report.exec_offset, ExecOffset::Suppressed);
    assert!(!r.pinning);
    assert_eq!(r.report.notes.len(), 5);
    assert_eq!(
        r.report.notes[0],
        "kernel BTF has no usable task_struct offsets (TaskStructOffsets { real_parent: 8, \
         tgid: 0 }); exec events will report ppid 0"
    );
    r.step(&LoadEvent::Loaded(Err(failure("CFC_ABI_VERSION not found", None))));
    let e = r.failure.unwrap();
    assert_eq!(e.degrade, Degrade::AbiMismatch);
    assert!(e.source.starts_with("loading /opt/cfc-ebpf.o (needs CAP_BPF"), "{}", e.source);
}

#[test]
fn an_unusual_offset_is_worth_a_note() {
    let mut r = run(Trust::Refuse);
    r.step(&LoadEvent::Vetted(None));
    r.step(&LoadEvent::ObjectRead(ReadOutcome::Read));
    r.step(&LoadEvent::Offsets(Err("no BTF".to_string())));
    r.step(&LoadEvent::Prepared(Ok(false)));
    r.step(&LoadEvent::ExitFormat(Err("unreadable".to_string())));
    r.step(&LoadEvent::KernelBtf(Ok(())));
    r.step(&LoadEvent::ExecFormat(Ok(Resolution::Parsed(12))));
    assert_eq!(
        r.report.notes,
        vec![
            "could not resolve task_struct offsets from /sys/kernel/btf/vmlinux: no BTF; exec \
             events will report ppid 0"
                .to_string(),
            "sched_process_exec filename offset is 12, not the usual 8".to_string(),
        ]
    );
    let mut r = run(Trust::Refuse);
    r.step(&LoadEvent::Vetted(None));
    r.step(&LoadEvent::ObjectRead(ReadOutcome::Failed("io".to_string())));
    assert_eq!(r.failure.unwrap().degrade, Degrade::ObjectUnreadable);
    let mut r = run(Trust::Refuse);
    r.step(&LoadEvent::Vetted(None));
    r.step(&LoadEvent::ObjectRead(ReadOutcome::NotFound("gone".to_string())));
    assert_eq!(r.failure.unwrap().degrade, Degrade::ObjectMissing);
}

#[test]
fn a_dns_record_is_whole_or_dropped() {
    let mut record = vec![7u8; 514];
    record[..2].copy_from_slice(&3u16.to_le_bytes());
    assert_eq!(dns_record(&record), Some(vec![7; 3]));
    assert_eq!(dns_record(&record[..513]), None);
    record[..2].copy_from_slice(&600u16.to_le_bytes());
    record.extend_from_slice(&[9; 100]);
    assert_eq!(dns_record(&record), Some(vec![7; 512]));
}

#[test]
fn a_record_is_cut_to_what_is_known_of_it() {
    assert_eq!(decode(&[1, 2, 3], 2), Some(vec![1, 2]));
    assert_eq!(decode(&[1], 2), None);
}
