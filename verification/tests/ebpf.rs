//! The report of the kernel-side layer, and the levels it publishes.

use cfc_daemon::config::{EbpfConfig, EbpfMode};
use cfc_daemon::ebpf::loader::{Failure, LoadEvent, LoadRun};
use cfc_daemon::ebpf::proc_table::KernelProcTable;
use cfc_daemon::ebpf::{
    enforcement_level, fast_allow_level, finish_start, set_enforcement_level, start, Degrade,
    Enforcement, FastAllow, Levels, LogLine, NoteLevel, Report, Ring0, Start, Trust,
    DEFAULT_OBJECT_PATH, LEVEL_UNKNOWN,
};

fn config(enabled: EbpfMode, object_path: Option<&str>) -> EbpfConfig {
    EbpfConfig {
        enabled,
        object_path: object_path.map(|p| p.to_string()),
        fast_allow: false,
        fast_allow_mark: None,
    }
}

#[test]
fn an_explicitly_off_config_produces_an_inert_report() {
    let mut levels = Levels::new();
    match start(&config(EbpfMode::Off, None), true, &mut levels) {
        Start::Inert(report) => {
            assert!(!report.any_active());
            assert_eq!(report.mode, EbpfMode::Off);
            assert_eq!(report.ring0(), Ring0::Off);
            assert!(report.compiled_in);
            assert_eq!(report.notes.len(), 1);
            report.log();
        }
        other => panic!("nothing is loaded when the layer is off: {other:?}"),
    }
}

#[test]
fn an_enabled_config_without_an_object_still_starts() {
    let mut levels = Levels::new();
    let cfg = config(EbpfMode::On, Some("/nowhere/cfc-ebpf.o"));
    let mode = cfg.enabled;
    let mut run = match start(&cfg, true, &mut levels) {
        Start::Load { object, trust } => {
            assert_eq!(object, "/nowhere/cfc-ebpf.o");
            assert_eq!(trust, Trust::Warn);
            LoadRun::new(object, trust, false)
        }
        other => panic!("an enabled layer is loaded: {other:?}"),
    };
    let absent = Failure { errno: Some(2), text: "not there".to_string() };
    run.step(&LoadEvent::Vetted(Some(absent)));
    let failed = run.failure.expect("there is no object there");
    let source = failed.source.clone();
    let mut table = KernelProcTable::new();
    let report = finish_start(mode, Err(failed), &mut table, &mut levels);
    assert_eq!(report.mode, EbpfMode::On);
    assert!(!report.any_active(), "nothing can have attached");
    assert_eq!(report.ring0(), Ring0::Unavailable);
    assert_eq!(report.degrade, Some(Degrade::ObjectMissing));
    assert_eq!(
        report.notes,
        vec![format!("load failed, continuing without it: {source}")]
    );
    assert!(
        !table.is_live(),
        "a failed load must not leave the table claiming to be live"
    );
    match fast_allow_level(&levels) {
        Some(FastAllow::Off(why)) => assert_eq!(why, "the in-kernel layer did not come up"),
        _ => panic!("the fast path is off when the layer is"),
    }
}

#[test]
fn a_build_without_the_layer_says_so() {
    let mut levels = Levels::new();
    match start(&config(EbpfMode::Auto, None), false, &mut levels) {
        Start::Inert(report) => {
            assert_eq!(report.degrade, Some(Degrade::Unsupported));
            assert!(!report.compiled_in);
        }
        other => panic!("there is nothing to load: {other:?}"),
    }
}

#[test]
fn the_default_object_has_to_prove_itself() {
    let mut levels = Levels::new();
    match start(&config(EbpfMode::Auto, None), true, &mut levels) {
        Start::Load { object, trust } => {
            assert_eq!(object, DEFAULT_OBJECT_PATH);
            assert_eq!(trust, Trust::Refuse);
        }
        other => panic!("auto loads what it finds: {other:?}"),
    }
}

#[test]
fn a_loaded_layer_feeds_the_table() {
    let mut levels = Levels::new();
    let mut table = KernelProcTable::new();
    let loaded = Report {
        exec_tracking: true,
        exit_tracking: true,
        ..Report::default()
    };
    let report = finish_start(EbpfMode::Auto, Ok(loaded), &mut table, &mut levels);
    assert_eq!(report.mode, EbpfMode::Auto);
    assert!(table.is_live());
}

#[test]
fn severity_follows_what_was_asked_for() {
    let with = |mode: EbpfMode, degrade: Option<Degrade>| Report {
        mode,
        degrade,
        ..Report::default()
    };

    for d in [
        Degrade::ObjectMissing,
        Degrade::NotPermitted,
        Degrade::Unsupported,
        Degrade::Rejected,
        Degrade::AbiMismatch,
    ] {
        assert_eq!(
            with(EbpfMode::On, Some(d)).note_level(),
            NoteLevel::Error,
            "{d:?} under an explicit `enabled = true` must be an error"
        );
    }

    assert_eq!(
        with(EbpfMode::Off, Some(Degrade::ObjectMissing)).note_level(),
        NoteLevel::Debug
    );

    for d in [
        Degrade::ObjectMissing,
        Degrade::Unsupported,
        Degrade::ObjectUntrusted,
        Degrade::AbiMismatch,
    ] {
        assert_eq!(
            with(EbpfMode::Auto, Some(d)).note_level(),
            NoteLevel::Info,
            "{d:?} under auto is a property of the host, not a problem"
        );
    }

    assert_eq!(
        with(EbpfMode::Auto, Some(Degrade::NotPermitted)).note_level(),
        NoteLevel::Info,
        "EPERM under auto is normal in a container, not a misconfiguration"
    );

    assert_eq!(
        with(EbpfMode::Auto, Some(Degrade::Rejected)).note_level(),
        NoteLevel::Warn,
        "a rejected program is a bug in this project meeting a real kernel"
    );

    let partial = Report {
        mode: EbpfMode::Auto,
        exec_tracking: true,
        exit_tracking: true,
        dns_capture: false,
        ..Report::default()
    };
    assert_eq!(partial.ring0(), Ring0::Partial);
    assert_eq!(partial.note_level(), NoteLevel::Warn);
}

#[test]
fn a_report_with_nothing_live_names_only_the_procfs_sources() {
    let r = Report::default();
    assert!(!r.any_active());
    let lines = r.log();
    assert_eq!(lines.len(), 1);
    match &lines[0] {
        LogLine::Summary {
            compiled_in,
            ring0,
            enforcement,
            degrade,
            exec_tracking,
            exit_tracking,
            dns_capture,
            ppid_from_btf,
            fast_allow,
            text,
        } => {
            assert!(!compiled_in && !exec_tracking && !exit_tracking);
            assert!(!dns_capture && !ppid_from_btf);
            assert_eq!(*ring0, Ring0::Unavailable);
            assert_eq!(*enforcement, Enforcement::Off);
            assert_eq!(*degrade, "none");
            assert_eq!(fast_allow, "not decided");
            assert_eq!(
                text,
                "attribution sources: sock_diag + /proc; hostnames: PTR + FCrDNS"
            );
        }
        other => panic!("the last line sums up: {other:?}"),
    }
}

#[test]
fn the_log_says_every_note_before_the_summary() {
    let r = Report {
        mode: EbpfMode::On,
        exec_tracking: true,
        dns_capture: true,
        compiled_in: true,
        ppid_offsets: true,
        degrade: Some(Degrade::Rejected),
        notes: vec!["one".to_string(), "two".to_string()],
        verified_insns: vec![("cfc_dns_ingress".to_string(), 1234)],
        ..Report::default()
    };
    let lines = r.log();
    assert_eq!(lines.len(), 4);
    assert!(
        matches!(&lines[0], LogLine::Note { level: NoteLevel::Error, text } if text == "eBPF: one")
    );
    assert!(
        matches!(&lines[1], LogLine::Note { level: NoteLevel::Error, text } if text == "eBPF: two")
    );
    assert!(matches!(
        &lines[2],
        LogLine::Verified { program, insns: 1234 } if program == "cfc_dns_ingress"
    ));
    match &lines[3] {
        LogLine::Summary {
            compiled_in,
            degrade,
            exec_tracking,
            exit_tracking,
            dns_capture,
            ppid_from_btf,
            text,
            ..
        } => {
            assert_eq!(*degrade, "verifier_rejected");
            assert!(*compiled_in && *exec_tracking && *dns_capture && *ppid_from_btf);
            assert!(!exit_tracking);
            assert!(text.contains(" + eBPF exec events"));
            assert!(text.contains(" + observed DNS answers"));
        }
        other => panic!("the last line sums up: {other:?}"),
    }
}

#[test]
fn every_level_round_trips_through_the_atomic() {
    let mut levels = Levels::new();
    for level in [
        Enforcement::Off,
        Enforcement::Unavailable,
        Enforcement::Process,
        Enforcement::Pinned,
        Enforcement::Inherited,
    ] {
        set_enforcement_level(&mut levels, level);
        assert_eq!(
            enforcement_level(&levels),
            Some(level),
            "{} did not survive",
            level.as_str()
        );
    }
    set_enforcement_level(&mut levels, Enforcement::Off);
}

#[test]
fn unknown_is_distinguishable_from_a_real_off() {
    assert_ne!(LEVEL_UNKNOWN, Enforcement::Off.as_u8());
    assert_eq!(
        Enforcement::from_u8(Enforcement::Pinned.as_u8()),
        Enforcement::Pinned
    );
    assert_eq!(enforcement_level(&Levels::new()), None);
}

#[test]
fn the_surviving_levels_are_the_pinned_ones() {
    assert!(Enforcement::Pinned.survives_daemon());
    assert!(Enforcement::Inherited.survives_daemon());
    assert!(!Enforcement::Process.survives_daemon());
    assert!(!Enforcement::Unavailable.survives_daemon());
    assert!(!Enforcement::Off.survives_daemon());
}

#[test]
fn tokens_for_logs_are_stable() {
    assert_eq!(Degrade::ObjectMissing.as_str(), "object_missing");
    assert_eq!(Degrade::AbiMismatch.as_str(), "abi_mismatch");
    assert_eq!(Ring0::Partial.as_str(), "partial");
    assert_eq!(Enforcement::Inherited.as_str(), "inherited");
}
