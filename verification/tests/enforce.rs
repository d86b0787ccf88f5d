//! What goes into the kernel's maps.

use cfc_daemon::config::DefaultPolicy;
use cfc_daemon::decision::Engine;
use cfc_daemon::ebpf::enforce::{
    already_attached, arm, beat, boottime_ns, clearable, denied_exes, deny_op_for, deny_work,
    disarm, doomed, fast_path_attached, grant_for, grant_if_still, grant_stands, is_absent,
    is_bpffs, is_other_version, leftovers, on_exec, orphans, pid_of_name, pin_dir, proc_exe,
    proc_starttime,
    proc_uid, proc_view, sink_parts, stats, AttachRun, AttachStage, CompilePlan, CounterRead,
    DenyOp, FastPathCapability, FastWrite, Grant, GrantBook, GrantStep, Hook, MapFailure,
    ObjectMaps, Orphan, Pin, ProcView, RuleTable, ABI_VERSION, BPFFS, BPF_FS_MAGIC, UNARMED,
};
use cfc_daemon::model::{Action, Duration, Process, Rule, RuleScope};

const NOW: i64 = 1_700_000_000_000;

fn exe_rule(id: u128, exe: &str, action: Action) -> Rule {
    let mut scope = RuleScope::any();
    scope.exe_path = Some(exe.to_string());
    Rule::new(id, NOW, exe.to_string(), action, scope)
}

fn engine(rules: Vec<Rule>) -> Engine {
    Engine::new(
        rules,
        DefaultPolicy {
            no_ui_action: Action::Deny,
            timeout_action: Action::Deny,
            inbound_action: Action::Deny,
            prompt_timeout_secs: 10,
        },
    )
}

fn process(pid: u32, exe: &str) -> Process {
    Process { exe: exe.to_string(), uid: Some(1000), ..Process::unknown(pid) }
}

fn view(pid: u32, exe: &str, judged_at: Option<u64>) -> ProcView {
    ProcView { pid, process: process(pid, exe), judged_at }
}

#[test]
fn the_pin_directory_carries_the_event_abi_version() {
    let dir = pin_dir();
    assert!(
        dir.ends_with(&format!("v{ABI_VERSION}")),
        "an object built against a different event layout must not inherit \
         these pins: {dir}"
    );
    assert!(dir.starts_with(BPFFS));
    assert_eq!(dir, "/sys/fs/bpf/colony-firewall/v4");
    assert!(is_other_version("v3"));
    assert!(!is_other_version("v4"));
}

#[test]
fn a_plain_directory_is_not_mistaken_for_a_bpffs() {
    assert!(!is_bpffs(0x0102_1994));
    assert!(is_bpffs(BPF_FS_MAGIC));
}

#[test]
fn a_missing_key_is_not_an_error_worth_logging() {
    assert!(is_absent(MapFailure::Os(2)));
    assert!(is_absent(MapFailure::KeyNotFound));
    assert!(
        !is_absent(MapFailure::Os(1)),
        "a real permission failure must still be reported"
    );
    assert!(!is_absent(MapFailure::Other));
}

#[test]
fn already_attached_needs_both_families() {
    assert!(!already_attached(false, false));
    assert!(
        !already_attached(true, false),
        "half a pin is not enforcement; IPv6 would be unfiltered"
    );
    assert!(already_attached(true, true));
    assert!(fast_path_attached(true, true) && !fast_path_attached(false, true));
}

const STATUS: &[u8] = b"Name:\tcu\xffrl\nUmask:\t0022\nUid:\t1000\t1001\t1002\t1003\nGid:\t100\n";

fn stat(comm: &str, start: &str) -> Vec<u8> {
    let mut s = format!("4242 ({comm}) S");
    for n in 1..19 {
        s.push_str(&format!(" {n}"));
    }
    s.push(' ');
    s.push_str(start);
    s.push_str(" 77 88\n");
    s.into_bytes()
}

#[test]
fn proc_view_reads_the_resolved_path_and_the_live_uid() {
    let v = proc_view(
        4242,
        Some("/usr/bin/curl (deleted)".to_string()),
        Some(STATUS.to_vec()),
        Some(stat("curl", "123456")),
    )
    .expect("the process has a view");
    assert_eq!(v.process.exe, "/usr/bin/curl");
    assert_eq!(v.process.uid, Some(1000));
    assert_eq!(v.process.sha256, None);
    assert_eq!(v.judged_at, Some(123456));
    assert_eq!((v.pid, v.process.pid), (4242, 4242));
}

#[test]
fn proc_view_of_a_pid_that_cannot_exist_is_none() {
    assert!(proc_view(u32::MAX, None, None, None).is_none());
}

#[test]
fn a_name_with_brackets_does_not_move_the_start_time() {
    assert_eq!(proc_starttime(&stat(":-) 1 2 3", "99")), Some(99));
    assert_eq!(proc_starttime(&stat("a\u{fffd}b", "5")), Some(5));
    assert_eq!(proc_starttime(b"no brackets at all"), None);
    assert_eq!(proc_starttime(b"1 (short) S 1 2"), None);
    assert_eq!(proc_starttime(&stat("x", "nan")), None);
}

#[test]
fn the_first_uid_is_the_real_one() {
    assert_eq!(proc_uid(STATUS), Some(1000));
    assert_eq!(proc_uid(b"Name:\tx\n"), None);
    assert_eq!(proc_uid(b"Uid:\t\n"), None);
    assert_eq!(proc_uid(b"Uid:\t-1 0\n"), None);
    assert_eq!(proc_exe("/usr/bin/x"), "/usr/bin/x");
    assert_eq!(pid_of_name("4242"), Some(4242));
    assert_eq!(pid_of_name("self"), None);
    assert_eq!(pid_of_name("4294967296"), None);
}

#[test]
fn a_refusal_is_written_cleared_or_kept() {
    let e = engine(vec![exe_rule(1, "/usr/bin/curl", Action::Deny)]);
    assert_eq!(deny_op_for(&e, &process(1, "/usr/bin/curl"), NOW), DenyOp::Deny);
    assert_eq!(deny_op_for(&e, &process(1, "/usr/bin/wget"), NOW), DenyOp::Clear);

    let mut hashed = exe_rule(1, "/usr/bin/curl", Action::Deny);
    hashed.scope.exe_sha256 = Some("a".repeat(64));
    let e = engine(vec![hashed]);
    assert_eq!(deny_op_for(&e, &process(1, "/usr/bin/curl"), NOW), DenyOp::Keep);

    let mut hashed = exe_rule(1, "/usr/bin/curl", Action::Allow);
    hashed.scope.exe_sha256 = Some("a".repeat(64));
    let e = engine(vec![hashed]);
    assert_eq!(deny_op_for(&e, &process(1, "/usr/bin/curl"), NOW), DenyOp::Clear);
}

#[test]
fn only_a_lasting_allow_earns_a_grant() {
    let curl = process(1, "/usr/bin/curl");
    let mut allow = exe_rule(7, "/usr/bin/curl", Action::Allow);
    assert_eq!(grant_for(&engine(vec![allow.clone()]), &curl, NOW), Grant::Yes(7));
    allow.duration = Duration::Seconds(60);
    assert_eq!(grant_for(&engine(vec![allow.clone()]), &curl, NOW), Grant::No);
    allow.duration = Duration::Always;
    allow.scope.dst_port = Some(443);
    assert_eq!(grant_for(&engine(vec![allow]), &curl, NOW), Grant::No);
    assert_eq!(grant_for(&engine(vec![]), &curl, NOW), Grant::No);
}

#[test]
fn a_grant_goes_only_to_the_process_that_was_judged() {
    let curl = process(1, "/usr/bin/curl");
    let same = Some("/usr/bin/curl".to_string());
    let other = Some("/usr/bin/nc".to_string());
    let step = |grant, judged_at, start, exe: &Option<String>| {
        grant_if_still(grant, &curl, judged_at, start, exe)
    };
    assert_eq!(step(Grant::Yes(7), Some(5), Some(5), &same), GrantStep::Write(7));
    assert_eq!(step(Grant::Yes(7), Some(5), Some(6), &same), GrantStep::Refuse);
    assert_eq!(step(Grant::Yes(7), None, None, &same), GrantStep::Refuse);
    assert_eq!(step(Grant::Yes(7), Some(5), Some(5), &other), GrantStep::Refuse);
    assert_eq!(step(Grant::Yes(7), Some(5), Some(5), &None), GrantStep::Refuse);
    assert_eq!(step(Grant::No, None, None, &None), GrantStep::Withdraw);
    assert!(grant_stands(&curl, &same));
    assert!(!grant_stands(&curl, &other));
}

#[test]
fn grants_are_credited_to_their_rule() {
    let mut book = GrantBook::new();
    book.apply(1, Grant::Yes(7), true);
    book.apply(2, Grant::Yes(8), false);
    assert_eq!(book.granted_by(1), Some(7));
    assert_eq!(book.granted_by(2), None, "what was not written is not credited");
    book.apply(1, Grant::No, false);
    assert_eq!(book.granted_by(1), None);
    book.apply(3, Grant::Yes(9), true);
    book.clear();
    assert_eq!(book.granted_by(3), None);
}

#[test]
fn a_resync_leaves_a_recycled_pid_alone() {
    let e = engine(vec![exe_rule(1, "/usr/bin/curl", Action::Deny)]);
    let views = vec![
        view(10, "/usr/bin/curl", Some(5)),
        view(11, "/usr/bin/curl", Some(6)),
        view(12, "/usr/bin/wget", Some(7)),
        view(13, "/usr/bin/curl", None),
    ];
    let starts = vec![Some(5), Some(99), Some(7), None];
    assert_eq!(
        deny_work(&e, &views, &starts, NOW),
        vec![(10, DenyOp::Deny), (12, DenyOp::Clear)]
    );
}

#[test]
fn what_the_live_list_does_not_cover_is_an_orphan() {
    assert_eq!(orphans(&vec![1, 2], &vec![1, 3, 4], &vec![4, 2, 5, 5]), vec![3, 4, 5]);
    assert_eq!(orphans(&vec![], &vec![], &vec![]), Vec::<u32>::new());
}

#[test]
fn an_orphan_without_a_rule_loses_its_refusal() {
    let e = engine(vec![exe_rule(1, "/usr/bin/curl", Action::Deny)]);
    let all = vec![
        Orphan { pid: 1, view: None },
        Orphan { pid: 2, view: Some(view(2, "/usr/bin/curl", Some(5))) },
        Orphan { pid: 3, view: Some(view(3, "/usr/bin/wget", Some(6))) },
    ];
    let gone = doomed(&e, &all, NOW);
    assert_eq!(gone, vec![(1, None), (3, Some(6))]);
    assert_eq!(clearable(&gone, &vec![None, Some(6)]), vec![1, 3]);
    assert_eq!(clearable(&gone, &vec![Some(9), None]), vec![3]);
    assert_eq!(clearable(&gone, &vec![Some(9), Some(7)]), Vec::<u32>::new());
}

#[test]
fn an_exec_is_judged_by_what_it_resolves_to() {
    let e = engine(vec![
        exe_rule(1, "/usr/bin/python3.12", Action::Deny),
        exe_rule(2, "/usr/bin/curl", Action::Allow),
    ]);
    let typed = process(1, "/usr/bin/python3");
    let d = on_exec(&e, &typed, &Some("/usr/bin/python3.12".to_string()), NOW);
    assert!(d.deny);
    assert_eq!(d.process.exe, "/usr/bin/python3.12");
    assert_eq!(d.grant, Grant::No);

    let d = on_exec(&e, &process(1, "/x"), &Some("/usr/bin/curl (deleted)".to_string()), NOW);
    assert!(!d.deny);
    assert_eq!(d.grant, Grant::Yes(2));

    let d = on_exec(&e, &process(1, "/usr/bin/curl"), &None, NOW);
    assert_eq!(d.grant, Grant::No, "nothing is granted to what cannot be read");
    let d = on_exec(&e, &process(1, "/usr/bin/python3.12"), &None, NOW);
    assert!(d.deny, "but a refusal falls back to the event");
}

#[test]
fn only_outright_refusals_are_compiled() {
    let mut allow_443 = exe_rule(3, "/usr/bin/ssh", Action::Allow);
    allow_443.scope.dst_port = Some(443);
    let e = engine(vec![
        exe_rule(1, "/usr/bin/curl", Action::Reject),
        exe_rule(2, "/usr/bin/wget", Action::Allow),
        allow_443,
        exe_rule(4, "/usr/bin/ssh", Action::Deny),
    ]);
    assert_eq!(denied_exes(&e, NOW), vec!["/usr/bin/curl".to_string()]);

    let mut user = RuleScope::any();
    user.uid = Some(1000);
    let e = engine(vec![
        exe_rule(1, "/usr/bin/curl", Action::Deny),
        Rule::new(2, NOW, "user".to_string(), Action::Allow, user),
    ]);
    assert!(denied_exes(&e, NOW).is_empty());
}

#[test]
fn a_recompile_that_changes_nothing_costs_nothing() {
    let mut table = RuleTable::new();
    match table.plan(&vec![5, 6, 5], &vec![6, 7]) {
        CompilePlan::Write { stale, add } => {
            assert_eq!(stale, vec![7]);
            assert_eq!(add, vec![5, 6]);
            assert!(table.finished(add, 1), "one key is something to look up");
        }
        other => panic!("the first compile writes: {other:?}"),
    }
    assert!(
        matches!(table.plan(&vec![5, 6], &vec![]), CompilePlan::Write { .. }),
        "an incomplete table is written again"
    );
    assert!(table.finished(vec![5, 6], 2));
    assert!(matches!(table.plan(&vec![6, 5], &vec![5, 6]), CompilePlan::Unchanged));
    assert!(!table.finished(vec![], 0));
    assert!(matches!(table.plan(&vec![], &vec![]), CompilePlan::Unchanged));
}

#[test]
fn arming_zeroes_the_deadline_first() {
    assert_eq!(arm(9), vec![FastWrite::Until(0), FastWrite::Mark(9)]);
    assert_eq!(
        disarm(),
        vec![FastWrite::Until(0), FastWrite::Mark(UNARMED), FastWrite::Flush]
    );
    assert_eq!(boottime_ns(2, 5), 2_000_000_005);
    assert_eq!(boottime_ns(-2, 5), 5);
    assert_eq!(beat(7, 60), FastWrite::Until(60_000_000_007));
}

#[test]
fn an_object_brings_all_of_the_fast_path_or_none() {
    let all = ObjectMaps {
        verdicts: true,
        exe_rules: true,
        exe_rules_on: true,
        fast_allow: true,
        fast_allow_until: true,
        fast_allow_mark: true,
    };
    let parts = sink_parts(all).unwrap();
    assert!(parts.fast_path && parts.precommit);
    let parts = sink_parts(ObjectMaps { fast_allow_until: false, exe_rules_on: false, ..all });
    let parts = parts.unwrap();
    assert!(!parts.fast_path && !parts.precommit);
    let e = sink_parts(ObjectMaps { verdicts: false, ..all }).unwrap_err();
    assert_eq!(e, "no map named `VERDICTS` in the object");
}

#[test]
fn counters_are_summed_and_a_short_pin_counts_as_zero() {
    let mut slots: Vec<CounterRead> = (0..5u64).map(|n| CounterRead::Values(vec![n, n])).collect();
    slots.push(CounterRead::Missing);
    let s = stats(&slots).unwrap();
    assert_eq!((s.allowed, s.denied, s.unknown), (0, 2, 4));
    assert_eq!((s.stale, s.foreign_mark, s.report_dropped), (6, 8, 0));
    slots[3] = CounterRead::Failed("EPERM".to_string());
    assert_eq!(stats(&slots).unwrap_err(), "reading ENFORCE_STATS[3]: EPERM");
}

fn attach(pinning: bool, results: &[bool]) -> AttachRun {
    let mut run = AttachRun::new(pinning);
    for ok in results {
        assert!(matches!(run.stage, AttachStage::Try(_)), "{run:?}");
        run.step(if *ok { Some(Some(10)) } else { None });
    }
    run
}

#[test]
fn four_programs_make_the_fast_path_ready() {
    let run = attach(true, &[true, true, true, true]);
    assert_eq!(run.stage, AttachStage::Done);
    assert_eq!(run.fast_path, FastPathCapability::Ready);
    assert_eq!(run.fast_path.off_reason(), None);
    assert_eq!(run.programs.len(), 4);
    assert!(run.unpin.is_empty());
    assert_eq!(run.pinned, vec![Pin::Connect4, Pin::Connect6]);
    assert_eq!(run.programs[2].0.program(), "cfc_sendmsg4");
    assert_eq!(run.pinned[1].file_name(), "connect6");
}

#[test]
fn a_basic_twin_costs_the_fast_path_only() {
    let run = attach(true, &[false, true, true]);
    assert_eq!(run.stage, AttachStage::Done);
    assert_eq!(run.fast_path, FastPathCapability::BasicConnect);
    assert_eq!(run.programs[0].0, Hook::Connect4Basic);
    assert_eq!(run.programs[1].0, Hook::Connect6);
    assert!(run.fast_path.off_reason().unwrap().contains("basic variants"));
}

#[test]
fn a_failed_family_takes_its_pins_with_it() {
    let run = attach(true, &[true, false, false]);
    assert_eq!(run.stage, AttachStage::Failed);
    assert_eq!(run.unpin, vec![Pin::Connect4]);
    let run = attach(false, &[true, false, false]);
    assert!(run.unpin.is_empty());
}

#[test]
fn a_failed_sendmsg_leaves_no_lone_pin() {
    let run = attach(true, &[true, true, true, false]);
    assert_eq!(run.stage, AttachStage::Done);
    assert_eq!(run.fast_path, FastPathCapability::SendmsgUnavailable);
    assert_eq!(run.unpin, vec![Pin::Sendmsg4, Pin::Sendmsg6]);
    assert_eq!(run.programs.len(), 3);
    assert!(run.fast_path.off_reason().unwrap().contains("sendmsg hook"));
    assert!(FastPathCapability::Inconclusive.off_reason().unwrap().contains("previous daemon"));
}

#[test]
fn a_failed_write_forgets_what_the_table_holds() {
    let mut table = RuleTable::new();
    assert!(table.finished(vec![7], 1));
    assert!(matches!(table.plan(&vec![7], &vec![7]), CompilePlan::Unchanged));
    match table.plan(&vec![9], &vec![7]) {
        CompilePlan::Write { stale, add } => {
            assert_eq!(stale, vec![7]);
            assert!(!table.finished(add, 0));
        }
        other => panic!("another set is written: {other:?}"),
    }
    match table.plan(&vec![7], &vec![]) {
        CompilePlan::Write { stale, add } => {
            assert!(stale.is_empty());
            assert_eq!(add, vec![7]);
        }
        other => panic!("the table lacks a refusal: {other:?}"),
    }
}

#[test]
fn orphans_with_a_refusal_come_first() {
    assert_eq!(orphans(&vec![9], &vec![8, 9, 2], &vec![1, 2, 9, 7]), vec![8, 2, 1, 7]);
}

#[test]
fn an_exec_keeps_what_the_event_said() {
    let e = engine(vec![]);
    let event = Process {
        cmdline: vec!["curl".to_string()],
        cwd: Some("/tmp".to_string()),
        package: Some("curl".to_string()),
        ..Process::unknown(7)
    };
    let d = on_exec(&e, &event, &Some("/usr/bin/curl".to_string()), NOW);
    assert_eq!(d.process.exe, "/usr/bin/curl");
    assert_eq!(d.process.cmdline, event.cmdline);
    assert_eq!(d.process.cwd, event.cwd);
    assert_eq!(d.process.package, event.package);
    assert_eq!(d.process.provenance, event.provenance);
}

#[test]
fn half_a_pair_of_pins_is_removed_with_the_rest() {
    assert_eq!(leftovers(true, true, true, false), vec![]);
    assert_eq!(leftovers(false, false, false, false), vec![]);
    assert_eq!(leftovers(true, false, true, false), vec![Pin::Connect4, Pin::Sendmsg4]);
    assert_eq!(leftovers(false, true, false, true), vec![Pin::Connect6, Pin::Sendmsg6]);
}
