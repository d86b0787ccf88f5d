//! Which rule decides, and what it answers.

use cfc_daemon::config::DefaultPolicy;
use cfc_daemon::decision::{Decision, Engine, ProcessVerdict};
use cfc_daemon::model::{
    Action, Connection, Direction, Duration, IpAddr, Process, Protocol, Rule, RuleScope,
    VerdictSource,
};

const NOW: i64 = 1_700_000_000_000;

fn rule(name: String, action: Action, scope: RuleScope) -> Rule {
    let id = uuid::Uuid::new_v4().as_u128();
    Rule::new(id, NOW - 3_600_000, name, action, scope)
}

fn dp_allow() -> DefaultPolicy {
    DefaultPolicy {
        no_ui_action: Action::Allow,
        timeout_action: Action::Allow,
        inbound_action: Action::Deny,
        prompt_timeout_secs: 15,
    }
}

fn dp_deny() -> DefaultPolicy {
    DefaultPolicy {
        no_ui_action: Action::Deny,
        timeout_action: Action::Deny,
        inbound_action: Action::Deny,
        prompt_timeout_secs: 10,
    }
}

fn conn(dst_port: u16) -> Connection {
    Connection::new(
        0,
        NOW,
        Protocol::Tcp,
        Direction::Outbound,
        (IpAddr::V4(0xc0a8_010a), 54321),
        (IpAddr::V4(0x0102_0304), dst_port),
    )
}

fn proc(exe: &str) -> Process {
    Process {
        ppid: Some(1),
        uid: Some(1000),
        gid: Some(1000),
        exe: exe.to_string(),
        cmdline: vec![exe.to_string()],
        ..Process::unknown(100)
    }
}

fn allow_port_rule(port: u16) -> Rule {
    let mut scope = RuleScope::any();
    scope.dst_port = Some(port);
    rule(format!("allow-{port}"), Action::Allow, scope)
}

fn deny_port_rule(port: u16) -> Rule {
    let mut scope = RuleScope::any();
    scope.dst_port = Some(port);
    rule(format!("deny-{port}"), Action::Deny, scope)
}

fn exe_rule(name: &str, exe: &str, action: Action) -> Rule {
    let mut scope = RuleScope::any();
    scope.exe_path = Some(exe.to_string());
    rule(name.to_string(), action, scope)
}

fn engine_with(rules: Vec<Rule>) -> Engine {
    Engine::new(rules, dp_deny())
}

#[test]
fn an_inbound_rule_does_not_switch_off_in_kernel_enforcement() {
    let mut inbound = RuleScope::any();
    inbound.direction = Some(Direction::Inbound);
    inbound.dst_port = Some(22);
    inbound.protocol = Some(Protocol::Tcp);

    let mut deny = RuleScope::any();
    deny.exe_path = Some("/usr/bin/curl".to_string());

    let engine = engine_with(vec![
        rule("inbound-ssh".to_string(), Action::Allow, inbound),
        rule("deny-curl".to_string(), Action::Deny, deny),
    ]);

    assert_eq!(
        engine.process_wide_action(&proc("/usr/bin/curl"), NOW),
        Some(Action::Deny),
        "an inbound rule must be skipped by the connect hooks, not abstained on"
    );
}

#[test]
fn an_inbound_rule_is_never_precommitted_to_the_connect_hooks() {
    let mut inbound = RuleScope::any();
    inbound.direction = Some(Direction::Inbound);
    inbound.exe_path = Some("/usr/bin/curl".to_string());
    let engine = engine_with(vec![rule(
        "inbound-deny".to_string(),
        Action::Deny,
        inbound,
    )]);
    assert_eq!(
        engine.process_wide_action(&proc("/usr/bin/curl"), NOW),
        None,
        "an inbound deny must never refuse an outbound connect()"
    );
}

#[test]
fn an_unconditional_exe_rule_is_a_process_wide_answer() {
    let engine = engine_with(vec![exe_rule("deny-curl", "/usr/bin/curl", Action::Deny)]);
    assert_eq!(
        engine.process_wide_action(&proc("/usr/bin/curl"), NOW),
        Some(Action::Deny)
    );
    assert_eq!(engine.process_wide_action(&proc("/usr/bin/wget"), NOW), None);
}

#[test]
fn a_destination_scoped_rule_is_never_a_process_wide_answer() {
    let engine = engine_with(vec![deny_port_rule(443)]);
    assert_eq!(engine.process_wide_action(&proc("/usr/bin/curl"), NOW), None);
}

#[test]
fn a_higher_precedence_conditional_rule_blocks_the_answer() {
    let mut allow_443 = exe_rule("allow-curl-443", "/usr/bin/curl", Action::Allow);
    allow_443.scope.dst_port = Some(443);
    let engine = engine_with(vec![
        allow_443,
        exe_rule("deny-curl", "/usr/bin/curl", Action::Deny),
    ]);
    assert_eq!(engine.process_wide_action(&proc("/usr/bin/curl"), NOW), None);
}

#[test]
fn a_conditional_rule_for_another_process_does_not_block_the_answer() {
    let mut allow_443 = exe_rule("allow-wget-443", "/usr/bin/wget", Action::Allow);
    allow_443.scope.dst_port = Some(443);
    let engine = engine_with(vec![
        allow_443,
        exe_rule("deny-curl", "/usr/bin/curl", Action::Deny),
    ]);
    assert_eq!(
        engine.process_wide_action(&proc("/usr/bin/curl"), NOW),
        Some(Action::Deny)
    );
}

#[test]
fn an_unhashed_process_gets_no_answer_when_a_hash_rule_could_apply() {
    let mut allow_hash = exe_rule("allow-known-curl", "/usr/bin/curl", Action::Allow);
    allow_hash.scope.exe_sha256 = Some("abc123".to_string());
    let engine = engine_with(vec![
        allow_hash,
        exe_rule("deny-curl", "/usr/bin/curl", Action::Deny),
    ]);
    assert_eq!(engine.process_wide_action(&proc("/usr/bin/curl"), NOW), None);

    let mut hashed = proc("/usr/bin/curl");
    hashed.sha256 = Some("abc123".to_string());
    assert_eq!(engine.process_wide_action(&hashed, NOW), Some(Action::Allow));
}

#[test]
fn a_hash_rule_for_another_binary_does_not_block_the_answer() {
    let mut allow_hash = exe_rule("allow-known-wget", "/usr/bin/wget", Action::Allow);
    allow_hash.scope.exe_sha256 = Some("abc123".to_string());
    let engine = engine_with(vec![
        allow_hash,
        exe_rule("deny-curl", "/usr/bin/curl", Action::Deny),
    ]);
    assert_eq!(
        engine.process_wide_action(&proc("/usr/bin/curl"), NOW),
        Some(Action::Deny)
    );
}

#[test]
fn a_disabled_or_expired_rule_is_not_a_process_wide_answer() {
    let mut disabled = exe_rule("deny-curl", "/usr/bin/curl", Action::Deny);
    disabled.enabled = false;
    assert_eq!(
        engine_with(vec![disabled]).process_wide_action(&proc("/usr/bin/curl"), NOW),
        None
    );

    let mut expired = exe_rule("deny-curl", "/usr/bin/curl", Action::Deny);
    expired.duration = Duration::Seconds(1);
    expired.created_at_unix_ms = NOW - 3_600_000;
    assert_eq!(
        engine_with(vec![expired]).process_wide_action(&proc("/usr/bin/curl"), NOW),
        None
    );
}

#[test]
fn no_rules_at_all_means_ask_the_packet_path() {
    assert_eq!(
        engine_with(vec![]).process_wide_action(&proc("/usr/bin/curl"), NOW),
        None
    );
}

#[test]
fn reject_rule_stays_reject() {
    let mut scope = RuleScope::any();
    scope.dst_port = Some(443);
    let rule = rule("reject-443".to_string(), Action::Reject, scope);
    let rule_id = rule.id;
    let mut rs: Vec<Rule> = Vec::new();
    rs.push(rule);
    let mut engine = Engine::new(rs, dp_allow());

    match engine.evaluate(&conn(443), &proc("/usr/bin/curl"), NOW) {
        Decision::Resolved(v) => {
            assert_eq!(v.action, Action::Reject);
            assert_eq!(v.source, VerdictSource::Rule(rule_id));
        }
        _ => panic!("expected Resolved"),
    }
}

#[test]
fn reject_default_policy_stays_reject() {
    let policy = DefaultPolicy {
        no_ui_action: Action::Reject,
        timeout_action: Action::Reject,
        inbound_action: Action::Deny,
        prompt_timeout_secs: 15,
    };
    let engine = Engine::new(vec![], policy);

    let fallback = engine.fallback_verdict();
    assert_eq!(fallback.action, Action::Reject);
    assert_eq!(fallback.source, VerdictSource::DefaultPolicy);
}

#[test]
fn no_rules_returns_needs_prompt() {
    let mut engine = Engine::new(vec![], dp_allow());
    match engine.evaluate(&conn(443), &proc("/usr/bin/curl"), NOW) {
        Decision::NeedsPrompt { fallback } => {
            assert_eq!(fallback.action, Action::Allow);
        }
        _ => panic!("expected NeedsPrompt"),
    }
}

#[test]
fn matching_allow_rule_resolves_to_allow() {
    let mut rs: Vec<Rule> = Vec::new();
    rs.push(allow_port_rule(443));
    let mut engine = Engine::new(rs, dp_deny());
    match engine.evaluate(&conn(443), &proc("/usr/bin/curl"), NOW) {
        Decision::Resolved(v) => {
            assert_eq!(v.action, Action::Allow);
            assert!(matches!(v.source, VerdictSource::Rule(_)));
        }
        _ => panic!("expected Resolved"),
    }
}

#[test]
fn matching_deny_rule_resolves_to_deny() {
    let mut rs: Vec<Rule> = Vec::new();
    rs.push(deny_port_rule(443));
    let mut engine = Engine::new(rs, dp_allow());
    match engine.evaluate(&conn(443), &proc("/usr/bin/curl"), NOW) {
        Decision::Resolved(v) => assert_eq!(v.action, Action::Deny),
        _ => panic!("expected Resolved"),
    }
}

#[test]
fn fallback_respects_default_policy_deny() {
    let mut engine = Engine::new(vec![], dp_deny());
    match engine.evaluate(&conn(443), &proc("/usr/bin/curl"), NOW) {
        Decision::NeedsPrompt { fallback } => {
            assert_eq!(fallback.action, Action::Deny);
        }
        _ => panic!("expected NeedsPrompt"),
    }
}

#[test]
fn upsert_rule_takes_effect_immediately() {
    let mut engine = Engine::new(vec![], dp_allow());
    assert!(matches!(
        engine.evaluate(&conn(443), &proc("/usr/bin/curl"), NOW),
        Decision::NeedsPrompt { .. }
    ));

    engine.upsert_rule(allow_port_rule(443));

    assert!(matches!(
        engine.evaluate(&conn(443), &proc("/usr/bin/curl"), NOW),
        Decision::Resolved(_)
    ));
}

#[test]
fn remove_rule_clears_match() {
    let rule = allow_port_rule(443);
    let id = rule.id;
    let mut rs: Vec<Rule> = Vec::new();
    rs.push(rule);
    let mut engine = Engine::new(rs, dp_allow());

    assert!(matches!(
        engine.evaluate(&conn(443), &proc("/usr/bin/curl"), NOW),
        Decision::Resolved(_)
    ));

    engine.remove_rule(id);
    assert!(matches!(
        engine.evaluate(&conn(443), &proc("/usr/bin/curl"), NOW),
        Decision::NeedsPrompt { .. }
    ));
}

#[test]
fn conflicting_rules_resolve_deny_regardless_of_load_order() {
    let allow = allow_port_rule(443);
    let deny = deny_port_rule(443);

    for rules in [
        vec![allow.clone(), deny.clone()],
        vec![deny.clone(), allow.clone()],
    ] {
        let mut engine = Engine::new(rules, dp_allow());
        match engine.evaluate(&conn(443), &proc("/usr/bin/curl"), NOW) {
            Decision::Resolved(v) => assert_eq!(v.action, Action::Deny),
            _ => panic!("expected Resolved"),
        }
    }
}

#[test]
fn policy_reload_changes_fallback_verdict() {
    let mut engine = Engine::new(vec![], dp_allow());
    assert_eq!(engine.fallback_verdict().action, Action::Allow);

    engine.set_policy(dp_deny());
    assert_eq!(engine.fallback_verdict().action, Action::Deny);
    match engine.evaluate(&conn(443), &proc("/usr/bin/curl"), NOW) {
        Decision::NeedsPrompt { fallback } => {
            assert_eq!(fallback.action, Action::Deny);
        }
        _ => panic!("expected NeedsPrompt"),
    }
}

#[test]
fn snapshot_clones_rules() {
    let mut rs: Vec<Rule> = Vec::new();
    rs.push(allow_port_rule(80));
    rs.push(allow_port_rule(443));
    let engine = Engine::new(rs, dp_allow());

    let snap = engine.snapshot();
    assert_eq!(snap.len(), 2);

    drop(snap);
    assert_eq!(engine.snapshot().len(), 2);
}

#[test]
fn upsert_cannot_inflate_the_hit_count_of_an_existing_rule() {
    let rule = allow_port_rule(443);
    let id = rule.id;
    let mut rs: Vec<Rule> = Vec::new();
    rs.push(rule);
    let mut engine = Engine::new(rs, dp_allow());

    engine.evaluate(&conn(443), &proc("/usr/bin/curl"), NOW);
    engine.evaluate(&conn(443), &proc("/usr/bin/curl"), NOW);

    let mut echoed = engine.snapshot()[0].clone();
    assert_eq!(echoed.hit_count, 2);
    echoed.enabled = false;
    let forged_created_at = echoed.created_at_unix_ms;

    engine.preserve_server_owned(&mut echoed);
    assert_eq!(
        echoed.hit_count, 0,
        "the delta is still pending, not stored"
    );
    assert_eq!(echoed.created_at_unix_ms, forged_created_at);
    engine.upsert_rule(echoed);

    let deltas = engine.drain_hits();
    assert_eq!(deltas.get(&id).copied().unwrap_or(0), 2);
    assert_eq!(engine.snapshot()[0].hit_count, 2);
    assert!(!engine.snapshot()[0].enabled);
}

#[test]
fn preserve_server_owned_leaves_an_unknown_rule_alone() {
    let engine = Engine::new(vec![], dp_allow());
    let mut fresh = allow_port_rule(80);
    let before = fresh.clone();
    engine.preserve_server_owned(&mut fresh);
    assert_eq!(fresh.created_at_unix_ms, before.created_at_unix_ms);
    assert_eq!(fresh.hit_count, before.hit_count);
}

#[test]
fn draining_hits_does_not_reset_the_reported_count() {
    let mut rs: Vec<Rule> = Vec::new();
    rs.push(allow_port_rule(443));
    let mut engine = Engine::new(rs, dp_allow());

    engine.evaluate(&conn(443), &proc("/usr/bin/curl"), NOW);
    engine.evaluate(&conn(443), &proc("/usr/bin/curl"), NOW);
    assert_eq!(engine.snapshot()[0].hit_count, 2);

    let deltas = engine.drain_hits();
    assert_eq!(deltas.values().sum::<u64>(), 2, "deltas go to storage");
    assert_eq!(
        engine.snapshot()[0].hit_count,
        2,
        "and stay visible after the flush"
    );

    engine.evaluate(&conn(443), &proc("/usr/bin/curl"), NOW);
    assert_eq!(engine.snapshot()[0].hit_count, 3);
    assert_eq!(engine.drain_hits().values().sum::<u64>(), 1);
}

#[test]
fn the_first_refusal_of_equal_rules_wins_and_more_constraints_win_over_it() {
    let deny = exe_rule("deny-curl", "/usr/bin/curl", Action::Deny);
    let mut allow = exe_rule("allow-curl-443", "/usr/bin/curl", Action::Allow);
    allow.scope.dst_port = Some(443);
    let allow_id = allow.id;
    let mut engine = engine_with(vec![deny, allow]);
    match engine.evaluate(&conn(443), &proc("/usr/bin/curl"), NOW) {
        Decision::Resolved(v) => assert_eq!(v.source, VerdictSource::Rule(allow_id)),
        _ => panic!("expected Resolved"),
    }
    match engine.evaluate(&conn(80), &proc("/usr/bin/curl"), NOW) {
        Decision::Resolved(v) => assert_eq!(v.action, Action::Deny),
        _ => panic!("expected Resolved"),
    }
}

#[test]
fn a_process_wide_answer_is_what_the_packet_path_says() {
    let mut engine = engine_with(vec![exe_rule("deny-curl", "/usr/bin/curl", Action::Deny)]);
    let wide = engine
        .process_wide_verdict(&proc("/usr/bin/curl"), NOW)
        .expect("an unconditional rule answers");
    match engine.evaluate(&conn(443), &proc("/usr/bin/curl"), NOW) {
        Decision::Resolved(v) => {
            assert_eq!(v.action, wide.action);
            assert_eq!(v.source, VerdictSource::Rule(wide.rule_id));
        }
        _ => panic!("expected Resolved"),
    }
}

#[test]
fn only_a_lasting_allow_may_go_ahead_of_the_packet_path() {
    let of = |action: Action, duration: Duration| ProcessVerdict {
        rule_id: 1,
        action,
        duration,
    };
    assert!(of(Action::Allow, Duration::Always).fast_allow_eligible());
    assert!(of(Action::Allow, Duration::UntilRestart).fast_allow_eligible());
    assert!(!of(Action::Allow, Duration::Seconds(60)).fast_allow_eligible());
    assert!(!of(Action::Allow, Duration::Once).fast_allow_eligible());
    assert!(!of(Action::Deny, Duration::Always).fast_allow_eligible());
}

#[test]
fn a_hash_rule_that_refuses_keeps_a_refusal_possible() {
    let mut deny = exe_rule("deny-bad-curl", "/usr/bin/curl", Action::Deny);
    deny.scope.exe_sha256 = Some("a".repeat(64));
    let engine = engine_with(vec![deny]);
    assert!(engine.deny_still_possible_for(&proc("/usr/bin/curl"), NOW));
    assert!(!engine.deny_still_possible_for(&proc("/usr/bin/wget"), NOW));
    let mut hashed = proc("/usr/bin/curl");
    hashed.sha256 = Some("b".repeat(64));
    assert!(!engine.deny_still_possible_for(&hashed, NOW));
}

#[test]
fn only_executables_no_user_rule_names_are_compiled() {
    let mut for_user = exe_rule("deny-wget", "/usr/bin/wget", Action::Deny);
    for_user.scope.uid = Some(1000);
    let engine = engine_with(vec![
        exe_rule("deny-curl", "/usr/bin/curl", Action::Deny),
        exe_rule("deny-wget-all", "/usr/bin/wget", Action::Deny),
        for_user,
    ]);
    assert_eq!(
        engine.compilable_exe_paths(NOW),
        Some(vec!["/usr/bin/curl".to_string()])
    );

    let mut any_exe = RuleScope::any();
    any_exe.uid = Some(1000);
    let engine = engine_with(vec![rule("user".to_string(), Action::Allow, any_exe)]);
    assert_eq!(engine.compilable_exe_paths(NOW), None);
}

#[test]
fn a_rule_runs_out_to_the_millisecond() {
    let mut r = allow_port_rule(443);
    r.duration = Duration::Seconds(3600);
    assert!(r.is_expired(NOW));
    assert!(!r.is_expired(NOW - 1));
    let engine = engine_with(vec![r]);
    assert!(engine.any_expired(NOW));
    assert!(!engine.any_expired(NOW - 1));
}

#[test]
fn a_removed_rule_is_the_only_one_gone() {
    let a = allow_port_rule(80);
    let b = allow_port_rule(443);
    let id = a.id;
    let mut engine = engine_with(vec![a, b]);
    engine.remove_rule(id);
    assert_eq!(engine.rule_count(), 1);
    assert_eq!(engine.snapshot()[0].name, "allow-443");
}

#[test]
fn a_rule_without_a_direction_is_outbound() {
    let mut engine = engine_with(vec![allow_port_rule(443)]);
    let mut inbound = conn(443);
    inbound.direction = Direction::Inbound;
    assert!(matches!(
        engine.evaluate(&inbound, &proc("/usr/bin/curl"), NOW),
        Decision::NeedsPrompt { .. }
    ));
    assert_eq!(engine.inbound_default(), Action::Deny);
}

#[test]
fn every_change_of_the_rules_gives_one_notice() {
    let mut engine = Engine::new(vec![], dp_deny());
    assert_eq!(engine.notices_given(), 0);
    let rule = allow_port_rule(443);
    let id = rule.id;
    engine.upsert_rule(rule.clone());
    assert_eq!((engine.notices_given(), engine.rule_count()), (1, 1));
    engine.upsert_rule(rule);
    assert_eq!((engine.notices_given(), engine.rule_count()), (2, 1));
    engine.evaluate(&conn(443), &proc("/usr/bin/curl"), NOW);
    engine.drain_hits();
    engine.set_policy(dp_allow());
    assert_eq!(engine.notices_given(), 2);
    engine.remove_rule(id);
    assert_eq!((engine.notices_given(), engine.rule_count()), (3, 0));
}
