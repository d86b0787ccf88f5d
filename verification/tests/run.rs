//! What the main loop decides, and the counters.

use cfc_daemon::config::{DefaultPolicy, EbpfMode};
use cfc_daemon::decision::Engine;
use cfc_daemon::model::{
    Action, Connection, Direction, Duration, IpAddr, Process, Protocol, Rule, RuleScope,
};
use cfc_daemon::run::{layer_mode, maintain, on_wake, worker_is_healthy, Next, Wake};
use cfc_daemon::stats::Stats;

const NOW: i64 = 1_700_000_000_000;

#[test]
fn a_stale_stamp_withholds_the_heartbeat() {
    assert!(worker_is_healthy(false, 60_000, 1));
    assert!(!worker_is_healthy(false, 60_000, 0));
    assert!(worker_is_healthy(true, i64::MAX, i64::MIN));
    assert!(!worker_is_healthy(false, i64::MAX, i64::MIN));
}

#[test]
fn a_dry_run_leaves_the_kernel_alone() {
    assert_eq!(layer_mode(EbpfMode::On, true), EbpfMode::Off);
    assert_eq!(layer_mode(EbpfMode::Auto, false), EbpfMode::Auto);
}

#[test]
fn maintenance_drains_the_hits_and_notices_expiry() {
    let mut scope = RuleScope::any();
    scope.dst_port = Some(443);
    let mut rule = Rule::new(3, NOW, "https".to_string(), Action::Allow, scope);
    rule.duration = Duration::Seconds(60);
    let policy = DefaultPolicy {
        no_ui_action: Action::Deny,
        timeout_action: Action::Deny,
        inbound_action: Action::Deny,
        prompt_timeout_secs: 10,
    };
    let mut engine = Engine::new(vec![rule], policy);
    let conn = Connection::new(
        1,
        NOW,
        Protocol::Tcp,
        Direction::Outbound,
        (IpAddr::V4(1), 1),
        (IpAddr::V4(2), 443),
    );
    engine.evaluate(&conn, &Process::unknown(1), NOW);
    let m = maintain(&mut engine, NOW + 59_999);
    assert_eq!(m.deltas.get(&3), Some(&1));
    assert!(!m.expired);
    assert_eq!(engine.notices_given(), 0);
    let m = maintain(&mut engine, NOW + 60_000);
    assert!(m.deltas.is_empty());
    assert!(m.expired);
    assert_eq!(engine.notices_given(), 1);
    assert_eq!(engine.snapshot()[0].hit_count, 1);
}

#[test]
fn signals_and_crashes_lead_to_an_orderly_stop() {
    assert_eq!(on_wake(Wake::ReloadSignal, false), Next::Reload);
    assert_eq!(on_wake(Wake::StopSignal, false), Next::Stop);
    assert_eq!(on_wake(Wake::TaskEnded, true), Next::Fail);
    assert_eq!(on_wake(Wake::TaskEnded, false), Next::Stop);
}

#[test]
fn counters_add_up() {
    let mut s = Stats::new();
    s.record_allow();
    s.record_deny();
    assert_eq!(s.connections_total(), 2);
    let g = s.set_paused(true);
    assert_eq!(g, s.pause_generation());
    assert!(s.is_paused());
    assert_ne!(s.set_paused(false), g);
    s.allowed = u64::MAX;
    s.record_allow();
    assert_eq!(s.connections_allowed(), 0);
}
