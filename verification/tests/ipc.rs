//! Who may call what, and what each call does.

use cfc_daemon::config::{DefaultPolicy, IpcConfig};
use cfc_daemon::decision::Engine;
use cfc_daemon::ipc::{
    authorize_uid, connection_event, enforcing_heuristic, event_page, event_query_from_pb,
    finish_delete, finish_upsert, is_blocked, note_drop, requested_pause_secs, resolve_pause_secs,
    should_deliver, socket_auth, socket_group, socket_mode, Access, Code, Credentials, EventBatch,
    FirewallService, IpcOptions, PeerId, PromptAudience, SocketAuth, WriterAction, WriterEvent,
    AUDIENCE_CAP, DEFAULT_EVENT_PAGE, ENFORCING_GRACE_SECS, EVENT_BATCH_ROWS, MAX_EVENT_PAGE,
    MAX_PAUSE_SECS,
};
use cfc_daemon::model::{
    Action, Connection, Direction, Duration, IpAddr, Process, Protocol, Rule, RuleScope, Verdict,
};
use cfc_daemon::proto as pb;
use cfc_daemon::proto::ListEventsRequest;
use cfc_daemon::stats::Stats;
use cfc_daemon::storage::EventRow;

const NOW: i64 = 1_700_000_000_000;

fn peer(uid: u32) -> Credentials {
    Some(Some(PeerId { uid, pid: Some(10) }))
}

fn auth(group_gated: bool, require_group: bool) -> SocketAuth {
    SocketAuth { group: "colony-firewall".to_string(), group_gated, require_group }
}

fn service(group_gated: bool) -> FirewallService {
    let opts = IpcOptions {
        socket_path: "/run/cfc.sock".to_string(),
        ipc: IpcConfig::default(),
        pause_default_secs: 600,
        dry_run: false,
    };
    FirewallService::new(&opts, auth(group_gated, true))
}

fn policy() -> DefaultPolicy {
    DefaultPolicy {
        no_ui_action: Action::Deny,
        timeout_action: Action::Reject,
        inbound_action: Action::Deny,
        prompt_timeout_secs: 30,
    }
}

fn answer(prompt_id: &str, action: i32, persist: bool) -> pb::VerdictRequest {
    let mut scope = pb::RuleScope::default();
    scope.exe_path = "/usr/bin/curl".to_string();
    pb::VerdictRequest {
        prompt_id: prompt_id.to_string(),
        action,
        duration: pb::Duration::Always.number(),
        persist_scope: if persist { Some(scope) } else { None },
    }
}

#[test]
fn read_only_rpcs_are_open_to_any_connected_peer() {
    for gated in [true, false] {
        for require in [true, false] {
            assert!(authorize_uid(1000, Access::ReadOnly, gated, require));
            assert!(authorize_uid(0, Access::ReadOnly, gated, require));
        }
    }
}

#[test]
fn root_may_always_mutate() {
    for gated in [true, false] {
        assert!(authorize_uid(0, Access::Mutate, gated, true));
    }
}

#[test]
fn non_root_mutation_requires_a_group_gated_socket() {
    assert!(authorize_uid(1000, Access::Mutate, true, true));
    assert!(!authorize_uid(1000, Access::Mutate, false, true));
    assert!(authorize_uid(1000, Access::Mutate, false, false));
}

#[test]
fn a_refused_caller_learns_which_group_it_takes() {
    let e = auth(false, true).authorize(peer(1000), Access::Mutate).unwrap_err();
    assert_eq!(e.code, Code::PermissionDenied);
    assert_eq!(
        e.message,
        "mutating RPCs require uid 0 or a socket owned by group 'colony-firewall'"
    );
    assert_eq!(
        auth(false, true).authorize(peer(0), Access::Mutate).unwrap().uid,
        0
    );
}

#[test]
fn a_connection_without_credentials_gets_nothing() {
    let a = auth(true, true);
    let e = a.authorize(None, Access::ReadOnly).unwrap_err();
    assert_eq!(e.message, "connection carries no peer credentials");
    let e = a.authorize(Some(None), Access::ReadOnly).unwrap_err();
    assert_eq!(e.message, "peer credentials unavailable");
}

#[test]
fn pause_zero_means_daemon_default() {
    assert_eq!(resolve_pause_secs(0, 600), 600);
    assert_eq!(resolve_pause_secs(0, 30), 30);
}

#[test]
fn pause_explicit_duration_wins_over_default() {
    assert_eq!(resolve_pause_secs(45, 600), 45);
}

#[test]
fn pause_is_clamped_to_the_maximum() {
    assert_eq!(resolve_pause_secs(u32::MAX, 600), MAX_PAUSE_SECS);
    assert_eq!(resolve_pause_secs(0, u64::MAX), MAX_PAUSE_SECS);
    assert_eq!(
        resolve_pause_secs(MAX_PAUSE_SECS as u32, 600),
        MAX_PAUSE_SECS
    );
}

#[test]
fn pause_never_resolves_to_forever() {
    assert_eq!(resolve_pause_secs(0, 0), 1);
}

#[test]
fn clamping_is_detectable_for_the_warning() {
    assert!(requested_pause_secs(u32::MAX, 600) > resolve_pause_secs(u32::MAX, 600));
    assert_eq!(requested_pause_secs(45, 600), resolve_pause_secs(45, 600));
}

#[test]
fn a_pause_ends_when_its_timer_fires() {
    let mut s = service(true);
    let mut stats = Stats::new();
    let msg = pb::SetPausedRequest { paused: true, duration_secs: 60 };
    let (resp, timer) = s.set_paused(&mut stats, peer(1000), &msg, NOW).unwrap();
    assert!(resp.paused && stats.is_paused());
    assert_eq!(resp.resume_at_unix_ms, NOW + 60_000);
    let timer = timer.unwrap();
    assert_eq!(timer.secs, 60);
    assert!(!timer.clamped);
    assert!(s.pause_expired(&mut stats, timer.generation));
    assert!(!stats.is_paused());
    assert_eq!(s.resume_at_ms, 0);
}

#[test]
fn the_timer_of_an_earlier_pause_does_not_end_a_later_one() {
    let mut s = service(true);
    let mut stats = Stats::new();
    let on = pb::SetPausedRequest { paused: true, duration_secs: 60 };
    let off = pb::SetPausedRequest { paused: false, duration_secs: 0 };
    let first = s.set_paused(&mut stats, peer(0), &on, NOW).unwrap().1.unwrap();
    assert!(s.set_paused(&mut stats, peer(0), &off, NOW).unwrap().1.is_none());
    let second = s.set_paused(&mut stats, peer(0), &on, NOW + 5).unwrap().1.unwrap();
    assert!(!s.pause_expired(&mut stats, first.generation));
    assert!(stats.is_paused());
    assert!(s.pause_expired(&mut stats, second.generation));
}

#[test]
fn a_pause_needs_the_right_to_mutate() {
    let mut s = service(false);
    let mut stats = Stats::new();
    let on = pb::SetPausedRequest { paused: true, duration_secs: 60 };
    let e = s.set_paused(&mut stats, peer(1000), &on, NOW).unwrap_err();
    assert_eq!(e.code, Code::PermissionDenied);
    assert!(!stats.is_paused());
}

#[test]
fn enforcing_is_false_only_after_a_silent_grace_period() {
    assert!(enforcing_heuristic(false, 0, 5));
    assert!(!enforcing_heuristic(false, 0, ENFORCING_GRACE_SECS + 1));
    assert!(enforcing_heuristic(false, 1, 100_000));
}

#[test]
fn dry_run_never_claims_to_be_enforcing() {
    assert!(!enforcing_heuristic(true, 0, 5));
    assert!(!enforcing_heuristic(true, 999, 100_000));
}

fn list_req() -> ListEventsRequest {
    ListEventsRequest::default()
}

#[test]
fn event_query_defaults_are_sane() {
    let (limit, offset, filter) = event_query_from_pb(&list_req()).unwrap();
    assert_eq!(limit, DEFAULT_EVENT_PAGE);
    assert_eq!(offset, 0);
    assert_eq!(filter.exe_contains, None);
    assert_eq!(filter.action, None);
    assert_eq!(filter.since_ts_unix_ms, None);
}

#[test]
fn event_query_limit_is_capped() {
    let req = ListEventsRequest { limit: u32::MAX, ..list_req() };
    assert_eq!(event_query_from_pb(&req).unwrap().0, MAX_EVENT_PAGE);
}

#[test]
fn event_query_maps_every_filter() {
    let req = ListEventsRequest {
        limit: 10,
        offset: 5,
        exe_contains: "curl".into(),
        action_filter: pb::Action::Deny.number(),
        since_unix_ms: 1234,
    };
    let (limit, offset, filter) = event_query_from_pb(&req).unwrap();
    assert_eq!(limit, 10);
    assert_eq!(offset, 5);
    assert_eq!(filter.exe_contains.as_deref(), Some("curl"));
    assert_eq!(filter.action.as_deref(), Some("Deny"));
    assert_eq!(filter.since_ts_unix_ms, Some(1234));
}

#[test]
fn event_query_rejects_an_unknown_action_filter() {
    let req = ListEventsRequest { action_filter: 99, ..list_req() };
    assert!(event_query_from_pb(&req).is_err());
}

#[test]
fn event_query_ignores_a_non_positive_since() {
    for since in [0, -1] {
        let req = ListEventsRequest { since_unix_ms: since, ..list_req() };
        assert_eq!(event_query_from_pb(&req).unwrap().2.since_ts_unix_ms, None);
    }
}

#[test]
fn only_a_peer_that_received_a_prompt_may_answer_it() {
    let mut a = PromptAudience::new();
    a.record(7, 1000);
    assert!(a.allows(7, 1000));
    assert!(!a.allows(7, 1001));
    assert!(!a.allows(8, 1000));
}

#[test]
fn several_subscribers_may_share_a_prompt() {
    let mut a = PromptAudience::new();
    a.record(7, 1000);
    a.record(7, 1001);
    assert!(a.allows(7, 1000));
    assert!(a.allows(7, 1001));
}

#[test]
fn forgetting_a_prompt_revokes_the_right_to_answer_it() {
    let mut a = PromptAudience::new();
    a.record(7, 1000);
    a.forget(7);
    assert!(!a.allows(7, 1000));
    a.forget(7);
}

fn deliver_to(audience: &mut PromptAudience, prompt_id: u64, owner_uid: Option<u32>, uid: u32) {
    if should_deliver(owner_uid, uid) {
        audience.record(prompt_id, uid);
    }
}

#[test]
fn only_the_owning_session_enters_a_prompts_audience() {
    let mut a = PromptAudience::new();
    for uid in [0, 1000, 1001] {
        deliver_to(&mut a, 7, Some(1000), uid);
    }
    assert!(a.allows(7, 1000), "the owner was shown the prompt");
    assert!(a.allows(7, 0), "root sees everything");
    assert!(
        !a.allows(7, 1001),
        "another session never received it, so it may not answer it"
    );
}

#[test]
fn unattributed_prompts_admit_every_session() {
    let mut a = PromptAudience::new();
    for uid in [0, 1000, 1001] {
        deliver_to(&mut a, 7, None, uid);
    }
    for uid in [0, 1000, 1001] {
        assert!(a.allows(7, uid), "uid {uid} was shown an unowned prompt");
    }
}

#[test]
fn a_root_owned_prompt_admits_only_root() {
    let mut a = PromptAudience::new();
    for uid in [0, 1000] {
        deliver_to(&mut a, 7, Some(0), uid);
    }
    assert!(a.allows(7, 0));
    assert!(!a.allows(7, 1000));
}

#[test]
fn audience_evicts_oldest_prompts_beyond_the_cap() {
    let mut a = PromptAudience::new();
    for id in 0..(AUDIENCE_CAP as u64 + 10) {
        a.record(id, 1000);
    }
    assert!(a.len() <= AUDIENCE_CAP);
    assert!(a.allows(AUDIENCE_CAP as u64 + 9, 1000));
    assert!(!a.allows(0, 1000));
}

#[test]
fn recording_the_same_peer_twice_does_not_grow_the_queue() {
    let mut a = PromptAudience::new();
    for _ in 0..10 {
        a.record(7, 1000);
    }
    assert_eq!(a.len(), 1);
}

#[test]
fn a_stream_records_what_it_hands_over() {
    let mut a = PromptAudience::new();
    assert!(a.deliver("7", Some(1000), 1000));
    assert!(!a.deliver("7", Some(1000), 1001));
    assert!(a.deliver("not a number", None, 1001));
    assert!(a.allows(7, 1000));
    assert!(!a.allows(7, 1001));
    assert_eq!(a.len(), 1);
}

#[test]
fn an_answer_passes_only_from_the_audience() {
    let mut s = service(true);
    let allow = pb::Action::Allow.number();
    let e = s
        .submit_verdict_at(peer(1000), &answer("7", allow, false), 5, NOW)
        .unwrap_err();
    assert_eq!(e.code, Code::PermissionDenied);
    assert_eq!(e.message, "this prompt was not delivered to you");

    assert!(s.audience.deliver("7", Some(1000), 1000));
    let sub = s
        .submit_verdict_at(peer(1000), &answer("7", allow, false), 5, NOW)
        .unwrap();
    assert_eq!(sub.verdict.action, Action::Allow);
    assert_eq!(sub.number, Some(7));
    assert!(sub.rule.is_none());

    let resp = s.finish_verdict(&sub, true);
    assert!(resp.accepted && resp.error.is_empty());
    assert!(
        s.submit_verdict_at(peer(1000), &answer("7", allow, false), 5, NOW).is_err(),
        "an answered prompt is closed"
    );
    let sub = s
        .submit_verdict(peer(0), &answer("7", allow, false), NOW)
        .expect("root may answer anything");
    let resp = s.finish_verdict(&sub, false);
    assert_eq!(resp.error, "no pending prompt with id 7");
}

#[test]
fn an_answer_may_leave_a_rule_behind() {
    let s = service(true);
    let deny = pb::Action::Deny.number();
    let mut sub = s.submit_verdict_at(peer(0), &answer("9", deny, true), 5, NOW).unwrap();
    let rule = sub.rule.as_ref().unwrap();
    assert_eq!(rule.id, 5);
    assert_eq!(rule.name, "user prompt 9");
    assert_eq!(rule.action, Action::Deny);
    assert_eq!(rule.duration, Duration::Always);
    assert_eq!(rule.scope.exe_path.as_deref(), Some("/usr/bin/curl"));
    assert_eq!((rule.created_at_unix_ms, rule.hit_count), (NOW, 0));
    let mut engine = Engine::new(vec![], policy());
    assert_eq!(sub.adopt(&mut engine, true), Some(5));
    assert_eq!(engine.rule_count(), 1);
    assert!(sub.rule.is_none());

    let mut sub = s.submit_verdict_at(peer(0), &answer("9", deny, true), 6, NOW).unwrap();
    assert_eq!(sub.adopt(&mut engine, false), None, "it could not be stored");
    assert_eq!(engine.rule_count(), 1);
}

#[test]
fn a_bad_answer_is_refused() {
    let s = service(true);
    let e = s.submit_verdict_at(peer(0), &answer("9", 0, false), 5, NOW).unwrap_err();
    assert_eq!(e.code, Code::InvalidArgument);
    assert_eq!(e.message, "action unspecified/unknown: 0");
    let mut req = answer("9", pb::Action::Deny.number(), true);
    req.duration = pb::Duration::Once.number();
    let e = s.submit_verdict_at(peer(0), &req, 5, NOW).unwrap_err();
    assert_eq!(e.message, "Once rules cannot be persisted");
    req.duration = 0;
    let e = s.submit_verdict_at(peer(0), &req, 5, NOW).unwrap_err();
    assert_eq!(e.message, "duration unspecified/unknown: 0");
    req.persist_scope.as_mut().unwrap().dst_net = "x".to_string();
    let e = s.submit_verdict_at(peer(0), &req, 5, NOW).unwrap_err();
    assert_eq!(e.message, "bad dst_net `x`: invalid IP address syntax");
}

fn scoped_rule(id: u128) -> Rule {
    let mut scope = RuleScope::any();
    scope.dst_port = Some(443);
    Rule::new(id, NOW - 1000, "https".to_string(), Action::Allow, scope)
}

#[test]
fn an_upsert_keeps_what_the_daemon_counted() {
    let s = service(true);
    let mut stored = scoped_rule(3);
    stored.hit_count = 8;
    let mut engine = Engine::new(vec![stored], policy());
    let mut echoed = cfc_daemon::convert::rule_to_pb(&scoped_rule(3));
    echoed.hit_count = 4000;
    echoed.created_at_unix_ms = 17;
    echoed.enabled = false;
    let rule = s
        .upsert_rule_at(peer(1000), &engine, &Some(echoed), 99, NOW)
        .unwrap();
    assert_eq!((rule.id, rule.hit_count), (3, 8));
    assert_eq!(rule.created_at_unix_ms, NOW - 1000);
    assert!(!rule.enabled);
    let e = finish_upsert(&mut engine, rule, &Err("disk full".to_string())).unwrap_err();
    assert_eq!((e.code, e.message.as_str()), (Code::Internal, "storage: disk full"));
    assert!(engine.snapshot()[0].enabled, "what was not stored does not take effect");
}

#[test]
fn an_upsert_answers_with_the_id() {
    let s = service(true);
    let mut engine = Engine::new(vec![], policy());
    let e = s.upsert_rule(peer(0), &engine, &None, NOW).unwrap_err();
    assert_eq!(e.message, "rule required");
    let msg = cfc_daemon::convert::rule_to_pb(&scoped_rule(3));
    let rule = s.upsert_rule(peer(0), &engine, &Some(msg), NOW).unwrap();
    let id = finish_upsert(&mut engine, rule, &Ok(())).unwrap();
    assert_eq!(id, "00000000-0000-0000-0000-000000000003");
    let listed = s.list_rules(peer(1000), &engine).unwrap();
    assert_eq!(listed.len(), 1);
    assert_eq!(listed[0].id, id);
}

#[test]
fn a_deleted_rule_is_gone_and_a_missing_one_is_not_an_error() {
    let s = service(true);
    let mut engine = Engine::new(vec![scoped_rule(3)], policy());
    let e = s.delete_rule(peer(0), "nonsense").unwrap_err();
    assert_eq!(e.code, Code::InvalidArgument);
    assert!(e.message.starts_with("bad uuid: "), "{}", e.message);
    let id = s.delete_rule(peer(0), "00000000-0000-0000-0000-000000000003").unwrap();
    assert_eq!(id, 3);
    assert_eq!(finish_delete(&mut engine, id, &Ok(false)).unwrap(), false);
    assert_eq!(engine.rule_count(), 1);
    assert_eq!(finish_delete(&mut engine, id, &Ok(true)).unwrap(), true);
    assert_eq!(engine.rule_count(), 0);
    assert!(finish_delete(&mut engine, id, &Err("io".to_string())).is_err());
}

#[test]
fn the_status_says_how_the_daemon_is_doing() {
    let s = service(true);
    let mut stats = Stats::new();
    stats.record_allow();
    stats.record_deny();
    stats.record_deny();
    let engine = Engine::new(vec![scoped_rule(3)], policy());
    let r = s
        .get_status(peer(1000), &engine, &policy(), &stats, 120, 2, "1.2.3")
        .unwrap();
    assert_eq!(r.version, "1.2.3");
    assert_eq!((r.connections_seen, r.connections_allowed, r.connections_denied), (3, 1, 2));
    assert_eq!(r.rules_count, 1);
    assert_eq!(r.skipped_rules, 2);
    assert_eq!(r.timeout_action, pb::Action::Reject.number());
    assert_eq!(r.no_ui_action, pb::Action::Deny.number());
    assert_eq!(r.prompt_timeout_secs, 30);
    assert!(r.enforcing && !r.paused);
    assert_eq!(r.resume_at_unix_ms, 0);
}

#[test]
fn a_socket_is_gated_only_when_owner_and_mode_were_set() {
    assert_eq!(socket_group(&Ok(Some(7))), Some(7));
    assert_eq!(socket_group(&Ok(None)), None);
    assert_eq!(socket_group(&Err("no".to_string())), None);
    assert_eq!(socket_mode(true), 0o660);
    assert_eq!(socket_mode(false), 0o600);
    let ipc = IpcConfig::default();
    assert!(socket_auth(&ipc, true, true).group_gated);
    assert!(!socket_auth(&ipc, true, false).group_gated);
    assert!(!socket_auth(&ipc, false, true).group_gated);
    assert_eq!(socket_auth(&ipc, false, true).group, "colony-firewall");
}

fn observed(dst_port: u16, action: Action) -> (Connection, Process, Verdict) {
    let mut process = Process::unknown(1234);
    process.exe = "/usr/bin/curl".to_string();
    let connection = Connection::new(
        1,
        NOW,
        Protocol::Tcp,
        Direction::Outbound,
        (IpAddr::V4(0x0a00_0001), 4321),
        (IpAddr::V4(0x0101_0101), dst_port),
    );
    (connection, process, Verdict::from_policy(action))
}

#[test]
fn event_pipeline_persists_the_live_feed() {
    let mut batch = EventBatch::new();
    let mut table: Vec<EventRow> = Vec::new();
    for (port, action) in [(443, Action::Allow), (80, Action::Deny)] {
        let (c, p, v) = observed(port, action);
        let row = cfc_daemon::convert::event_row_from_observed(&c, &p, &v);
        assert!(matches!(batch.step(WriterEvent::Row(row)), WriterAction::Wait));
    }
    match batch.step(WriterEvent::FlushTick) {
        WriterAction::Write(rows) => table.extend(rows),
        other => panic!("a tick writes what waits: {other:?}"),
    }
    assert_eq!(table.len(), 2);
    assert!(table.iter().any(|r| r.dst_port == Some(443) && r.action == "Allow"));
    assert!(table.iter().any(|r| r.dst_port == Some(80) && r.action == "Deny"));
    assert!(table.iter().all(|r| r.exe.as_deref() == Some("/usr/bin/curl")));

    let (_, _, filter) = event_query_from_pb(&ListEventsRequest {
        action_filter: pb::Action::Deny.number(),
        ..ListEventsRequest::default()
    })
    .unwrap();
    let denies: Vec<&EventRow> = table
        .iter()
        .filter(|r| filter.action.as_deref() == Some(r.action.as_str()))
        .collect();
    assert_eq!(denies.len(), 1);
    assert_eq!(denies[0].dst_port, Some(80));

    let page = event_page(&table);
    assert_eq!(page.total_returned, 2);
    assert_eq!(page.events[1].dst_port, 80);
}

#[test]
fn a_full_batch_is_written_at_once() {
    let mut batch = EventBatch::new();
    for i in 1..EVENT_BATCH_ROWS {
        let step = batch.step(WriterEvent::Row(EventRow::default()));
        assert!(matches!(step, WriterAction::Wait), "row {i}");
    }
    match batch.step(WriterEvent::Row(EventRow::default())) {
        WriterAction::Write(rows) => assert_eq!(rows.len(), EVENT_BATCH_ROWS),
        other => panic!("the batch is full: {other:?}"),
    }
    assert!(matches!(batch.step(WriterEvent::FlushTick), WriterAction::Wait));
    assert!(matches!(batch.step(WriterEvent::PruneTick), WriterAction::Prune));
    batch.step(WriterEvent::Row(EventRow::default()));
    match batch.step(WriterEvent::Closed) {
        WriterAction::Finish(rows) => assert_eq!(rows.len(), 1),
        other => panic!("nothing is lost at the end: {other:?}"),
    }
}

#[test]
fn dropped_events_are_mentioned_now_and_then() {
    let mut dropped = 0;
    let mut warned = 0;
    for _ in 0..2000 {
        if note_drop(&mut dropped) {
            warned += 1;
        }
    }
    assert_eq!((dropped, warned), (2000, 3));
    assert!(is_blocked(Action::Deny) && is_blocked(Action::Reject) && !is_blocked(Action::Allow));
}

#[test]
fn the_live_feed_names_the_rule_that_decided() {
    let (c, p, _) = observed(443, Action::Allow);
    let ev = connection_event(&c, &p, &Verdict::from_rule(Action::Deny, 3));
    assert_eq!(ev.verdict, pb::Action::Deny.number());
    assert_eq!(ev.rule_id, "00000000-0000-0000-0000-000000000003");
    assert_eq!(ev.connection.dst_ip, "1.1.1.1");
    assert_eq!(ev.process.pid, 1234);
    let ev = connection_event(&c, &p, &Verdict::default_allow());
    assert_eq!(ev.rule_id, "");
}

#[test]
fn a_list_of_events_takes_credentials_too() {
    let s = service(true);
    assert!(s.list_events(None, &list_req()).is_err());
    assert_eq!(s.list_events(peer(1000), &list_req()).unwrap().0, 100);
    let e = s
        .list_events(peer(0), &ListEventsRequest { action_filter: 9, ..list_req() })
        .unwrap_err();
    assert_eq!(e.code, Code::InvalidArgument);
}
