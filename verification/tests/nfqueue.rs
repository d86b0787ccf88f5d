//! What becomes of each queued packet.

use cfc_daemon::config::DefaultPolicy;
use cfc_daemon::decision::Engine;
use cfc_daemon::dns::DnsCache;
use cfc_daemon::model::{
    Action, Connection, Direction, IpAddr, IpNet, Process, Protocol, Rule, RuleScope, Verdict,
};
use cfc_daemon::nfqueue::{
    apply_action, direction_for_hook, gave_up_message, handle_packet, FlowKey, LoopStep,
    MessageStep, NfqVerdict, PacketMeta, PacketOutcome, ParkStep, ProcessResolver, PromptRequest,
    PromptVerdict, RecvBudget, RecvEvent, Release, Tuning, VerdictEvent, Worker, NF_INET_LOCAL_IN,
    NF_INET_LOCAL_OUT,
};
use cfc_daemon::stats::Stats;
use std::cell::Cell;

const IPPROTO_TCP: u8 = 6;
const NOW: i64 = 1_700_000_000_000;
const NOW_NS: u64 = 1_000_000_000_000;

/// 1.2.3.4:5555 -> 5.6.7.8:`dst_port`.
fn tcp_packet(dst_port: u16) -> Vec<u8> {
    let mut pkt = vec![0u8; 40];
    pkt[0] = 0x45;
    pkt[9] = IPPROTO_TCP;
    pkt[12..16].copy_from_slice(&[1, 2, 3, 4]);
    pkt[16..20].copy_from_slice(&[5, 6, 7, 8]);
    pkt[20..22].copy_from_slice(&5555u16.to_be_bytes());
    pkt[22..24].copy_from_slice(&dst_port.to_be_bytes());
    pkt
}

fn dp_allow() -> DefaultPolicy {
    DefaultPolicy {
        no_ui_action: Action::Allow,
        timeout_action: Action::Allow,
        inbound_action: Action::Deny,
        prompt_timeout_secs: 15,
    }
}

fn dp_deny() -> DefaultPolicy {
    DefaultPolicy {
        no_ui_action: Action::Deny,
        timeout_action: Action::Deny,
        inbound_action: Action::Deny,
        prompt_timeout_secs: 10,
    }
}

fn rule(name: String, action: Action, scope: RuleScope) -> Rule {
    Rule::new(uuid::Uuid::new_v4().as_u128(), NOW, name, action, scope)
}

fn allow_port_rule(port: u16) -> Rule {
    let mut scope = RuleScope::any();
    scope.dst_port = Some(port);
    rule(format!("allow-{port}"), Action::Allow, scope)
}

fn deny_port_rule(port: u16) -> Rule {
    let mut scope = RuleScope::any();
    scope.dst_port = Some(port);
    rule(format!("deny-{port}"), Action::Deny, scope)
}

fn test_process(pid: u32, exe: &str) -> Process {
    Process {
        ppid: Some(1),
        uid: Some(1000),
        gid: Some(1000),
        exe: exe.to_string(),
        cmdline: vec![exe.to_string()],
        ..Process::unknown(pid)
    }
}

fn default_deny() -> Verdict {
    Verdict::from_policy(Action::Deny)
}

struct StubResolver {
    pid: Option<u32>,
    process: Process,
    socket_lookups: Cell<usize>,
    asked: Cell<Option<(Protocol, Direction, (IpAddr, u16), (IpAddr, u16))>>,
    resolved: Cell<Option<u32>>,
}

impl ProcessResolver for StubResolver {
    fn pid_for_socket(
        &self,
        protocol: Protocol,
        direction: Direction,
        src: (IpAddr, u16),
        dst: (IpAddr, u16),
    ) -> Option<u32> {
        self.asked.set(Some((protocol, direction, src, dst)));
        self.socket_lookups.set(self.socket_lookups.get() + 1);
        self.pid
    }

    fn resolve(&self, pid: u32) -> Process {
        self.resolved.set(Some(pid));
        self.process.clone()
    }
}

const NO_META: PacketMeta = PacketMeta { uid: None, gid: None, direction: Direction::Outbound };

const INBOUND_META: PacketMeta = PacketMeta { uid: None, gid: None, direction: Direction::Inbound };

struct TestEnv {
    engine: Engine,
    stats: Stats,
    dns: DnsCache,
    resolver: StubResolver,
}

impl TestEnv {
    fn new(rules: Vec<Rule>, policy: DefaultPolicy) -> Self {
        Self {
            engine: Engine::new(rules, policy),
            stats: Stats::new(),
            dns: DnsCache::new(1),
            resolver: StubResolver {
                pid: Some(4242),
                process: test_process(4242, "/usr/bin/curl"),
                socket_lookups: Cell::new(0),
                asked: Cell::new(None),
                resolved: Cell::new(None),
            },
        }
    }

    fn handle(&mut self, payload: &[u8], meta: &PacketMeta) -> PacketOutcome {
        handle_packet(
            &mut self.engine,
            &mut self.stats,
            &mut self.dns,
            &self.resolver,
            payload,
            meta,
            NOW,
            NOW_NS,
        )
        .outcome
    }
}

#[test]
fn an_inbound_flow_does_not_pay_for_socket_attribution() {
    let mut env = TestEnv::new(vec![], dp_deny());
    env.handle(&tcp_packet(22), &INBOUND_META);
    assert_eq!(
        env.resolver.socket_lookups.get(),
        0,
        "the inbound path asked for socket attribution that cannot succeed"
    );
}

#[test]
fn an_outbound_flow_still_resolves_its_process() {
    let mut env = TestEnv::new(vec![], dp_deny());
    env.handle(&tcp_packet(443), &NO_META);
    assert_eq!(env.resolver.socket_lookups.get(), 1);
}

#[test]
fn an_unexpected_hook_is_treated_as_inbound_not_outbound() {
    assert_eq!(direction_for_hook(NF_INET_LOCAL_OUT), Direction::Outbound);
    assert_eq!(direction_for_hook(NF_INET_LOCAL_IN), Direction::Inbound);
    assert_eq!(direction_for_hook(2), Direction::Inbound);
}

#[test]
fn an_unmatched_inbound_flow_is_denied_even_when_no_ui_action_is_allow() {
    let mut env = TestEnv::new(vec![], dp_allow());
    match env.handle(&tcp_packet(22), &INBOUND_META) {
        PacketOutcome::Deliver { verdict, .. } => {
            assert_eq!(verdict.action, Action::Deny);
        }
        other => panic!("inbound must never prompt or accept by default, got {other:?}"),
    }
}

#[test]
fn the_inbound_default_is_the_configured_one() {
    let policy = DefaultPolicy {
        no_ui_action: Action::Allow,
        timeout_action: Action::Allow,
        inbound_action: Action::Reject,
        prompt_timeout_secs: 15,
    };
    let mut env = TestEnv::new(vec![], policy);
    match env.handle(&tcp_packet(22), &INBOUND_META) {
        PacketOutcome::Deliver { verdict, .. } => {
            assert_eq!(verdict.action, Action::Reject);
        }
        other => panic!("expected Deliver, got {other:?}"),
    }
}

#[test]
fn an_inbound_rule_admits_an_inbound_flow() {
    let mut scope = RuleScope::any();
    scope.direction = Some(Direction::Inbound);
    scope.dst_port = Some(22);
    scope.src_net = IpNet::new(IpAddr::V4(0x0102_0300), 24);
    let rule = rule("ssh-in".to_string(), Action::Allow, scope);
    match TestEnv::new(vec![rule], dp_deny()).handle(&tcp_packet(22), &INBOUND_META) {
        PacketOutcome::Deliver { verdict, .. } => {
            assert_eq!(verdict.action, Action::Allow);
        }
        other => panic!("expected Deliver, got {other:?}"),
    }
}

#[test]
fn an_outbound_only_rule_does_not_admit_the_same_port_inbound() {
    let mut scope = RuleScope::any();
    scope.direction = Some(Direction::Outbound);
    scope.dst_port = Some(22);
    let rule = rule("ssh-out".to_string(), Action::Allow, scope);
    match TestEnv::new(vec![rule], dp_deny()).handle(&tcp_packet(22), &INBOUND_META) {
        PacketOutcome::Deliver { verdict, .. } => {
            assert_eq!(verdict.action, Action::Deny, "outbound rule leaked inbound");
        }
        other => panic!("expected Deliver, got {other:?}"),
    }
}

#[test]
fn an_inbound_rule_does_not_admit_a_peer_outside_its_src_net() {
    let mut scope = RuleScope::any();
    scope.direction = Some(Direction::Inbound);
    scope.dst_port = Some(22);
    scope.src_net = IpNet::new(IpAddr::V4(0xc0a8_0000), 16);
    let rule = rule("ssh-lan".to_string(), Action::Allow, scope);
    match TestEnv::new(vec![rule], dp_deny()).handle(&tcp_packet(22), &INBOUND_META) {
        PacketOutcome::Deliver { verdict, .. } => {
            assert_eq!(verdict.action, Action::Deny);
        }
        other => panic!("expected Deliver, got {other:?}"),
    }
}

#[test]
fn rule_hit_allow_delivers_allow() {
    let mut env = TestEnv::new(vec![allow_port_rule(443)], dp_deny());
    match env.handle(&tcp_packet(443), &NO_META) {
        PacketOutcome::Deliver { connection, verdict, .. } => {
            assert_eq!(verdict.action, Action::Allow);
            assert_eq!(connection.dst_port, 443);
            assert_eq!(connection.pid, Some(4242));
        }
        other => panic!("expected Deliver, got {other:?}"),
    }
    assert_eq!(env.stats.connections_allowed(), 1);
    assert_eq!(env.stats.connections_denied(), 0);
}

#[test]
fn rule_hit_deny_delivers_deny() {
    let mut env = TestEnv::new(vec![deny_port_rule(443)], dp_allow());
    match env.handle(&tcp_packet(443), &NO_META) {
        PacketOutcome::Deliver { verdict, .. } => {
            assert_eq!(verdict.action, Action::Deny);
        }
        other => panic!("expected Deliver, got {other:?}"),
    }
    assert_eq!(env.stats.connections_denied(), 1);
}

#[test]
fn no_rule_returns_prompt_with_policy_fallback() {
    let mut env = TestEnv::new(vec![], dp_deny());
    match env.handle(&tcp_packet(443), &NO_META) {
        PacketOutcome::Prompt { connection, process, fallback } => {
            assert_eq!(fallback.action, Action::Deny);
            assert_eq!(connection.pid, Some(4242));
            assert_eq!(process.exe, "/usr/bin/curl");
        }
        other => panic!("expected Prompt, got {other:?}"),
    }
    assert_eq!(env.stats.connections_total(), 0);
}

#[test]
fn paused_deny_rule_still_denied() {
    let mut env = TestEnv::new(vec![deny_port_rule(443)], dp_allow());
    env.stats.set_paused(true);
    match env.handle(&tcp_packet(443), &NO_META) {
        PacketOutcome::Deliver { verdict, .. } => {
            assert_eq!(verdict.action, Action::Deny);
        }
        other => panic!("expected Deliver, got {other:?}"),
    }
    assert_eq!(env.stats.connections_denied(), 1);
}

#[test]
fn paused_unknown_flow_allowed_without_prompt() {
    let mut env = TestEnv::new(vec![], dp_deny());
    env.stats.set_paused(true);
    match env.handle(&tcp_packet(443), &NO_META) {
        PacketOutcome::Deliver { verdict, .. } => {
            assert_eq!(verdict.action, Action::Allow);
        }
        other => panic!("expected Deliver, got {other:?}"),
    }
    assert_eq!(env.stats.connections_allowed(), 1);
}

#[test]
fn a_pause_does_not_open_the_inbound_side() {
    let mut env = TestEnv::new(vec![], dp_allow());
    env.stats.set_paused(true);
    match env.handle(&tcp_packet(22), &INBOUND_META) {
        PacketOutcome::Deliver { verdict, .. } => assert_eq!(verdict.action, Action::Deny),
        other => panic!("expected Deliver, got {other:?}"),
    }
}

#[test]
fn malformed_packet_applies_default_policy() {
    let mut env = TestEnv::new(vec![], dp_allow());
    assert!(matches!(
        env.handle(&[0x45, 0, 0], &NO_META),
        PacketOutcome::Silent(NfqVerdict::Accept)
    ));

    let mut env = TestEnv::new(vec![], dp_deny());
    assert!(matches!(
        env.handle(&[0x45, 0, 0], &NO_META),
        PacketOutcome::Silent(NfqVerdict::Drop)
    ));
    assert!(matches!(
        env.handle(&[0x90, 0, 0, 0], &NO_META),
        PacketOutcome::Silent(NfqVerdict::Drop)
    ));
    assert_eq!(env.stats.connections_total(), 0);
}

#[test]
fn self_dns_bypass_accepts_silently() {
    let mut env = TestEnv::new(vec![deny_port_rule(53)], dp_deny());
    env.dns = DnsCache::new(4242);
    assert!(matches!(
        env.handle(&tcp_packet(53), &NO_META),
        PacketOutcome::Silent(NfqVerdict::Accept)
    ));
    assert_eq!(env.stats.connections_total(), 0);
}

#[test]
fn kernel_uid_gid_overrides_proc_values() {
    let mut env = TestEnv::new(vec![], dp_allow());
    let meta = PacketMeta { uid: Some(0), gid: Some(0), direction: Direction::Outbound };
    match env.handle(&tcp_packet(443), &meta) {
        PacketOutcome::Prompt { connection, process, .. } => {
            assert_eq!(process.uid, Some(0));
            assert_eq!(process.gid, Some(0));
            assert_eq!(connection.uid, Some(0));
        }
        other => panic!("expected Prompt, got {other:?}"),
    }
}

#[test]
fn kernel_uid_attached_even_without_pid() {
    let mut env = TestEnv::new(vec![], dp_allow());
    env.resolver.pid = None;
    let meta = PacketMeta { uid: Some(1000), gid: None, direction: Direction::Outbound };
    match env.handle(&tcp_packet(443), &meta) {
        PacketOutcome::Prompt { connection, process, .. } => {
            assert_eq!(connection.pid, None);
            assert_eq!(connection.uid, Some(1000));
            assert_eq!(process.uid, Some(1000));
            assert_eq!(process.gid, None);
        }
        other => panic!("expected Prompt, got {other:?}"),
    }
}

#[test]
fn cached_hostname_attached() {
    let mut env = TestEnv::new(vec![], dp_allow());
    env.dns.observe_answer(IpAddr::V4(0x0506_0708), "example.org", 300, NOW_NS);
    match env.handle(&tcp_packet(443), &NO_META) {
        PacketOutcome::Prompt { connection, .. } => {
            assert_eq!(connection.dst_host.as_deref(), Some("example.org"));
        }
        other => panic!("expected Prompt, got {other:?}"),
    }
}

#[test]
fn an_unknown_destination_is_looked_up_once() {
    let mut env = TestEnv::new(vec![], dp_deny());
    let mut lookups = Vec::new();
    for _ in 0..3 {
        let handled = handle_packet(
            &mut env.engine,
            &mut env.stats,
            &mut env.dns,
            &env.resolver,
            &tcp_packet(443),
            &NO_META,
            NOW,
            NOW_NS,
        );
        lookups.push(handled.lookup);
    }
    assert_eq!(lookups, vec![Some(IpAddr::V4(0x0506_0708)), None, None]);
}

fn conn_to(dst_port: u16, src_port: u16) -> Connection {
    Connection::new(
        uuid::Uuid::new_v4().as_u128(),
        NOW,
        Protocol::Tcp,
        Direction::Outbound,
        (IpAddr::V4(0xc0a8_010a), src_port),
        (IpAddr::V4(0x0102_0304), dst_port),
    )
}

#[test]
fn flow_key_dedups_retransmits_and_parallel_connections() {
    let proc = test_process(100, "/usr/bin/curl");
    let key = |dst: u16, src: u16| FlowKey::for_flow(&conn_to(dst, src), &proc);
    assert!(key(443, 1111).same(&key(443, 1111)));
    assert!(key(443, 1111).same(&key(443, 2222)));
    assert!(!key(443, 1111).same(&key(80, 1111)));
}

#[test]
fn flow_key_uses_exe_when_known_else_pid() {
    let conn = conn_to(443, 1111);
    let key = |p: &Process| FlowKey::for_flow(&conn, p);
    let curl = |pid: u32| test_process(pid, "/usr/bin/curl");
    assert!(key(&curl(1)).same(&key(&curl(2))));
    assert!(!key(&curl(1)).same(&key(&test_process(1, "/usr/bin/wget"))));
    assert!(key(&Process::unknown(7)).same(&key(&Process::unknown(7))));
    assert!(!key(&Process::unknown(7)).same(&key(&Process::unknown(8))));
}

/// A worker over a scripted queue: what the loop around it would do.
struct Loop {
    env: TestEnv,
    worker: Worker<u32>,
    budget: RecvBudget,
    prompts: Vec<PromptRequest>,
    router_takes: bool,
    verdicts: Vec<(u32, NfqVerdict)>,
    observed: Vec<Action>,
}

impl Loop {
    fn new(rules: Vec<Rule>, policy: DefaultPolicy) -> Self {
        let tuning = Tuning {
            poll_interval_ms: 1,
            error_backoff_ms: 0,
            max_consecutive_recv_errors: 3,
        };
        Self {
            env: TestEnv::new(rules, policy),
            worker: Worker::new(),
            budget: RecvBudget::new(&tuning),
            prompts: Vec::new(),
            router_takes: true,
            verdicts: Vec::new(),
            observed: Vec::new(),
        }
    }

    fn release(&mut self, r: Release<u32>) {
        let applied = apply_action(r.observed.verdict.action);
        for id in r.packets {
            self.verdicts.push((id, applied.verdict));
        }
        self.observed.push(r.observed.verdict.action);
    }

    fn packet(&mut self, id: u32, payload: &[u8]) {
        assert_eq!(self.budget.step(false, RecvEvent::Packet), LoopStep::Handle);
        let outcome = self.env.handle(payload, &NO_META);
        match self.worker.handle_message(id, outcome) {
            MessageStep::Verdict(id, v) => self.verdicts.push((id, v)),
            MessageStep::Release(r) => self.release(r),
            MessageStep::Rides => {}
            MessageStep::Ask { request, pending } => {
                let prompt_id = request.prompt_id;
                if self.router_takes {
                    self.prompts.push(request);
                }
                let freed = self.worker.dispatched(
                    &mut self.env.stats,
                    prompt_id,
                    pending,
                    self.router_takes,
                );
                if let Some(r) = freed {
                    self.release(r);
                }
            }
        }
    }

    fn event(&mut self, event: VerdictEvent) {
        for r in self.worker.on_verdict(&mut self.env.stats, event) {
            self.release(r);
        }
    }

    fn answer(&mut self, prompt_id: u64, verdict: Verdict) {
        self.event(VerdictEvent::Answer(PromptVerdict { prompt_id, verdict }));
    }
}

#[test]
fn loop_drives_a_rule_hit_packet_to_a_verdict() {
    let mut h = Loop::new(vec![allow_port_rule(443)], dp_deny());
    h.packet(7, &tcp_packet(443));
    assert_eq!(h.verdicts, vec![(7, NfqVerdict::Accept)]);
    assert_eq!(h.env.stats.connections_allowed(), 1);
    assert_eq!(h.observed, vec![Action::Allow]);
    assert_eq!(h.budget.step(true, RecvEvent::WouldBlock), LoopStep::Stop);
}

#[test]
fn loop_parks_a_prompt_and_releases_it_on_the_verdict() {
    let mut h = Loop::new(vec![], dp_deny());
    h.packet(7, &tcp_packet(443));
    assert_eq!(h.prompts[0].connection.dst_port, 443);
    assert!(h.verdicts.is_empty());
    assert_eq!(h.env.stats.connections_total(), 0);

    let id = h.prompts[0].prompt_id;
    h.answer(id, Verdict::default_allow());
    assert_eq!(h.verdicts, vec![(7, NfqVerdict::Accept)]);
    assert_eq!(h.env.stats.connections_allowed(), 1);
    assert_eq!(h.observed, vec![Action::Allow]);
    assert_eq!(h.budget.step(true, RecvEvent::WouldBlock), LoopStep::Stop);
}

#[test]
fn two_packets_of_one_flow_share_a_prompt_and_both_get_verdicted() {
    let mut h = Loop::new(vec![], dp_deny());
    h.packet(1, &tcp_packet(443));
    h.packet(2, &tcp_packet(443));
    assert_eq!(h.prompts.len(), 1, "the second packet rode the outstanding prompt");

    let id = h.prompts[0].prompt_id;
    h.answer(id, default_deny());
    assert_eq!(h.verdicts, vec![(1, NfqVerdict::Drop), (2, NfqVerdict::Drop)]);
    assert_eq!(h.env.stats.connections_denied(), 1);
    assert_eq!(h.budget.step(true, RecvEvent::WouldBlock), LoopStep::Stop);
}

#[test]
fn distinct_flows_get_distinct_prompts() {
    let mut h = Loop::new(vec![], dp_deny());
    h.packet(1, &tcp_packet(443));
    h.packet(2, &tcp_packet(8443));
    let (a, b) = (h.prompts[0].prompt_id, h.prompts[1].prompt_id);
    assert_ne!(a, b);

    h.answer(a, Verdict::default_allow());
    assert_eq!(h.verdicts, vec![(1, NfqVerdict::Accept)]);
    h.answer(b, default_deny());
    assert_eq!(h.verdicts[1], (2, NfqVerdict::Drop));
    assert_eq!(h.budget.step(true, RecvEvent::WouldBlock), LoopStep::Stop);
}

#[test]
fn recv_error_budget_gives_up_after_the_limit() {
    let mut h = Loop::new(vec![], dp_deny());
    assert_eq!(h.budget.step(false, RecvEvent::Failed), LoopStep::Backoff);
    assert_eq!(h.budget.step(false, RecvEvent::Failed), LoopStep::Backoff);
    assert_eq!(h.budget.step(false, RecvEvent::Failed), LoopStep::GiveUp(3));
    assert_eq!(gave_up_message(3), "NFQUEUE recv failed 3 times in a row");
}

#[test]
fn recv_error_budget_resets_on_a_successful_recv() {
    let mut h = Loop::new(vec![allow_port_rule(443)], dp_deny());
    assert_eq!(h.budget.step(false, RecvEvent::Failed), LoopStep::Backoff);
    assert_eq!(h.budget.step(false, RecvEvent::Failed), LoopStep::Backoff);
    h.packet(9, &tcp_packet(443));
    assert_eq!(h.verdicts, vec![(9, NfqVerdict::Accept)]);
    assert_eq!(h.budget.step(false, RecvEvent::Failed), LoopStep::Backoff);
    assert_eq!(h.budget.step(false, RecvEvent::Failed), LoopStep::Backoff);
    assert_eq!(h.budget.step(false, RecvEvent::WouldBlock), LoopStep::IdleWait);
    assert_eq!(h.budget.step(true, RecvEvent::WouldBlock), LoopStep::Stop);
}

#[test]
fn the_budget_is_a_hundred_errors() {
    assert_eq!(
        Tuning::default(),
        Tuning {
            poll_interval_ms: 5,
            error_backoff_ms: 250,
            max_consecutive_recv_errors: 100,
        }
    );
}

#[test]
fn idle_wait_consumes_a_verdict_from_the_channel() {
    let mut h = Loop::new(vec![], dp_deny());
    let step = h.worker.park_for_prompt(
        4,
        conn_to(443, 1111),
        test_process(4242, "/usr/bin/curl"),
        default_deny(),
    );
    let prompt_id = match step {
        ParkStep::Ask { request, pending } => {
            let id = request.prompt_id;
            assert!(h.worker.dispatched(&mut h.env.stats, id, pending, true).is_none());
            id
        }
        other => panic!("prompt dispatched, got {other:?}"),
    };
    assert!(h.verdicts.is_empty());

    assert!(h.worker.waits_on_channel());
    h.answer(prompt_id, Verdict::default_allow());
    assert_eq!(h.verdicts, vec![(4, NfqVerdict::Accept)]);
    assert!(h.worker.waiters.is_empty());
    assert!(h.worker.pending_flows.is_empty());
}

#[test]
fn verdict_channel_disconnect_applies_fallbacks() {
    let mut h = Loop::new(vec![], dp_deny());
    h.packet(3, &tcp_packet(443));
    assert!(h.verdicts.is_empty());
    h.event(VerdictEvent::Disconnected);
    assert_eq!(h.verdicts, vec![(3, NfqVerdict::Drop)]);
    assert_eq!(h.env.stats.connections_denied(), 1);
    assert_eq!(h.budget.step(true, RecvEvent::WouldBlock), LoopStep::Stop);
}

#[test]
fn idle_wait_paces_itself_once_the_router_has_hung_up() {
    let mut h = Loop::new(vec![], dp_deny());
    assert!(h.worker.waits_on_channel());
    h.event(VerdictEvent::Empty);
    assert!(h.worker.waits_on_channel());
    h.event(VerdictEvent::Disconnected);
    assert!(!h.worker.verdict_channel_open);
    assert!(!h.worker.waits_on_channel());
}

#[test]
fn stop_flag_ends_the_loop_with_prompts_outstanding() {
    let mut h = Loop::new(vec![], dp_deny());
    h.packet(1, &tcp_packet(443));
    assert_eq!(h.prompts.len(), 1);
    assert_eq!(h.budget.step(true, RecvEvent::WouldBlock), LoopStep::Stop);
}

#[test]
fn stop_flag_ends_the_loop_while_it_is_idle() {
    let mut budget = RecvBudget::new(&Tuning::default());
    for _ in 0..3 {
        assert_eq!(budget.step(false, RecvEvent::WouldBlock), LoopStep::IdleWait);
    }
    assert_eq!(budget.step(true, RecvEvent::WouldBlock), LoopStep::Stop);
}

#[test]
fn stale_pending_flow_entry_reprompts_instead_of_panicking() {
    let mut h = Loop::new(vec![], dp_deny());
    let conn = conn_to(443, 1111);
    let proc = test_process(4242, "/usr/bin/curl");
    let flow = FlowKey::for_flow(&conn, &proc);
    h.worker.pending_flows.insert(flow.copy(), 99);

    match h.worker.park_for_prompt(5, conn, proc, default_deny()) {
        ParkStep::Ask { request, pending } => {
            assert_eq!(request.prompt_id, 1);
            h.worker.dispatched(&mut h.env.stats, 1, pending, true);
        }
        other => panic!("flow re-prompted, got {other:?}"),
    }
    assert_eq!(h.worker.pending_flows.get(&flow), Some(1));
    assert_eq!(h.worker.waiters.len(), 1);
    assert!(h.verdicts.is_empty(), "the packet is parked, not dropped");
}

#[test]
fn a_router_that_takes_nothing_means_the_fallback() {
    let mut h = Loop::new(vec![], dp_deny());
    h.router_takes = false;
    h.packet(1, &tcp_packet(443));
    assert_eq!(h.verdicts, vec![(1, NfqVerdict::Drop)]);
    assert_eq!(h.env.stats.connections_denied(), 1);
    assert!(h.worker.waiters.is_empty());
}

#[test]
fn a_late_answer_is_ignored() {
    let mut h = Loop::new(vec![], dp_deny());
    h.packet(1, &tcp_packet(443));
    h.answer(1, Verdict::default_allow());
    h.answer(1, default_deny());
    assert_eq!(h.verdicts, vec![(1, NfqVerdict::Accept)]);
    assert_eq!(h.env.stats.connections_total(), 1);
}

#[test]
fn only_a_rejected_packet_is_answered() {
    assert!(apply_action(Action::Reject).refuse);
    assert!(!apply_action(Action::Deny).refuse);
    assert_eq!(apply_action(Action::Reject).verdict, NfqVerdict::Drop);
    assert_eq!(apply_action(Action::Allow).verdict, NfqVerdict::Accept);
}

#[test]
fn the_resolver_is_asked_about_the_packets_own_five_tuple() {
    let mut env = TestEnv::new(vec![], dp_deny());
    env.handle(&tcp_packet(443), &NO_META);
    assert_eq!(
        env.resolver.asked.get(),
        Some((
            Protocol::Tcp,
            Direction::Outbound,
            (IpAddr::V4(0x0102_0304), 5555),
            (IpAddr::V4(0x0506_0708), 443),
        ))
    );
    assert_eq!(env.resolver.resolved.get(), Some(4242));

    let mut own = TestEnv::new(vec![], dp_deny());
    own.resolver.pid = Some(1);
    assert!(matches!(
        own.handle(&tcp_packet(443), &NO_META),
        PacketOutcome::Silent(NfqVerdict::Accept)
    ));
    assert_eq!(own.resolver.resolved.get(), None);
}

#[test]
fn a_transient_error_starts_the_count_anew() {
    let tuning =
        Tuning { poll_interval_ms: 1, error_backoff_ms: 0, max_consecutive_recv_errors: 3 };
    for between in [RecvEvent::WouldBlock, RecvEvent::Interrupted, RecvEvent::Packet] {
        let mut budget = RecvBudget::new(&tuning);
        assert_eq!(budget.step(false, RecvEvent::Failed), LoopStep::Backoff);
        assert_eq!(budget.step(false, RecvEvent::Failed), LoopStep::Backoff);
        budget.step(false, between);
        assert_eq!(budget.step(false, RecvEvent::Failed), LoopStep::Backoff);
        assert_eq!(budget.step(false, RecvEvent::Failed), LoopStep::Backoff);
        assert_eq!(budget.step(false, RecvEvent::Failed), LoopStep::GiveUp(3));
    }
}

#[test]
fn hanging_up_frees_what_waits_whatever_the_books_say() {
    let mut h = Loop::new(vec![], dp_deny());
    let stray = FlowKey::for_flow(&conn_to(80, 1111), &test_process(4242, "/usr/bin/curl"));
    h.worker.pending_flows.insert(stray.copy(), 99);
    h.packet(1, &tcp_packet(443));
    h.event(VerdictEvent::Disconnected);
    assert_eq!(h.verdicts, vec![(1, NfqVerdict::Drop)]);
    assert!(h.worker.waiters.is_empty());
    assert_eq!(h.worker.pending_flows.get(&stray), Some(99));
    let flow = FlowKey::for_flow(&conn_to(443, 5555), &test_process(4242, "/usr/bin/curl"));
    assert_eq!(h.worker.pending_flows.get(&flow), None);
}
