//! The packet worker: what becomes of each queued packet.
//!
//! [`handle_packet`] is the decision pipeline for one packet: parse, let the
//! daemon's own traffic pass, attribute the process, attach the name, evaluate
//! the rules. [`Worker`] keeps the packets that wait for somebody's answer, so
//! that one unanswered prompt does not stall the flows behind it. Repeated
//! packets of a flow wait on the prompt that is already out. [`RecvBudget`]
//! decides how the receive loop goes on.

use crate::collections::keys_of;
use crate::config::DefaultPolicy;
use crate::decision::{pending, plus, rule_verdict, Decision, Engine};
use crate::dns::{entered_into, name_for, placeholder, DnsCache, Known};
use crate::model::{
    text_of, Action, Connection, Direction, IpAddr, Process, Protocol, Provenance, Rule, Verdict,
    VerdictSource,
};
use crate::outside::is_random_id;
use crate::packet::{self, read_connection};
use crate::stats::{next, Stats};
use crate::text::{decimal, push_decimal, same_text, text};
use std::collections::HashMap;
use vstd::prelude::*;
use vstd::string::StringExecFns;

verus! {

/// A packet addressed to this machine.
pub const NF_INET_LOCAL_IN: u8 = 1;

/// A packet this machine is sending.
pub const NF_INET_LOCAL_OUT: u8 = 3;

/// Which way a packet is going, by the hook that queued it.
pub open spec fn hook_direction(hook: u8) -> Direction {
    if hook == NF_INET_LOCAL_OUT {
        Direction::Outbound
    } else {
        Direction::Inbound
    }
}

/// Which way a packet is going, from the hook that queued it.
///
/// Only `LOCAL_OUT` is outbound. Inbound is the stricter side - it neither
/// prompts nor ends in `Allow` by default - so a hook that is not expected
/// lands there.
pub fn direction_for_hook(hook: u8) -> (r: Direction)
    ensures
        r == hook_direction(hook),
{
    if hook == NF_INET_LOCAL_OUT {
        Direction::Outbound
    } else {
        Direction::Inbound
    }
}

/// What the kernel is told of a packet.
#[derive(Debug, Clone, Copy, PartialEq, Eq, Structural)]
pub enum NfqVerdict {
    Accept,
    Drop,
}

/// The kernel verdict for an action.
pub open spec fn kernel_verdict(a: Action) -> NfqVerdict {
    match a {
        Action::Allow => NfqVerdict::Accept,
        Action::Deny | Action::Reject => NfqVerdict::Drop,
    }
}

/// Maps an action onto the kernel verdict. A rejected packet is dropped like a
/// denied one; the refusal that goes with it is not the kernel's affair.
pub fn nfq_verdict_for(action: Action) -> (r: NfqVerdict)
    ensures
        r == kernel_verdict(action),
{
    match action {
        Action::Allow => NfqVerdict::Accept,
        Action::Deny | Action::Reject => NfqVerdict::Drop,
    }
}

/// What is done to a packet.
#[derive(Debug, Clone, Copy, PartialEq, Eq, Structural)]
pub struct Applied {
    /// Answer the packet with the refusal its peer would have sent. If that
    /// cannot be sent the packet is still dropped.
    pub refuse: bool,
    pub verdict: NfqVerdict,
}

/// Applies an action to a packet.
pub fn apply_action(action: Action) -> (r: Applied)
    ensures
        r == (Applied { refuse: action == Action::Reject, verdict: kernel_verdict(action) }),
{
    Applied { refuse: action == Action::Reject, verdict: nfq_verdict_for(action) }
}

/// The counters after a flow was decided.
pub open spec fn counted(s: Stats, a: Action) -> Stats {
    match a {
        Action::Allow => Stats { allowed: next(s.allowed), ..s },
        Action::Deny | Action::Reject => Stats { denied: next(s.denied), ..s },
    }
}

/// Counts a decided flow.
pub fn record(stats: &mut Stats, action: Action)
    ensures
        *final(stats) == counted(*old(stats), action),
{
    match action {
        Action::Allow => stats.record_allow(),
        Action::Deny | Action::Reject => stats.record_deny(),
    }
}

/// What the kernel says of a queued packet.
#[derive(Debug, Clone, Copy, PartialEq, Eq, Structural)]
pub struct PacketMeta {
    /// The socket's owner; authoritative when present.
    pub uid: Option<u32>,
    /// The socket's group; authoritative when present.
    pub gid: Option<u32>,
    pub direction: Direction,
}

/// Finds out whose packet it is. What it finds depends on the machine: two
/// calls may differ. Each implementation says which answers it may give; one
/// that does not say may give any.
pub trait ProcessResolver {
    /// Whether `pid` may be the answer for the socket of a five-tuple.
    open spec fn may_hold(
        &self,
        protocol: Protocol,
        direction: Direction,
        src: (IpAddr, u16),
        dst: (IpAddr, u16),
        pid: Option<u32>,
    ) -> bool {
        true
    }

    /// Whether `process` may be what is known of a process.
    open spec fn may_be(&self, pid: u32, process: Process) -> bool {
        true
    }

    /// The process that holds the socket of this five-tuple.
    fn pid_for_socket(
        &self,
        protocol: Protocol,
        direction: Direction,
        src: (IpAddr, u16),
        dst: (IpAddr, u16),
    ) -> (r: Option<u32>)
        ensures
            self.may_hold(protocol, direction, src, dst, r),
    ;

    /// What is known of a process.
    fn resolve(&self, pid: u32) -> (r: Process)
        ensures
            self.may_be(pid, r),
    ;
}

/// What becomes of a packet.
#[derive(Debug)]
pub enum PacketOutcome {
    /// An immediate verdict with nothing to observe: the daemon's own traffic,
    /// and packets that cannot be parsed. Not counted.
    Silent(NfqVerdict),
    /// An immediate verdict, already counted.
    Deliver { connection: Connection, process: Process, verdict: Verdict },
    /// No rule matched: somebody is to be asked. `fallback` applies if nobody
    /// can be. Counted when the prompt resolves.
    Prompt { connection: Connection, process: Process, fallback: Verdict },
}

/// A decided flow, for the live feed.
#[derive(Debug)]
pub struct ObservedConnection {
    pub connection: Connection,
    pub process: Process,
    pub verdict: Verdict,
}

/// A question for the prompt router.
#[derive(Debug)]
pub struct PromptRequest {
    /// The router gives it back with the answer.
    pub prompt_id: u64,
    pub connection: Connection,
    pub process: Process,
}

/// The answer of the prompt router.
#[derive(Debug, Clone, Copy, PartialEq, Eq, Structural)]
pub struct PromptVerdict {
    pub prompt_id: u64,
    pub verdict: Verdict,
}

/// The first of two that is known.
pub open spec fn first_of(a: Option<u32>, b: Option<u32>) -> Option<u32> {
    if a is Some {
        a
    } else {
        b
    }
}

/// A process with what the kernel says of its socket.
pub open spec fn owned_process(p: Process, meta: PacketMeta) -> Process {
    Process { uid: first_of(meta.uid, p.uid), gid: first_of(meta.gid, p.gid), ..p }
}

/// Whether `r` is `c` with a process and a name attached.
pub open spec fn attached(
    c: Connection,
    pid: Option<u32>,
    uid: Option<u32>,
    host: Option<Seq<char>>,
    r: Connection,
) -> bool {
    &&& r == (Connection { pid: first_of(pid, c.pid), uid, dst_host: r.dst_host, ..c })
    &&& text_of(r.dst_host) == (if host is Some {
        host
    } else {
        text_of(c.dst_host)
    })
}

/// Attaches what is known of the process and of the destination. What the
/// kernel says of the socket overrides what a look at the process found.
pub fn attribute(
    conn: Connection,
    process: Process,
    pid: Option<u32>,
    host: Option<String>,
    meta: &PacketMeta,
) -> (r: (Connection, Process))
    ensures
        r.1 == owned_process(process, *meta),
        attached(conn, pid, r.1.uid, text_of(host), r.0),
{
    let mut conn = conn;
    let mut process = process;
    if let Some(uid) = meta.uid {
        process.uid = Some(uid);
    }
    if let Some(gid) = meta.gid {
        process.gid = Some(gid);
    }
    if let Some(p) = pid {
        conn.pid = Some(p);
    }
    conn.uid = process.uid;
    if let Some(h) = host {
        conn.dst_host = Some(h);
    }
    (conn, process)
}

/// What an outcome comes to, the flow aside.
pub ghost enum Ruling {
    Silent(NfqVerdict),
    Deliver(Verdict),
    Prompt(Verdict),
}

impl PacketOutcome {
    /// What it comes to.
    pub open spec fn ruling(&self) -> Ruling {
        match *self {
            PacketOutcome::Silent(v) => Ruling::Silent(v),
            PacketOutcome::Deliver { verdict, .. } => Ruling::Deliver(verdict),
            PacketOutcome::Prompt { fallback, .. } => Ruling::Prompt(fallback),
        }
    }

    /// Whether it is about this flow.
    pub open spec fn about(&self, c: Connection, p: Process) -> bool {
        match *self {
            PacketOutcome::Silent(_) => false,
            PacketOutcome::Deliver { connection, process, .. } => connection == c && process == p,
            PacketOutcome::Prompt { connection, process, .. } => connection == c && process == p,
        }
    }
}

/// A verdict of the default policy.
pub open spec fn by_policy(action: Action) -> Verdict {
    Verdict { action, source: VerdictSource::DefaultPolicy }
}

/// What becomes of a flow: what a rule says; without one, an inbound flow gets
/// the inbound default, a paused daemon lets the flow pass, and otherwise
/// somebody is asked.
pub open spec fn ruled(
    rules: Seq<Rule>,
    policy: DefaultPolicy,
    paused: bool,
    c: &Connection,
    p: &Process,
    now: i64,
) -> Ruling {
    match rule_verdict(rules, c, p, now) {
        Some(v) => Ruling::Deliver(v),
        None => if c.direction == Direction::Inbound {
            Ruling::Deliver(by_policy(policy.inbound_action))
        } else if paused {
            Ruling::Deliver(by_policy(Action::Allow))
        } else {
            Ruling::Prompt(by_policy(policy.no_ui_action))
        },
    }
}

/// The counters after a flow was ruled on.
pub open spec fn counted_ruling(s: Stats, r: Ruling) -> Stats {
    match r {
        Ruling::Deliver(v) => counted(s, v.action),
        _ => s,
    }
}

/// The hits after a flow was ruled on.
pub open spec fn hits_after(
    rules: Seq<Rule>,
    hits: Map<u128, u64>,
    c: &Connection,
    p: &Process,
    now: i64,
) -> Map<u128, u64> {
    match rule_verdict(rules, c, p, now) {
        Some(Verdict { source: VerdictSource::Rule(id), .. }) => hits.insert(
            id,
            plus(pending(hits, id), 1),
        ),
        _ => hits,
    }
}

/// Rules on an attributed flow.
pub fn decide(
    engine: &mut Engine,
    stats: &mut Stats,
    connection: Connection,
    process: Process,
    now_unix_ms: i64,
) -> (r: PacketOutcome)
    ensures
        r.ruling() == ruled(
            old(engine).rules(),
            old(engine).policy(),
            old(stats).paused,
            &connection,
            &process,
            now_unix_ms,
        ),
        r.about(connection, process),
        *final(stats) == counted_ruling(*old(stats), r.ruling()),
        final(engine).rules() == old(engine).rules(),
        final(engine).policy() == old(engine).policy(),
        final(engine).notices() == old(engine).notices(),
        final(engine).hits() == hits_after(
            old(engine).rules(),
            old(engine).hits(),
            &connection,
            &process,
            now_unix_ms,
        ),
{
    match engine.evaluate(&connection, &process, now_unix_ms) {
        Decision::Resolved(verdict) => {
            record(stats, verdict.action);
            PacketOutcome::Deliver { connection, process, verdict }
        },
        Decision::NeedsPrompt { fallback } => {
            // Inbound never asks: authorising happens by writing a rule. A
            // pause does not lift this, there being nothing to ask.
            if connection.direction == Direction::Inbound {
                let verdict = Verdict::from_policy(engine.inbound_default());
                record(stats, verdict.action);
                return PacketOutcome::Deliver { connection, process, verdict };
            }
            if stats.is_paused() {
                let verdict = Verdict::default_allow();
                record(stats, verdict.action);
                return PacketOutcome::Deliver { connection, process, verdict };
            }
            PacketOutcome::Prompt { connection, process, fallback }
        },
    }
}

/// An outcome, and whether a reverse lookup of the flow's destination is to be
/// started.
#[derive(Debug)]
pub struct Handled {
    pub outcome: PacketOutcome,
    pub lookup: Option<IpAddr>,
}

/// What the pipeline reads and changes.
pub ghost struct Desktop {
    pub rules: Seq<Rule>,
    pub policy: DefaultPolicy,
    pub hits: Map<u128, u64>,
    pub notices: u64,
    pub stats: Stats,
    pub names: Map<IpAddr, Known>,
    pub own_pid: u32,
}

/// What the pipeline reads and changes.
pub open spec fn desktop(engine: Engine, stats: Stats, dns: DnsCache) -> Desktop {
    Desktop {
        rules: engine.rules(),
        policy: engine.policy(),
        hits: engine.hits(),
        notices: engine.notices(),
        stats,
        names: dns@,
        own_pid: dns.own_pid(),
    }
}

/// What is known of a process that was not found.
pub open spec fn nobody(p: Process) -> bool {
    &&& p.pid == 0
    &&& p.ppid is None
    &&& p.uid is None
    &&& p.gid is None
    &&& p.exe@.len() == 0
    &&& p.cmdline@.len() == 0
    &&& p.cwd is None
    &&& p.sha256 is None
    &&& p.parent_exe is None
    &&& p.package is None
    &&& p.provenance == Provenance::Unknown
}

/// Whether a reverse lookup of `ip` is to be started.
pub open spec fn wants_lookup(names: Map<IpAddr, Known>, ip: IpAddr, now: u64) -> bool {
    !(names.contains_key(ip) && (names[ip].in_flight || names[ip].fresh(now)))
}

/// What the pipeline does with a flow whose process was looked for.
pub open spec fn flow_handled(
    b: Desktop,
    a: Desktop,
    conn: Connection,
    pid: Option<u32>,
    process: Process,
    meta: PacketMeta,
    now: i64,
    now_ns: u64,
    r: Handled,
) -> bool {
    let p = owned_process(process, meta);
    &&& exists|c: Connection|
        {
            &&& attached(conn, pid, p.uid, name_for(b.names, conn.dst_ip, now_ns), c)
            &&& #[trigger] r.outcome.about(c, p)
            &&& r.outcome.ruling() == ruled(b.rules, b.policy, b.stats.paused, &c, &p, now)
            &&& a.hits == hits_after(b.rules, b.hits, &c, &p, now)
        }
    &&& a.stats == counted_ruling(b.stats, r.outcome.ruling())
    &&& a.rules == b.rules
    &&& a.policy == b.policy
    &&& a.notices == b.notices
    &&& a.own_pid == b.own_pid
    &&& if wants_lookup(b.names, conn.dst_ip, now_ns) {
        &&& r.lookup == Some(conn.dst_ip)
        &&& entered_into(b.names, a.names, conn.dst_ip, placeholder(now_ns))
    } else {
        r.lookup is None && a.names == b.names
    }
}

/// Handles a flow whose process was looked for: `pid` and `process` are what
/// was found.
pub fn handle_flow(
    engine: &mut Engine,
    stats: &mut Stats,
    dns: &mut DnsCache,
    conn: Connection,
    pid: Option<u32>,
    process: Process,
    meta: &PacketMeta,
    now_unix_ms: i64,
    now_ns: u64,
) -> (r: Handled)
    requires
        old(dns).wf(),
    ensures
        final(dns).wf(),
        flow_handled(
            desktop(*old(engine), *old(stats), *old(dns)),
            desktop(*final(engine), *final(stats), *final(dns)),
            conn,
            pid,
            process,
            *meta,
            now_unix_ms,
            now_ns,
            r,
        ),
{
    let dst: IpAddr = conn.dst_ip;
    let host = dns.lookup_cached(dst, now_ns);
    let (conn, process) = attribute(conn, process, pid, host, meta);
    let lookup = if dns.enqueue_lookup(dst, now_ns) {
        Some(dst)
    } else {
        None
    };
    let outcome = decide(engine, stats, conn, process, now_unix_ms);
    Handled { outcome, lookup }
}

/// What the pipeline does with a packet, given the id its connection gets and
/// what was found of its process.
pub open spec fn packet_handled(
    b: Desktop,
    a: Desktop,
    payload: Seq<u8>,
    meta: PacketMeta,
    id: u128,
    pid: Option<u32>,
    process: Process,
    now: i64,
    now_ns: u64,
    r: Handled,
) -> bool {
    match read_connection(payload, meta.direction, id, now) {
        Err(_) => {
            &&& r.outcome.ruling() == Ruling::Silent(kernel_verdict(b.policy.no_ui_action))
            &&& r.lookup is None
            &&& a == b
        },
        Ok(conn) => if pid == Some(b.own_pid) {
            &&& r.outcome.ruling() == Ruling::Silent(NfqVerdict::Accept)
            &&& r.lookup is None
            &&& a == b
        } else {
            flow_handled(b, a, conn, pid, process, meta, now, now_ns, r)
        },
    }
}

/// The verdict for a packet that cannot be parsed: there is nothing to
/// attribute, to match or to ask about, so the default policy applies.
pub fn unparsed_verdict(engine: &Engine) -> (r: NfqVerdict)
    ensures
        r == kernel_verdict(engine.policy().no_ui_action),
{
    nfq_verdict_for(engine.fallback_verdict().action)
}

/// Whether a packet is the daemon's own, which has to pass: its resolver would
/// otherwise wait for a verdict that waits for the resolver.
pub fn is_own_traffic(dns: &DnsCache, pid: Option<u32>) -> (r: bool)
    ensures
        r == (pid == Some(dns.own_pid())),
{
    match pid {
        Some(p) => dns.is_self(p),
        None => false,
    }
}

/// Whether `pid` and `process` are what `resolver` may have found of the
/// process behind a packet. It is asked about the packet's own five-tuple, and
/// then about the process that holds it, unless that is this daemon. An inbound
/// packet is nobody's: no socket holds its five-tuple yet.
pub open spec fn found<R: ProcessResolver>(
    resolver: &R,
    c: Connection,
    own_pid: u32,
    pid: Option<u32>,
    process: Process,
) -> bool {
    &&& if c.direction == Direction::Inbound {
        pid is None
    } else {
        resolver.may_hold(
            c.protocol,
            c.direction,
            (c.src_ip, c.src_port),
            (c.dst_ip, c.dst_port),
            pid,
        )
    }
    &&& match pid {
        Some(p) => p != own_pid ==> resolver.may_be(p, process),
        None => nobody(process),
    }
}

/// Decides one packet: parse, let the daemon's own traffic pass, attribute the
/// process, attach the name, evaluate the rules. Nobody is asked for the
/// process behind an inbound packet: no socket holds its five-tuple yet.
pub fn handle_packet<R: ProcessResolver>(
    engine: &mut Engine,
    stats: &mut Stats,
    dns: &mut DnsCache,
    resolver: &R,
    payload: &[u8],
    meta: &PacketMeta,
    now_unix_ms: i64,
    now_ns: u64,
) -> (r: Handled)
    requires
        old(dns).wf(),
    ensures
        final(dns).wf(),
        exists|id: u128, pid: Option<u32>, process: Process|
            {
                &&& is_random_id(id)
                &&& read_connection(payload@, meta.direction, id, now_unix_ms) matches Ok(c)
                    ==> found(resolver, c, old(dns).own_pid(), pid, process)
                &&& #[trigger] packet_handled(
                    desktop(*old(engine), *old(stats), *old(dns)),
                    desktop(*final(engine), *final(stats), *final(dns)),
                    payload@,
                    *meta,
                    id,
                    pid,
                    process,
                    now_unix_ms,
                    now_ns,
                    r,
                )
            },
{
    let ghost before = desktop(*engine, *stats, *dns);
    let parsed = packet::parse(payload, meta.direction, now_unix_ms);
    let ghost id = choose|id: u128|
        is_random_id(id) && parsed == #[trigger] read_connection(
            payload@,
            meta.direction,
            id,
            now_unix_ms,
        );
    let unattributed = Process::unknown(0);
    let conn = match parsed {
        Ok(c) => c,
        Err(_) => {
            let outcome = PacketOutcome::Silent(unparsed_verdict(engine));
            let r = Handled { outcome, lookup: None };
            proof {
                assert(packet_handled(
                    before,
                    before,
                    payload@,
                    *meta,
                    id,
                    None,
                    unattributed,
                    now_unix_ms,
                    now_ns,
                    r,
                ));
            }
            return r;
        },
    };
    let pid: Option<u32> = if conn.direction == Direction::Inbound {
        None
    } else {
        resolver.pid_for_socket(
            conn.protocol,
            conn.direction,
            (conn.src_ip, conn.src_port),
            (conn.dst_ip, conn.dst_port),
        )
    };
    if is_own_traffic(dns, pid) {
        let outcome = PacketOutcome::Silent(NfqVerdict::Accept);
        let r = Handled { outcome, lookup: None };
        proof {
            assert(packet_handled(
                before,
                before,
                payload@,
                *meta,
                id,
                pid,
                unattributed,
                now_unix_ms,
                now_ns,
                r,
            ));
        }
        return r;
    }
    let process = match pid {
        Some(p) => resolver.resolve(p),
        None => unattributed,
    };
    let r = handle_flow(engine, stats, dns, conn, pid, process, meta, now_unix_ms, now_ns);
    proof {
        assert(packet_handled(
            before,
            desktop(*engine, *stats, *dns),
            payload@,
            *meta,
            id,
            pid,
            process,
            now_unix_ms,
            now_ns,
            r,
        ));
    }
    r
}

/// Who a flow comes from: the executable when it is known, else the pid.
pub ghost enum Origin {
    Exe(Seq<char>),
    Pid(u32),
}

/// What makes two packets one flow.
pub ghost struct FlowId {
    pub origin: Origin,
    pub dst_ip: IpAddr,
    pub dst_port: u16,
    pub protocol: Protocol,
}

/// Who a flow comes from.
#[derive(Debug)]
pub enum FlowOrigin {
    Exe(String),
    Pid(u32),
}

/// Identity of a flow: one prompt is out for each origin, destination and
/// transport. The source port does not count, so that retransmits and parallel
/// connections of one program to one destination share a prompt.
#[derive(Debug)]
pub struct FlowKey {
    pub origin: FlowOrigin,
    pub dst_ip: IpAddr,
    pub dst_port: u16,
    pub protocol: Protocol,
}

impl View for FlowKey {
    type V = FlowId;

    open spec fn view(&self) -> FlowId {
        FlowId {
            origin: match self.origin {
                FlowOrigin::Exe(e) => Origin::Exe(e@),
                FlowOrigin::Pid(p) => Origin::Pid(p),
            },
            dst_ip: self.dst_ip,
            dst_port: self.dst_port,
            protocol: self.protocol,
        }
    }
}

/// The flow a packet belongs to.
pub open spec fn flow_of(c: Connection, p: Process) -> FlowId {
    FlowId {
        origin: if p.exe@.len() > 0 {
            Origin::Exe(p.exe@)
        } else {
            Origin::Pid(p.pid)
        },
        dst_ip: c.dst_ip,
        dst_port: c.dst_port,
        protocol: c.protocol,
    }
}

impl FlowKey {
    /// The flow a packet belongs to.
    pub fn for_flow(conn: &Connection, proc: &Process) -> (r: FlowKey)
        ensures
            r@ == flow_of(*conn, *proc),
    {
        let origin = if !proc.exe_is_known() {
            FlowOrigin::Pid(proc.pid)
        } else {
            FlowOrigin::Exe(proc.exe.clone())
        };
        FlowKey {
            origin,
            dst_ip: conn.dst_ip,
            dst_port: conn.dst_port,
            protocol: conn.protocol,
        }
    }

    /// Whether two keys are of one flow.
    pub fn same(&self, other: &FlowKey) -> (r: bool)
        ensures
            r == (self@ == other@),
    {
        let same_origin = match (&self.origin, &other.origin) {
            (FlowOrigin::Exe(a), FlowOrigin::Exe(b)) => same_text(a.as_str(), b.as_str()),
            (FlowOrigin::Pid(a), FlowOrigin::Pid(b)) => *a == *b,
            _ => false,
        };
        same_origin && self.dst_ip == other.dst_ip && self.dst_port == other.dst_port
            && self.protocol == other.protocol
    }

    /// The same key again.
    pub fn copy(&self) -> (r: FlowKey)
        ensures
            r@ == self@,
    {
        let origin = match &self.origin {
            FlowOrigin::Exe(e) => FlowOrigin::Exe(e.clone()),
            FlowOrigin::Pid(p) => FlowOrigin::Pid(*p),
        };
        FlowKey {
            origin,
            dst_ip: self.dst_ip,
            dst_port: self.dst_port,
            protocol: self.protocol,
        }
    }
}

/// The flows that wait, each with its prompt.
pub struct FlowTable {
    entries: Vec<(FlowKey, u64)>,
}

spec fn table(s: Seq<(FlowKey, u64)>) -> Map<FlowId, u64>
    decreases s.len(),
{
    if s.len() == 0 {
        Map::empty()
    } else {
        table(s.drop_last()).insert(s.last().0@, s.last().1)
    }
}

impl View for FlowTable {
    type V = Map<FlowId, u64>;

    closed spec fn view(&self) -> Map<FlowId, u64> {
        table(self.entries@)
    }
}

impl FlowTable {
    /// No flow waits.
    pub fn new() -> (r: FlowTable)
        ensures
            r@ == Map::<FlowId, u64>::empty(),
    {
        FlowTable { entries: Vec::new() }
    }

    /// The prompt a flow waits on.
    pub fn get(&self, flow: &FlowKey) -> (r: Option<u64>)
        ensures
            r == (if self@.contains_key(flow@) {
                Some(self@[flow@])
            } else {
                None
            }),
    {
        let mut found: Option<u64> = None;
        let mut i: usize = 0;
        proof {
            assert(self.entries@.take(0) =~= Seq::<(FlowKey, u64)>::empty());
        }
        while i < self.entries.len()
            invariant
                i <= self.entries@.len(),
                found == (if table(self.entries@.take(i as int)).contains_key(flow@) {
                    Some(table(self.entries@.take(i as int))[flow@])
                } else {
                    None
                }),
            decreases self.entries@.len() - i,
        {
            proof {
                assert(self.entries@.take(i + 1).drop_last() =~= self.entries@.take(i as int));
            }
            if self.entries[i].0.same(flow) {
                found = Some(self.entries[i].1);
            }
            i += 1;
        }
        proof {
            assert(self.entries@.take(i as int) =~= self.entries@);
        }
        found
    }

    /// Notes the prompt a flow waits on.
    pub fn insert(&mut self, flow: FlowKey, prompt_id: u64)
        ensures
            final(self)@ == old(self)@.insert(flow@, prompt_id),
    {
        let ghost before = self.entries@;
        self.entries.push((flow, prompt_id));
        proof {
            assert(self.entries@.drop_last() =~= before);
        }
    }

    /// The flow does not wait any more.
    pub fn remove(&mut self, flow: &FlowKey)
        ensures
            final(self)@ == old(self)@.remove(flow@),
    {
        let ghost before = self.entries@;
        let mut i: usize = 0;
        let ghost mut k: int = 0;
        let ghost id = flow@;
        proof {
            assert(before.take(0) =~= Seq::<(FlowKey, u64)>::empty());
            assert(self.entries@.take(0) =~= Seq::<(FlowKey, u64)>::empty());
            assert(table(self.entries@.take(0)) =~= table(before.take(0)).remove(id));
            assert(self.entries@.skip(0) =~= before.skip(0));
        }
        while i < self.entries.len()
            invariant
                id == flow@,
                0 <= k <= before.len(),
                i <= self.entries@.len(),
                self.entries@.skip(i as int) == before.skip(k),
                table(self.entries@.take(i as int)) == table(before.take(k)).remove(id),
            decreases self.entries@.len() - i,
        {
            proof {
                assert(self.entries@.skip(i as int)[0] == self.entries@[i as int]);
                assert(before.skip(k).len() > 0);
                assert(before.skip(k)[0] == before[k]);
                assert(before.take(k + 1).drop_last() =~= before.take(k));
                assert(before.skip(k + 1) =~= before.skip(k).skip(1));
            }
            let ghost entries = self.entries@;
            if self.entries[i].0.same(flow) {
                self.entries.remove(i);
                proof {
                    assert(self.entries@.take(i as int) =~= entries.take(i as int));
                    assert(self.entries@.skip(i as int) =~= entries.skip(i as int).skip(1));
                    assert(table(before.take(k + 1)).remove(id) =~= table(before.take(k)).remove(
                        id,
                    ));
                }
            } else {
                proof {
                    let now = entries.take(i + 1);
                    assert(now.drop_last() =~= entries.take(i as int));
                    assert(table(now) =~= table(before.take(k + 1)).remove(id));
                    assert(entries.skip(i + 1) =~= entries.skip(i as int).skip(1));
                }
                i += 1;
            }
            proof {
                k = k + 1;
            }
        }
        proof {
            assert(self.entries@.skip(i as int).len() == 0);
            assert(before.skip(k).len() == before.len() - k);
            assert(before.take(k) =~= before);
            assert(self.entries@.take(i as int) =~= self.entries@);
        }
    }

    /// Whether no flow waits.
    pub fn is_empty(&self) -> (r: bool)
        ensures
            r == (self@.dom() == Set::<FlowId>::empty()),
    {
        proof {
            if self.entries@.len() > 0 {
                assert(table(self.entries@).contains_key(self.entries@.last().0@));
            } else {
                assert(self@.dom() =~= Set::<FlowId>::empty());
            }
        }
        self.entries.len() == 0
    }
}

/// The packets of one flow that wait for one answer.
#[derive(Debug)]
pub struct PendingPrompt<M> {
    pub flow: FlowKey,
    pub connection: Connection,
    pub process: Process,
    /// Every packet that waits; all get the same verdict.
    pub packets: Vec<M>,
    /// Applied if no answer can come any more.
    pub fallback: Verdict,
}

/// What waits for one answer.
pub ghost struct Waiting<M> {
    pub flow: FlowId,
    pub connection: Connection,
    pub process: Process,
    pub packets: Seq<M>,
    pub fallback: Verdict,
}

impl<M> View for PendingPrompt<M> {
    type V = Waiting<M>;

    open spec fn view(&self) -> Waiting<M> {
        Waiting {
            flow: self.flow@,
            connection: self.connection,
            process: self.process,
            packets: self.packets@,
            fallback: self.fallback,
        }
    }
}

/// Packets that got their verdict, and the flow they belong to.
#[derive(Debug)]
pub struct Release<M> {
    pub packets: Vec<M>,
    pub observed: ObservedConnection,
}

impl<M> Release<M> {
    /// Whether it lets go of what waited, with this verdict.
    pub open spec fn frees(&self, w: Waiting<M>, verdict: Verdict) -> bool {
        &&& self.packets@ == w.packets
        &&& self.observed.connection == w.connection
        &&& self.observed.process == w.process
        &&& self.observed.verdict == verdict
    }
}

/// The prompts that are out.
pub ghost struct Desk<M> {
    pub waiters: Map<u64, Waiting<M>>,
    pub flows: Map<FlowId, u64>,
    /// The id of the next prompt.
    pub next_id: u64,
    /// Answers can still come.
    pub open: bool,
}

/// Every prompt that is out has a packet and is found by its flow, every flow
/// leads to its prompt, and ids are not used twice.
pub open spec fn desk_wf<M>(d: Desk<M>) -> bool {
    &&& forall|id: u64| #[trigger]
        d.waiters.contains_key(id) ==> {
            &&& id < d.next_id
            &&& d.waiters[id].packets.len() > 0
            &&& d.flows.contains_key(d.waiters[id].flow)
            &&& d.flows[d.waiters[id].flow] == id
        }
    &&& forall|f: FlowId| #[trigger]
        d.flows.contains_key(f) ==> d.waiters.contains_key(d.flows[f])
            && d.waiters[d.flows[f]].flow == f
}

/// The prompt that a flow waits on.
pub open spec fn outstanding<M>(d: Desk<M>, f: FlowId) -> Option<u64> {
    if d.flows.contains_key(f) && d.waiters.contains_key(d.flows[f]) {
        Some(d.flows[f])
    } else {
        None
    }
}

/// The prompts after one more packet of a flow came to wait.
pub open spec fn joined<M>(d: Desk<M>, id: u64, msg: M) -> Desk<M> {
    let w = d.waiters[id];
    Desk { waiters: d.waiters.insert(id, Waiting { packets: w.packets.push(msg), ..w }), ..d }
}

/// The prompts after an id was taken for a new one.
pub open spec fn numbered<M>(d: Desk<M>, f: FlowId) -> Desk<M> {
    Desk { flows: d.flows.remove(f), next_id: (d.next_id + 1) as u64, ..d }
}

/// The prompts after a new one went out.
pub open spec fn opened<M>(d: Desk<M>, id: u64, w: Waiting<M>) -> Desk<M> {
    Desk { waiters: d.waiters.insert(id, w), flows: d.flows.insert(w.flow, id), ..d }
}

/// The prompts after one was answered.
pub open spec fn answered<M>(d: Desk<M>, id: u64) -> Desk<M> {
    Desk { waiters: d.waiters.remove(id), flows: d.flows.remove(d.waiters[id].flow), ..d }
}

/// Whether a prompt that was sent, or could not be, lets go of `r` and leaves the
/// prompts and the counters so.
pub open spec fn sent_off<M>(
    d: Desk<M>,
    s: Stats,
    id: u64,
    w: Waiting<M>,
    sent: bool,
    r: Option<Release<M>>,
    d2: Desk<M>,
    s2: Stats,
) -> bool {
    if sent {
        r is None && d2 == opened(d, id, w) && s2 == s
    } else {
        &&& r matches Some(x) && x.frees(w, w.fallback)
        &&& d2 == d
        &&& s2 == counted(s, w.fallback.action)
    }
}

/// Whether an answer lets go of `r` and leaves the prompts and the counters so.
pub open spec fn resolved<M>(
    d: Desk<M>,
    s: Stats,
    pv: PromptVerdict,
    r: Option<Release<M>>,
    d2: Desk<M>,
    s2: Stats,
) -> bool {
    if d.waiters.contains_key(pv.prompt_id) {
        &&& r matches Some(x) && x.frees(d.waiters[pv.prompt_id], pv.verdict)
        &&& d2 == answered(d, pv.prompt_id)
        &&& s2 == counted(s, pv.verdict.action)
    } else {
        r is None && d2 == d && s2 == s
    }
}

/// What to do with a packet that is to wait.
#[derive(Debug)]
pub enum ParkStep<M> {
    /// It waits on a prompt that is already out.
    Rides,
    /// Ask the router, and report whether it took the question.
    Ask { request: PromptRequest, pending: PendingPrompt<M> },
}

/// What to do with a packet.
#[derive(Debug)]
pub enum MessageStep<M> {
    /// Hand the packet back with this verdict.
    Verdict(M, NfqVerdict),
    /// Hand the packets back and publish the flow.
    Release(Release<M>),
    Rides,
    /// Ask the router, and report whether it took the question.
    Ask { request: PromptRequest, pending: PendingPrompt<M> },
}

/// What came over the channel from the prompt router.
#[derive(Debug, Clone, Copy, PartialEq, Eq, Structural)]
pub enum VerdictEvent {
    Answer(PromptVerdict),
    /// Nothing yet.
    Empty,
    /// The router is gone for good.
    Disconnected,
}

/// State of the packet worker.
pub struct Worker<M> {
    pub waiters: HashMap<u64, PendingPrompt<M>>,
    pub pending_flows: FlowTable,
    pub next_prompt_id: u64,
    /// Cleared once the router hangs up: a channel that is hung up returns at
    /// once, so waiting on it would be a busy loop.
    pub verdict_channel_open: bool,
}

impl<M> View for Worker<M> {
    type V = Desk<M>;

    open spec fn view(&self) -> Desk<M> {
        Desk {
            waiters: Map::new(
                |id: u64| self.waiters@.contains_key(id),
                |id: u64| self.waiters@[id]@,
            ),
            flows: self.pending_flows@,
            next_id: self.next_prompt_id,
            open: self.verdict_channel_open,
        }
    }
}

/// Whether two processes are the same in everything.
pub open spec fn same_process(a: Process, b: Process) -> bool {
    &&& a.cmdline@ == b.cmdline@
    &&& a == (Process { cmdline: a.cmdline, ..b })
}

/// What a question to the router says.
pub open spec fn asks(req: PromptRequest, id: u64, c: Connection, p: Process) -> bool {
    &&& req.prompt_id == id
    &&& req.connection == c
    &&& same_process(req.process, p)
}

/// The counters after these verdicts were given.
pub open spec fn counted_all<M>(s: Stats, releases: Seq<Release<M>>) -> Stats
    decreases releases.len(),
{
    if releases.len() == 0 {
        s
    } else {
        counted(
            counted_all(s, releases.drop_last()),
            releases.last().observed.verdict.action,
        )
    }
}

/// Whether the releases let go of these prompts, in this order, each with its
/// fallback.
pub open spec fn flushed<M>(d: Desk<M>, ids: Seq<u64>, releases: Seq<Release<M>>) -> bool {
    &&& ids.no_duplicates()
    &&& ids.len() == releases.len()
    &&& forall|id: u64| ids.contains(id) <==> #[trigger] d.waiters.contains_key(id)
    &&& forall|k: int|
        0 <= k < ids.len() ==> (#[trigger] releases[k]).frees(
            d.waiters[ids[k]],
            d.waiters[ids[k]].fallback,
        )
}

/// Whether a prompt that is out belongs to this flow.
pub open spec fn waited_for<M>(d: Desk<M>, f: FlowId) -> bool {
    exists|id: u64| #[trigger] d.waiters.contains_key(id) && d.waiters[id].flow == f
}

/// The prompts once no answer can come any more: none is out. Only a flow that
/// led to no prompt of its own is still there, and there is none such while
/// the books are in order.
pub open spec fn hung_up<M>(d: Desk<M>) -> Desk<M> {
    Desk {
        waiters: Map::empty(),
        flows: Map::new(
            |f: FlowId| d.flows.contains_key(f) && !waited_for(d, f),
            |f: FlowId| d.flows[f],
        ),
        next_id: d.next_id,
        open: false,
    }
}

proof fn lemma_hung_up<M>(d: Desk<M>)
    requires
        desk_wf(d),
    ensures
        hung_up(d).flows == Map::<FlowId, u64>::empty(),
        desk_wf(hung_up(d)),
{
    assert forall|f: FlowId| !hung_up(d).flows.contains_key(f) by {
        if d.flows.contains_key(f) {
            assert(d.waiters.contains_key(d.flows[f]));
        }
    }
    assert(hung_up(d).flows =~= Map::<FlowId, u64>::empty());
}

proof fn lemma_answered<M>(d: Desk<M>, id: u64)
    requires
        desk_wf(d),
        d.waiters.contains_key(id),
    ensures
        desk_wf(answered(d, id)),
{
    let a = answered(d, id);
    assert forall|o: u64| #[trigger] a.waiters.contains_key(o) implies {
        &&& o < a.next_id
        &&& a.waiters[o].packets.len() > 0
        &&& a.flows.contains_key(a.waiters[o].flow)
        &&& a.flows[a.waiters[o].flow] == o
    } by {
        assert(d.waiters.contains_key(o));
    }
    assert forall|f: FlowId| #[trigger] a.flows.contains_key(f) implies a.waiters.contains_key(
        a.flows[f],
    ) && a.waiters[a.flows[f]].flow == f by {
        assert(d.flows.contains_key(f));
    }
}

impl<M> Worker<M> {
    /// No prompt is out.
    pub fn new() -> (r: Worker<M>)
        ensures
            desk_wf(r@),
            r@ == (Desk::<M> {
                waiters: Map::empty(),
                flows: Map::empty(),
                next_id: 1,
                open: true,
            }),
    {
        broadcast use vstd::std_specs::hash::group_hash_axioms;

        let r = Worker {
            waiters: HashMap::new(),
            pending_flows: FlowTable::new(),
            next_prompt_id: 1,
            verdict_channel_open: true,
        };
        proof {
            assert(r@.waiters =~= Map::<u64, Waiting<M>>::empty());
        }
        r
    }

    /// Parks a packet that waits for an answer. If its flow already has a
    /// prompt out the packet rides on that one; otherwise the router is to be
    /// asked. A flow that leads to a prompt that is not there is asked anew.
    pub fn park_for_prompt(
        &mut self,
        msg: M,
        connection: Connection,
        process: Process,
        fallback: Verdict,
    ) -> (r: ParkStep<M>)
        requires
            old(self).next_prompt_id < u64::MAX,
        ensures
            desk_wf(old(self)@) ==> desk_wf(final(self)@),
            match outstanding(old(self)@, flow_of(connection, process)) {
                Some(id) => r is Rides && final(self)@ == joined(old(self)@, id, msg),
                None => {
                    &&& final(self)@ == numbered(old(self)@, flow_of(connection, process))
                    &&& r matches ParkStep::Ask { request, pending } && asks(
                        request,
                        old(self)@.next_id,
                        connection,
                        process,
                    ) && pending@ == (Waiting {
                        flow: flow_of(connection, process),
                        connection,
                        process,
                        packets: seq![msg],
                        fallback,
                    })
                },
            },
    {
        broadcast use vstd::std_specs::hash::group_hash_axioms;

        let ghost before = self@;
        let flow = FlowKey::for_flow(&connection, &process);
        if let Some(prompt_id) = self.pending_flows.get(&flow) {
            let waiter = self.waiters.remove(&prompt_id);
            if let Some(mut pending) = waiter {
                pending.packets.push(msg);
                self.waiters.insert(prompt_id, pending);
                proof {
                    assert(self@.waiters =~= joined(before, prompt_id, msg).waiters);
                }
                return ParkStep::Rides;
            }
            // The flow leads to a prompt that is not there. Stopping over it
            // would stop all traffic; ask anew.
            self.pending_flows.remove(&flow);
        }
        let prompt_id: u64 = self.next_prompt_id;
        self.next_prompt_id = prompt_id + 1;
        proof {
            assert(self@.waiters =~= before.waiters);
            assert(before.flows.contains_key(flow@) || before.flows.remove(flow@) =~= before.flows);
        }
        let request = PromptRequest {
            prompt_id,
            connection: connection.clone(),
            process: process.clone(),
        };
        let mut packets: Vec<M> = Vec::new();
        packets.push(msg);
        proof {
            assert(packets@ =~= seq![msg]);
        }
        ParkStep::Ask {
            request,
            pending: PendingPrompt { flow, connection, process, packets, fallback },
        }
    }

    /// What comes of a question: it is out, or the router could not take it
    /// and the fallback applies at once.
    pub fn dispatched(
        &mut self,
        stats: &mut Stats,
        prompt_id: u64,
        pending: PendingPrompt<M>,
        sent: bool,
    ) -> (r: Option<Release<M>>)
        ensures
            if sent {
                &&& r is None
                &&& final(self)@ == opened(old(self)@, prompt_id, pending@)
                &&& *final(stats) == *old(stats)
            } else {
                &&& r matches Some(x) && x.frees(pending@, pending.fallback)
                &&& final(self)@ == old(self)@
                &&& *final(stats) == counted(*old(stats), pending.fallback.action)
            },
            sent_off(
                old(self)@,
                *old(stats),
                prompt_id,
                pending@,
                sent,
                r,
                final(self)@,
                *final(stats),
            ),
            desk_wf(old(self)@) && prompt_id < old(self)@.next_id && pending@.packets.len() > 0
                && !old(self)@.flows.contains_key(pending@.flow)
                && !old(self)@.waiters.contains_key(prompt_id) ==> desk_wf(final(self)@),
    {
        broadcast use vstd::std_specs::hash::group_hash_axioms;

        let ghost before = self@;
        if sent {
            self.pending_flows.insert(pending.flow.copy(), prompt_id);
            self.waiters.insert(prompt_id, pending);
            proof {
                assert(self@.waiters =~= before.waiters.insert(prompt_id, pending@));
            }
            None
        } else {
            record(stats, pending.fallback.action);
            Some(
                Release {
                    packets: pending.packets,
                    observed: ObservedConnection {
                        connection: pending.connection,
                        process: pending.process,
                        verdict: pending.fallback,
                    },
                },
            )
        }
    }

    /// Applies an answer: every packet that waited for it gets the verdict, and
    /// the flow counts once. A late answer to a prompt that is gone is ignored.
    pub fn resolve_prompt(&mut self, stats: &mut Stats, pv: PromptVerdict) -> (r: Option<
        Release<M>,
    >)
        ensures
            desk_wf(old(self)@) ==> desk_wf(final(self)@),
            if old(self)@.waiters.contains_key(pv.prompt_id) {
                &&& r matches Some(x) && x.frees(old(self)@.waiters[pv.prompt_id], pv.verdict)
                &&& final(self)@ == answered(old(self)@, pv.prompt_id)
                &&& *final(stats) == counted(*old(stats), pv.verdict.action)
            } else {
                r is None && final(self)@ == old(self)@ && *final(stats) == *old(stats)
            },
            resolved(old(self)@, *old(stats), pv, r, final(self)@, *final(stats)),
    {
        broadcast use vstd::std_specs::hash::group_hash_axioms;

        let ghost before = self@;
        let waiter = self.waiters.remove(&pv.prompt_id);
        match waiter {
            None => {
                proof {
                    assert(self@.waiters =~= before.waiters);
                }
                None
            },
            Some(pending) => {
                self.pending_flows.remove(&pending.flow);
                record(stats, pv.verdict.action);
                proof {
                    assert(self@.waiters =~= before.waiters.remove(pv.prompt_id));
                    assert(self@ == answered(before, pv.prompt_id));
                    if desk_wf(before) {
                        lemma_answered(before, pv.prompt_id);
                    }
                }
                Some(
                    Release {
                        packets: pending.packets,
                        observed: ObservedConnection {
                            connection: pending.connection,
                            process: pending.process,
                            verdict: pv.verdict,
                        },
                    },
                )
            },
        }
    }

    /// No answer can come any more: every prompt that is out gets its
    /// fallback, so that no packet is stranded.
    pub fn close_verdict_channel(&mut self, stats: &mut Stats) -> (r: Vec<Release<M>>)
        ensures
            final(self)@ == hung_up(old(self)@),
            desk_wf(old(self)@) ==> desk_wf(final(self)@) && final(self)@.flows == Map::<
                FlowId,
                u64,
            >::empty(),
            exists|ids: Seq<u64>| #[trigger] flushed(old(self)@, ids, r@),
            *final(stats) == counted_all(*old(stats), r@),
    {
        broadcast use vstd::std_specs::hash::group_hash_axioms;

        let ghost before = self@;
        self.verdict_channel_open = false;
        let ids = keys_of(&self.waiters);
        let mut out: Vec<Release<M>> = Vec::new();
        let mut i: usize = 0;
        proof {
            assert(self@.waiters =~= before.waiters);
            assert forall|id: u64| ids@.contains(id) <==> #[trigger] before.waiters.contains_key(
                id,
            ) by {
                assert(self.waiters@.contains_key(id) == before.waiters.contains_key(id));
            }
        }
        while i < ids.len()
            invariant
                i <= ids@.len(),
                ids@.no_duplicates(),
                forall|f: FlowId| #[trigger]
                    self@.flows.contains_key(f) ==> before.flows.contains_key(f)
                        && self@.flows[f] == before.flows[f] && forall|k: int|
                        0 <= k < i ==> before.waiters[#[trigger] ids@[k]].flow != f,
                forall|f: FlowId| #[trigger]
                    before.flows.contains_key(f) ==> self@.flows.contains_key(f) || exists|k: int|
                        0 <= k < i && before.waiters[#[trigger] ids@[k]].flow == f,
                forall|id: u64|
                    ids@.contains(id) <==> #[trigger] before.waiters.contains_key(id),
                forall|k: int|
                    i <= k < ids@.len() ==> self@.waiters.contains_key(#[trigger] ids@[k])
                        && self@.waiters[ids@[k]] == before.waiters[ids@[k]],
                forall|id: u64| #[trigger]
                    self@.waiters.contains_key(id) ==> exists|k: int|
                        i <= k < ids@.len() && ids@[k] == id,
                self@.next_id == before.next_id,
                !self@.open,
                out@.len() == i,
                forall|k: int|
                    0 <= k < i ==> (#[trigger] out@[k]).frees(
                        before.waiters[ids@[k]],
                        before.waiters[ids@[k]].fallback,
                    ),
                *stats == counted_all(*old(stats), out@),
            decreases ids@.len() - i,
        {
            broadcast use vstd::std_specs::hash::group_hash_axioms;

            let prompt_id: u64 = ids[i];
            let ghost mid = self@;
            let ghost sofar = out@;
            proof {
                assert(self@.waiters.contains_key(ids@[i as int]));
            }
            if let Some(p) = self.waiters.get(&prompt_id) {
                let verdict = p.fallback;
                if let Some(release) = self.resolve_prompt(
                    stats,
                    PromptVerdict { prompt_id, verdict },
                ) {
                    out.push(release);
                    proof {
                        assert(out@.drop_last() =~= sofar);
                    }
                }
            }
            proof {
                assert(self@ == answered(mid, prompt_id));
                assert forall|k: int| i + 1 <= k < ids@.len() implies self@.waiters.contains_key(
                    #[trigger] ids@[k],
                ) && self@.waiters[ids@[k]] == before.waiters[ids@[k]] by {
                    assert(ids@[k] != ids@[i as int]);
                }
                assert forall|id: u64| #[trigger] self@.waiters.contains_key(id) implies exists|
                    k: int,
                | i + 1 <= k < ids@.len() && ids@[k] == id by {
                    assert(mid.waiters.contains_key(id));
                    let k = choose|k: int| i <= k < ids@.len() && ids@[k] == id;
                    assert(k != i);
                }
            }
            i += 1;
        }
        proof {
            assert(self@.waiters =~= Map::<u64, Waiting<M>>::empty());
            assert forall|f: FlowId|
                self@.flows.contains_key(f) <==> #[trigger] hung_up(before).flows.contains_key(
                    f,
                ) by {
                if self@.flows.contains_key(f) && waited_for(before, f) {
                    let id = choose|id: u64| #[trigger]
                        before.waiters.contains_key(id) && before.waiters[id].flow == f;
                    let k = choose|k: int| 0 <= k < ids@.len() && ids@[k] == id;
                    assert(before.waiters[ids@[k]].flow == f);
                }
                if before.flows.contains_key(f) && !self@.flows.contains_key(f) {
                    let k = choose|k: int|
                        0 <= k < i && before.waiters[#[trigger] ids@[k]].flow == f;
                    assert(ids@.contains(ids@[k]));
                    assert(before.waiters.contains_key(ids@[k]));
                }
            }
            assert(self@.flows =~= hung_up(before).flows);
            if desk_wf(before) {
                lemma_hung_up(before);
            }
            assert(flushed(before, ids@, out@));
        }
        out
    }
}

/// What one outcome makes the worker do with its packet.
pub open spec fn message_handled<M>(
    b: Desk<M>,
    a: Desk<M>,
    msg: M,
    outcome: PacketOutcome,
    r: MessageStep<M>,
) -> bool {
    match outcome {
        PacketOutcome::Silent(v) => r == MessageStep::Verdict(msg, v) && a == b,
        PacketOutcome::Deliver { connection, process, verdict } => {
            &&& a == b
            &&& r matches MessageStep::Release(x) && x.packets@ == seq![msg] && x.observed == (
            ObservedConnection { connection, process, verdict })
        },
        PacketOutcome::Prompt { connection, process, fallback } => {
            let flow = flow_of(connection, process);
            match outstanding(b, flow) {
                Some(id) => r is Rides && a == joined(b, id, msg),
                None => {
                    &&& a == numbered(b, flow)
                    &&& r matches MessageStep::Ask { request, pending } && asks(
                        request,
                        b.next_id,
                        connection,
                        process,
                    ) && pending@ == (Waiting {
                        flow,
                        connection,
                        process,
                        packets: seq![msg],
                        fallback,
                    })
                },
            }
        },
    }
}

impl<M> Worker<M> {
    /// Turns an outcome into what is to be done with the packet.
    pub fn handle_message(&mut self, msg: M, outcome: PacketOutcome) -> (r: MessageStep<M>)
        requires
            old(self).next_prompt_id < u64::MAX,
        ensures
            desk_wf(old(self)@) ==> desk_wf(final(self)@),
            message_handled(old(self)@, final(self)@, msg, outcome, r),
    {
        match outcome {
            PacketOutcome::Silent(verdict) => MessageStep::Verdict(msg, verdict),
            PacketOutcome::Deliver { connection, process, verdict } => {
                let mut packets: Vec<M> = Vec::new();
                packets.push(msg);
                proof {
                    assert(packets@ =~= seq![msg]);
                }
                MessageStep::Release(
                    Release {
                        packets,
                        observed: ObservedConnection { connection, process, verdict },
                    },
                )
            },
            PacketOutcome::Prompt { connection, process, fallback } => {
                match self.park_for_prompt(msg, connection, process, fallback) {
                    ParkStep::Rides => MessageStep::Rides,
                    ParkStep::Ask { request, pending } => MessageStep::Ask { request, pending },
                }
            },
        }
    }

    /// Takes what came over the channel from the router.
    pub fn on_verdict(&mut self, stats: &mut Stats, event: VerdictEvent) -> (r: Vec<Release<M>>)
        ensures
            desk_wf(old(self)@) ==> desk_wf(final(self)@),
            *final(stats) == counted_all(*old(stats), r@),
            match event {
                VerdictEvent::Answer(pv) => if old(self)@.waiters.contains_key(pv.prompt_id) {
                    &&& r@.len() == 1
                    &&& r@[0].frees(old(self)@.waiters[pv.prompt_id], pv.verdict)
                    &&& final(self)@ == answered(old(self)@, pv.prompt_id)
                } else {
                    r@.len() == 0 && final(self)@ == old(self)@
                },
                VerdictEvent::Empty => r@.len() == 0 && final(self)@ == old(self)@,
                VerdictEvent::Disconnected => {
                    &&& final(self)@ == hung_up(old(self)@)
                    &&& desk_wf(old(self)@) ==> final(self)@.flows == Map::<FlowId, u64>::empty()
                    &&& exists|ids: Seq<u64>| #[trigger] flushed(old(self)@, ids, r@)
                },
            },
    {
        match event {
            VerdictEvent::Answer(pv) => {
                let mut out: Vec<Release<M>> = Vec::new();
                if let Some(release) = self.resolve_prompt(stats, pv) {
                    out.push(release);
                    proof {
                        assert(out@.drop_last() =~= Seq::<Release<M>>::empty());
                        reveal_with_fuel(counted_all, 2);
                    }
                }
                out
            },
            VerdictEvent::Empty => Vec::new(),
            VerdictEvent::Disconnected => self.close_verdict_channel(stats),
        }
    }

    /// Whether an idle worker waits on the channel from the router; once that
    /// is hung up it sleeps instead.
    pub fn waits_on_channel(&self) -> (r: bool)
        ensures
            r == self@.open,
    {
        self.verdict_channel_open
    }
}

/// Loop timings.
#[derive(Debug, Clone, Copy, PartialEq, Eq, Structural)]
pub struct Tuning {
    /// How long an idle turn waits; bounds how long a stop can go unnoticed.
    pub poll_interval_ms: u64,
    /// The pause after a hard error, so that a broken socket does not spin.
    pub error_backoff_ms: u64,
    /// How many hard errors in a row end the loop.
    pub max_consecutive_recv_errors: u32,
}

impl Default for Tuning {
    fn default() -> (r: Self)
        ensures
            r == (Tuning {
                poll_interval_ms: 5,
                error_backoff_ms: 250,
                max_consecutive_recv_errors: 100,
            }),
    {
        Tuning { poll_interval_ms: 5, error_backoff_ms: 250, max_consecutive_recv_errors: 100 }
    }
}

/// What a receive came to.
#[derive(Debug, Clone, Copy, PartialEq, Eq, Structural)]
pub enum RecvEvent {
    Packet,
    /// No packet is ready.
    WouldBlock,
    Interrupted,
    /// A hard error.
    Failed,
}

/// How the receive loop goes on.
#[derive(Debug, Clone, Copy, PartialEq, Eq, Structural)]
pub enum LoopStep {
    /// Handle the packet.
    Handle,
    /// Spend the beat waiting for a verdict.
    IdleWait,
    /// Receive again at once.
    Again,
    /// Receive again after the backoff.
    Backoff,
    /// End the loop: so many errors came in a row.
    GiveUp(u32),
    /// End the loop: it was asked for.
    Stop,
}

/// Counts hard errors in a row. A packet resets the count, and so do an empty
/// queue and an interruption: the socket is alive.
#[derive(Debug, Clone, Copy, PartialEq, Eq, Structural)]
pub struct RecvBudget {
    pub consecutive_errors: u32,
    pub max: u32,
}

/// How many hard errors in a row there are once `event` follows on `count`.
pub open spec fn errors_after(count: nat, event: RecvEvent) -> nat {
    if event is Failed {
        count + 1
    } else {
        0
    }
}

/// Whether the loop does `r` on an event and has then seen `after` hard errors in
/// a row.
pub open spec fn looped(
    max: u32,
    before: u32,
    stop: bool,
    event: RecvEvent,
    r: LoopStep,
    after: u32,
) -> bool {
    if stop {
        r == LoopStep::Stop && after == before
    } else {
        &&& after == errors_after(before as nat, event)
        &&& match event {
            RecvEvent::Packet => r == LoopStep::Handle,
            RecvEvent::WouldBlock => r == LoopStep::IdleWait,
            RecvEvent::Interrupted => r == LoopStep::Again,
            RecvEvent::Failed => r == (if after >= max {
                LoopStep::GiveUp(after)
            } else {
                LoopStep::Backoff
            }),
        }
    }
}

/// How many hard errors in a row end a run of events.
pub open spec fn errors_at_end(events: Seq<RecvEvent>) -> nat
    decreases events.len(),
{
    if events.len() == 0 {
        0
    } else {
        errors_after(errors_at_end(events.drop_last()), events.last())
    }
}

/// Whether a loop with this limit gave up somewhere in a run of events.
pub open spec fn loop_gave_up(max: u32, events: Seq<RecvEvent>) -> bool
    decreases events.len(),
{
    events.len() > 0 && (loop_gave_up(max, events.drop_last()) || (events.last() is Failed
        && errors_at_end(events) >= max))
}

/// Whether as many events as the limit are hard errors, from `i` on and with
/// nothing between them.
pub open spec fn errors_in_a_row(max: u32, events: Seq<RecvEvent>, i: int) -> bool {
    &&& 0 <= i
    &&& i + max <= events.len()
    &&& forall|k: int| i <= k < i + max ==> (#[trigger] events[k]) is Failed
}

/// The receive loop gives up if and only if as many hard errors as its limit
/// come in a row: a packet, an empty queue or an interruption between them
/// starts the count anew.
pub proof fn only_errors_in_a_row_end_the_loop(max: u32, events: Seq<RecvEvent>)
    requires
        max >= 1,
    ensures
        loop_gave_up(max, events) <==> exists|i: int| errors_in_a_row(max, events, i),
    decreases events.len(),
{
    lemma_errors_at_end(events);
    if events.len() > 0 {
        let front = events.drop_last();
        only_errors_in_a_row_end_the_loop(max, front);
        assert(front.len() == events.len() - 1);
        assert(forall|k: int| 0 <= k < front.len() ==> front[k] == events[k]);
        let n = errors_at_end(events);
        if loop_gave_up(max, events) {
            if loop_gave_up(max, front) {
                let i = choose|i: int| errors_in_a_row(max, front, i);
                assert forall|k: int| i <= k < i + max implies (#[trigger] events[k]) is Failed by {
                    assert(front[k] is Failed);
                }
                assert(errors_in_a_row(max, events, i));
            } else {
                assert(errors_in_a_row(max, events, events.len() - max));
            }
        }
        if exists|i: int| errors_in_a_row(max, events, i) {
            let i = choose|i: int| errors_in_a_row(max, events, i);
            if i + max <= front.len() {
                assert forall|k: int| i <= k < i + max implies (#[trigger] front[k]) is Failed by {
                    assert(events[k] is Failed);
                }
                assert(errors_in_a_row(max, front, i));
            } else {
                assert(events[events.len() - 1] is Failed);
                if n < max {
                    assert(events[events.len() - 1 - n] is Failed);
                }
            }
        }
    } else {
        assert(forall|i: int| !errors_in_a_row(max, events, i));
    }
}

proof fn lemma_errors_at_end(events: Seq<RecvEvent>)
    ensures
        errors_at_end(events) <= events.len(),
        forall|k: int|
            events.len() - errors_at_end(events) <= k < events.len() ==> (
            #[trigger] events[k]) is Failed,
        errors_at_end(events) < events.len() ==> !(events[events.len() - 1 - errors_at_end(
            events,
        )] is Failed),
    decreases events.len(),
{
    if events.len() > 0 {
        let front = events.drop_last();
        lemma_errors_at_end(front);
        assert forall|k: int|
            events.len() - errors_at_end(events) <= k < events.len() implies (
            #[trigger] events[k]) is Failed by {
            if k < front.len() {
                assert(front[k] is Failed);
            }
        }
    }
}

impl RecvBudget {
    /// The budget is not used up.
    pub open spec fn wf(self) -> bool {
        self.consecutive_errors == 0 || self.consecutive_errors < self.max
    }

    pub fn new(tuning: &Tuning) -> (r: RecvBudget)
        ensures
            r.wf(),
            r == (RecvBudget {
                consecutive_errors: 0,
                max: tuning.max_consecutive_recv_errors,
            }),
    {
        RecvBudget { consecutive_errors: 0, max: tuning.max_consecutive_recv_errors }
    }

    /// How the loop goes on.
    pub fn step(&mut self, stop: bool, event: RecvEvent) -> (r: LoopStep)
        requires
            old(self).wf(),
        ensures
            final(self).max == old(self).max,
            r is GiveUp || final(self).wf(),
            if stop {
                r == LoopStep::Stop && *final(self) == *old(self)
            } else {
                let n = errors_after(old(self).consecutive_errors as nat, event);
                &&& final(self).consecutive_errors == n
                &&& match event {
                    RecvEvent::Packet => r == LoopStep::Handle,
                    RecvEvent::WouldBlock => r == LoopStep::IdleWait,
                    RecvEvent::Interrupted => r == LoopStep::Again,
                    RecvEvent::Failed => r == (if n >= old(self).max {
                        LoopStep::GiveUp(n as u32)
                    } else {
                        LoopStep::Backoff
                    }),
                }
            },
            looped(
                old(self).max,
                old(self).consecutive_errors,
                stop,
                event,
                r,
                final(self).consecutive_errors,
            ),
    {
        if stop {
            return LoopStep::Stop;
        }
        match event {
            RecvEvent::Packet => {
                self.consecutive_errors = 0;
                LoopStep::Handle
            },
            RecvEvent::WouldBlock => {
                self.consecutive_errors = 0;
                LoopStep::IdleWait
            },
            RecvEvent::Interrupted => {
                self.consecutive_errors = 0;
                LoopStep::Again
            },
            RecvEvent::Failed => {
                self.consecutive_errors = self.consecutive_errors + 1;
                if self.consecutive_errors >= self.max {
                    LoopStep::GiveUp(self.consecutive_errors)
                } else {
                    LoopStep::Backoff
                }
            },
        }
    }
}

/// What the loop ends with when it gives up.
pub open spec fn gave_up(n: u32) -> Seq<char> {
    "NFQUEUE recv failed "@ + decimal(n as nat) + " times in a row"@
}

/// What the loop ends with when it gives up.
pub fn gave_up_message(n: u32) -> (r: String)
    ensures
        r@ == gave_up(n),
{
    let mut s = text("NFQUEUE recv failed ");
    push_decimal(&mut s, n as u64);
    s.append(" times in a row");
    s
}

/// Nothing comes in without having been authorised: an inbound flow is never
/// asked about, paused or not, and one that no rule decides gets the inbound
/// default.
pub proof fn inbound_never_asks(
    rules: Seq<Rule>,
    policy: DefaultPolicy,
    paused: bool,
    c: &Connection,
    p: &Process,
    now: i64,
)
    requires
        c.direction == Direction::Inbound,
    ensures
        ruled(rules, policy, paused, c, p, now) matches Ruling::Deliver(v) && (rule_verdict(
            rules,
            c,
            p,
            now,
        ) is None ==> v == by_policy(policy.inbound_action)),
{
}

/// A pause means "stop asking", not "stop filtering": what a rule says, and
/// what becomes of inbound flows, does not depend on it.
pub proof fn a_pause_lifts_no_rule(
    rules: Seq<Rule>,
    policy: DefaultPolicy,
    c: &Connection,
    p: &Process,
    now: i64,
)
    requires
        rule_verdict(rules, c, p, now) is Some || c.direction == Direction::Inbound,
    ensures
        ruled(rules, policy, true, c, p, now) == ruled(rules, policy, false, c, p, now),
{
}

/// A hook that is not the sending one never leads to a prompt.
pub proof fn only_sent_packets_are_asked_about(
    hook: u8,
    rules: Seq<Rule>,
    policy: DefaultPolicy,
    paused: bool,
    c: &Connection,
    p: &Process,
    now: i64,
)
    requires
        c.direction == hook_direction(hook),
        ruled(rules, policy, paused, c, p, now) is Prompt,
    ensures
        hook == NF_INET_LOCAL_OUT,
        !paused,
        rule_verdict(rules, c, p, now) is None,
{
}

/// Two packets of one flow share a prompt, and its answer lets go of both.
pub proof fn packets_of_one_flow_share_a_prompt<M>(d: Desk<M>, w: Waiting<M>, msg: M)
    requires
        desk_wf(d),
        outstanding(d, w.flow) is None,
        d.next_id < u64::MAX,
    ensures
        ({
            let id = d.next_id;
            let one = opened(numbered(d, w.flow), id, w);
            let two = joined(one, id, msg);
            &&& outstanding(one, w.flow) == Some(id)
            &&& two.waiters[id].packets == w.packets.push(msg)
            &&& outstanding(two, w.flow) == Some(id)
            &&& outstanding(answered(two, id), w.flow) is None
        }),
{
}

/// A new prompt keeps the books in order, and has an id of its own.
pub proof fn prompts_have_ids_of_their_own<M>(d: Desk<M>, w: Waiting<M>)
    requires
        desk_wf(d),
        outstanding(d, w.flow) is None,
        d.next_id < u64::MAX,
        w.packets.len() > 0,
    ensures
        !d.waiters.contains_key(d.next_id),
        desk_wf(opened(numbered(d, w.flow), d.next_id, w)),
{
    let a = opened(numbered(d, w.flow), d.next_id, w);
    assert forall|o: u64| #[trigger] a.waiters.contains_key(o) implies {
        &&& o < a.next_id
        &&& a.waiters[o].packets.len() > 0
        &&& a.flows.contains_key(a.waiters[o].flow)
        &&& a.flows[a.waiters[o].flow] == o
    } by {
        if o != d.next_id {
            assert(d.waiters.contains_key(o));
            assert(d.flows.contains_key(d.waiters[o].flow));
            assert(d.waiters[o].flow != w.flow);
        }
    }
    assert forall|f: FlowId| #[trigger] a.flows.contains_key(f) implies a.waiters.contains_key(
        a.flows[f],
    ) && a.waiters[a.flows[f]].flow == f by {
        if f != w.flow {
            assert(d.flows.contains_key(f));
            assert(d.waiters.contains_key(d.flows[f]));
        }
    }
}

/// An answer lets go of its own packets and of no others.
pub proof fn an_answer_frees_only_its_own<M>(d: Desk<M>, id: u64, other: u64)
    requires
        desk_wf(d),
        d.waiters.contains_key(id),
        d.waiters.contains_key(other),
        id != other,
    ensures
        desk_wf(answered(d, id)),
        !answered(d, id).waiters.contains_key(id),
        answered(d, id).waiters.contains_key(other),
        answered(d, id).waiters[other] == d.waiters[other],
        d.waiters[id].flow != d.waiters[other].flow,
{
    lemma_answered(d, id);
}

/// Retransmits and parallel connections are one flow: the source port and what
/// tells two connections apart do not count.
pub proof fn the_source_does_not_tell_flows_apart(a: Connection, b: Connection, p: Process)
    requires
        a.dst_ip == b.dst_ip,
        a.dst_port == b.dst_port,
        a.protocol == b.protocol,
    ensures
        flow_of(a, p) == flow_of(b, p),
{
}

/// Only what leaves through the output hook is outbound; what comes from any
/// other hook is inbound.
pub proof fn only_the_output_hook_is_outbound(hook: u8)
    ensures
        hook_direction(hook) == Direction::Outbound <==> hook == 3,
        hook_direction(hook) == Direction::Inbound <==> hook != 3,
{
}

/// The kernel is told to let a packet pass if its flow is allowed, and to drop it
/// if not.
pub proof fn only_allowed_packets_pass(a: Action)
    ensures
        kernel_verdict(a) == NfqVerdict::Accept <==> a == Action::Allow,
        kernel_verdict(a) == NfqVerdict::Drop <==> a == Action::Deny || a == Action::Reject,
{
}

/// A decided flow is counted once, among those that passed or among those that
/// did not; nothing else is touched.
pub proof fn a_flow_is_counted_on_its_side(s: Stats, a: Action)
    ensures
        a == Action::Allow ==> counted(s, a).allowed == next(s.allowed) && counted(s, a).denied
            == s.denied,
        a != Action::Allow ==> counted(s, a).denied == next(s.denied) && counted(s, a).allowed
            == s.allowed,
        counted(s, a).paused == s.paused,
        counted(s, a).generation == s.generation,
        counted(s, a).prompts_pending == s.prompts_pending,
{
}

/// What the kernel says of a socket's owner counts before what was found of the
/// process, and everything else of the process is as it was found.
pub proof fn the_kernels_word_counts_first(p: Process, meta: PacketMeta)
    ensures
        ({
            let q = owned_process(p, meta);
            &&& meta.uid is Some ==> q.uid == meta.uid
            &&& meta.uid is None ==> q.uid == p.uid
            &&& meta.gid is Some ==> q.gid == meta.gid
            &&& meta.gid is None ==> q.gid == p.gid
            &&& q.pid == p.pid && q.ppid == p.ppid && q.exe == p.exe && q.cmdline == p.cmdline
            &&& q.cwd == p.cwd && q.sha256 == p.sha256 && q.parent_exe == p.parent_exe
            &&& q.package == p.package && q.provenance == p.provenance
        }),
{
}

/// A flow keeps its five-tuple, its id and its time, and gets the process, the
/// user and the name that were found for it.
pub proof fn attribution_keeps_the_flow(
    c: Connection,
    pid: Option<u32>,
    uid: Option<u32>,
    host: Option<Seq<char>>,
    r: Connection,
)
    requires
        attached(c, pid, uid, host, r),
    ensures
        r.id == c.id && r.timestamp_unix_ms == c.timestamp_unix_ms,
        r.protocol == c.protocol && r.direction == c.direction,
        r.src_ip == c.src_ip && r.src_port == c.src_port,
        r.dst_ip == c.dst_ip && r.dst_port == c.dst_port,
        pid is Some ==> r.pid == pid,
        pid is None ==> r.pid == c.pid,
        r.uid == uid,
        host is Some ==> r.dst_host is Some && r.dst_host->Some_0@ == host->Some_0,
        host is None && c.dst_host is None ==> r.dst_host is None,
        host is None && c.dst_host is Some ==> r.dst_host is Some && r.dst_host->Some_0@
            == c.dst_host->Some_0@,
{
}

/// A flow gets what the rules say of it. Where they say nothing an inbound flow
/// gets the inbound default, an outbound one passes while filtering is paused,
/// and is asked about otherwise, with the policy for when nobody can be asked
/// to fall back on.
pub proof fn a_flow_gets_a_rule_a_default_or_a_question(
    rules: Seq<Rule>,
    policy: DefaultPolicy,
    paused: bool,
    c: &Connection,
    p: &Process,
    now: i64,
)
    ensures
        ({
            let r = ruled(rules, policy, paused, c, p, now);
            let said = rule_verdict(rules, c, p, now);
            let inbound = c.direction == Direction::Inbound;
            &&& said is Some ==> r == Ruling::Deliver(said->Some_0)
            &&& said is None && inbound ==> r == Ruling::Deliver(
                Verdict { action: policy.inbound_action, source: VerdictSource::DefaultPolicy },
            )
            &&& said is None && !inbound && paused ==> r == Ruling::Deliver(
                Verdict { action: Action::Allow, source: VerdictSource::DefaultPolicy },
            )
            &&& said is None && !inbound && !paused ==> r == Ruling::Prompt(
                Verdict { action: policy.no_ui_action, source: VerdictSource::DefaultPolicy },
            )
        }),
{
}

/// A flow that is decided is counted and one that is asked about is not, yet;
/// and a rule that decided is credited with one hit, no other rule with any.
pub proof fn deciding_counts_and_asking_does_not(
    s: Stats,
    v: Verdict,
    rules: Seq<Rule>,
    hits: Map<u128, u64>,
    c: &Connection,
    p: &Process,
    now: i64,
    k: int,
    other: u128,
)
    ensures
        counted_ruling(s, Ruling::Deliver(v)) == counted(s, v.action),
        counted_ruling(s, Ruling::Prompt(v)) == s,
        counted_ruling(s, Ruling::Silent(NfqVerdict::Accept)) == s,
        counted_ruling(s, Ruling::Silent(NfqVerdict::Drop)) == s,
        rule_verdict(rules, c, p, now) is None ==> hits_after(rules, hits, c, p, now) == hits,
        crate::decision::first_hit(rules, c, p, now, 0) == Some(k) && 0 <= k < rules.len() ==> ({
            let id = rules[k].id;
            let after = hits_after(rules, hits, c, p, now);
            let before = if hits.contains_key(id) {
                hits[id] as int
            } else {
                0
            };
            &&& after.contains_key(id)
            &&& before < u64::MAX ==> after[id] == before + 1
            &&& other != id ==> after.contains_key(other) == hits.contains_key(other)
            &&& other != id && hits.contains_key(other) ==> after[other] == hits[other]
        }),
{
}

/// A packet that does not parse gets the policy for when nobody can be asked,
/// and the daemon's own packet passes; neither is counted, looked up or credited
/// to a rule.
pub proof fn silent_packets_leave_no_trace(
    b: Desktop,
    a: Desktop,
    payload: Seq<u8>,
    meta: PacketMeta,
    id: u128,
    pid: Option<u32>,
    process: Process,
    now: i64,
    now_ns: u64,
    r: Handled,
)
    requires
        packet_handled(b, a, payload, meta, id, pid, process, now, now_ns, r),
    ensures
        read_connection(payload, meta.direction, id, now) is Err ==> {
            &&& r.outcome is Silent
            &&& r.outcome->Silent_0 == NfqVerdict::Accept <==> b.policy.no_ui_action
                == Action::Allow
            &&& r.lookup is None
            &&& a == b
        },
        read_connection(payload, meta.direction, id, now) is Ok && pid == Some(b.own_pid) ==> {
            &&& r.outcome is Silent
            &&& r.outcome->Silent_0 == NfqVerdict::Accept
            &&& r.lookup is None
            &&& a == b
        },
        read_connection(payload, meta.direction, id, now) is Ok && pid != Some(b.own_pid)
            ==> !(r.outcome is Silent),
{
}

/// A flow that is ruled on is the packet's own, as the process that was found,
/// named by the cache; the rules and the policy stay, and a lookup is started
/// for a destination of which nothing is known and none is under way.
pub proof fn a_flow_is_ruled_on_as_its_process(
    b: Desktop,
    a: Desktop,
    conn: Connection,
    pid: Option<u32>,
    process: Process,
    meta: PacketMeta,
    now: i64,
    now_ns: u64,
    r: Handled,
)
    requires
        flow_handled(b, a, conn, pid, process, meta, now, now_ns, r),
    ensures
        a.rules == b.rules && a.policy == b.policy && a.own_pid == b.own_pid && a.notices
            == b.notices,
        exists|c: Connection|
            {
                &&& #[trigger] r.outcome.about(c, owned_process(process, meta))
                &&& c.dst_ip == conn.dst_ip && c.dst_port == conn.dst_port
                &&& c.src_ip == conn.src_ip && c.src_port == conn.src_port
                &&& c.protocol == conn.protocol && c.direction == conn.direction
                &&& name_for(b.names, conn.dst_ip, now_ns) is Some ==> c.dst_host is Some
                    && c.dst_host->Some_0@ == name_for(b.names, conn.dst_ip, now_ns)->Some_0
                &&& rule_verdict(b.rules, &c, &owned_process(process, meta), now) is Some ==> r.outcome is Deliver
                    && r.outcome->Deliver_verdict == rule_verdict(b.rules, &c, &owned_process(process, meta), now)->Some_0
                &&& r.outcome is Prompt ==> rule_verdict(b.rules, &c, &owned_process(process, meta), now) is None
                    && c.direction == Direction::Outbound && !b.stats.paused
            },
        b.names.contains_key(conn.dst_ip) && (b.names[conn.dst_ip].in_flight
            || b.names[conn.dst_ip].fresh(now_ns)) ==> r.lookup is None && a.names == b.names,
        !(b.names.contains_key(conn.dst_ip) && (b.names[conn.dst_ip].in_flight
            || b.names[conn.dst_ip].fresh(now_ns))) ==> r.lookup == Some(conn.dst_ip)
            && a.names.contains_key(conn.dst_ip) && a.names[conn.dst_ip].in_flight,
{
    let p = owned_process(process, meta);
    let c = choose|c: Connection|
        {
            &&& attached(conn, pid, p.uid, name_for(b.names, conn.dst_ip, now_ns), c)
            &&& #[trigger] r.outcome.about(c, p)
            &&& r.outcome.ruling() == ruled(b.rules, b.policy, b.stats.paused, &c, &p, now)
            &&& a.hits == hits_after(b.rules, b.hits, &c, &p, now)
        };
    assert(r.outcome.about(c, p));
}

/// Two packets are of one flow if and only if they go to the same place by the
/// same transport, from one executable, or, where that is not known, one pid.
pub proof fn a_flow_is_an_origin_and_a_destination(
    c: Connection,
    p: Process,
    d: Connection,
    q: Process,
)
    ensures
        flow_of(c, p) == flow_of(d, q) <==> {
            &&& c.dst_ip == d.dst_ip && c.dst_port == d.dst_port && c.protocol == d.protocol
            &&& p.exe@.len() > 0 || q.exe@.len() > 0 ==> p.exe@ == q.exe@
            &&& p.exe@.len() == 0 && q.exe@.len() == 0 ==> p.pid == q.pid
        },
{
}

/// A packet that joins a prompt waits behind those that wait already; nothing
/// else changes.
pub proof fn a_packet_joins_at_the_end<M>(d: Desk<M>, id: u64, msg: M, other: u64)
    requires
        d.waiters.contains_key(id),
        other != id,
    ensures
        ({
            let a = joined(d, id, msg);
            &&& a.waiters.contains_key(id)
            &&& a.waiters[id].packets == d.waiters[id].packets.push(msg)
            &&& a.waiters[id].flow == d.waiters[id].flow
            &&& a.waiters[id].connection == d.waiters[id].connection
            &&& a.waiters[id].process == d.waiters[id].process
            &&& a.waiters[id].fallback == d.waiters[id].fallback
            &&& a.waiters.contains_key(other) == d.waiters.contains_key(other)
            &&& d.waiters.contains_key(other) ==> a.waiters[other] == d.waiters[other]
            &&& a.flows == d.flows && a.next_id == d.next_id && a.open == d.open
        }),
{
}

/// A prompt that goes out stands under its id and its flow; the next one gets
/// the next id; one that is answered stands under neither.
pub proof fn a_prompt_comes_and_goes<M>(d: Desk<M>, id: u64, w: Waiting<M>, f: FlowId, other: u64)
    requires
        other != id,
        d.next_id < u64::MAX,
    ensures
        ({
            let a = opened(d, id, w);
            &&& a.waiters.contains_key(id) && a.waiters[id] == w
            &&& a.flows.contains_key(w.flow) && a.flows[w.flow] == id
            &&& d.waiters.contains_key(other) ==> a.waiters.contains_key(other)
                && a.waiters[other] == d.waiters[other]
            &&& f != w.flow ==> a.flows.contains_key(f) == d.flows.contains_key(f)
            &&& f != w.flow && d.flows.contains_key(f) ==> a.flows[f] == d.flows[f]
            &&& a.next_id == d.next_id && a.open == d.open
        }),
        ({
            let a = numbered(d, f);
            &&& a.next_id == d.next_id + 1
            &&& a.waiters == d.waiters && a.open == d.open
            &&& !a.flows.contains_key(f)
        }),
        d.waiters.contains_key(id) ==> ({
            let a = answered(d, id);
            &&& !a.waiters.contains_key(id)
            &&& !a.flows.contains_key(d.waiters[id].flow)
            &&& a.waiters.contains_key(other) == d.waiters.contains_key(other)
            &&& d.waiters.contains_key(other) ==> a.waiters[other] == d.waiters[other]
            &&& f != d.waiters[id].flow ==> a.flows.contains_key(f) == d.flows.contains_key(f)
            &&& a.next_id == d.next_id && a.open == d.open
        }),
        ({
            let a = hung_up(d);
            &&& !a.waiters.contains_key(id) && !a.waiters.contains_key(other)
            &&& !a.open && a.next_id == d.next_id
        }),
{
}

/// A flow waits on the prompt it leads to, if that is out.
pub proof fn a_flow_waits_on_its_prompt<M>(d: Desk<M>, f: FlowId, id: u64)
    ensures
        outstanding(d, f) == Some(id) <==> d.flows.contains_key(f) && d.flows[f] == id
            && d.waiters.contains_key(id),
{
}

/// What is let go of is everything that waited, under the flow it waited for and
/// with the verdict that was given.
pub proof fn a_release_is_all_that_waited<M>(r: Release<M>, w: Waiting<M>, v: Verdict)
    ensures
        r.frees(w, v) <==> {
            &&& r.packets@ == w.packets
            &&& r.observed.connection == w.connection
            &&& r.observed.process == w.process
            &&& r.observed.verdict == v
        },
{
}

/// The router is asked about the flow as it is.
pub proof fn a_question_is_about_its_flow(q: PromptRequest, id: u64, c: Connection, p: Process)
    requires
        asks(q, id, c, p),
    ensures
        q.prompt_id == id,
        q.connection == c,
        q.process.pid == p.pid && q.process.uid == p.uid && q.process.gid == p.gid,
        q.process.exe == p.exe && q.process.cmdline@ == p.cmdline@,
        q.process.sha256 == p.sha256 && q.process.parent_exe == p.parent_exe,
        q.process.package == p.package && q.process.provenance == p.provenance,
{
}

/// What an outcome makes of a packet: a silent verdict and a decision go out
/// with it at once; a question parks it, on the prompt its flow waits on or on
/// a new one.
pub proof fn an_outcome_sends_or_parks_its_packet<M>(
    b: Desk<M>,
    a: Desk<M>,
    msg: M,
    outcome: PacketOutcome,
    r: MessageStep<M>,
)
    requires
        message_handled(b, a, msg, outcome, r),
    ensures
        outcome is Silent ==> r is Verdict && r->Verdict_0 == msg && r->Verdict_1
            == outcome->Silent_0 && a == b,
        outcome is Deliver ==> r is Release && r->Release_0.packets@ == seq![msg]
            && r->Release_0.observed.verdict == outcome->Deliver_verdict
            && r->Release_0.observed.connection == outcome->Deliver_connection
            && r->Release_0.observed.process == outcome->Deliver_process && a == b,
        outcome is Prompt ==> r is Rides || r is Ask,
        outcome is Prompt && r is Rides ==> ({
            let f = flow_of(outcome->Prompt_connection, outcome->Prompt_process);
            &&& b.flows.contains_key(f) && b.waiters.contains_key(b.flows[f])
            &&& a.waiters[b.flows[f]].packets == b.waiters[b.flows[f]].packets.push(msg)
        }),
        outcome is Prompt && r is Ask ==> {
            &&& r->request.prompt_id == b.next_id
            &&& r->request.connection == outcome->Prompt_connection
            &&& r->Ask_pending.packets@ == seq![msg]
            &&& r->Ask_pending.fallback == outcome->Prompt_fallback
            &&& r->Ask_pending.connection == outcome->Prompt_connection
            &&& r->Ask_pending.process == outcome->Prompt_process
            &&& r->Ask_pending.flow@ == flow_of(
                outcome->Prompt_connection,
                outcome->Prompt_process,
            )
        },
{
}

/// What an outcome comes to is what it carries, about the flow it carries.
pub proof fn an_outcome_comes_to_what_it_carries(
    v: NfqVerdict,
    c: Connection,
    p: Process,
    d: Verdict,
)
    ensures
        PacketOutcome::Silent(v).ruling() == Ruling::Silent(v),
        (PacketOutcome::Deliver { connection: c, process: p, verdict: d }).ruling()
            == Ruling::Deliver(d),
        (PacketOutcome::Prompt { connection: c, process: p, fallback: d }).ruling()
            == Ruling::Prompt(d),
        (PacketOutcome::Deliver { connection: c, process: p, verdict: d }).about(c, p),
        (PacketOutcome::Prompt { connection: c, process: p, fallback: d }).about(c, p),
{
}

/// Releases are counted one by one, each by its own verdict.
pub proof fn releases_are_counted_one_by_one<M>(s: Stats, r: Seq<Release<M>>, last: Release<M>)
    ensures
        counted_all(s, Seq::<Release<M>>::empty()) == s,
        counted_all(s, r.push(last)) == counted(
            counted_all(s, r),
            last.observed.verdict.action,
        ),
{
    assert(r.push(last).drop_last() =~= r);
}

/// When the router is gone every prompt that is out is let go of once, each with
/// its own fallback, and nothing else is.
pub proof fn nothing_is_stranded<M>(d: Desk<M>, ids: Seq<u64>, r: Seq<Release<M>>, id: u64)
    requires
        flushed(d, ids, r),
        d.waiters.contains_key(id),
    ensures
        exists|k: int|
            0 <= k < r.len() && (#[trigger] r[k]).packets@ == d.waiters[id].packets
                && r[k].observed.verdict == d.waiters[id].fallback && r[k].observed.connection
                == d.waiters[id].connection,
        ids.no_duplicates() && ids.len() == r.len(),
        forall|k: int| 0 <= k < ids.len() ==> d.waiters.contains_key(#[trigger] ids[k]),
{
    assert(ids.contains(id));
    let k = choose|k: int| 0 <= k < ids.len() && ids[k] == id;
    assert(r[k].frees(d.waiters[ids[k]], d.waiters[ids[k]].fallback));
    assert forall|j: int| 0 <= j < ids.len() implies d.waiters.contains_key(#[trigger] ids[j]) by {
        assert(ids.contains(ids[j]));
    }
}

/// Of a process that was not found nothing is known.
pub proof fn nothing_is_known_of_nobody(p: Process)
    requires
        nobody(p),
    ensures
        p.pid == 0 && p.ppid is None && p.uid is None && p.gid is None,
        p.exe@.len() == 0 && p.cmdline@.len() == 0 && p.cwd is None && p.sha256 is None,
        p.parent_exe is None && p.package is None && p.provenance == Provenance::Unknown,
{
}

/// The resolver is asked about the packet's own ends, the source as the source;
/// an inbound packet is nobody's.
pub proof fn the_owner_is_looked_for_by_the_flows_ends<R: ProcessResolver>(
    resolver: &R,
    c: Connection,
    own: u32,
    pid: Option<u32>,
    process: Process,
)
    requires
        found(resolver, c, own, pid, process),
    ensures
        c.direction == Direction::Inbound ==> pid is None,
        c.direction == Direction::Outbound ==> resolver.may_hold(
            c.protocol,
            c.direction,
            (c.src_ip, c.src_port),
            (c.dst_ip, c.dst_port),
            pid,
        ),
        pid is None ==> nobody(process),
        pid is Some && pid->Some_0 != own ==> resolver.may_be(pid->Some_0, process),
{
}

/// A loop that gives up says how many errors it saw.
pub proof fn giving_up_says_how_often(n: u32)
    ensures
        gave_up(n) == "NFQUEUE recv failed "@ + decimal(n as nat) + " times in a row"@,
{
}

/// The desk of a worker is what its books say.
pub proof fn the_desktop_is_what_is_shared(engine: Engine, stats: Stats, dns: DnsCache)
    ensures
        desktop(engine, stats, dns).rules == engine.rules(),
        desktop(engine, stats, dns).policy == engine.policy(),
        desktop(engine, stats, dns).hits == engine.hits(),
        desktop(engine, stats, dns).notices == engine.notices(),
        desktop(engine, stats, dns).stats == stats,
        desktop(engine, stats, dns).names == dns@,
        desktop(engine, stats, dns).own_pid == dns.own_pid(),
{
}

/// What waits on a prompt is let go of once, with the answer, and counted as the
/// answer says; an answer that comes after that finds nothing.
pub proof fn what_waits_is_let_go_of_once<M>(
    d: Desk<M>,
    s: Stats,
    id: u64,
    w: Waiting<M>,
    r: Option<Release<M>>,
    d1: Desk<M>,
    s1: Stats,
    v: Verdict,
    r1: Option<Release<M>>,
    d2: Desk<M>,
    s2: Stats,
    late: Verdict,
    r2: Option<Release<M>>,
    d3: Desk<M>,
    s3: Stats,
)
    requires
        sent_off(d, s, id, w, true, r, d1, s1),
        resolved(d1, s1, PromptVerdict { prompt_id: id, verdict: v }, r1, d2, s2),
        resolved(d2, s2, PromptVerdict { prompt_id: id, verdict: late }, r2, d3, s3),
    ensures
        r is None,
        s1 == s,
        r1 matches Some(x) && x.packets@ == w.packets && x.observed.verdict == v
            && x.observed.connection == w.connection && x.observed.process == w.process,
        v.action == Action::Allow && s.allowed < u64::MAX ==> s2.allowed == s.allowed + 1
            && s2.denied == s.denied,
        v.action != Action::Allow && s.denied < u64::MAX ==> s2.denied == s.denied + 1
            && s2.allowed == s.allowed,
        !d2.waiters.contains_key(id),
        !d2.flows.contains_key(w.flow),
        r2 is None,
        d3 == d2,
        s3 == s2,
{
    a_flow_is_counted_on_its_side(s, v.action);
}

/// What cannot be asked about is let go of at once, with the verdict that was
/// given for that, and nothing waits.
pub proof fn what_cannot_be_asked_about_does_not_wait<M>(
    d: Desk<M>,
    s: Stats,
    id: u64,
    w: Waiting<M>,
    r: Option<Release<M>>,
    d1: Desk<M>,
    s1: Stats,
)
    requires
        sent_off(d, s, id, w, false, r, d1, s1),
    ensures
        r matches Some(x) && x.packets@ == w.packets && x.observed.verdict == w.fallback,
        d1 == d,
        s1 == counted(s, w.fallback.action),
{
}

/// The loop ends when it is asked to and when so many hard errors come in a row,
/// never otherwise; anything else that comes starts the count over.
pub proof fn the_loop_ends_for_two_reasons(
    max: u32,
    before: u32,
    stop: bool,
    event: RecvEvent,
    r: LoopStep,
    after: u32,
)
    requires
        looped(max, before, stop, event, r, after),
    ensures
        r is Stop <==> stop,
        r is GiveUp <==> !stop && event is Failed && before + 1 >= max,
        r matches LoopStep::GiveUp(n) ==> n == before + 1,
        r is Handle <==> !stop && event is Packet,
        r is IdleWait <==> !stop && event is WouldBlock,
        r is Again <==> !stop && event is Interrupted,
        !stop && event is Failed ==> after == before + 1,
        !stop && !(event is Failed) ==> after == 0,
        stop ==> after == before,
{
}

/// Once no answer can come any more nothing waits and no flow is held to a
/// prompt; the numbers that were used stay used.
pub proof fn a_closed_desk_is_cleared<M>(d: Desk<M>, id: u64, f: FlowId)
    requires
        desk_wf(d),
    ensures
        !hung_up(d).waiters.contains_key(id),
        !hung_up(d).flows.contains_key(f),
        hung_up(d).next_id == d.next_id,
        !hung_up(d).open,
        desk_wf(hung_up(d)),
{
    lemma_hung_up(d);
}

} // verus!
