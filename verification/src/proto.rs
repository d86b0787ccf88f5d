//! The messages of the control protocol, with their enumerations as the numbers
//! they travel as.

use vstd::prelude::*;

verus! {

#[derive(Debug, Clone, Copy, PartialEq, Eq, Structural)]
pub enum Action {
    Unspecified,
    Allow,
    Deny,
    Reject,
}

#[derive(Debug, Clone, Copy, PartialEq, Eq, Structural)]
pub enum Protocol {
    Unspecified,
    Tcp,
    Udp,
    Icmp,
    Other,
}

#[derive(Debug, Clone, Copy, PartialEq, Eq, Structural)]
pub enum Provenance {
    Unspecified,
    Unpackaged,
    Verified,
    Modified,
}

#[derive(Debug, Clone, Copy, PartialEq, Eq, Structural)]
pub enum Direction {
    Unspecified,
    Outbound,
    Inbound,
}

#[derive(Debug, Clone, Copy, PartialEq, Eq, Structural)]
pub enum Duration {
    Unspecified,
    Once,
    UntilRestart,
    Always,
}

impl Action {
    /// The number on the wire.
    pub open spec fn spec_number(self) -> i32 {
        match self {
            Action::Unspecified => 0,
            Action::Allow => 1,
            Action::Deny => 2,
            Action::Reject => 3,
        }
    }

    /// The number on the wire.
    pub fn number(self) -> (r: i32)
        ensures
            r == self.spec_number(),
    {
        match self {
            Action::Unspecified => 0,
            Action::Allow => 1,
            Action::Deny => 2,
            Action::Reject => 3,
        }
    }

    /// What a number stands for.
    pub fn from_number(n: i32) -> (r: Option<Action>)
        ensures
            r matches Some(a) ==> a.spec_number() == n,
            r is None <==> !(0 <= n <= 3),
    {
        match n {
            0 => Some(Action::Unspecified),
            1 => Some(Action::Allow),
            2 => Some(Action::Deny),
            3 => Some(Action::Reject),
            _ => None,
        }
    }
}

impl Protocol {
    /// The number on the wire.
    pub open spec fn spec_number(self) -> i32 {
        match self {
            Protocol::Unspecified => 0,
            Protocol::Tcp => 1,
            Protocol::Udp => 2,
            Protocol::Icmp => 3,
            Protocol::Other => 4,
        }
    }

    /// The number on the wire.
    pub fn number(self) -> (r: i32)
        ensures
            r == self.spec_number(),
    {
        match self {
            Protocol::Unspecified => 0,
            Protocol::Tcp => 1,
            Protocol::Udp => 2,
            Protocol::Icmp => 3,
            Protocol::Other => 4,
        }
    }

    /// What a number stands for.
    pub fn from_number(n: i32) -> (r: Option<Protocol>)
        ensures
            r matches Some(a) ==> a.spec_number() == n,
            r is None <==> !(0 <= n <= 4),
    {
        match n {
            0 => Some(Protocol::Unspecified),
            1 => Some(Protocol::Tcp),
            2 => Some(Protocol::Udp),
            3 => Some(Protocol::Icmp),
            4 => Some(Protocol::Other),
            _ => None,
        }
    }
}

impl Provenance {
    /// The number on the wire.
    pub open spec fn spec_number(self) -> i32 {
        match self {
            Provenance::Unspecified => 0,
            Provenance::Unpackaged => 1,
            Provenance::Verified => 2,
            Provenance::Modified => 3,
        }
    }

    /// The number on the wire.
    pub fn number(self) -> (r: i32)
        ensures
            r == self.spec_number(),
    {
        match self {
            Provenance::Unspecified => 0,
            Provenance::Unpackaged => 1,
            Provenance::Verified => 2,
            Provenance::Modified => 3,
        }
    }

    /// What a number stands for.
    pub fn from_number(n: i32) -> (r: Option<Provenance>)
        ensures
            r matches Some(a) ==> a.spec_number() == n,
            r is None <==> !(0 <= n <= 3),
    {
        match n {
            0 => Some(Provenance::Unspecified),
            1 => Some(Provenance::Unpackaged),
            2 => Some(Provenance::Verified),
            3 => Some(Provenance::Modified),
            _ => None,
        }
    }
}

impl Direction {
    /// The number on the wire.
    pub open spec fn spec_number(self) -> i32 {
        match self {
            Direction::Unspecified => 0,
            Direction::Outbound => 1,
            Direction::Inbound => 2,
        }
    }

    /// The number on the wire.
    pub fn number(self) -> (r: i32)
        ensures
            r == self.spec_number(),
    {
        match self {
            Direction::Unspecified => 0,
            Direction::Outbound => 1,
            Direction::Inbound => 2,
        }
    }

    /// What a number stands for.
    pub fn from_number(n: i32) -> (r: Option<Direction>)
        ensures
            r matches Some(a) ==> a.spec_number() == n,
            r is None <==> !(0 <= n <= 2),
    {
        match n {
            0 => Some(Direction::Unspecified),
            1 => Some(Direction::Outbound),
            2 => Some(Direction::Inbound),
            _ => None,
        }
    }
}

impl Duration {
    /// The number on the wire.
    pub open spec fn spec_number(self) -> i32 {
        match self {
            Duration::Unspecified => 0,
            Duration::Once => 1,
            Duration::UntilRestart => 2,
            Duration::Always => 3,
        }
    }

    /// The number on the wire.
    pub fn number(self) -> (r: i32)
        ensures
            r == self.spec_number(),
    {
        match self {
            Duration::Unspecified => 0,
            Duration::Once => 1,
            Duration::UntilRestart => 2,
            Duration::Always => 3,
        }
    }

    /// What a number stands for.
    pub fn from_number(n: i32) -> (r: Option<Duration>)
        ensures
            r matches Some(a) ==> a.spec_number() == n,
            r is None <==> !(0 <= n <= 3),
    {
        match n {
            0 => Some(Duration::Unspecified),
            1 => Some(Duration::Once),
            2 => Some(Duration::UntilRestart),
            3 => Some(Duration::Always),
            _ => None,
        }
    }
}

/// A flow on the wire.
#[derive(Debug)]
pub struct ConnectionInfo {
    pub id: String,
    pub timestamp_unix_ms: i64,
    pub protocol: i32,
    pub direction: i32,
    pub src_ip: String,
    pub src_port: u32,
    pub dst_ip: String,
    pub dst_port: u32,
    pub dst_host: String,
}

/// A process on the wire. A user that is not known is absent, not user 0.
#[derive(Debug)]
pub struct ProcessInfo {
    pub pid: u32,
    pub ppid: u32,
    pub uid: Option<u32>,
    pub gid: Option<u32>,
    pub exe: String,
    pub cmdline: Vec<String>,
    pub cwd: String,
    pub sha256: String,
    pub package: String,
    pub provenance: i32,
}

/// A rule's scope on the wire. An empty text stands for no constraint; numbers
/// have a flag that says whether they are there.
#[derive(Debug)]
pub struct RuleScope {
    pub exe_path: String,
    pub exe_sha256: String,
    pub parent_exe: String,
    pub uid: u32,
    pub has_uid: bool,
    pub dst_host: String,
    pub dst_net: String,
    pub dst_port: u32,
    pub has_dst_port: bool,
    pub direction: i32,
    pub has_direction: bool,
    pub src_net: String,
    pub src_port: u32,
    pub has_src_port: bool,
    pub protocol: i32,
    pub has_protocol: bool,
}

impl Default for RuleScope {
    fn default() -> (r: Self)
        ensures
            r@ == empty_scope(),
    {
        RuleScope {
            exe_path: String::new(),
            exe_sha256: String::new(),
            parent_exe: String::new(),
            uid: 0,
            has_uid: false,
            dst_host: String::new(),
            dst_net: String::new(),
            dst_port: 0,
            has_dst_port: false,
            direction: 0,
            has_direction: false,
            src_net: String::new(),
            src_port: 0,
            has_src_port: false,
            protocol: 0,
            has_protocol: false,
        }
    }
}

/// What a scope message says.
pub ghost struct WireScope {
    pub exe_path: Seq<char>,
    pub exe_sha256: Seq<char>,
    pub parent_exe: Seq<char>,
    pub uid: u32,
    pub has_uid: bool,
    pub dst_host: Seq<char>,
    pub dst_net: Seq<char>,
    pub dst_port: u32,
    pub has_dst_port: bool,
    pub direction: i32,
    pub has_direction: bool,
    pub src_net: Seq<char>,
    pub src_port: u32,
    pub has_src_port: bool,
    pub protocol: i32,
    pub has_protocol: bool,
}

/// A scope message in which nothing is set.
pub open spec fn empty_scope() -> WireScope {
    WireScope {
        exe_path: Seq::empty(),
        exe_sha256: Seq::empty(),
        parent_exe: Seq::empty(),
        uid: 0,
        has_uid: false,
        dst_host: Seq::empty(),
        dst_net: Seq::empty(),
        dst_port: 0,
        has_dst_port: false,
        direction: 0,
        has_direction: false,
        src_net: Seq::empty(),
        src_port: 0,
        has_src_port: false,
        protocol: 0,
        has_protocol: false,
    }
}

impl View for RuleScope {
    type V = WireScope;

    open spec fn view(&self) -> WireScope {
        WireScope {
            exe_path: self.exe_path@,
            exe_sha256: self.exe_sha256@,
            parent_exe: self.parent_exe@,
            uid: self.uid,
            has_uid: self.has_uid,
            dst_host: self.dst_host@,
            dst_net: self.dst_net@,
            dst_port: self.dst_port,
            has_dst_port: self.has_dst_port,
            direction: self.direction,
            has_direction: self.has_direction,
            src_net: self.src_net@,
            src_port: self.src_port,
            has_src_port: self.has_src_port,
            protocol: self.protocol,
            has_protocol: self.has_protocol,
        }
    }
}

/// A rule on the wire.
#[derive(Debug)]
pub struct RuleInfo {
    pub id: String,
    pub name: String,
    pub enabled: bool,
    pub action: i32,
    pub duration: i32,
    pub scope: Option<RuleScope>,
    pub created_at_unix_ms: i64,
    pub hit_count: u64,
}

/// A logged event on the wire.
#[derive(Debug)]
pub struct Event {
    pub ts_unix_ms: i64,
    pub proto: String,
    pub src_ip: String,
    pub src_port: u32,
    pub dst_ip: String,
    pub dst_port: u32,
    pub dst_host: String,
    pub exe: String,
    pub pid: u32,
    pub uid: Option<u32>,
    pub action: i32,
    pub source: String,
    pub rule_id: String,
}

/// A query of the event log.
#[derive(Debug)]
pub struct ListEventsRequest {
    pub limit: u32,
    pub offset: u32,
    pub exe_contains: String,
    pub action_filter: i32,
    pub since_unix_ms: i64,
}

impl Default for ListEventsRequest {
    fn default() -> (r: Self)
        ensures
            r.limit == 0,
            r.offset == 0,
            r.exe_contains@.len() == 0,
            r.action_filter == 0,
            r.since_unix_ms == 0,
    {
        ListEventsRequest {
            limit: 0,
            offset: 0,
            exe_contains: String::new(),
            action_filter: 0,
            since_unix_ms: 0,
        }
    }
}

/// A flow that was decided, as it is streamed.
#[derive(Debug)]
pub struct ConnectionEvent {
    pub connection: ConnectionInfo,
    pub process: ProcessInfo,
    pub verdict: i32,
    pub rule_id: String,
}

/// An answer to a prompt.
#[derive(Debug)]
pub struct VerdictRequest {
    pub prompt_id: String,
    pub action: i32,
    pub duration: i32,
    /// What to make a rule of, if anything.
    pub persist_scope: Option<RuleScope>,
}

#[derive(Debug)]
pub struct VerdictResponse {
    pub accepted: bool,
    pub error: String,
}

#[derive(Debug, Clone, Copy, PartialEq, Eq, Structural)]
pub struct SetPausedRequest {
    pub paused: bool,
    pub duration_secs: u32,
}

#[derive(Debug, Clone, Copy, PartialEq, Eq, Structural)]
pub struct SetPausedResponse {
    pub paused: bool,
    pub resume_at_unix_ms: i64,
}

/// What the daemon is doing.
#[derive(Debug)]
pub struct StatusResponse {
    pub version: String,
    pub uptime_seconds: u64,
    pub rules_count: u64,
    pub prompts_pending: u64,
    pub connections_seen: u64,
    pub connections_allowed: u64,
    pub connections_denied: u64,
    pub paused: bool,
    pub resume_at_unix_ms: i64,
    pub timeout_action: i32,
    pub no_ui_action: i32,
    pub prompt_timeout_secs: u32,
    pub skipped_rules: u64,
    pub enforcing: bool,
}

/// One page of the event log.
#[derive(Debug)]
pub struct ListEventsResponse {
    pub events: Vec<Event>,
    pub total_returned: u64,
}

} // verus!
