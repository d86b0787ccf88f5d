//! The vocabulary of the firewall: flows, processes, rules and verdicts, and
//! what it means for a rule to match.

use crate::text::{lowercase, lowercase_chars, chars_of, string_of, text};
use vstd::arithmetic::power2::{lemma2_to64, lemma_pow2_adds, pow2};
use vstd::bits::{lemma_u128_shr_is_div, lemma_u32_shr_is_div};
use vstd::prelude::*;

verus! {

/// What is done with a flow.
#[derive(Debug, Clone, Copy, PartialEq, Eq, Structural)]
pub enum Action {
    Allow,
    /// Dropped silently.
    Deny,
    /// Dropped, and the sender told so.
    Reject,
}

/// The transport of a flow.
#[derive(Debug, Clone, Copy, PartialEq, Eq, Structural)]
pub enum Protocol {
    Tcp,
    Udp,
    Icmp,
    /// Any other IP protocol, by its number.
    Other(u8),
}

/// Which way a flow is going.
#[derive(Debug, Clone, Copy, PartialEq, Eq, Structural)]
pub enum Direction {
    Outbound,
    Inbound,
}

/// How long a rule lasts.
#[derive(Debug, Clone, Copy, PartialEq, Eq, Structural)]
pub enum Duration {
    Once,
    UntilRestart,
    Always,
    Seconds(u64),
}

/// What is known of where an executable came from.
#[derive(Debug, Clone, Copy, PartialEq, Eq, Structural)]
pub enum Provenance {
    Unknown,
    Unpackaged,
    Verified,
    Modified,
}

/// An IP address, as the number it is.
#[derive(Debug, Clone, Copy, PartialEq, Eq, Structural)]
pub enum IpAddr {
    V4(u32),
    V6(u128),
}

/// The first 96 bits of an IPv4-mapped IPv6 address.
pub const V4_MAPPED: u128 = 0xffff_0000_0000;

/// One past the last IPv4-mapped IPv6 address.
pub const V4_MAPPED_END: u128 = 0x1_0000_0000_0000;

/// The address, with an IPv4-mapped IPv6 address taken for the IPv4 address it
/// carries.
pub open spec fn canonical_ip(ip: IpAddr) -> IpAddr {
    match ip {
        IpAddr::V6(a) => if V4_MAPPED <= a < V4_MAPPED_END {
            IpAddr::V4((a - V4_MAPPED) as u32)
        } else {
            ip
        },
        IpAddr::V4(_) => ip,
    }
}

impl IpAddr {
    /// The address, with an IPv4-mapped IPv6 address taken for the IPv4
    /// address it carries.
    pub fn to_canonical(self) -> (r: IpAddr)
        ensures
            r == canonical_ip(self),
    {
        match self {
            IpAddr::V6(a) => if V4_MAPPED <= a && a < V4_MAPPED_END {
                IpAddr::V4((a - V4_MAPPED) as u32)
            } else {
                self
            },
            IpAddr::V4(_) => self,
        }
    }
}

/// Whether a prefix length fits an address's family.
pub open spec fn prefix_fits(addr: IpAddr, prefix: u8) -> bool {
    match addr {
        IpAddr::V4(_) => prefix <= 32,
        IpAddr::V6(_) => prefix <= 128,
    }
}

/// Whether an address lies in the network of `net`'s first `prefix` bits.
pub open spec fn net_contains(net: (IpAddr, u8), ip: IpAddr) -> bool {
    match (net.0, ip) {
        (IpAddr::V4(n), IpAddr::V4(a)) => net.1 == 0 || (n >> ((32 - net.1) as u32)) == (a >> ((32
            - net.1) as u32)),
        (IpAddr::V6(n), IpAddr::V6(a)) => net.1 == 0 || (n >> ((128 - net.1) as u32)) == (a >> ((128
            - net.1) as u32)),
        _ => false,
    }
}

/// A network: an address in it and the number of leading bits that are fixed,
/// which fits the address's family.
#[derive(Debug, Clone, Copy, PartialEq, Eq, Structural)]
pub struct IpNet {
    addr: IpAddr,
    prefix: u8,
}

impl View for IpNet {
    type V = (IpAddr, u8);

    closed spec fn view(&self) -> (IpAddr, u8) {
        (self.addr, self.prefix)
    }
}

impl IpNet {
    #[verifier::type_invariant]
    closed spec fn fits(self) -> bool {
        prefix_fits(self.addr, self.prefix)
    }

    /// The network of `addr`'s first `prefix` bits, if it has so many.
    pub fn new(addr: IpAddr, prefix: u8) -> (r: Option<IpNet>)
        ensures
            r is Some <==> prefix_fits(addr, prefix),
            r matches Some(n) ==> n@ == (addr, prefix),
    {
        let fits = match addr {
            IpAddr::V4(_) => prefix <= 32,
            IpAddr::V6(_) => prefix <= 128,
        };
        if fits {
            Some(IpNet { addr, prefix })
        } else {
            None
        }
    }

    /// The address and the prefix length.
    pub fn parts(&self) -> (r: (IpAddr, u8))
        ensures
            r == self@,
            prefix_fits(r.0, r.1),
    {
        proof {
            use_type_invariant(self);
        }
        (self.addr, self.prefix)
    }

    /// Whether `ip` lies in this network.
    pub fn contains(&self, ip: IpAddr) -> (r: bool)
        ensures
            r == net_contains(self@, ip),
    {
        let (addr, prefix) = self.parts();
        match (addr, ip) {
            (IpAddr::V4(n), IpAddr::V4(a)) => {
                if prefix == 0 {
                    return true;
                }
                let shift: u32 = (32 - prefix) as u32;
                (n >> shift) == (a >> shift)
            },
            (IpAddr::V6(n), IpAddr::V6(a)) => {
                if prefix == 0 {
                    return true;
                }
                let shift: u32 = (128 - prefix) as u32;
                (n >> shift) == (a >> shift)
            },
            _ => false,
        }
    }
}

/// The address and prefix length of an optional network.
pub open spec fn net_of(n: Option<IpNet>) -> Option<(IpAddr, u8)> {
    match n {
        Some(n) => Some(n@),
        None => None,
    }
}

/// Who decided.
#[derive(Debug, Clone, Copy, PartialEq, Eq, Structural)]
pub enum VerdictSource {
    /// The rule with this id.
    Rule(u128),
    UserPrompt,
    DefaultPolicy,
    Timeout,
}

/// A decision, and who made it.
#[derive(Debug, Clone, Copy, PartialEq, Eq, Structural)]
pub struct Verdict {
    pub action: Action,
    pub source: VerdictSource,
}

impl Verdict {
    /// What the rule `id` says.
    pub fn from_rule(action: Action, id: u128) -> (r: Verdict)
        ensures
            r.action == action,
            r.source == VerdictSource::Rule(id),
    {
        Verdict { action, source: VerdictSource::Rule(id) }
    }

    /// What the default policy says.
    pub fn from_policy(action: Action) -> (r: Verdict)
        ensures
            r.action == action,
            r.source == VerdictSource::DefaultPolicy,
    {
        Verdict { action, source: VerdictSource::DefaultPolicy }
    }

    /// Let through because nothing decided otherwise.
    pub fn default_allow() -> (r: Verdict)
        ensures
            r.action == Action::Allow,
            r.source == VerdictSource::DefaultPolicy,
    {
        Verdict { action: Action::Allow, source: VerdictSource::DefaultPolicy }
    }
}

/// A copy of an optional text.
pub fn copy_text(s: &Option<String>) -> (r: Option<String>)
    ensures
        r == *s,
{
    match s {
        Some(t) => Some(t.clone()),
        None => None,
    }
}

/// A copy of a list of texts.
pub fn copy_texts(v: &Vec<String>) -> (r: Vec<String>)
    ensures
        r@ == v@,
{
    let mut out: Vec<String> = Vec::new();
    let mut i: usize = 0;
    while i < v.len()
        invariant
            i <= v@.len(),
            out@ == v@.take(i as int),
        decreases v@.len() - i,
    {
        proof {
            assert(v@.take(i + 1) =~= v@.take(i as int).push(v@[i as int]));
        }
        out.push(v[i].clone());
        i += 1;
    }
    proof {
        assert(v@.take(v@.len() as int) =~= v@);
    }
    out
}

/// The flow a packet belongs to.
#[derive(Debug)]
pub struct Connection {
    pub id: u128,
    pub timestamp_unix_ms: i64,
    pub protocol: Protocol,
    pub direction: Direction,
    pub src_ip: IpAddr,
    pub src_port: u16,
    pub dst_ip: IpAddr,
    pub dst_port: u16,
    pub dst_host: Option<String>,
    pub pid: Option<u32>,
    pub uid: Option<u32>,
}

impl Clone for Connection {
    fn clone(&self) -> (r: Self)
        ensures
            r == *self,
    {
        Connection {
            id: self.id,
            timestamp_unix_ms: self.timestamp_unix_ms,
            protocol: self.protocol,
            direction: self.direction,
            src_ip: self.src_ip,
            src_port: self.src_port,
            dst_ip: self.dst_ip,
            dst_port: self.dst_port,
            dst_host: copy_text(&self.dst_host),
            pid: self.pid,
            uid: self.uid,
        }
    }
}

impl Connection {
    /// A flow nothing is known of but its five-tuple.
    pub fn new(
        id: u128,
        timestamp_unix_ms: i64,
        protocol: Protocol,
        direction: Direction,
        src: (IpAddr, u16),
        dst: (IpAddr, u16),
    ) -> (r: Connection)
        ensures
            r.id == id,
            r.timestamp_unix_ms == timestamp_unix_ms,
            r.protocol == protocol,
            r.direction == direction,
            (r.src_ip, r.src_port) == src,
            (r.dst_ip, r.dst_port) == dst,
            r.dst_host is None,
            r.pid is None,
            r.uid is None,
    {
        Connection {
            id,
            timestamp_unix_ms,
            protocol,
            direction,
            src_ip: src.0,
            src_port: src.1,
            dst_ip: dst.0,
            dst_port: dst.1,
            dst_host: None,
            pid: None,
            uid: None,
        }
    }
}

/// A process, as far as it is known.
#[derive(Debug)]
pub struct Process {
    pub pid: u32,
    pub ppid: Option<u32>,
    pub uid: Option<u32>,
    pub gid: Option<u32>,
    /// The executable's path; empty when unknown.
    pub exe: String,
    pub cmdline: Vec<String>,
    pub cwd: Option<String>,
    pub sha256: Option<String>,
    pub parent_exe: Option<String>,
    pub package: Option<String>,
    pub provenance: Provenance,
}

impl Process {
    /// A process of which only the pid is known.
    pub fn unknown(pid: u32) -> (r: Process)
        ensures
            r.pid == pid,
            r.ppid is None,
            r.uid is None,
            r.gid is None,
            r.exe@ == Seq::<char>::empty(),
            r.cmdline@ == Seq::<String>::empty(),
            r.cwd is None,
            r.sha256 is None,
            r.parent_exe is None,
            r.package is None,
            r.provenance == Provenance::Unknown,
    {
        Process {
            pid,
            ppid: None,
            uid: None,
            gid: None,
            exe: String::new(),
            cmdline: Vec::new(),
            cwd: None,
            sha256: None,
            parent_exe: None,
            package: None,
            provenance: Provenance::Unknown,
        }
    }

    /// Whether the executable is known.
    pub fn exe_is_known(&self) -> (r: bool)
        ensures
            r == (self.exe@.len() > 0),
    {
        !self.exe.as_str().is_empty()
    }
}

impl Clone for Process {
    fn clone(&self) -> (r: Self)
        ensures
            r.pid == self.pid,
            r.ppid == self.ppid,
            r.uid == self.uid,
            r.gid == self.gid,
            r.exe == self.exe,
            r.cmdline@ == self.cmdline@,
            r.cwd == self.cwd,
            r.sha256 == self.sha256,
            r.parent_exe == self.parent_exe,
            r.package == self.package,
            r.provenance == self.provenance,
    {
        Process {
            pid: self.pid,
            ppid: self.ppid,
            uid: self.uid,
            gid: self.gid,
            exe: self.exe.clone(),
            cmdline: copy_texts(&self.cmdline),
            cwd: copy_text(&self.cwd),
            sha256: copy_text(&self.sha256),
            parent_exe: copy_text(&self.parent_exe),
            package: copy_text(&self.package),
            provenance: self.provenance,
        }
    }
}

/// What a rule is about. Each field that is set is a constraint; all of them
/// have to hold.
#[derive(Debug, PartialEq, Eq)]
pub struct RuleScope {
    /// Unset means outbound: a rule reaches inbound traffic only by saying so.
    pub direction: Option<Direction>,
    pub src_net: Option<IpNet>,
    pub src_port: Option<u16>,
    pub exe_path: Option<String>,
    pub exe_sha256: Option<String>,
    pub parent_exe: Option<String>,
    pub uid: Option<u32>,
    pub dst_host: Option<String>,
    pub dst_net: Option<IpNet>,
    pub dst_port: Option<u16>,
    pub protocol: Option<Protocol>,
}

impl Clone for RuleScope {
    fn clone(&self) -> (r: Self)
        ensures
            r == *self,
    {
        RuleScope {
            direction: self.direction,
            src_net: self.src_net,
            src_port: self.src_port,
            exe_path: copy_text(&self.exe_path),
            exe_sha256: copy_text(&self.exe_sha256),
            parent_exe: copy_text(&self.parent_exe),
            uid: self.uid,
            dst_host: copy_text(&self.dst_host),
            dst_net: self.dst_net,
            dst_port: self.dst_port,
            protocol: self.protocol,
        }
    }
}

/// The text of an optional string.
pub open spec fn text_of(s: Option<String>) -> Option<Seq<char>> {
    match s {
        Some(t) => Some(t@),
        None => None,
    }
}

/// What a scope says, with its texts as sequences.
pub ghost struct Scope {
    pub direction: Option<Direction>,
    pub src_net: Option<(IpAddr, u8)>,
    pub src_port: Option<u16>,
    pub exe_path: Option<Seq<char>>,
    pub exe_sha256: Option<Seq<char>>,
    pub parent_exe: Option<Seq<char>>,
    pub uid: Option<u32>,
    pub dst_host: Option<Seq<char>>,
    pub dst_net: Option<(IpAddr, u8)>,
    pub dst_port: Option<u16>,
    pub protocol: Option<Protocol>,
}

impl View for RuleScope {
    type V = Scope;

    open spec fn view(&self) -> Scope {
        Scope {
            direction: self.direction,
            src_net: net_of(self.src_net),
            src_port: self.src_port,
            exe_path: text_of(self.exe_path),
            exe_sha256: text_of(self.exe_sha256),
            parent_exe: text_of(self.parent_exe),
            uid: self.uid,
            dst_host: text_of(self.dst_host),
            dst_net: net_of(self.dst_net),
            dst_port: self.dst_port,
            protocol: self.protocol,
        }
    }
}

/// One for a constraint that is set, else zero.
#[verifier::opaque]
pub open spec fn one_if(b: bool) -> nat {
    if b {
        1
    } else {
        0
    }
}

/// Whether a text constraint holds of a text.
pub open spec fn text_ok(want: Option<String>, have: Seq<char>) -> bool {
    want matches Some(w) ==> w@ == have
}

/// Whether a text constraint holds of a text that may be missing.
pub open spec fn maybe_text_ok(want: Option<String>, have: Option<String>) -> bool {
    want matches Some(w) ==> (have matches Some(h) && w@ == h@)
}

impl RuleScope {
    /// How many constraints on the process the scope sets.
    pub open spec fn process_constraints(&self) -> nat {
        one_if(self.exe_path is Some) + one_if(self.exe_sha256 is Some) + one_if(
            self.parent_exe is Some,
        ) + one_if(self.uid is Some)
    }

    /// How many constraints on the flow the scope sets.
    pub open spec fn flow_constraints(&self) -> nat {
        one_if(self.direction is Some) + one_if(self.src_net is Some) + one_if(
            self.src_port is Some,
        ) + one_if(self.dst_host is Some) + one_if(self.dst_net is Some) + one_if(
            self.dst_port is Some,
        ) + one_if(self.protocol is Some)
    }

    /// How many constraints the scope sets.
    #[verifier::opaque]
    pub open spec fn spec_specificity(&self) -> nat {
        self.process_constraints() + self.flow_constraints()
    }

    /// Whether every constraint on the process holds of `p`.
    pub open spec fn fits_process(&self, p: &Process) -> bool {
        &&& text_ok(self.exe_path, p.exe@)
        &&& maybe_text_ok(self.exe_sha256, p.sha256)
        &&& maybe_text_ok(self.parent_exe, p.parent_exe)
        &&& (self.uid is Some ==> self.uid == p.uid)
    }

    /// Whether the scope constrains something that is not known of `p`, while
    /// everything that is known fits.
    pub open spec fn open_for(&self, p: &Process) -> bool {
        &&& text_ok(self.exe_path, p.exe@)
        &&& (self.uid is Some ==> self.uid == p.uid)
        &&& (p.sha256 is Some ==> maybe_text_ok(self.exe_sha256, p.sha256))
        &&& (p.parent_exe is Some ==> maybe_text_ok(self.parent_exe, p.parent_exe))
        &&& ((self.exe_sha256 is Some && p.sha256 is None) || (self.parent_exe is Some
            && p.parent_exe is None))
    }

    /// Whether the scope names anything a destination decides.
    pub open spec fn names_destination(&self) -> bool {
        ||| self.src_net is Some
        ||| self.src_port is Some
        ||| self.dst_host is Some
        ||| self.dst_net is Some
        ||| self.dst_port is Some
        ||| self.protocol is Some
    }

    /// Whether every constraint on the flow holds of `c`.
    pub open spec fn fits_connection(&self, c: &Connection) -> bool {
        &&& (match self.direction {
            Some(d) => d == c.direction,
            None => c.direction == Direction::Outbound,
        })
        &&& (self.src_net matches Some(n) ==> net_contains(n@, c.src_ip))
        &&& (self.src_port matches Some(p) ==> p == c.src_port)
        &&& maybe_text_ok(self.dst_host, c.dst_host)
        &&& (self.dst_net matches Some(n) ==> net_contains(n@, c.dst_ip))
        &&& (self.dst_port matches Some(p) ==> p == c.dst_port)
        &&& (self.protocol matches Some(p) ==> p == c.protocol)
    }

    /// A scope that constrains nothing.
    pub fn any() -> (r: RuleScope)
        ensures
            r.direction is None,
            r.src_net is None,
            r.src_port is None,
            r.exe_path is None,
            r.exe_sha256 is None,
            r.parent_exe is None,
            r.uid is None,
            r.dst_host is None,
            r.dst_net is None,
            r.dst_port is None,
            r.protocol is None,
            r.spec_specificity() == 0,
    {
        proof {
            reveal(one_if);
            reveal(RuleScope::spec_specificity);
        }
        RuleScope {
            direction: None,
            src_net: None,
            src_port: None,
            exe_path: None,
            exe_sha256: None,
            parent_exe: None,
            uid: None,
            dst_host: None,
            dst_net: None,
            dst_port: None,
            protocol: None,
        }
    }

    /// How many constraints the scope sets.
    pub fn specificity(&self) -> (r: u32)
        ensures
            r == self.spec_specificity(),
    {
        proof {
            reveal(RuleScope::spec_specificity);
        }
        count_process(self) + count_flow(self)
    }

    /// Whether every constraint on the process holds.
    pub fn matches_process(&self, p: &Process) -> (r: bool)
        ensures
            r == self.fits_process(p),
    {
        holds_text(&self.exe_path, &p.exe) && holds_maybe(&self.exe_sha256, &p.sha256)
            && holds_maybe(&self.parent_exe, &p.parent_exe) && holds_uid(self.uid, p.uid)
    }

    /// Whether the scope cannot be decided for this process: it constrains
    /// something that was not looked up, and everything else fits.
    pub fn undecidable_for(&self, p: &Process) -> (r: bool)
        ensures
            r == self.open_for(p),
    {
        holds_text(&self.exe_path, &p.exe) && holds_uid(self.uid, p.uid) && (p.sha256.is_none()
            || holds_maybe(&self.exe_sha256, &p.sha256)) && (p.parent_exe.is_none() || holds_maybe(
            &self.parent_exe,
            &p.parent_exe,
        )) && ((self.exe_sha256.is_some() && p.sha256.is_none()) || (self.parent_exe.is_some()
            && p.parent_exe.is_none()))
    }

    /// Whether the scope names anything a destination decides.
    pub fn constrains_destination(&self) -> (r: bool)
        ensures
            r == self.names_destination(),
    {
        self.src_net.is_some() || self.src_port.is_some() || self.dst_host.is_some()
            || self.dst_net.is_some() || self.dst_port.is_some() || self.protocol.is_some()
    }

    /// Whether the flow and the process both fit.
    pub fn matches(&self, c: &Connection, p: &Process) -> (r: bool)
        ensures
            r == (self.fits_connection(c) && self.fits_process(p)),
    {
        let way: bool = match self.direction {
            Some(d) => d == c.direction,
            None => c.direction == Direction::Outbound,
        };
        let src: bool = match &self.src_net {
            Some(n) => n.contains(c.src_ip),
            None => true,
        };
        let sport: bool = match self.src_port {
            Some(port) => port == c.src_port,
            None => true,
        };
        let dst: bool = match &self.dst_net {
            Some(n) => n.contains(c.dst_ip),
            None => true,
        };
        let dport: bool = match self.dst_port {
            Some(port) => port == c.dst_port,
            None => true,
        };
        let proto: bool = match self.protocol {
            Some(q) => q == c.protocol,
            None => true,
        };
        way && src && sport && dst && dport && proto && holds_maybe(&self.dst_host, &c.dst_host)
            && self.matches_process(p)
    }
}

fn count_process(s: &RuleScope) -> (r: u32)
    ensures
        r == s.process_constraints(),
        r <= 4,
{
    count_set(s.exe_path.is_some(), s.exe_sha256.is_some(), s.parent_exe.is_some(), s.uid.is_some())
}

fn count_flow(s: &RuleScope) -> (r: u32)
    ensures
        r == s.flow_constraints(),
        r <= 7,
{
    let near: u32 = count_set(
        s.direction.is_some(),
        s.src_net.is_some(),
        s.src_port.is_some(),
        s.dst_host.is_some(),
    );
    let far: u32 = count_set(s.dst_net.is_some(), s.dst_port.is_some(), s.protocol.is_some(), false);
    proof {
        assert(one_if(false) == 0) by {
            reveal(one_if);
        }
    }
    near + far
}

fn count_set(a: bool, b: bool, c: bool, d: bool) -> (r: u32)
    ensures
        r == one_if(a) + one_if(b) + one_if(c) + one_if(d),
        r <= 4,
        !d ==> r <= 3,
{
    flag(a) + flag(b) + flag(c) + flag(d)
}

fn flag(b: bool) -> (r: u32)
    ensures
        r == one_if(b),
        r <= 1,
        !b ==> r == 0,
{
    proof {
        reveal(one_if);
    }
    if b {
        1
    } else {
        0
    }
}

fn holds_text(want: &Option<String>, have: &String) -> (r: bool)
    ensures
        r == text_ok(*want, have@),
{
    match want {
        Some(w) => *w == *have,
        None => true,
    }
}

fn holds_maybe(want: &Option<String>, have: &Option<String>) -> (r: bool)
    ensures
        r == maybe_text_ok(*want, *have),
{
    match (want, have) {
        (Some(w), Some(h)) => *w == *h,
        (Some(_), None) => false,
        (None, _) => true,
    }
}

fn holds_uid(want: Option<u32>, have: Option<u32>) -> (r: bool)
    ensures
        r == (want is Some ==> want == have),
{
    match (want, have) {
        (Some(w), Some(h)) => w == h,
        (Some(_), None) => false,
        (None, _) => true,
    }
}

/// Whether `c` is a hexadecimal digit.
pub open spec fn is_hex(c: char) -> bool {
    '0' <= c <= '9' || 'a' <= c <= 'f' || 'A' <= c <= 'F'
}

/// The digest `s` writes: 64 hexadecimal digits, in lower case.
pub open spec fn digest_of(s: Seq<char>) -> Option<Seq<char>> {
    if s.len() == 64 && (forall|i: int| 0 <= i < s.len() ==> is_hex(#[trigger] s[i])) {
        Some(lowercase(s))
    } else {
        None
    }
}

/// What is said of a digest that is not one.
pub const BAD_DIGEST: &'static str = "exe_sha256 must be 64 hexadecimal digits";

/// A digest in the form it is compared in. Digests are matched by exact text
/// against lower-case hexadecimal, so anything else would make a rule that
/// never fires.
pub fn canonical_exe_sha256(s: &str) -> (r: Result<String, String>)
    ensures
        r matches Ok(d) ==> digest_of(s@) == Some(d@),
        r matches Err(e) ==> digest_of(s@) is None && e@ == BAD_DIGEST@,
{
    let v = chars_of(s);
    if v.len() != 64 {
        return Err(text(BAD_DIGEST));
    }
    let mut i: usize = 0;
    while i < v.len()
        invariant
            i <= v@.len(),
            v@ == s@,
            forall|k: int| 0 <= k < i ==> is_hex(#[trigger] v@[k]),
        decreases v@.len() - i,
    {
        let c: char = v[i];
        if !(('0' <= c && c <= '9') || ('a' <= c && c <= 'f') || ('A' <= c && c <= 'F')) {
            assert(!is_hex(v@[i as int]));
            return Err(text(BAD_DIGEST));
        }
        i += 1;
    }
    Ok(string_of(lowercase_chars(v.as_slice()).as_slice()))
}

/// Whether a path is absolute.
pub open spec fn absolute(s: Seq<char>) -> bool {
    s.len() > 0 && s[0] == '/'
}

/// Whether a path is absolute.
pub fn is_absolute(s: &str) -> (r: bool)
    ensures
        r == absolute(s@),
{
    let v = chars_of(s);
    v.len() > 0 && v[0] == '/'
}

pub const BAD_EXE: &'static str = "exe_path must be an absolute path; nothing else can match";

pub const BAD_PARENT: &'static str = "parent_exe must be an absolute path; nothing else can match";

pub const INBOUND_DESTINATION: &'static str =
    "an inbound rule cannot name dst_host or dst_net: the destination is this machine";

pub const INBOUND_PROCESS: &'static str =
    "an inbound rule cannot name a process: inbound flows are not attributed to one";

impl RuleScope {
    /// The first reason this scope can never match, if there is one.
    pub open spec fn unmatchable(&self) -> Option<Seq<char>> {
        if self.exe_path matches Some(p) && !absolute(p@) {
            Some(BAD_EXE@)
        } else if self.parent_exe matches Some(p) && !absolute(p@) {
            Some(BAD_PARENT@)
        } else if self.direction == Some(Direction::Inbound) && (self.dst_host is Some
            || self.dst_net is Some) {
            Some(INBOUND_DESTINATION@)
        } else if self.direction == Some(Direction::Inbound) && (self.exe_path is Some
            || self.exe_sha256 is Some || self.parent_exe is Some || self.uid is Some) {
            Some(INBOUND_PROCESS@)
        } else {
            None
        }
    }

    /// Refuses a scope that can never match.
    pub fn reject_unmatchable(&self) -> (r: Result<(), String>)
        ensures
            r is Ok ==> self.unmatchable() is None,
            r matches Err(e) ==> self.unmatchable() == Some(e@),
    {
        if let Some(p) = &self.exe_path {
            if !is_absolute(p.as_str()) {
                return Err(text(BAD_EXE));
            }
        }
        if let Some(p) = &self.parent_exe {
            if !is_absolute(p.as_str()) {
                return Err(text(BAD_PARENT));
            }
        }
        let inbound: bool = match self.direction {
            Some(Direction::Inbound) => true,
            _ => false,
        };
        if inbound && (self.dst_host.is_some() || self.dst_net.is_some()) {
            return Err(text(INBOUND_DESTINATION));
        }
        if inbound && (self.exe_path.is_some() || self.exe_sha256.is_some()
            || self.parent_exe.is_some() || self.uid.is_some()) {
            return Err(text(INBOUND_PROCESS));
        }
        Ok(())
    }
}

/// A stored decision and what it is about.
#[derive(Debug)]
pub struct Rule {
    pub id: u128,
    pub name: String,
    pub enabled: bool,
    pub action: Action,
    pub duration: Duration,
    pub scope: RuleScope,
    pub created_at_unix_ms: i64,
    pub hit_count: u64,
}

impl Clone for Rule {
    fn clone(&self) -> (r: Self)
        ensures
            r == *self,
    {
        Rule {
            id: self.id,
            name: self.name.clone(),
            enabled: self.enabled,
            action: self.action,
            duration: self.duration,
            scope: self.scope.clone(),
            created_at_unix_ms: self.created_at_unix_ms,
            hit_count: self.hit_count,
        }
    }
}

impl Rule {
    /// An enabled rule that lasts and has never been hit.
    pub fn new(
        id: u128,
        created_at_unix_ms: i64,
        name: String,
        action: Action,
        scope: RuleScope,
    ) -> (r: Rule)
        ensures
            r == (Rule {
                id,
                name,
                enabled: true,
                action,
                duration: Duration::Always,
                scope,
                created_at_unix_ms,
                hit_count: 0,
            }),
    {
        Rule {
            id,
            name,
            enabled: true,
            action,
            duration: Duration::Always,
            scope,
            created_at_unix_ms,
            hit_count: 0,
        }
    }

    /// Whether the rule's time has run out.
    pub open spec fn over(&self, now_unix_ms: i64) -> bool {
        self.duration matches Duration::Seconds(s) && now_unix_ms - self.created_at_unix_ms >= s
            * 1000
    }

    /// Whether the rule is in force.
    pub open spec fn live(&self, now_unix_ms: i64) -> bool {
        self.enabled && !self.over(now_unix_ms)
    }

    /// Whether the rule's time has run out.
    pub fn is_expired(&self, now_unix_ms: i64) -> (r: bool)
        ensures
            r == self.over(now_unix_ms),
    {
        match self.duration {
            Duration::Seconds(s) => {
                let age: i128 = now_unix_ms as i128 - self.created_at_unix_ms as i128;
                age >= s as i128 * 1000
            },
            _ => false,
        }
    }
}

/// A scope matches a flow and a process if and only if each constraint it sets
/// holds, one by one: a constraint that does not hold, or that is about
/// something unknown, is enough for it not to match, and one that is not set
/// asks for nothing - but for the direction, which is outbound unless it is set.
pub proof fn every_constraint_has_a_say(s: &RuleScope, c: &Connection, p: &Process)
    ensures
        (s.fits_connection(c) && s.fits_process(p)) <==> {
            &&& s.direction is None ==> c.direction == Direction::Outbound
            &&& s.direction is Some ==> s.direction->Some_0 == c.direction
            &&& s.src_net is Some ==> net_contains(s.src_net->Some_0@, c.src_ip)
            &&& s.src_port is Some ==> s.src_port->Some_0 == c.src_port
            &&& s.dst_host is Some ==> c.dst_host is Some && s.dst_host->Some_0@
                == c.dst_host->Some_0@
            &&& s.dst_net is Some ==> net_contains(s.dst_net->Some_0@, c.dst_ip)
            &&& s.dst_port is Some ==> s.dst_port->Some_0 == c.dst_port
            &&& s.protocol is Some ==> s.protocol->Some_0 == c.protocol
            &&& s.exe_path is Some ==> s.exe_path->Some_0@ == p.exe@
            &&& s.exe_sha256 is Some ==> p.sha256 is Some && s.exe_sha256->Some_0@
                == p.sha256->Some_0@
            &&& s.parent_exe is Some ==> p.parent_exe is Some && s.parent_exe->Some_0@
                == p.parent_exe->Some_0@
            &&& s.uid is Some ==> p.uid is Some && s.uid->Some_0 == p.uid->Some_0
        },
        s.fits_process(p) <==> {
            &&& s.exe_path is Some ==> s.exe_path->Some_0@ == p.exe@
            &&& s.exe_sha256 is Some ==> p.sha256 is Some && s.exe_sha256->Some_0@
                == p.sha256->Some_0@
            &&& s.parent_exe is Some ==> p.parent_exe is Some && s.parent_exe->Some_0@
                == p.parent_exe->Some_0@
            &&& s.uid is Some ==> p.uid is Some && s.uid->Some_0 == p.uid->Some_0
        },
{
}

/// An IPv4 network holds the IPv4 addresses that agree with it in its leading
/// bits, and no others; of IPv6 likewise. No network holds an address of the
/// other family.
pub proof fn a_network_is_its_leading_bits(n: u32, a: u32, m: u128, b: u128, prefix: u8)
    ensures
        prefix <= 32 ==> (net_contains((IpAddr::V4(n), prefix), IpAddr::V4(a)) <==> n as nat / pow2(
            (32 - prefix) as nat,
        ) == a as nat / pow2((32 - prefix) as nat)),
        prefix <= 128 ==> (net_contains((IpAddr::V6(m), prefix), IpAddr::V6(b)) <==> m as nat
            / pow2((128 - prefix) as nat) == b as nat / pow2((128 - prefix) as nat)),
        !net_contains((IpAddr::V4(n), prefix), IpAddr::V6(b)),
        !net_contains((IpAddr::V6(m), prefix), IpAddr::V4(a)),
{
    if 0 < prefix <= 32 {
        lemma_u32_shr_is_div(n, (32 - prefix) as u32);
        lemma_u32_shr_is_div(a, (32 - prefix) as u32);
    }
    if 0 < prefix <= 128 {
        lemma_u128_shr_is_div(m, (128 - prefix) as u128);
        lemma_u128_shr_is_div(b, (128 - prefix) as u128);
        lemma_shifts_agree(m, (128 - prefix) as u32);
        lemma_shifts_agree(b, (128 - prefix) as u32);
    }
    if prefix == 0 {
        lemma2_to64();
        lemma_pow2_adds(64, 64);
        assert(n as nat / pow2(32) == 0) by (nonlinear_arith)
            requires
                pow2(32) == 0x1_0000_0000,
                n <= u32::MAX,
        ;
        assert(a as nat / pow2(32) == 0) by (nonlinear_arith)
            requires
                pow2(32) == 0x1_0000_0000,
                a <= u32::MAX,
        ;
        assert(pow2(128) == 0x1_0000_0000_0000_0000 * 0x1_0000_0000_0000_0000);
        assert(m as nat / pow2(128) == 0) by (nonlinear_arith)
            requires
                pow2(128) == 0x1_0000_0000_0000_0000 * 0x1_0000_0000_0000_0000,
                m <= u128::MAX,
        ;
        assert(b as nat / pow2(128) == 0) by (nonlinear_arith)
            requires
                pow2(128) == 0x1_0000_0000_0000_0000 * 0x1_0000_0000_0000_0000,
                b <= u128::MAX,
        ;
    }
}

proof fn lemma_shifts_agree(x: u128, k: u32)
    requires
        k < 128,
    ensures
        x >> k == x >> (k as u128),
{
    assert(x >> k == x >> (k as u128)) by (bit_vector)
        requires
            k < 128,
    ;
}

/// An IPv4-mapped IPv6 address is the IPv4 address it carries; every other
/// address is itself.
pub proof fn a_mapped_address_is_the_one_it_carries(a: u32, b: u128)
    ensures
        canonical_ip(IpAddr::V6((0xffff_0000_0000 + a) as u128)) == IpAddr::V4(a),
        b < 0xffff_0000_0000 || b > 0xffff_ffff_ffff ==> canonical_ip(IpAddr::V6(b)) == IpAddr::V6(
            b,
        ),
        canonical_ip(IpAddr::V4(a)) == IpAddr::V4(a),
{
}

/// Each constraint makes a scope more specific by one, whichever it is.
pub proof fn each_constraint_counts_once(s: RuleScope, t: RuleScope)
    ensures
        s.spec_specificity() == (if s.direction is Some {
            1int
        } else {
            0
        }) + (if s.src_net is Some {
            1int
        } else {
            0
        }) + (if s.src_port is Some {
            1int
        } else {
            0
        }) + (if s.exe_path is Some {
            1int
        } else {
            0
        }) + (if s.exe_sha256 is Some {
            1int
        } else {
            0
        }) + (if s.parent_exe is Some {
            1int
        } else {
            0
        }) + (if s.uid is Some {
            1int
        } else {
            0
        }) + (if s.dst_host is Some {
            1int
        } else {
            0
        }) + (if s.dst_net is Some {
            1int
        } else {
            0
        }) + (if s.dst_port is Some {
            1int
        } else {
            0
        }) + (if s.protocol is Some {
            1int
        } else {
            0
        }),
        s.dst_host is None && t == (RuleScope { dst_host: t.dst_host, ..s }) && t.dst_host is Some
            ==> t.spec_specificity() == s.spec_specificity() + 1,
{
    reveal(one_if);
    reveal(RuleScope::spec_specificity);
}

/// What is not known of `p` may become known: `full` is `p` with nothing that
/// was known taken back.
pub open spec fn learned(p: Process, full: Process) -> bool {
    &&& full.exe@ == p.exe@
    &&& full.uid == p.uid
    &&& p.sha256 is Some ==> full.sha256 == p.sha256
    &&& p.parent_exe is Some ==> full.parent_exe == p.parent_exe
}

/// A scope is undecidable for a process exactly when it does not fit as far as
/// is known, but would if something more became known. Where it is decidable,
/// nothing that becomes known changes the answer.
pub proof fn undecidable_means_that_knowing_more_could_tell(s: &RuleScope, p: Process, full: Process)
    ensures
        s.open_for(&p) <==> {
            &&& !s.fits_process(&p)
            &&& exists|q: Process| #[trigger] learned(p, q) && s.fits_process(&q)
        },
        !s.open_for(&p) && learned(p, full) ==> s.fits_process(&full) == s.fits_process(&p),
{
    let q = Process {
        sha256: if p.sha256 is Some {
            p.sha256
        } else {
            s.exe_sha256
        },
        parent_exe: if p.parent_exe is Some {
            p.parent_exe
        } else {
            s.parent_exe
        },
        ..p
    };
    assert(learned(p, q));
    if s.open_for(&p) {
        assert(s.fits_process(&q));
    } else if !s.fits_process(&p) {
        assert forall|x: Process| #[trigger] learned(p, x) implies !s.fits_process(&x) by {}
    }
}

/// A scope that depends on no destination fits every flow that goes its way;
/// one that does depend on it sets a constraint on an end of the flow or on
/// its transport.
pub proof fn only_ends_and_transport_make_a_destination(s: &RuleScope, c: &Connection)
    ensures
        s.names_destination() <==> !(s.src_net is None && s.src_port is None && s.dst_host is None
            && s.dst_net is None && s.dst_port is None && s.protocol is None),
        !s.names_destination() && c.direction == (if s.direction is Some {
            s.direction->Some_0
        } else {
            Direction::Outbound
        }) ==> s.fits_connection(c),
{
}

/// A digest is 64 hexadecimal digits, kept in lower case: digits stay, capital
/// letters become the small ones, and nothing else is a digest.
pub proof fn a_digest_is_kept_in_lower_case(s: Seq<char>, i: int)
    ensures
        digest_of(s) is Some <==> s.len() == 64 && forall|k: int|
            0 <= k < 64 ==> ('0' <= #[trigger] s[k] <= '9' || 'A' <= s[k] <= 'F' || 'a' <= s[k]
                <= 'f'),
        digest_of(s) is Some ==> digest_of(s)->Some_0.len() == 64,
        digest_of(s) is Some && 0 <= i < 64 ==> digest_of(s)->Some_0[i] as int == (if 'A' <= s[i]
            <= 'F' {
            s[i] as int + ('a' as int - 'A' as int)
        } else {
            s[i] as int
        }),
{
    if s.len() == 64 && (forall|k: int|
        0 <= k < 64 ==> ('0' <= #[trigger] s[k] <= '9' || 'A' <= s[k] <= 'F' || 'a' <= s[k]
            <= 'f')) {
        assert forall|k: int| 0 <= k < s.len() implies is_hex(#[trigger] s[k]) by {}
    }
    if digest_of(s) is Some && 0 <= i < 64 {
        assert(is_hex(s[i]));
    }
}

/// A scope is refused exactly when it names an executable by a path that is
/// not absolute, or is inbound and names a destination address or a process;
/// and the reason given is the first of these that holds.
pub proof fn what_can_never_match_is_refused(s: &RuleScope)
    ensures
        ({
            let exe = s.exe_path is Some && !(s.exe_path->Some_0@.len() > 0
                && s.exe_path->Some_0@[0] == '/');
            let parent = s.parent_exe is Some && !(s.parent_exe->Some_0@.len() > 0
                && s.parent_exe->Some_0@[0] == '/');
            let inbound = s.direction is Some && s.direction->Some_0 == Direction::Inbound;
            let place = inbound && !(s.dst_host is None && s.dst_net is None);
            let who = inbound && !(s.exe_path is None && s.exe_sha256 is None && s.parent_exe is None
                && s.uid is None);
            &&& s.unmatchable() is None <==> !exe && !parent && !place && !who
            &&& exe ==> s.unmatchable() == Some(BAD_EXE@)
            &&& !exe && parent ==> s.unmatchable() == Some(BAD_PARENT@)
            &&& !exe && !parent && place ==> s.unmatchable() == Some(INBOUND_DESTINATION@)
            &&& !exe && !parent && !place && who ==> s.unmatchable() == Some(INBOUND_PROCESS@)
        }),
{
}

/// A rule with a time of so many seconds is in force until they have passed
/// since it was made, to the millisecond, and not from then on; every other
/// rule stays in force. One that is not enabled never is.
pub proof fn a_rule_lasts_its_time(r: Rule, now: i64, later: i64)
    ensures
        r.duration == Duration::Once || r.duration == Duration::UntilRestart || r.duration
            == Duration::Always ==> !r.over(now),
        r.duration is Seconds ==> (r.over(now) <==> r.created_at_unix_ms + 1000
            * r.duration->Seconds_0 <= now),
        r.over(now) && now <= later ==> r.over(later),
        r.live(now) <==> r.enabled && !r.over(now),
{
}

/// A prefix has at most as many bits as an address of its family.
pub proof fn a_prefix_is_no_longer_than_its_address(a: u32, b: u128, prefix: u8)
    ensures
        prefix_fits(IpAddr::V4(a), prefix) <==> prefix <= 32,
        prefix_fits(IpAddr::V6(b), prefix) <==> prefix <= 128,
{
}

/// What a scope says is what its fields say.
pub proof fn a_scope_says_what_its_fields_say(s: RuleScope)
    ensures
        s@.direction == s.direction && s@.src_port == s.src_port && s@.uid == s.uid,
        s@.dst_port == s.dst_port && s@.protocol == s.protocol,
        s@.src_net is Some <==> s.src_net is Some,
        s.src_net is Some ==> s@.src_net->Some_0 == s.src_net->Some_0@,
        s@.dst_net is Some <==> s.dst_net is Some,
        s.dst_net is Some ==> s@.dst_net->Some_0 == s.dst_net->Some_0@,
        s@.exe_path is Some <==> s.exe_path is Some,
        s.exe_path is Some ==> s@.exe_path->Some_0 == s.exe_path->Some_0@,
        s@.exe_sha256 is Some <==> s.exe_sha256 is Some,
        s.exe_sha256 is Some ==> s@.exe_sha256->Some_0 == s.exe_sha256->Some_0@,
        s@.parent_exe is Some <==> s.parent_exe is Some,
        s.parent_exe is Some ==> s@.parent_exe->Some_0 == s.parent_exe->Some_0@,
        s@.dst_host is Some <==> s.dst_host is Some,
        s.dst_host is Some ==> s@.dst_host->Some_0 == s.dst_host->Some_0@,
{
}

/// A path is absolute if it begins with a slash.
pub proof fn an_absolute_path_begins_with_a_slash(s: Seq<char>)
    ensures
        absolute(seq!['/'] + s),
        s.len() == 0 || s[0] != '/' ==> !absolute(s),
{
}

} // verus!
