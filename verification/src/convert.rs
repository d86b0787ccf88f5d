//! Conversions between the firewall's own types and the control protocol.
//!
//! Inbound conversions fail closed. A field the daemon does not recognise - an
//! unset enumeration, or a number from another version of the protocol - is an
//! error, never a silently manufactured `Allow`.

use crate::model::{
    absolute, canonical_exe_sha256, copy_text, copy_texts, digest_of, net_of, text_of, Action, Connection,
    Direction, Duration, IpAddr, IpNet, Process, Protocol, Provenance, Rule, RuleScope, Scope,
    Verdict, VerdictSource, BAD_DIGEST,
};
use crate::outside::{
    calendar_time, fresh_uuid, in_calendar, ip6_string, is_random_id, ip_text, net_string, net_text, parse_net,
    parse_uuid, parsed_net, parsed_uuid, uuid_string, uuid_text, BAD_NET,
};
use crate::proto as pb;
use crate::storage::EventRow;
use crate::text::{decimal, push_decimal, push_signed, same_text, signed, text};
use vstd::prelude::*;
use vstd::string::StringExecFns;

verus! {

/// An action on the wire.
pub open spec fn wire_action(a: Action) -> pb::Action {
    match a {
        Action::Allow => pb::Action::Allow,
        Action::Deny => pb::Action::Deny,
        Action::Reject => pb::Action::Reject,
    }
}

pub fn action_to_pb(a: Action) -> (r: pb::Action)
    ensures
        r == wire_action(a),
{
    match a {
        Action::Allow => pb::Action::Allow,
        Action::Deny => pb::Action::Deny,
        Action::Reject => pb::Action::Reject,
    }
}

/// The action a number stands for; no number stands for one by default.
pub open spec fn read_action(n: i32) -> Result<Action, Seq<char>> {
    if n == 1 {
        Ok(Action::Allow)
    } else if n == 2 {
        Ok(Action::Deny)
    } else if n == 3 {
        Ok(Action::Reject)
    } else {
        Err(numbered("action unspecified/unknown: "@, n))
    }
}

/// Whether an executable result is the one a specification gives, its error
/// compared as text.
pub open spec fn agrees<T>(r: Result<T, String>, s: Result<T, Seq<char>>) -> bool {
    match (r, s) {
        (Ok(a), Ok(b)) => a == b,
        (Err(e), Err(f)) => e@ == f,
        _ => false,
    }
}

/// A message that ends in the number it complains of.
pub open spec fn numbered(what: Seq<char>, n: i32) -> Seq<char> {
    what + signed(n as int)
}

fn unknown_number(what: &str, n: i32) -> (r: String)
    ensures
        r@ == numbered(what@, n),
{
    let mut s = text(what);
    push_signed(&mut s, n);
    s
}

/// Fail-closed: an unspecified action and any number out of range are rejected
/// rather than defaulted to `Allow`.
pub fn action_from_pb(a: i32) -> (r: Result<Action, String>)
    ensures
        agrees(r, read_action(a)),
{
    match pb::Action::from_number(a) {
        Some(pb::Action::Allow) => Ok(Action::Allow),
        Some(pb::Action::Deny) => Ok(Action::Deny),
        Some(pb::Action::Reject) => Ok(Action::Reject),
        _ => Err(unknown_number("action unspecified/unknown: ", a)),
    }
}

/// An action as the event log stores it.
pub open spec fn action_word(a: Action) -> Seq<char> {
    match a {
        Action::Allow => "Allow"@,
        Action::Deny => "Deny"@,
        Action::Reject => "Reject"@,
    }
}

/// String form of an action as persisted in the event log and matched by its
/// filter.
pub fn action_db_str(a: Action) -> (r: &'static str)
    ensures
        r@ == action_word(a),
{
    match a {
        Action::Allow => "Allow",
        Action::Deny => "Deny",
        Action::Reject => "Reject",
    }
}

/// The action a stored word stands for.
pub open spec fn word_action(s: Seq<char>) -> Option<Action> {
    if s == "Allow"@ {
        Some(Action::Allow)
    } else if s == "Deny"@ {
        Some(Action::Deny)
    } else if s == "Reject"@ {
        Some(Action::Reject)
    } else {
        None
    }
}

/// The action a stored word stands for; another version may have stored a word
/// that stands for none.
pub fn action_db_from_str(s: &str) -> (r: Option<Action>)
    ensures
        r == word_action(s@),
{
    if same_text(s, "Allow") {
        Some(Action::Allow)
    } else if same_text(s, "Deny") {
        Some(Action::Deny)
    } else if same_text(s, "Reject") {
        Some(Action::Reject)
    } else {
        None
    }
}

/// Who decided, as the event log stores it.
pub open spec fn source_word(s: VerdictSource) -> Seq<char> {
    match s {
        VerdictSource::Rule(_) => "rule"@,
        VerdictSource::UserPrompt => "user"@,
        VerdictSource::DefaultPolicy => "default"@,
        VerdictSource::Timeout => "timeout"@,
    }
}

/// Label persisted alongside each event for who decided.
pub fn verdict_source_db_str(s: &VerdictSource) -> (r: &'static str)
    ensures
        r@ == source_word(*s),
{
    match s {
        VerdictSource::Rule(_) => "rule",
        VerdictSource::UserPrompt => "user",
        VerdictSource::DefaultPolicy => "default",
        VerdictSource::Timeout => "timeout",
    }
}

/// A transport on the wire.
pub open spec fn wire_protocol(p: Protocol) -> pb::Protocol {
    match p {
        Protocol::Tcp => pb::Protocol::Tcp,
        Protocol::Udp => pb::Protocol::Udp,
        Protocol::Icmp => pb::Protocol::Icmp,
        Protocol::Other(_) => pb::Protocol::Other,
    }
}

pub fn protocol_to_pb(p: Protocol) -> (r: pb::Protocol)
    ensures
        r == wire_protocol(p),
{
    match p {
        Protocol::Tcp => pb::Protocol::Tcp,
        Protocol::Udp => pb::Protocol::Udp,
        Protocol::Icmp => pb::Protocol::Icmp,
        Protocol::Other(_) => pb::Protocol::Other,
    }
}

pub const PROTOCOL_OTHER: &'static str =
    "protocol `other` cannot be used in a rule scope: the wire format carries no protocol number for it";

/// The transport a number stands for. `other` carries no protocol number, so a
/// rule cannot be about it.
pub open spec fn read_protocol(n: i32) -> Result<Protocol, Seq<char>> {
    if n == 1 {
        Ok(Protocol::Tcp)
    } else if n == 2 {
        Ok(Protocol::Udp)
    } else if n == 3 {
        Ok(Protocol::Icmp)
    } else if n == 4 {
        Err(PROTOCOL_OTHER@)
    } else {
        Err(numbered("protocol unspecified/unknown: "@, n))
    }
}

/// Fails closed: a scope with an unrecognised transport would be one that can
/// never match, while still outranking the rules that would have.
pub fn protocol_from_pb(p: i32) -> (r: Result<Protocol, String>)
    ensures
        agrees(r, read_protocol(p)),
{
    match pb::Protocol::from_number(p) {
        Some(pb::Protocol::Tcp) => Ok(Protocol::Tcp),
        Some(pb::Protocol::Udp) => Ok(Protocol::Udp),
        Some(pb::Protocol::Icmp) => Ok(Protocol::Icmp),
        Some(pb::Protocol::Other) => Err(text(PROTOCOL_OTHER)),
        _ => Err(unknown_number("protocol unspecified/unknown: ", p)),
    }
}

/// A provenance on the wire.
pub open spec fn wire_provenance(p: Provenance) -> pb::Provenance {
    match p {
        Provenance::Unknown => pb::Provenance::Unspecified,
        Provenance::Unpackaged => pb::Provenance::Unpackaged,
        Provenance::Verified => pb::Provenance::Verified,
        Provenance::Modified => pb::Provenance::Modified,
    }
}

pub fn provenance_to_pb(p: Provenance) -> (r: pb::Provenance)
    ensures
        r == wire_provenance(p),
{
    match p {
        Provenance::Unknown => pb::Provenance::Unspecified,
        Provenance::Unpackaged => pb::Provenance::Unpackaged,
        Provenance::Verified => pb::Provenance::Verified,
        Provenance::Modified => pb::Provenance::Modified,
    }
}

/// The provenance a number stands for; one this version does not know stands
/// for "cannot say".
pub open spec fn read_provenance(n: i32) -> Provenance {
    if n == 1 {
        Provenance::Unpackaged
    } else if n == 2 {
        Provenance::Verified
    } else if n == 3 {
        Provenance::Modified
    } else {
        Provenance::Unknown
    }
}

/// Does not fail: provenance is advisory, never a verdict input, and anything
/// unrecognised means that this version cannot say.
pub fn provenance_from_pb(p: i32) -> (r: Provenance)
    ensures
        r == read_provenance(p),
{
    match pb::Provenance::from_number(p) {
        Some(pb::Provenance::Unpackaged) => Provenance::Unpackaged,
        Some(pb::Provenance::Verified) => Provenance::Verified,
        Some(pb::Provenance::Modified) => Provenance::Modified,
        _ => Provenance::Unknown,
    }
}

/// A direction on the wire.
pub open spec fn wire_direction(d: Direction) -> pb::Direction {
    match d {
        Direction::Outbound => pb::Direction::Outbound,
        Direction::Inbound => pb::Direction::Inbound,
    }
}

pub fn direction_to_pb(d: Direction) -> (r: pb::Direction)
    ensures
        r == wire_direction(d),
{
    match d {
        Direction::Outbound => pb::Direction::Outbound,
        Direction::Inbound => pb::Direction::Inbound,
    }
}

/// The direction a number stands for.
pub open spec fn read_direction(n: i32) -> Result<Direction, Seq<char>> {
    if n == 1 {
        Ok(Direction::Outbound)
    } else if n == 2 {
        Ok(Direction::Inbound)
    } else {
        Err(numbered("direction unspecified/unknown: "@, n))
    }
}

/// Fails closed: guessing would make an inbound rule fire on the wrong traffic
/// entirely.
pub fn direction_from_pb(d: i32) -> (r: Result<Direction, String>)
    ensures
        agrees(r, read_direction(d)),
{
    match pb::Direction::from_number(d) {
        Some(pb::Direction::Outbound) => Ok(Direction::Outbound),
        Some(pb::Direction::Inbound) => Ok(Direction::Inbound),
        _ => Err(unknown_number("direction unspecified/unknown: ", d)),
    }
}

/// A duration on the wire, where a number of seconds has no form of its own.
pub open spec fn wire_duration(d: Duration) -> pb::Duration {
    match d {
        Duration::Once => pb::Duration::Once,
        Duration::UntilRestart => pb::Duration::UntilRestart,
        Duration::Always | Duration::Seconds(_) => pb::Duration::Always,
    }
}

pub fn duration_to_pb(d: Duration) -> (r: pb::Duration)
    ensures
        r == wire_duration(d),
{
    match d {
        Duration::Once => pb::Duration::Once,
        Duration::UntilRestart => pb::Duration::UntilRestart,
        Duration::Always | Duration::Seconds(_) => pb::Duration::Always,
    }
}

/// The duration a number stands for.
pub open spec fn read_duration(n: i32) -> Result<Duration, Seq<char>> {
    if n == 1 {
        Ok(Duration::Once)
    } else if n == 2 {
        Ok(Duration::UntilRestart)
    } else if n == 3 {
        Ok(Duration::Always)
    } else {
        Err(numbered("duration unspecified/unknown: "@, n))
    }
}

/// Fail-closed: rejected rather than defaulted to the longest-lived `Always`.
pub fn duration_from_pb(d: i32) -> (r: Result<Duration, String>)
    ensures
        agrees(r, read_duration(d)),
{
    match pb::Duration::from_number(d) {
        Some(pb::Duration::Once) => Ok(Duration::Once),
        Some(pb::Duration::UntilRestart) => Ok(Duration::UntilRestart),
        Some(pb::Duration::Always) => Ok(Duration::Always),
        _ => Err(unknown_number("duration unspecified/unknown: ", d)),
    }
}

pub const ONCE_RULE: &'static str = "Once rules cannot be persisted";

/// `Once` is a one-shot answer to a single prompt. A persisted `Once` rule
/// would become either "forever" or "gone", so it is refused.
pub fn reject_unpersistable_duration(d: Duration) -> (r: Result<(), String>)
    ensures
        r is Err <==> d == Duration::Once,
        r matches Err(e) ==> e@ == ONCE_RULE@,
{
    if d == Duration::Once {
        return Err(text(ONCE_RULE));
    }
    Ok(())
}

/// An address written out.
pub fn ip_string(ip: IpAddr) -> (r: String)
    ensures
        r@ == ip_text(ip),
{
    match ip {
        IpAddr::V4(a) => {
            let mut s: String = String::new();
            push_decimal(&mut s, ((a / 0x100_0000) % 256) as u64);
            s.append(".");
            push_decimal(&mut s, ((a / 0x1_0000) % 256) as u64);
            s.append(".");
            push_decimal(&mut s, ((a / 0x100) % 256) as u64);
            s.append(".");
            push_decimal(&mut s, (a % 256) as u64);
            proof {
                assert(s@ =~= ip_text(ip));
            }
            s
        },
        IpAddr::V6(a) => ip6_string(a),
    }
}

/// An optional text, with none as the empty text.
pub open spec fn or_empty(s: Option<Seq<char>>) -> Seq<char> {
    match s {
        Some(t) => t,
        None => Seq::empty(),
    }
}

fn text_or_empty(s: &Option<String>) -> (r: String)
    ensures
        r@ == or_empty(text_of(*s)),
{
    match s {
        Some(t) => t.clone(),
        None => String::new(),
    }
}

/// A text, with the empty one as none.
pub open spec fn none_if_empty(s: Seq<char>) -> Option<Seq<char>> {
    if s.len() == 0 {
        None
    } else {
        Some(s)
    }
}

fn empty_to_none(s: &String) -> (r: Option<String>)
    ensures
        text_of(r) == none_if_empty(s@),
{
    if s.as_str().is_empty() {
        None
    } else {
        Some(s.clone())
    }
}

/// Whether a message shows a connection.
pub open spec fn shows_connection(c: Connection, r: pb::ConnectionInfo) -> bool {
    &&& r.id@ == uuid_text(c.id)
    &&& r.timestamp_unix_ms == c.timestamp_unix_ms
    &&& r.protocol == wire_protocol(c.protocol).spec_number()
    &&& r.direction == wire_direction(c.direction).spec_number()
    &&& r.src_ip@ == ip_text(c.src_ip)
    &&& r.src_port == c.src_port
    &&& r.dst_ip@ == ip_text(c.dst_ip)
    &&& r.dst_port == c.dst_port
    &&& r.dst_host@ == or_empty(text_of(c.dst_host))
}

pub fn connection_to_pb(c: &Connection) -> (r: pb::ConnectionInfo)
    ensures
        shows_connection(*c, r),
{
    pb::ConnectionInfo {
        id: uuid_string(c.id),
        timestamp_unix_ms: c.timestamp_unix_ms,
        protocol: protocol_to_pb(c.protocol).number(),
        direction: direction_to_pb(c.direction).number(),
        src_ip: ip_string(c.src_ip),
        src_port: c.src_port as u32,
        dst_ip: ip_string(c.dst_ip),
        dst_port: c.dst_port as u32,
        dst_host: text_or_empty(&c.dst_host),
    }
}

/// Whether a message shows a process.
pub open spec fn shows_process(p: Process, r: pb::ProcessInfo) -> bool {
    &&& r.pid == p.pid
    &&& r.ppid == (match p.ppid {
            Some(pp) => pp,
            None => 0u32,
        })
    &&& r.uid == p.uid
    &&& r.gid == p.gid
    &&& r.exe@ == p.exe@
    &&& r.cmdline@ == p.cmdline@
    &&& r.cwd@ == or_empty(text_of(p.cwd))
    &&& r.sha256@ == or_empty(text_of(p.sha256))
    &&& r.package@ == or_empty(text_of(p.package))
    &&& r.provenance == wire_provenance(p.provenance).spec_number()
}

pub fn process_to_pb(p: &Process) -> (r: pb::ProcessInfo)
    ensures
        shows_process(*p, r),
{
    pb::ProcessInfo {
        pid: p.pid,
        ppid: p.ppid.unwrap_or(0),
        uid: p.uid,
        gid: p.gid,
        exe: p.exe.clone(),
        cmdline: copy_texts(&p.cmdline),
        cwd: text_or_empty(&p.cwd),
        sha256: text_or_empty(&p.sha256),
        package: text_or_empty(&p.package),
        provenance: provenance_to_pb(p.provenance).number(),
    }
}

/// A network written out, with none as the empty text.
pub open spec fn net_or_empty(n: Option<(IpAddr, u8)>) -> Seq<char> {
    match n {
        Some((addr, prefix)) => net_text(addr, prefix),
        None => Seq::empty(),
    }
}

/// A scope on the wire.
pub open spec fn wire_scope(s: Scope) -> pb::WireScope {
    pb::WireScope {
        exe_path: or_empty(s.exe_path),
        exe_sha256: or_empty(s.exe_sha256),
        parent_exe: or_empty(s.parent_exe),
        uid: match s.uid {
            Some(u) => u,
            None => 0,
        },
        has_uid: s.uid is Some,
        dst_host: or_empty(s.dst_host),
        dst_net: net_or_empty(s.dst_net),
        dst_port: match s.dst_port {
            Some(p) => p as u32,
            None => 0,
        },
        has_dst_port: s.dst_port is Some,
        direction: match s.direction {
            Some(d) => wire_direction(d).spec_number(),
            None => 0,
        },
        has_direction: s.direction is Some,
        src_net: net_or_empty(s.src_net),
        src_port: match s.src_port {
            Some(p) => p as u32,
            None => 0,
        },
        has_src_port: s.src_port is Some,
        protocol: match s.protocol {
            Some(p) => wire_protocol(p).spec_number(),
            None => 0,
        },
        has_protocol: s.protocol is Some,
    }
}

fn net_text_or_empty(n: &Option<IpNet>) -> (r: String)
    ensures
        r@ == net_or_empty(net_of(*n)),
        *n matches Some(x) ==> r@.len() > 0 && parsed_net(r@) == Some(x@),
{
    match n {
        Some(x) => {
            let (addr, prefix) = x.parts();
            proof {
                reveal_strlit("/");
            }
            net_string(addr, prefix)
        },
        None => String::new(),
    }
}

pub fn scope_to_pb(s: &RuleScope) -> (r: pb::RuleScope)
    ensures
        r@ == wire_scope(s@),
        nets_read_back(s@, r@),
{
    pb::RuleScope {
        exe_path: text_or_empty(&s.exe_path),
        exe_sha256: text_or_empty(&s.exe_sha256),
        parent_exe: text_or_empty(&s.parent_exe),
        uid: s.uid.unwrap_or(0),
        has_uid: s.uid.is_some(),
        dst_host: text_or_empty(&s.dst_host),
        dst_net: net_text_or_empty(&s.dst_net),
        dst_port: match s.dst_port {
            Some(p) => p as u32,
            None => 0,
        },
        has_dst_port: s.dst_port.is_some(),
        direction: match s.direction {
            Some(d) => direction_to_pb(d).number(),
            None => 0,
        },
        has_direction: s.direction.is_some(),
        src_net: net_text_or_empty(&s.src_net),
        src_port: match s.src_port {
            Some(p) => p as u32,
            None => 0,
        },
        has_src_port: s.src_port.is_some(),
        protocol: match s.protocol {
            Some(p) => protocol_to_pb(p).number(),
            None => 0,
        },
        has_protocol: s.protocol.is_some(),
    }
}

/// Whether the networks of a scope can be read back from the message.
pub open spec fn nets_read_back(s: Scope, w: pb::WireScope) -> bool {
    &&& s.dst_net matches Some(n) ==> w.dst_net.len() > 0 && parsed_net(w.dst_net) == Some(n)
    &&& s.src_net matches Some(n) ==> w.src_net.len() > 0 && parsed_net(w.src_net) == Some(n)
}

/// A network field of a message.
pub open spec fn read_net(field: Seq<char>, s: Seq<char>) -> Result<
    Option<(IpAddr, u8)>,
    Seq<char>,
> {
    if s.len() == 0 {
        Ok(None)
    } else {
        match parsed_net(s) {
            Some(n) => Ok(Some(n)),
            None => Err("bad "@ + field + " `"@ + s + "`: "@ + BAD_NET@),
        }
    }
}

fn net_from_pb(field: &str, s: &String) -> (r: Result<Option<IpNet>, String>)
    ensures
        r matches Ok(n) ==> read_net(field@, s@) == Ok::<Option<(IpAddr, u8)>, Seq<char>>(
            net_of(n),
        ),
        r matches Err(e) ==> read_net(field@, s@) == Err::<Option<(IpAddr, u8)>, Seq<char>>(e@),
{
    if s.as_str().is_empty() {
        return Ok(None);
    }
    match parse_net(s.as_str()) {
        Ok((addr, prefix)) => Ok(IpNet::new(addr, prefix)),
        Err(e) => {
            let mut m = text("bad ");
            m.append(field);
            m.append(" `");
            m.append(s.as_str());
            m.append("`: ");
            m.append(e.as_str());
            Err(m)
        },
    }
}

/// A port field of a message.
pub open spec fn read_port(field: Seq<char>, there: bool, n: u32) -> Result<
    Option<u16>,
    Seq<char>,
> {
    if !there {
        Ok(None)
    } else if n <= 65535 {
        Ok(Some(n as u16))
    } else {
        Err(field + " "@ + decimal(n as nat) + " is out of range; a port is 0-65535"@)
    }
}

fn port_from_pb(field: &str, there: bool, n: u32) -> (r: Result<Option<u16>, String>)
    ensures
        agrees(r, read_port(field@, there, n)),
{
    if !there {
        return Ok(None);
    }
    if n <= 65535 {
        return Ok(Some(n as u16));
    }
    let mut m = text(field);
    m.append(" ");
    push_decimal(&mut m, n as u64);
    m.append(" is out of range; a port is 0-65535");
    Err(m)
}

/// The transport constraint of a message.
pub open spec fn read_protocol_field(there: bool, n: i32) -> Result<Option<Protocol>, Seq<char>> {
    if !there {
        Ok(None)
    } else {
        match read_protocol(n) {
            Ok(p) => Ok(Some(p)),
            Err(e) => Err(e),
        }
    }
}

/// The direction constraint of a message.
pub open spec fn read_direction_field(there: bool, n: i32) -> Result<Option<Direction>, Seq<char>> {
    if !there {
        Ok(None)
    } else {
        match read_direction(n) {
            Ok(d) => Ok(Some(d)),
            Err(e) => Err(e),
        }
    }
}

/// The digest constraint of a message.
pub open spec fn read_digest(s: Seq<char>) -> Result<Option<Seq<char>>, Seq<char>> {
    if s.len() == 0 {
        Ok(None)
    } else {
        match digest_of(s) {
            Some(d) => Ok(Some(d)),
            None => Err(BAD_DIGEST@),
        }
    }
}

/// The scope a message stands for, or the first thing about it that cannot be
/// represented.
pub open spec fn read_scope(w: pb::WireScope) -> Result<Scope, Seq<char>> {
    match read_net("dst_net"@, w.dst_net) {
        Err(e) => Err(e),
        Ok(dst_net) => match read_protocol_field(w.has_protocol, w.protocol) {
            Err(e) => Err(e),
            Ok(protocol) => match read_port("dst_port"@, w.has_dst_port, w.dst_port) {
                Err(e) => Err(e),
                Ok(dst_port) => match read_direction_field(w.has_direction, w.direction) {
                    Err(e) => Err(e),
                    Ok(direction) => match read_net("src_net"@, w.src_net) {
                        Err(e) => Err(e),
                        Ok(src_net) => match read_port("src_port"@, w.has_src_port, w.src_port) {
                            Err(e) => Err(e),
                            Ok(src_port) => match read_digest(w.exe_sha256) {
                                Err(e) => Err(e),
                                Ok(exe_sha256) => Ok(
                                    Scope {
                                        direction,
                                        src_net,
                                        src_port,
                                        exe_path: none_if_empty(w.exe_path),
                                        exe_sha256,
                                        parent_exe: none_if_empty(w.parent_exe),
                                        uid: if w.has_uid {
                                            Some(w.uid)
                                        } else {
                                            None
                                        },
                                        dst_host: none_if_empty(w.dst_host),
                                        dst_net,
                                        dst_port,
                                        protocol,
                                    },
                                ),
                            },
                        },
                    },
                },
            },
        },
    }
}

/// Converts a scope from the wire, **rejecting** anything it cannot represent:
/// a malformed field that were dropped instead would silently widen the rule.
pub fn scope_from_pb(s: &pb::RuleScope) -> (r: Result<RuleScope, String>)
    ensures
        r matches Ok(v) ==> read_scope(s@) == Ok::<Scope, Seq<char>>(v@),
        r matches Err(e) ==> read_scope(s@) == Err::<Scope, Seq<char>>(e@),
{
    let dst_net = match net_from_pb("dst_net", &s.dst_net) {
        Ok(n) => n,
        Err(e) => {
            return Err(e);
        },
    };
    let protocol = if s.has_protocol {
        match protocol_from_pb(s.protocol) {
            Ok(p) => Some(p),
            Err(e) => {
                return Err(e);
            },
        }
    } else {
        None
    };
    let dst_port: Option<u16> = match port_from_pb("dst_port", s.has_dst_port, s.dst_port) {
        Ok(p) => p,
        Err(e) => {
            return Err(e);
        },
    };
    let direction = if s.has_direction {
        match direction_from_pb(s.direction) {
            Ok(d) => Some(d),
            Err(e) => {
                return Err(e);
            },
        }
    } else {
        None
    };
    let src_net = match net_from_pb("src_net", &s.src_net) {
        Ok(n) => n,
        Err(e) => {
            return Err(e);
        },
    };
    let src_port: Option<u16> = match port_from_pb("src_port", s.has_src_port, s.src_port) {
        Ok(p) => p,
        Err(e) => {
            return Err(e);
        },
    };
    let exe_sha256 = if s.exe_sha256.as_str().is_empty() {
        None
    } else {
        match canonical_exe_sha256(s.exe_sha256.as_str()) {
            Ok(d) => Some(d),
            Err(e) => {
                return Err(e);
            },
        }
    };
    let uid: Option<u32> = if s.has_uid {
        Some(s.uid)
    } else {
        None
    };
    let scope = RuleScope {
        direction,
        src_net,
        src_port,
        exe_path: empty_to_none(&s.exe_path),
        exe_sha256,
        parent_exe: empty_to_none(&s.parent_exe),
        uid,
        dst_host: empty_to_none(&s.dst_host),
        dst_net,
        dst_port,
        protocol,
    };
    Ok(scope)
}

/// Whether a message is the one a rule is written as.
pub open spec fn written(r: Rule, p: pb::RuleInfo) -> bool {
    &&& p.id@ == uuid_text(r.id)
    &&& parsed_uuid(p.id@) == Ok::<u128, Seq<char>>(r.id)
    &&& p.name@ == r.name@
    &&& p.enabled == r.enabled
    &&& p.action == wire_action(r.action).spec_number()
    &&& p.duration == wire_duration(r.duration).spec_number()
    &&& p.scope matches Some(w) && w@ == wire_scope(r.scope@) && nets_read_back(r.scope@, w@)
    &&& p.created_at_unix_ms == r.created_at_unix_ms
    &&& p.hit_count == r.hit_count
}

pub fn rule_to_pb(r: &Rule) -> (p: pb::RuleInfo)
    ensures
        written(*r, p),
{
    pb::RuleInfo {
        id: uuid_string(r.id),
        name: r.name.clone(),
        enabled: r.enabled,
        action: action_to_pb(r.action).number(),
        duration: duration_to_pb(r.duration).number(),
        scope: Some(scope_to_pb(&r.scope)),
        created_at_unix_ms: r.created_at_unix_ms,
        hit_count: r.hit_count,
    }
}

pub const UNSCOPED: &'static str =
    "rule scope constrains nothing, so it would match every process and every destination; scope it to at least one of exe_path, uid, dst_host, dst_net, dst_port or protocol";

/// Whether a scope sets nothing.
pub open spec fn constrains_nothing(s: Scope) -> bool {
    s == (Scope {
        direction: None,
        src_net: None,
        src_port: None,
        exe_path: None,
        exe_sha256: None,
        parent_exe: None,
        uid: None,
        dst_host: None,
        dst_net: None,
        dst_port: None,
        protocol: None,
    })
}

/// Refuses a scope that constrains nothing: it would match every process and
/// every destination.
pub fn reject_unscoped(scope: &RuleScope) -> (r: Result<(), String>)
    ensures
        r is Err <==> constrains_nothing(scope@),
        r matches Err(e) ==> e@ == UNSCOPED@,
{
    proof {
        reveal(crate::model::one_if);
        reveal(RuleScope::spec_specificity);
    }
    if scope.specificity() == 0 {
        return Err(text(UNSCOPED));
    }
    Ok(())
}

/// The first reason a scope can never match, if there is one.
pub open spec fn scope_fault(s: Scope) -> Option<Seq<char>> {
    if s.exe_path matches Some(p) && !absolute(p) {
        Some(crate::model::BAD_EXE@)
    } else if s.parent_exe matches Some(p) && !absolute(p) {
        Some(crate::model::BAD_PARENT@)
    } else if s.direction == Some(Direction::Inbound) && (s.dst_host is Some || s.dst_net is Some) {
        Some(crate::model::INBOUND_DESTINATION@)
    } else if s.direction == Some(Direction::Inbound) && (s.exe_path is Some || s.exe_sha256 is Some
        || s.parent_exe is Some || s.uid is Some) {
        Some(crate::model::INBOUND_PROCESS@)
    } else {
        None
    }
}

/// What a rule message says, its id and its time aside.
pub ghost struct RuleBody {
    pub name: Seq<char>,
    pub enabled: bool,
    pub action: Action,
    pub duration: Duration,
    pub scope: Scope,
    pub hit_count: u64,
}

/// What a rule says, its id and its time aside.
pub open spec fn body_of(r: Rule) -> RuleBody {
    RuleBody {
        name: r.name@,
        enabled: r.enabled,
        action: r.action,
        duration: r.duration,
        scope: r.scope@,
        hit_count: r.hit_count,
    }
}

/// The id of a rule message: the one it names, or `fresh` when it names none.
pub open spec fn read_id(s: Seq<char>, fresh: u128) -> Result<u128, Seq<char>> {
    if s.len() == 0 {
        Ok(fresh)
    } else {
        match parsed_uuid(s) {
            Ok(id) => Ok(id),
            Err(e) => Err("bad id: "@ + e),
        }
    }
}

/// The creation time of a rule message: the one it gives, or `now` when it
/// gives none or one outside the calendar.
pub open spec fn read_created(ms: i64, now: i64) -> i64 {
    if ms == 0 || !in_calendar(ms) {
        now
    } else {
        ms
    }
}

/// The scope of a rule message; a missing one is one in which nothing is set.
pub open spec fn read_rule_scope(s: Option<pb::RuleScope>) -> Result<Scope, Seq<char>> {
    match s {
        Some(w) => read_scope(w@),
        None => read_scope(pb::empty_scope()),
    }
}

/// The rule a message stands for, its id and its time aside, or the first thing
/// about it that is refused.
pub open spec fn read_body(r: &pb::RuleInfo) -> Result<RuleBody, Seq<char>> {
    match read_rule_scope(r.scope) {
        Err(e) => Err(e),
        Ok(scope) => if constrains_nothing(scope) {
            Err(UNSCOPED@)
        } else if scope_fault(scope) is Some {
            Err(scope_fault(scope)->Some_0)
        } else {
            match read_action(r.action) {
                Err(e) => Err(e),
                Ok(action) => match read_duration(r.duration) {
                    Err(e) => Err(e),
                    Ok(duration) => Ok(
                        RuleBody {
                            name: r.name@,
                            enabled: r.enabled,
                            action,
                            duration,
                            scope,
                            hit_count: r.hit_count,
                        },
                    ),
                },
            }
        },
    }
}

/// What a rule says, with its id and its time.
pub ghost struct Whole {
    pub id: u128,
    pub created_at_unix_ms: i64,
    pub body: RuleBody,
}

/// What a rule says, with its id and its time.
pub open spec fn whole(r: Rule) -> Whole {
    Whole { id: r.id, created_at_unix_ms: r.created_at_unix_ms, body: body_of(r) }
}

/// The rule a message stands for, or the first thing about it that is refused.
pub open spec fn read_rule(r: &pb::RuleInfo, fresh: u128, now: i64) -> Result<Whole, Seq<char>> {
    match read_id(r.id@, fresh) {
        Err(e) => Err(e),
        Ok(id) => match read_body(r) {
            Err(e) => Err(e),
            Ok(body) => Ok(
                Whole {
                    id,
                    created_at_unix_ms: read_created(r.created_at_unix_ms, now),
                    body,
                },
            ),
        },
    }
}

/// Converts a rule from the wire, given an id and a time for a message that
/// brings none.
pub fn rule_from_pb_at(r: &pb::RuleInfo, fresh: u128, now_unix_ms: i64) -> (rule: Result<Rule, String>)
    ensures
        match read_rule(r, fresh, now_unix_ms) {
            Err(e) => rule matches Err(m) && m@ == e,
            Ok(w) => rule matches Ok(v) && whole(v) == w,
        },
{
    let id: u128 = if r.id.as_str().is_empty() {
        fresh
    } else {
        match parse_uuid(r.id.as_str()) {
            Ok(id) => id,
            Err(e) => {
                let mut m = text("bad id: ");
                m.append(e.as_str());
                return Err(m);
            },
        }
    };
    let scope = match &r.scope {
        Some(s) => match scope_from_pb(s) {
            Ok(v) => v,
            Err(e) => {
                return Err(e);
            },
        },
        None => match scope_from_pb(&pb::RuleScope::default()) {
            Ok(v) => v,
            Err(e) => {
                return Err(e);
            },
        },
    };
    if let Err(e) = reject_unscoped(&scope) {
        return Err(e);
    }
    if let Err(e) = scope.reject_unmatchable() {
        return Err(e);
    }
    let created_at_unix_ms: i64 = if r.created_at_unix_ms == 0 {
        now_unix_ms
    } else {
        match calendar_time(r.created_at_unix_ms) {
            Some(t) => t,
            None => now_unix_ms,
        }
    };
    let action = match action_from_pb(r.action) {
        Ok(a) => a,
        Err(e) => {
            return Err(e);
        },
    };
    let duration = match duration_from_pb(r.duration) {
        Ok(d) => d,
        Err(e) => {
            return Err(e);
        },
    };
    Ok(
        Rule {
            id,
            name: r.name.clone(),
            enabled: r.enabled,
            action,
            duration,
            scope,
            created_at_unix_ms,
            hit_count: r.hit_count,
        },
    )
}

/// Converts a rule from the wire. A message without an id gets a random one.
pub fn rule_from_pb(r: &pb::RuleInfo, now_unix_ms: i64) -> (rule: Result<Rule, String>)
    ensures
        rule is Ok <==> (read_body(r) is Ok && (r.id@.len() == 0 || parsed_uuid(r.id@) is Ok)),
        rule matches Ok(v) ==> {
            &&& if r.id@.len() > 0 {
                parsed_uuid(r.id@) == Ok::<u128, Seq<char>>(v.id)
            } else {
                is_random_id(v.id)
            }
            &&& v.created_at_unix_ms == read_created(r.created_at_unix_ms, now_unix_ms)
            &&& read_body(r) == Ok::<RuleBody, Seq<char>>(body_of(v))
        },
        rule matches Err(e) ==> (if r.id@.len() > 0 && parsed_uuid(r.id@) is Err {
            e@ == "bad id: "@ + parsed_uuid(r.id@)->Err_0
        } else {
            read_body(r) == Err::<RuleBody, Seq<char>>(e@)
        }),
{
    rule_from_pb_at(r, fresh_uuid(), now_unix_ms)
}

pub fn verdict_to_pb_action(v: &Verdict) -> (r: pb::Action)
    ensures
        r == wire_action(v.action),
{
    action_to_pb(v.action)
}

/// A transport as the event log stores it.
pub open spec fn protocol_word(p: Protocol) -> Seq<char> {
    match p {
        Protocol::Tcp => "tcp"@,
        Protocol::Udp => "udp"@,
        Protocol::Icmp => "icmp"@,
        Protocol::Other(_) => "other"@,
    }
}

fn protocol_db_str(p: Protocol) -> (r: &'static str)
    ensures
        r@ == protocol_word(p),
{
    match p {
        Protocol::Tcp => "tcp",
        Protocol::Udp => "udp",
        Protocol::Icmp => "icmp",
        Protocol::Other(_) => "other",
    }
}

/// The id of the rule that decided, written out.
pub open spec fn rule_text(s: VerdictSource) -> Option<Seq<char>> {
    match s {
        VerdictSource::Rule(id) => Some(uuid_text(id)),
        _ => None,
    }
}

/// The id of the rule that decided, written out.
pub fn rule_id_string(s: &VerdictSource) -> (r: Option<String>)
    ensures
        text_of(r) == rule_text(*s),
{
    match s {
        VerdictSource::Rule(id) => Some(uuid_string(*id)),
        _ => None,
    }
}

/// Whether `r` is the row of a flow, of the process that made it and of what was
/// decided.
pub open spec fn records(c: Connection, p: Process, v: Verdict, r: EventRow) -> bool {
    &&& r.ts_unix_ms == c.timestamp_unix_ms
    &&& text_of(r.proto) == Some(protocol_word(c.protocol))
    &&& text_of(r.src_ip) == Some(ip_text(c.src_ip))
    &&& r.src_port == Some(c.src_port)
    &&& text_of(r.dst_ip) == Some(ip_text(c.dst_ip))
    &&& r.dst_port == Some(c.dst_port)
    &&& r.dst_host == c.dst_host
    &&& text_of(r.exe) == none_if_empty(p.exe@)
    &&& r.pid == Some(p.pid)
    &&& r.uid == p.uid
    &&& r.action@ == action_word(v.action)
    &&& text_of(r.rule_id) == rule_text(v.source)
}

/// Flattens a decided flow into the row that is stored.
pub fn event_row_from_observed(conn: &Connection, proc: &Process, verdict: &Verdict) -> (r: EventRow)
    ensures
        r.id == 0,
        r.ts_unix_ms == conn.timestamp_unix_ms,
        text_of(r.proto) == Some(protocol_word(conn.protocol)),
        text_of(r.src_ip) == Some(ip_text(conn.src_ip)),
        r.src_port == Some(conn.src_port),
        text_of(r.dst_ip) == Some(ip_text(conn.dst_ip)),
        r.dst_port == Some(conn.dst_port),
        r.dst_host == conn.dst_host,
        text_of(r.exe) == none_if_empty(proc.exe@),
        r.pid == Some(proc.pid),
        r.uid == proc.uid,
        r.action@ == action_word(verdict.action),
        r.source@ == source_word(verdict.source),
        text_of(r.rule_id) == rule_text(verdict.source),
        records(*conn, *proc, *verdict, r),
{
    EventRow {
        id: 0,
        ts_unix_ms: conn.timestamp_unix_ms,
        proto: Some(text(protocol_db_str(conn.protocol))),
        src_ip: Some(ip_string(conn.src_ip)),
        src_port: Some(conn.src_port),
        dst_ip: Some(ip_string(conn.dst_ip)),
        dst_port: Some(conn.dst_port),
        dst_host: copy_text(&conn.dst_host),
        exe: empty_to_none(&proc.exe),
        pid: Some(proc.pid),
        uid: proc.uid,
        action: text(action_db_str(verdict.action)),
        source: text(verdict_source_db_str(&verdict.source)),
        rule_id: rule_id_string(&verdict.source),
    }
}

/// The number a stored action travels as; a word this version does not know
/// travels as unspecified.
pub open spec fn stored_action_number(s: Seq<char>) -> i32 {
    match word_action(s) {
        Some(a) => wire_action(a).spec_number(),
        None => 0,
    }
}

/// Whether a message is the one a stored event is rendered as.
pub open spec fn renders(row: EventRow, r: pb::Event) -> bool {
    &&& r.ts_unix_ms == row.ts_unix_ms
    &&& r.proto@ == or_empty(text_of(row.proto))
    &&& r.src_ip@ == or_empty(text_of(row.src_ip))
    &&& r.src_port == (match row.src_port {
        Some(p) => p as int,
        None => 0,
    })
    &&& r.dst_ip@ == or_empty(text_of(row.dst_ip))
    &&& r.dst_port == (match row.dst_port {
        Some(p) => p as int,
        None => 0,
    })
    &&& r.dst_host@ == or_empty(text_of(row.dst_host))
    &&& r.exe@ == or_empty(text_of(row.exe))
    &&& r.pid == (match row.pid {
        Some(p) => p,
        None => 0u32,
    })
    &&& r.uid == row.uid
    &&& r.action == stored_action_number(row.action@)
    &&& r.source@ == row.source@
    &&& r.rule_id@ == or_empty(text_of(row.rule_id))
}

/// Renders a stored event back onto the wire.
pub fn event_row_to_pb(row: &EventRow) -> (r: pb::Event)
    ensures
        renders(*row, r),
{
    pb::Event {
        ts_unix_ms: row.ts_unix_ms,
        proto: text_or_empty(&row.proto),
        src_ip: text_or_empty(&row.src_ip),
        src_port: row.src_port.unwrap_or(0) as u32,
        dst_ip: text_or_empty(&row.dst_ip),
        dst_port: row.dst_port.unwrap_or(0) as u32,
        dst_host: text_or_empty(&row.dst_host),
        exe: text_or_empty(&row.exe),
        pid: row.pid.unwrap_or(0),
        uid: row.uid,
        action: match action_db_from_str(row.action.as_str()) {
            Some(a) => action_to_pb(a).number(),
            None => pb::Action::Unspecified.number(),
        },
        source: row.source.clone(),
        rule_id: text_or_empty(&row.rule_id),
    }
}

/// Every action, transport with a number, provenance and direction survives the
/// wire, and every duration does but a number of seconds.
pub proof fn enumerations_survive_the_wire(
    a: Action,
    p: Protocol,
    v: Provenance,
    d: Direction,
    t: Duration,
)
    ensures
        read_action(wire_action(a).spec_number()) == Ok::<Action, Seq<char>>(a),
        !(p is Other) ==> read_protocol(wire_protocol(p).spec_number()) == Ok::<
            Protocol,
            Seq<char>,
        >(p),
        read_provenance(wire_provenance(v).spec_number()) == v,
        read_direction(wire_direction(d).spec_number()) == Ok::<Direction, Seq<char>>(d),
        !(t is Seconds) ==> read_duration(wire_duration(t).spec_number()) == Ok::<
            Duration,
            Seq<char>,
        >(t),
{
}

/// A number permits traffic only if it is the one that says so: an unset field
/// and every number of another version of the protocol are refused.
pub proof fn only_the_number_of_allow_permits(n: i32)
    ensures
        read_action(n) == Ok::<Action, Seq<char>>(Action::Allow) <==> n
            == pb::Action::Allow.spec_number(),
        read_action(n) is Err <==> !(1 <= n <= 3),
{
}

/// A stored action word is read back as the action it was written for.
pub proof fn stored_actions_are_read_back(a: Action)
    ensures
        word_action(action_word(a)) == Some(a),
        stored_action_number(action_word(a)) == wire_action(a).spec_number(),
{
    reveal_strlit("Allow");
    reveal_strlit("Deny");
    reveal_strlit("Reject");
    assert("Allow"@.len() == 5 && "Deny"@.len() == 4 && "Reject"@.len() == 6);
}

/// Whether the wire can carry a scope: its texts are not empty, its digest is in
/// its one spelling, and its transport has a number.
pub open spec fn carries(s: Scope) -> bool {
    &&& s.exe_path matches Some(t) ==> t.len() > 0
    &&& s.parent_exe matches Some(t) ==> t.len() > 0
    &&& s.dst_host matches Some(t) ==> t.len() > 0
    &&& s.exe_sha256 matches Some(d) ==> digest_of(d) == Some(d)
    &&& s.protocol matches Some(p) ==> !(p is Other)
}

/// A scope the wire can carry comes back from it as it was.
pub proof fn a_scope_survives_the_wire(s: Scope, w: pb::WireScope)
    requires
        carries(s),
        w == wire_scope(s),
        nets_read_back(s, w),
    ensures
        read_scope(w) == Ok::<Scope, Seq<char>>(s),
{
    assert(s.exe_sha256 matches Some(d) ==> d.len() == 64);
    assert(read_scope(w)->Ok_0 == s);
}

/// Reading a scope never widens it: every field that a message sets is a
/// constraint of the scope that is read, or the message is refused.
pub proof fn reading_a_scope_drops_nothing(w: pb::WireScope, s: Scope)
    requires
        read_scope(w) == Ok::<Scope, Seq<char>>(s),
    ensures
        s.exe_path is Some <==> w.exe_path.len() > 0,
        s.exe_sha256 is Some <==> w.exe_sha256.len() > 0,
        s.parent_exe is Some <==> w.parent_exe.len() > 0,
        s.uid is Some <==> w.has_uid,
        s.dst_host is Some <==> w.dst_host.len() > 0,
        s.dst_net is Some <==> w.dst_net.len() > 0,
        s.dst_port is Some <==> w.has_dst_port,
        s.direction is Some <==> w.has_direction,
        s.src_net is Some <==> w.src_net.len() > 0,
        s.src_port is Some <==> w.has_src_port,
        s.protocol is Some <==> w.has_protocol,
{
}

/// A rule that is written out and read again keeps everything it says, where
/// the wire can carry its scope and its duration is not a number of seconds.
pub proof fn a_rule_survives_the_wire(r: Rule, p: &pb::RuleInfo, fresh: u128, now: i64)
    requires
        carries(r.scope@),
        !constrains_nothing(r.scope@),
        scope_fault(r.scope@) is None,
        !(r.duration is Seconds),
        r.created_at_unix_ms != 0,
        in_calendar(r.created_at_unix_ms),
        written(r, *p),
    ensures
        read_rule(p, fresh, now) == Ok::<Whole, Seq<char>>(whole(r)),
{
    reveal_strlit("-");
    a_scope_survives_the_wire(r.scope@, p.scope->Some_0@);
    enumerations_survive_the_wire(
        r.action,
        Protocol::Tcp,
        Provenance::Unknown,
        Direction::Outbound,
        r.duration,
    );
}

/// Each number stands for one action, and the others for none.
pub proof fn action_numbers(n: i32, a: Action)
    ensures
        read_action(n) == Ok::<Action, Seq<char>>(Action::Allow) <==> n == 1,
        read_action(n) == Ok::<Action, Seq<char>>(Action::Deny) <==> n == 2,
        read_action(n) == Ok::<Action, Seq<char>>(Action::Reject) <==> n == 3,
        wire_action(a).spec_number() == 1 <==> a == Action::Allow,
        wire_action(a).spec_number() == 2 <==> a == Action::Deny,
        wire_action(a).spec_number() == 3 <==> a == Action::Reject,
        n < 1 || n > 3 ==> read_action(n) == Err::<Action, Seq<char>>(
            "action unspecified/unknown: "@ + signed(n as int),
        ),
{
}

/// Each number stands for one duration, and the others for none; a number of
/// seconds travels as the longest.
pub proof fn duration_numbers(n: i32, d: Duration)
    ensures
        read_duration(n) == Ok::<Duration, Seq<char>>(Duration::Once) <==> n == 1,
        read_duration(n) == Ok::<Duration, Seq<char>>(Duration::UntilRestart) <==> n == 2,
        read_duration(n) == Ok::<Duration, Seq<char>>(Duration::Always) <==> n == 3,
        wire_duration(d).spec_number() == 1 <==> d == Duration::Once,
        wire_duration(d).spec_number() == 2 <==> d == Duration::UntilRestart,
        wire_duration(d).spec_number() == 3 <==> d == Duration::Always || d is Seconds,
        n < 1 || n > 3 ==> read_duration(n) == Err::<Duration, Seq<char>>(
            "duration unspecified/unknown: "@ + signed(n as int),
        ),
{
}

/// Each number stands for one direction, and the others for none.
pub proof fn direction_numbers(n: i32, d: Direction)
    ensures
        read_direction(n) == Ok::<Direction, Seq<char>>(Direction::Outbound) <==> n == 1,
        read_direction(n) == Ok::<Direction, Seq<char>>(Direction::Inbound) <==> n == 2,
        wire_direction(d).spec_number() == 1 <==> d == Direction::Outbound,
        wire_direction(d).spec_number() == 2 <==> d == Direction::Inbound,
        n < 1 || n > 2 ==> read_direction(n) == Err::<Direction, Seq<char>>(
            "direction unspecified/unknown: "@ + signed(n as int),
        ),
{
}

/// Each number stands for one transport that a rule can be about, and the others
/// for none.
pub proof fn transport_numbers(n: i32, p: Protocol)
    ensures
        read_protocol(n) == Ok::<Protocol, Seq<char>>(Protocol::Tcp) <==> n == 1,
        read_protocol(n) == Ok::<Protocol, Seq<char>>(Protocol::Udp) <==> n == 2,
        read_protocol(n) == Ok::<Protocol, Seq<char>>(Protocol::Icmp) <==> n == 3,
        read_protocol(n) is Ok <==> 1 <= n <= 3,
        n == 4 ==> read_protocol(n) == Err::<Protocol, Seq<char>>(PROTOCOL_OTHER@),
        wire_protocol(p).spec_number() == 1 <==> p == Protocol::Tcp,
        wire_protocol(p).spec_number() == 2 <==> p == Protocol::Udp,
        wire_protocol(p).spec_number() == 3 <==> p == Protocol::Icmp,
        wire_protocol(p).spec_number() == 4 <==> p is Other,
{
}

/// Each number stands for what is known of an executable's origin; every other
/// number, as an unset one, says that it is not known.
pub proof fn provenance_numbers(n: i32, p: Provenance)
    ensures
        read_provenance(n) == Provenance::Unpackaged <==> n == 1,
        read_provenance(n) == Provenance::Verified <==> n == 2,
        read_provenance(n) == Provenance::Modified <==> n == 3,
        wire_provenance(p).spec_number() == 0 <==> p == Provenance::Unknown,
        wire_provenance(p).spec_number() == 1 <==> p == Provenance::Unpackaged,
        wire_provenance(p).spec_number() == 2 <==> p == Provenance::Verified,
        wire_provenance(p).spec_number() == 3 <==> p == Provenance::Modified,
{
}

/// The words of the event log: one for each action, each transport with a name
/// and each source, no two the same.
pub proof fn stored_words(a: Action, w: Seq<char>, s: VerdictSource)
    ensures
        action_word(a) == "Allow"@ <==> a == Action::Allow,
        action_word(a) == "Deny"@ <==> a == Action::Deny,
        action_word(a) == "Reject"@ <==> a == Action::Reject,
        word_action(w) == Some(Action::Allow) <==> w == "Allow"@,
        word_action(w) == Some(Action::Deny) <==> w == "Deny"@,
        word_action(w) == Some(Action::Reject) <==> w == "Reject"@,
        stored_action_number(w) == (if w == "Allow"@ {
            1int
        } else if w == "Deny"@ {
            2
        } else if w == "Reject"@ {
            3
        } else {
            0
        }),
        source_word(s) == "rule"@ <==> s is Rule,
        source_word(s) == "user"@ <==> s == VerdictSource::UserPrompt,
        source_word(s) == "default"@ <==> s == VerdictSource::DefaultPolicy,
        source_word(s) == "timeout"@ <==> s == VerdictSource::Timeout,
        rule_text(s) is Some <==> s is Rule,
        s is Rule ==> rule_text(s) == Some(uuid_text(s->Rule_0)),
{
    reveal_strlit("Allow");
    reveal_strlit("Deny");
    reveal_strlit("Reject");
    reveal_strlit("rule");
    reveal_strlit("user");
    reveal_strlit("default");
    reveal_strlit("timeout");
    assert("Allow"@.len() == 5 && "Deny"@.len() == 4 && "Reject"@.len() == 6);
    assert("rule"@[0] != "user"@[0]);
    assert("default"@[0] != "timeout"@[0]);
    assert("rule"@.len() == 4 && "default"@.len() == 7 && "timeout"@.len() == 7);
}

/// The stored word of a transport is its name.
pub proof fn stored_transports(p: Protocol)
    ensures
        protocol_word(p) == "tcp"@ <==> p == Protocol::Tcp,
        protocol_word(p) == "udp"@ <==> p == Protocol::Udp,
        protocol_word(p) == "icmp"@ <==> p == Protocol::Icmp,
        protocol_word(p) == "other"@ <==> p is Other,
{
    reveal_strlit("tcp");
    reveal_strlit("udp");
    reveal_strlit("icmp");
    reveal_strlit("other");
    assert("tcp"@[0] != "udp"@[0]);
    assert("tcp"@.len() == 3 && "icmp"@.len() == 4 && "other"@.len() == 5);
}

/// A scope message is read field by field, each as it was sent, and refused if
/// and only if a network does not parse, a port is past the last one, a digest
/// is none, or a direction or transport has no number that a rule can have.
pub proof fn a_scope_is_read_field_by_field(w: pb::WireScope)
    ensures
        read_scope(w) is Ok <==> {
            &&& w.dst_net.len() > 0 ==> parsed_net(w.dst_net) is Some
            &&& w.src_net.len() > 0 ==> parsed_net(w.src_net) is Some
            &&& w.has_dst_port ==> w.dst_port <= 65535
            &&& w.has_src_port ==> w.src_port <= 65535
            &&& w.has_direction ==> w.direction == 1 || w.direction == 2
            &&& w.has_protocol ==> 1 <= w.protocol <= 3
            &&& w.exe_sha256.len() > 0 ==> digest_of(w.exe_sha256) is Some
        },
        read_scope(w) is Ok ==> ({
            let s = read_scope(w)->Ok_0;
            &&& s.exe_path is Some <==> w.exe_path.len() > 0
            &&& s.exe_path is Some ==> s.exe_path->Some_0 == w.exe_path
            &&& s.parent_exe is Some <==> w.parent_exe.len() > 0
            &&& s.parent_exe is Some ==> s.parent_exe->Some_0 == w.parent_exe
            &&& s.dst_host is Some <==> w.dst_host.len() > 0
            &&& s.dst_host is Some ==> s.dst_host->Some_0 == w.dst_host
            &&& s.exe_sha256 is Some <==> w.exe_sha256.len() > 0
            &&& s.exe_sha256 is Some ==> Some(s.exe_sha256->Some_0) == digest_of(w.exe_sha256)
            &&& s.uid is Some <==> w.has_uid
            &&& s.uid is Some ==> s.uid->Some_0 == w.uid
            &&& s.dst_port is Some <==> w.has_dst_port
            &&& s.dst_port is Some ==> s.dst_port->Some_0 == w.dst_port
            &&& s.src_port is Some <==> w.has_src_port
            &&& s.src_port is Some ==> s.src_port->Some_0 == w.src_port
            &&& s.direction is Some <==> w.has_direction
            &&& s.direction is Some ==> (s.direction->Some_0 == Direction::Inbound <==> w.direction
                == 2)
            &&& s.protocol is Some <==> w.has_protocol
            &&& s.protocol is Some ==> Ok::<Protocol, Seq<char>>(s.protocol->Some_0)
                == read_protocol(w.protocol)
            &&& s.dst_net is Some <==> w.dst_net.len() > 0
            &&& s.dst_net is Some ==> s.dst_net == parsed_net(w.dst_net)
            &&& s.src_net is Some <==> w.src_net.len() > 0
            &&& s.src_net is Some ==> s.src_net == parsed_net(w.src_net)
        }),
{
    transport_numbers(w.protocol, Protocol::Tcp);
}

/// A scope is sent field by field: a text that is not set as the empty one, and
/// every other field with a flag that says whether it is set.
pub proof fn a_scope_is_sent_field_by_field(s: Scope)
    ensures
        ({
            let w = wire_scope(s);
            &&& s.exe_path is Some ==> w.exe_path == s.exe_path->Some_0
            &&& s.exe_path is None ==> w.exe_path.len() == 0
            &&& s.parent_exe is Some ==> w.parent_exe == s.parent_exe->Some_0
            &&& s.parent_exe is None ==> w.parent_exe.len() == 0
            &&& s.exe_sha256 is Some ==> w.exe_sha256 == s.exe_sha256->Some_0
            &&& s.exe_sha256 is None ==> w.exe_sha256.len() == 0
            &&& s.dst_host is Some ==> w.dst_host == s.dst_host->Some_0
            &&& s.dst_host is None ==> w.dst_host.len() == 0
            &&& s.dst_net is None ==> w.dst_net.len() == 0
            &&& s.src_net is None ==> w.src_net.len() == 0
            &&& s.dst_net is Some ==> w.dst_net == net_text(
                s.dst_net->Some_0.0,
                s.dst_net->Some_0.1,
            )
            &&& s.src_net is Some ==> w.src_net == net_text(
                s.src_net->Some_0.0,
                s.src_net->Some_0.1,
            )
            &&& w.has_uid == (s.uid is Some)
            &&& s.uid is Some ==> w.uid == s.uid->Some_0
            &&& w.has_dst_port == (s.dst_port is Some)
            &&& s.dst_port is Some ==> w.dst_port == s.dst_port->Some_0
            &&& w.has_src_port == (s.src_port is Some)
            &&& s.src_port is Some ==> w.src_port == s.src_port->Some_0
            &&& w.has_direction == (s.direction is Some)
            &&& s.direction is Some ==> w.direction == (if s.direction->Some_0 == Direction::Inbound {
                2int
            } else {
                1
            })
            &&& w.has_protocol == (s.protocol is Some)
            &&& s.protocol is Some ==> w.protocol == wire_protocol(
                s.protocol->Some_0,
            ).spec_number()
        }),
{
}

/// A scope sets nothing only if none of its fields is set, and what makes a
/// scope unmatchable is the same for what was read and what is kept.
pub proof fn a_scope_that_sets_something_says_so(s: RuleScope)
    ensures
        constrains_nothing(s@) <==> s.direction is None && s.src_net is None && s.src_port is None
            && s.exe_path is None && s.exe_sha256 is None && s.parent_exe is None && s.uid is None
            && s.dst_host is None && s.dst_net is None && s.dst_port is None && s.protocol is None,
        scope_fault(s@) == s.unmatchable(),
{
}

/// A rule message is taken as it was sent: its name, its switch and its count as
/// they are, its action and duration by their numbers and its scope as it is
/// read. Its id is the one it names, or the fresh one if it names none, and its
/// time the one it gives, or the present if it gives none that a calendar has.
/// It is refused if and only if one of these cannot be read, or the scope sets
/// nothing or can never match.
pub proof fn a_rule_is_read_field_by_field(m: &pb::RuleInfo, fresh: u128, now: i64)
    requires
        m.scope is Some,
    ensures
        read_rule(m, fresh, now) is Ok <==> {
            &&& m.id@.len() > 0 ==> parsed_uuid(m.id@) is Ok
            &&& read_scope(m.scope->Some_0@) is Ok
            &&& !constrains_nothing(read_scope(m.scope->Some_0@)->Ok_0)
            &&& scope_fault(read_scope(m.scope->Some_0@)->Ok_0) is None
            &&& 1 <= m.action <= 3
            &&& 1 <= m.duration <= 3
        },
        read_rule(m, fresh, now) is Ok ==> ({
            let r = read_rule(m, fresh, now)->Ok_0;
            &&& m.id@.len() == 0 ==> r.id == fresh
            &&& m.id@.len() > 0 ==> Ok::<u128, Seq<char>>(r.id) == parsed_uuid(m.id@)
            &&& r.body.name == m.name@
            &&& r.body.enabled == m.enabled
            &&& r.body.hit_count == m.hit_count
            &&& r.body.action == Action::Allow <==> m.action == 1
            &&& r.body.action == Action::Deny <==> m.action == 2
            &&& r.body.duration == Duration::Once <==> m.duration == 1
            &&& r.body.duration == Duration::UntilRestart <==> m.duration == 2
            &&& r.body.duration == Duration::Always <==> m.duration == 3
            &&& Ok::<Scope, Seq<char>>(r.body.scope) == read_scope(m.scope->Some_0@)
            &&& m.created_at_unix_ms != 0 && in_calendar(m.created_at_unix_ms)
                ==> r.created_at_unix_ms == m.created_at_unix_ms
            &&& m.created_at_unix_ms == 0 || !in_calendar(m.created_at_unix_ms)
                ==> r.created_at_unix_ms == now
        }),
{
}

/// A rule message without a scope is refused, as one whose scope sets nothing.
pub proof fn a_rule_without_a_scope_is_refused(m: &pb::RuleInfo, fresh: u128, now: i64)
    requires
        m.scope is None || read_scope(m.scope->Some_0@) is Ok && constrains_nothing(
            read_scope(m.scope->Some_0@)->Ok_0,
        ),
    ensures
        read_rule(m, fresh, now) is Err,
        m.id@.len() == 0 ==> read_rule(m, fresh, now) == Err::<Whole, Seq<char>>(UNSCOPED@),
{
}

/// What a rule says is what its fields say.
pub proof fn a_rule_says_what_its_fields_say(r: Rule)
    ensures
        whole(r).id == r.id,
        whole(r).created_at_unix_ms == r.created_at_unix_ms,
        whole(r).body.name == r.name@,
        whole(r).body.enabled == r.enabled,
        whole(r).body.action == r.action,
        whole(r).body.duration == r.duration,
        whole(r).body.hit_count == r.hit_count,
        whole(r).body.scope == r.scope@,
{
}

/// A rule is sent with its own id, name, switch, action, duration, time and
/// count, and the scope that it has.
pub proof fn a_rule_is_sent_field_by_field(r: Rule, p: pb::RuleInfo)
    requires
        written(r, p),
    ensures
        p.id@ == uuid_text(r.id),
        p.name@ == r.name@,
        p.enabled == r.enabled,
        p.action == (if r.action == Action::Allow {
            1int
        } else if r.action == Action::Deny {
            2
        } else {
            3
        }),
        p.duration == (if r.duration == Duration::Once {
            1int
        } else if r.duration == Duration::UntilRestart {
            2
        } else {
            3
        }),
        p.created_at_unix_ms == r.created_at_unix_ms,
        p.hit_count == r.hit_count,
        p.scope is Some && p.scope->Some_0@ == wire_scope(r.scope@),
{
}

/// A connection is shown with its own ends, the source as the source and the
/// destination as the destination.
pub proof fn a_connection_is_shown_as_it_is(c: Connection, r: pb::ConnectionInfo)
    requires
        shows_connection(c, r),
    ensures
        r.id@ == uuid_text(c.id),
        r.timestamp_unix_ms == c.timestamp_unix_ms,
        r.protocol == wire_protocol(c.protocol).spec_number(),
        r.direction == 1 <==> c.direction == Direction::Outbound,
        r.direction == 2 <==> c.direction == Direction::Inbound,
        r.src_ip@ == ip_text(c.src_ip),
        r.src_port == c.src_port,
        r.dst_ip@ == ip_text(c.dst_ip),
        r.dst_port == c.dst_port,
        c.dst_host is Some ==> r.dst_host@ == c.dst_host->Some_0@,
        c.dst_host is None ==> r.dst_host@.len() == 0,
{
}

/// A process is shown as far as it is known, its user and group as unknown where
/// they are.
pub proof fn a_process_is_shown_as_it_is(p: Process, r: pb::ProcessInfo)
    requires
        shows_process(p, r),
    ensures
        r.pid == p.pid,
        p.ppid is Some ==> r.ppid == p.ppid->Some_0,
        p.ppid is None ==> r.ppid == 0,
        r.uid == p.uid,
        r.gid == p.gid,
        r.exe@ == p.exe@,
        r.cmdline@ == p.cmdline@,
        p.cwd is Some ==> r.cwd@ == p.cwd->Some_0@,
        p.cwd is None ==> r.cwd@.len() == 0,
        p.sha256 is Some ==> r.sha256@ == p.sha256->Some_0@,
        p.sha256 is None ==> r.sha256@.len() == 0,
        p.package is Some ==> r.package@ == p.package->Some_0@,
        p.package is None ==> r.package@.len() == 0,
        r.provenance == wire_provenance(p.provenance).spec_number(),
{
}

/// A stored event is rendered as it was stored.
pub proof fn a_stored_event_is_rendered_as_it_is(row: EventRow, r: pb::Event)
    requires
        renders(row, r),
    ensures
        r.ts_unix_ms == row.ts_unix_ms,
        row.proto is Some ==> r.proto@ == row.proto->Some_0@,
        row.src_ip is Some ==> r.src_ip@ == row.src_ip->Some_0@,
        row.dst_ip is Some ==> r.dst_ip@ == row.dst_ip->Some_0@,
        row.src_port is Some ==> r.src_port == row.src_port->Some_0,
        row.dst_port is Some ==> r.dst_port == row.dst_port->Some_0,
        row.src_port is None ==> r.src_port == 0,
        row.dst_port is None ==> r.dst_port == 0,
        row.dst_host is Some ==> r.dst_host@ == row.dst_host->Some_0@,
        row.dst_host is None ==> r.dst_host@.len() == 0,
        row.exe is Some ==> r.exe@ == row.exe->Some_0@,
        row.exe is None ==> r.exe@.len() == 0,
        row.pid is Some ==> r.pid == row.pid->Some_0,
        row.pid is None ==> r.pid == 0,
        r.uid == row.uid,
        row.action@ == "Allow"@ ==> r.action == 1,
        row.action@ == "Deny"@ ==> r.action == 2,
        row.action@ == "Reject"@ ==> r.action == 3,
        row.action@ != "Allow"@ && row.action@ != "Deny"@ && row.action@ != "Reject"@ ==> r.action
            == 0,
        r.source@ == row.source@,
        row.rule_id is Some ==> r.rule_id@ == row.rule_id->Some_0@,
        row.rule_id is None ==> r.rule_id@.len() == 0,
{
    stored_words(Action::Allow, row.action@, VerdictSource::UserPrompt);
}

/// An IPv4 address is written as its four bytes, the most significant first,
/// with dots between them.
pub proof fn an_address_is_written_byte_by_byte(a: u8, b: u8, c: u8, d: u8)
    ensures
        ip_text(IpAddr::V4((a * 0x100_0000 + b * 0x1_0000 + c * 0x100 + d) as u32)) == decimal(
            a as nat,
        ) + "."@ + decimal(b as nat) + "."@ + decimal(c as nat) + "."@ + decimal(d as nat),
{
    let n = (a * 0x100_0000 + b * 0x1_0000 + c * 0x100 + d) as u32;
    lemma_four_bytes(a as nat, b as nat, c as nat, d as nat);
    assert(n as nat == a * 0x100_0000 + b * 0x1_0000 + c * 0x100 + d);
}

proof fn lemma_four_bytes(a: nat, b: nat, c: nat, d: nat)
    requires
        a < 256,
        b < 256,
        c < 256,
        d < 256,
    ensures
        ({
            let n = a * 0x100_0000 + b * 0x1_0000 + c * 0x100 + d;
            &&& n <= u32::MAX
            &&& (n / 0x100_0000) % 256 == a
            &&& (n / 0x1_0000) % 256 == b
            &&& (n / 0x100) % 256 == c
            &&& n % 256 == d
        }),
{
    let n = a * 0x100_0000 + b * 0x1_0000 + c * 0x100 + d;
    assert(n / 0x100_0000 == a);
    assert(n / 0x1_0000 == a * 0x100 + b);
    assert(n / 0x100 == a * 0x1_0000 + b * 0x100 + c);
}

/// A result agrees with what it should be if both succeed with the same value,
/// or both fail with the same words.
pub proof fn results_agree_in_value_and_words(a: u64, b: u64, e: String, f: Seq<char>)
    ensures
        agrees(Ok::<u64, String>(a), Ok::<u64, Seq<char>>(b)) <==> a == b,
        agrees(Err::<u64, String>(e), Err::<u64, Seq<char>>(f)) <==> e@ == f,
        !agrees(Ok::<u64, String>(a), Err::<u64, Seq<char>>(f)),
        !agrees(Err::<u64, String>(e), Ok::<u64, Seq<char>>(b)),
{
}

} // verus!
