//! The five-tuple of a queued packet.

use crate::model::{Connection, Direction, IpAddr, Protocol};
use crate::outside::{fresh_uuid, is_random_id};
use vstd::prelude::*;

verus! {

/// Why a packet has no five-tuple.
#[derive(Debug, Clone, Copy, PartialEq, Eq, Structural)]
pub enum ParseError {
    Empty,
    /// Not an IP version this machine speaks.
    Version(u8),
    /// The packet ends inside a header.
    Truncated,
}

/// The number that `n` bytes make, most significant first.
pub open spec fn be(s: Seq<u8>, from: int, n: nat) -> nat
    decreases n,
{
    if n == 0 {
        0
    } else {
        be(s, from, (n - 1) as nat) * 256 + s[from + n - 1] as nat
    }
}

spec fn full(n: nat) -> nat
    decreases n,
{
    if n == 0 {
        1
    } else {
        full((n - 1) as nat) * 256
    }
}

proof fn lemma_full(n: nat)
    requires
        n <= 16,
    ensures
        full(n) <= 0x1_0000_0000_0000_0000_0000_0000_0000_0000,
        n <= 2 ==> full(n) <= 0x1_0000,
        n <= 4 ==> full(n) <= 0x1_0000_0000,
{
    reveal_with_fuel(full, 17);
}

pub(crate) fn be_value(s: &[u8], from: usize, n: usize) -> (r: u128)
    requires
        from + n <= s@.len(),
        n <= 16,
    ensures
        r == be(s@, from as int, n as nat),
        n <= 2 ==> r < 0x1_0000,
        n <= 4 ==> r < 0x1_0000_0000,
{
    let mut v: u128 = 0;
    let mut i: usize = 0;
    let len: usize = s.len();
    while i < n
        invariant
            len == s@.len(),
            from + n <= len,
            i <= n <= 16,
            v == be(s@, from as int, i as nat),
            v < full(i as nat),
        decreases n - i,
    {
        proof {
            lemma_full((i + 1) as nat);
            assert(v * 256 + 255 < full((i + 1) as nat));
        }
        v = v * 256 + s[from + i] as u128;
        i += 1;
    }
    proof {
        lemma_full(n as nat);
    }
    v
}

/// The transport that a protocol number stands for.
pub open spec fn transport(n: u8) -> Protocol {
    if n == 6 {
        Protocol::Tcp
    } else if n == 17 {
        Protocol::Udp
    } else if n == 1 || n == 58 {
        Protocol::Icmp
    } else {
        Protocol::Other(n)
    }
}

fn transport_of(n: u8) -> (r: Protocol)
    ensures
        r == transport(n),
{
    if n == 6 {
        Protocol::Tcp
    } else if n == 17 {
        Protocol::Udp
    } else if n == 1 || n == 58 {
        Protocol::Icmp
    } else {
        Protocol::Other(n)
    }
}

/// Whether a transport has ports.
pub open spec fn has_ports(p: Protocol) -> bool {
    p == Protocol::Tcp || p == Protocol::Udp
}

/// The two ports at the start of a transport header; a transport without ports
/// has two zeroes.
pub open spec fn ports(s: Seq<u8>, at: int, p: Protocol) -> Result<(u16, u16), ParseError> {
    if !has_ports(p) {
        Ok((0, 0))
    } else if s.len() < at + 4 {
        Err(ParseError::Truncated)
    } else {
        Ok((be(s, at, 2) as u16, be(s, at + 2, 2) as u16))
    }
}

fn ports_at(s: &[u8], at: usize, p: Protocol) -> (r: Result<(u16, u16), ParseError>)
    requires
        at <= s@.len(),
    ensures
        r == ports(s@, at as int, p),
{
    match p {
        Protocol::Tcp | Protocol::Udp => {
            if s.len() - at < 4 {
                return Err(ParseError::Truncated);
            }
            let src: u16 = be_value(s, at, 2) as u16;
            let dst: u16 = be_value(s, at + 2, 2) as u16;
            Ok((src, dst))
        },
        _ => Ok((0, 0)),
    }
}

/// The five-tuple of a packet.
pub ghost struct FiveTuple {
    pub protocol: Protocol,
    pub src: (IpAddr, u16),
    pub dst: (IpAddr, u16),
}

/// How long an IPv4 header says it is.
pub open spec fn header_len(first: u8) -> int {
    (first as int % 16) * 4
}

/// The five-tuple of an IPv4 packet.
pub open spec fn read_v4(s: Seq<u8>) -> Result<FiveTuple, ParseError> {
    if s.len() < 20 || header_len(s[0]) < 20 || s.len() < header_len(s[0]) {
        Err(ParseError::Truncated)
    } else {
        let protocol = transport(s[9]);
        match ports(s, header_len(s[0]), protocol) {
            Err(e) => Err(e),
            Ok((sp, dp)) => Ok(
                FiveTuple {
                    protocol,
                    src: (IpAddr::V4(be(s, 12, 4) as u32), sp),
                    dst: (IpAddr::V4(be(s, 16, 4) as u32), dp),
                },
            ),
        }
    }
}

/// The five-tuple of an IPv6 packet. The transport is the one that the fixed
/// header names.
pub open spec fn read_v6(s: Seq<u8>) -> Result<FiveTuple, ParseError> {
    if s.len() < 40 {
        Err(ParseError::Truncated)
    } else {
        let protocol = transport(s[6]);
        match ports(s, 40, protocol) {
            Err(e) => Err(e),
            Ok((sp, dp)) => Ok(
                FiveTuple {
                    protocol,
                    src: (IpAddr::V6(be(s, 8, 16) as u128), sp),
                    dst: (IpAddr::V6(be(s, 24, 16) as u128), dp),
                },
            ),
        }
    }
}

/// The five-tuple of a packet, or why it has none.
pub open spec fn read_packet(s: Seq<u8>) -> Result<FiveTuple, ParseError> {
    if s.len() == 0 {
        Err(ParseError::Empty)
    } else if s[0] / 16 == 4 {
        read_v4(s)
    } else if s[0] / 16 == 6 {
        read_v6(s)
    } else {
        Err(ParseError::Version((s[0] / 16) as u8))
    }
}

/// A connection of which only the five-tuple is known.
pub open spec fn bare(t: FiveTuple, direction: Direction, id: u128, ts: i64) -> Connection {
    Connection {
        id,
        timestamp_unix_ms: ts,
        protocol: t.protocol,
        direction,
        src_ip: t.src.0,
        src_port: t.src.1,
        dst_ip: t.dst.0,
        dst_port: t.dst.1,
        dst_host: None,
        pid: None,
        uid: None,
    }
}

/// The connection a packet belongs to, or why it has none.
pub open spec fn read_connection(s: Seq<u8>, direction: Direction, id: u128, ts: i64) -> Result<
    Connection,
    ParseError,
> {
    match read_packet(s) {
        Ok(t) => Ok(bare(t, direction, id, ts)),
        Err(e) => Err(e),
    }
}

/// Reads the five-tuple of a packet, into a connection with this id and time.
pub fn parse_as(payload: &[u8], direction: Direction, id: u128, timestamp_unix_ms: i64) -> (r:
    Result<Connection, ParseError>)
    ensures
        r == read_connection(payload@, direction, id, timestamp_unix_ms),
{
    if payload.len() == 0 {
        return Err(ParseError::Empty);
    }
    let version: u8 = payload[0] / 16;
    if version == 4 {
        if payload.len() < 20 {
            return Err(ParseError::Truncated);
        }
        let header: usize = (payload[0] % 16) as usize * 4;
        if header < 20 || payload.len() < header {
            return Err(ParseError::Truncated);
        }
        let protocol = transport_of(payload[9]);
        let (src_port, dst_port) = match ports_at(payload, header, protocol) {
            Ok(p) => p,
            Err(e) => {
                return Err(e);
            },
        };
        let src: u32 = be_value(payload, 12, 4) as u32;
        let dst: u32 = be_value(payload, 16, 4) as u32;
        Ok(
            Connection::new(
                id,
                timestamp_unix_ms,
                protocol,
                direction,
                (IpAddr::V4(src), src_port),
                (IpAddr::V4(dst), dst_port),
            ),
        )
    } else if version == 6 {
        if payload.len() < 40 {
            return Err(ParseError::Truncated);
        }
        let protocol = transport_of(payload[6]);
        let (src_port, dst_port) = match ports_at(payload, 40, protocol) {
            Ok(p) => p,
            Err(e) => {
                return Err(e);
            },
        };
        let src: u128 = be_value(payload, 8, 16);
        let dst: u128 = be_value(payload, 24, 16);
        Ok(
            Connection::new(
                id,
                timestamp_unix_ms,
                protocol,
                direction,
                (IpAddr::V6(src), src_port),
                (IpAddr::V6(dst), dst_port),
            ),
        )
    } else {
        Err(ParseError::Version(version))
    }
}

/// Reads the five-tuple of a packet, into a connection with a random id.
pub fn parse(payload: &[u8], direction: Direction, timestamp_unix_ms: i64) -> (r: Result<
    Connection,
    ParseError,
>)
    ensures
        exists|id: u128|
            is_random_id(id) && r == #[trigger] read_connection(
                payload@,
                direction,
                id,
                timestamp_unix_ms,
            ),
{
    parse_as(payload, direction, fresh_uuid(), timestamp_unix_ms)
}

/// A number in so many bytes, the most significant first.
pub open spec fn big_endian(v: nat, n: nat) -> Seq<u8>
    decreases n,
{
    if n == 0 {
        Seq::empty()
    } else {
        big_endian(v / 256, (n - 1) as nat).push((v % 256) as u8)
    }
}

/// A number written in so many bytes, the most significant first, is read back
/// wherever it stands.
pub proof fn numbers_read_back(s: Seq<u8>, from: int, v: nat, n: nat)
    requires
        0 <= from,
        from + n <= s.len(),
        s.subrange(from, from + n) == big_endian(v, n),
    ensures
        n == 1 && v < 0x100 ==> be(s, from, n) == v,
        n == 2 && v < 0x1_0000 ==> be(s, from, n) == v,
        n == 4 && v < 0x1_0000_0000 ==> be(s, from, n) == v,
        n == 16 && v <= u128::MAX ==> be(s, from, n) == v,
        n == 1 ==> be(s, from, n) == s[from],
        n == 2 ==> be(s, from, n) == 256 * s[from] + s[from + 1],
{
    reveal_with_fuel(full, 17);
    if v < full(n) {
        lemma_be(s, from, v, n);
    }
    reveal_with_fuel(be, 3);
}

proof fn lemma_be(s: Seq<u8>, from: int, v: nat, n: nat)
    requires
        0 <= from,
        from + n <= s.len(),
        s.subrange(from, from + n) == big_endian(v, n),
        v < full(n),
    ensures
        be(s, from, n) == v,
    decreases n,
{
    if n > 0 {
        let all = s.subrange(from, from + n);
        assert(all.last() == s[from + n - 1]);
        assert(all.drop_last() =~= s.subrange(from, from + n - 1));
        assert(big_endian(v, n).drop_last() =~= big_endian(v / 256, (n - 1) as nat));
        assert(v / 256 < full((n - 1) as nat)) by (nonlinear_arith)
            requires
                v < full((n - 1) as nat) * 256,
        ;
        lemma_be(s, from, v / 256, (n - 1) as nat);
    }
}

/// A protocol number stands for the transport it was assigned to; the control
/// messages of either family are one transport, and every other number is kept.
pub proof fn protocol_numbers_stand_for_transports(proto: u8)
    ensures
        transport(proto) == Protocol::Tcp <==> proto == 6,
        transport(proto) == Protocol::Udp <==> proto == 17,
        transport(proto) == Protocol::Icmp <==> proto == 1 || proto == 58,
        proto != 6 && proto != 17 && proto != 1 && proto != 58 ==> transport(proto)
            == Protocol::Other(proto),
{
}

/// An IPv4 packet is read as it was written, whatever options its header holds:
/// the protocol at its byte, the source before the destination, and behind the
/// header the source port before the destination port.
pub proof fn an_ipv4_packet_reads_back(
    s: Seq<u8>,
    words: int,
    proto: u8,
    src: u32,
    dst: u32,
    sport: u16,
    dport: u16,
)
    requires
        5 <= words <= 15,
        s.len() >= 4 * words + 4,
        s[0] == 0x40 + words,
        s[9] == proto,
        s.subrange(12, 16) == big_endian(src as nat, 4),
        s.subrange(16, 20) == big_endian(dst as nat, 4),
        s.subrange(4 * words, 4 * words + 2) == big_endian(sport as nat, 2),
        s.subrange(4 * words + 2, 4 * words + 4) == big_endian(dport as nat, 2),
    ensures
        read_packet(s) is Ok,
        ({
            let t = read_packet(s)->Ok_0;
            &&& t.src.0 == IpAddr::V4(src) && t.dst.0 == IpAddr::V4(dst)
            &&& proto == 6 || proto == 17 ==> t.src.1 == sport && t.dst.1 == dport
            &&& proto != 6 && proto != 17 ==> t.src.1 == 0 && t.dst.1 == 0
            &&& t.protocol == transport(proto)
        }),
{
    numbers_read_back(s, 12, src as nat, 4);
    numbers_read_back(s, 16, dst as nat, 4);
    numbers_read_back(s, 4 * words, sport as nat, 2);
    numbers_read_back(s, 4 * words + 2, dport as nat, 2);
    assert(header_len(s[0]) == 4 * words);
}

/// An IPv6 packet is read as it was written: the next header at its byte, the
/// source before the destination, and behind the fixed header the source port
/// before the destination port.
pub proof fn an_ipv6_packet_reads_back(
    s: Seq<u8>,
    proto: u8,
    src: u128,
    dst: u128,
    sport: u16,
    dport: u16,
)
    requires
        s.len() >= 44,
        0x60 <= s[0] <= 0x6f,
        s[6] == proto,
        s.subrange(8, 24) == big_endian(src as nat, 16),
        s.subrange(24, 40) == big_endian(dst as nat, 16),
        s.subrange(40, 42) == big_endian(sport as nat, 2),
        s.subrange(42, 44) == big_endian(dport as nat, 2),
    ensures
        read_packet(s) is Ok,
        ({
            let t = read_packet(s)->Ok_0;
            &&& t.src.0 == IpAddr::V6(src) && t.dst.0 == IpAddr::V6(dst)
            &&& proto == 6 || proto == 17 ==> t.src.1 == sport && t.dst.1 == dport
            &&& proto != 6 && proto != 17 ==> t.src.1 == 0 && t.dst.1 == 0
            &&& t.protocol == transport(proto)
        }),
{
    numbers_read_back(s, 8, src as nat, 16);
    numbers_read_back(s, 24, dst as nat, 16);
    numbers_read_back(s, 40, sport as nat, 2);
    numbers_read_back(s, 42, dport as nat, 2);
}

/// A packet without a byte is empty, one of another version says which, and one
/// that ends before its addresses, its own header or its ports do is truncated;
/// nothing else is refused.
pub proof fn what_is_no_packet_says_why(s: Seq<u8>)
    ensures
        s.len() == 0 <==> read_packet(s) == Err::<FiveTuple, ParseError>(ParseError::Empty),
        s.len() > 0 && !(0x40 <= s[0] <= 0x4f) && !(0x60 <= s[0] <= 0x6f) ==> read_packet(s)
            == Err::<FiveTuple, ParseError>(ParseError::Version((s[0] / 16) as u8)),
        s.len() > 0 && 0x40 <= s[0] <= 0x4f ==> (read_packet(s) is Ok <==> {
            let h = 4 * (s[0] - 0x40);
            &&& s.len() >= 20 && h >= 20 && s.len() >= h
            &&& s[9] == 6 || s[9] == 17 ==> s.len() >= h + 4
        }),
        s.len() > 0 && 0x60 <= s[0] <= 0x6f ==> (read_packet(s) is Ok <==> {
            &&& s.len() >= 40
            &&& s[6] == 6 || s[6] == 17 ==> s.len() >= 44
        }),
        s.len() > 0 && (0x40 <= s[0] <= 0x4f || 0x60 <= s[0] <= 0x6f) && read_packet(s) is Err
            ==> read_packet(s) == Err::<FiveTuple, ParseError>(ParseError::Truncated),
{
}

/// A packet without ports needs no more than its headers, and has no ports.
pub proof fn without_ports_there_are_none(s: Seq<u8>)
    requires
        read_packet(s) is Ok,
        s[0] / 16 == 4 ==> s[9] != 6 && s[9] != 17,
        s[0] / 16 == 6 ==> s[6] != 6 && s[6] != 17,
    ensures
        read_packet(s)->Ok_0.src.1 == 0,
        read_packet(s)->Ok_0.dst.1 == 0,
{
}

/// The connection of a packet is its five-tuple, the id, the time and the
/// direction it was given, and nothing that is not known yet; a packet without
/// a five-tuple has none.
pub proof fn a_connection_starts_from_its_packet(s: Seq<u8>, direction: Direction, id: u128, ts: i64)
    ensures
        read_connection(s, direction, id, ts) is Ok <==> read_packet(s) is Ok,
        read_packet(s) is Err ==> read_connection(s, direction, id, ts) == Err::<
            Connection,
            ParseError,
        >(read_packet(s)->Err_0),
        read_packet(s) is Ok ==> ({
            let c = read_connection(s, direction, id, ts)->Ok_0;
            let t = read_packet(s)->Ok_0;
            &&& c.id == id && c.timestamp_unix_ms == ts && c.direction == direction
            &&& c.protocol == t.protocol
            &&& c.src_ip == t.src.0 && c.src_port == t.src.1
            &&& c.dst_ip == t.dst.0 && c.dst_port == t.dst.1
            &&& c.dst_host is None && c.pid is None && c.uid is None
        }),
{
}

} // verus!
