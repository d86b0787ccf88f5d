//! The five-tuple of a packet.

use cfc_daemon::model::{Direction, IpAddr, Protocol};
use cfc_daemon::packet::{parse, parse_as, ParseError};

fn v4(protocol: u8, ihl: u8, rest: &[u8]) -> Vec<u8> {
    let mut p = vec![0u8; ihl as usize * 4];
    p[0] = 0x40 | ihl;
    p[9] = protocol;
    p[12..16].copy_from_slice(&[10, 0, 0, 1]);
    p[16..20].copy_from_slice(&[1, 1, 1, 1]);
    p.extend_from_slice(rest);
    p
}

#[test]
fn options_push_the_ports_along() {
    let c = parse_as(&v4(17, 6, &[0, 53, 0x14, 0xe9]), Direction::Outbound, 7, 9).unwrap();
    assert_eq!(c.protocol, Protocol::Udp);
    assert_eq!((c.src_ip, c.src_port), (IpAddr::V4(0x0a00_0001), 53));
    assert_eq!((c.dst_ip, c.dst_port), (IpAddr::V4(0x0101_0101), 5353));
    assert_eq!((c.id, c.timestamp_unix_ms), (7, 9));
    assert!(c.pid.is_none() && c.uid.is_none() && c.dst_host.is_none());
}

#[test]
fn a_transport_without_ports_has_none() {
    let c = parse_as(&v4(1, 5, &[]), Direction::Inbound, 7, 9).unwrap();
    assert_eq!((c.protocol, c.src_port, c.dst_port), (Protocol::Icmp, 0, 0));
    assert_eq!(c.direction, Direction::Inbound);
    let c = parse_as(&v4(47, 5, &[]), Direction::Inbound, 7, 9).unwrap();
    assert_eq!(c.protocol, Protocol::Other(47));
}

#[test]
fn the_longer_addresses_are_read_too() {
    let mut p = vec![0u8; 44];
    p[0] = 0x60;
    p[6] = 6;
    p[23] = 1;
    p[24] = 0x20;
    p[25] = 0x01;
    p[40..44].copy_from_slice(&[0x30, 0x39, 0x01, 0xbb]);
    let c = parse_as(&p, Direction::Outbound, 7, 9).unwrap();
    assert_eq!((c.src_ip, c.src_port), (IpAddr::V6(1), 12345));
    assert_eq!((c.dst_ip, c.dst_port), (IpAddr::V6(0x2001 << 112), 443));
}

#[test]
fn what_is_not_a_packet_says_why() {
    let read = |p: &[u8]| parse_as(p, Direction::Outbound, 7, 9).unwrap_err();
    assert_eq!(read(&[]), ParseError::Empty);
    assert_eq!(read(&[0x90, 0, 0, 0]), ParseError::Version(9));
    assert_eq!(read(&[0x45, 0, 0]), ParseError::Truncated);
    assert_eq!(read(&v4(6, 5, &[1, 2, 3])), ParseError::Truncated);
    let mut short = v4(6, 5, &[0; 20]);
    short[0] = 0x44;
    assert_eq!(read(&short), ParseError::Truncated);
    assert_eq!(read(&[0x60; 39]), ParseError::Truncated);
}

#[test]
fn two_packets_are_two_connections() {
    let p = v4(6, 5, &[0; 4]);
    let a = parse(&p, Direction::Outbound, 9).unwrap();
    let b = parse(&p, Direction::Outbound, 9).unwrap();
    assert_ne!(a.id, b.id);
}

#[test]
fn a_connection_has_a_random_id() {
    let c = parse(&v4(6, 5, &[0; 4]), Direction::Outbound, 9).unwrap();
    assert_eq!((c.id >> 76) & 0xf, 4);
    assert_eq!((c.id >> 62) & 0x3, 2);
}
