//! The control protocol, in both directions.

use cfc_daemon::convert::{
    action_db_from_str, action_db_str, action_from_pb, action_to_pb, connection_to_pb,
    direction_from_pb, direction_to_pb, duration_from_pb, duration_to_pb, event_row_from_observed,
    event_row_to_pb, ip_string, process_to_pb, protocol_from_pb, protocol_to_pb,
    provenance_from_pb, provenance_to_pb, reject_unpersistable_duration, rule_from_pb,
    rule_from_pb_at, rule_to_pb, scope_from_pb, scope_to_pb, verdict_source_db_str,
    verdict_to_pb_action,
};
use cfc_daemon::model::{
    Action, Connection, Direction, Duration, IpAddr, IpNet, Process, Protocol, Provenance, Rule,
    RuleScope, Verdict, VerdictSource,
};
use cfc_daemon::outside::{CALENDAR_FIRST_MS, CALENDAR_LAST_MS};
use cfc_daemon::proto as pb;
use cfc_daemon::storage::EventRow;

const NOW: i64 = 1_700_000_000_000;

#[test]
fn action_roundtrip() {
    for a in [Action::Allow, Action::Deny, Action::Reject] {
        let pb = action_to_pb(a).number();
        assert_eq!(action_from_pb(pb).unwrap(), a);
    }
}

#[test]
fn action_unspecified_and_unknown_are_rejected() {
    let unspecified = action_from_pb(0).unwrap_err();
    assert!(unspecified.contains('0'), "{unspecified}");
    let unknown = action_from_pb(99).unwrap_err();
    assert!(unknown.contains("99"), "{unknown}");
    assert!(action_from_pb(-1).is_err());
}

#[test]
fn duration_unspecified_and_unknown_are_rejected() {
    assert!(duration_from_pb(0).is_err());
    assert!(duration_from_pb(99).is_err());
    assert!(duration_from_pb(-1).is_err());
}

#[test]
fn once_duration_is_not_persistable() {
    assert!(reject_unpersistable_duration(Duration::Once).is_err());
    for d in [
        Duration::UntilRestart,
        Duration::Always,
        Duration::Seconds(60),
    ] {
        assert!(reject_unpersistable_duration(d).is_ok());
    }
}

#[test]
fn rule_from_pb_rejects_unspecified_action_and_duration() {
    let mut pb = pb::RuleInfo {
        id: String::new(),
        name: "x".into(),
        enabled: true,
        action: pb::Action::Unspecified.number(),
        duration: pb::Duration::Always.number(),
        scope: Some(pb::RuleScope {
            exe_path: "/usr/bin/curl".into(),
            ..Default::default()
        }),
        created_at_unix_ms: 0,
        hit_count: 0,
    };
    assert!(rule_from_pb(&pb, NOW).is_err());

    pb.action = pb::Action::Deny.number();
    pb.duration = pb::Duration::Unspecified.number();
    assert!(rule_from_pb(&pb, NOW).is_err());

    pb.duration = pb::Duration::Always.number();
    assert!(rule_from_pb(&pb, NOW).is_ok());
}

#[test]
fn a_rule_that_constrains_nothing_is_refused() {
    let mut pb = pb::RuleInfo {
        id: String::new(),
        name: "everything".into(),
        enabled: true,
        action: pb::Action::Allow.number(),
        duration: pb::Duration::Always.number(),
        scope: Some(pb::RuleScope::default()),
        created_at_unix_ms: 0,
        hit_count: 0,
    };
    let e = rule_from_pb(&pb, NOW).expect_err("an unscoped rule must be refused");
    assert!(e.contains("constrains nothing"), "{e}");

    pb.scope = None;
    assert!(rule_from_pb(&pb, NOW).is_err());

    pb.scope = Some(pb::RuleScope {
        has_uid: true,
        uid: 1000,
        ..Default::default()
    });
    assert!(rule_from_pb(&pb, NOW).is_ok());
}

#[test]
fn an_out_of_range_port_is_refused_rather_than_wrapped() {
    let mut scope = pb::RuleScope {
        exe_path: "/usr/bin/curl".into(),
        has_dst_port: true,
        dst_port: 65_979,
        ..Default::default()
    };
    let e = scope_from_pb(&scope).expect_err("65979 is not a port");
    assert!(e.contains("out of range"), "{e}");
    assert!(e.contains("65979"), "the message must quote the value: {e}");

    scope.dst_port = 65_535;
    assert_eq!(scope_from_pb(&scope).unwrap().dst_port, Some(65_535));

    scope.has_dst_port = false;
    scope.dst_port = 999_999;
    assert_eq!(scope_from_pb(&scope).unwrap().dst_port, None);
}

#[test]
fn process_uid_absence_survives_the_wire() {
    let mut p = Process::unknown(42);
    assert_eq!(p.uid, None);
    assert_eq!(process_to_pb(&p).uid, None);
    assert_eq!(process_to_pb(&p).gid, None);

    p.uid = Some(0);
    assert_eq!(process_to_pb(&p).uid, Some(0));
}

#[test]
fn provenance_roundtrip() {
    for p in [
        Provenance::Unknown,
        Provenance::Unpackaged,
        Provenance::Verified,
        Provenance::Modified,
    ] {
        assert_eq!(provenance_from_pb(provenance_to_pb(p).number()), p);
    }
}

#[test]
fn provenance_unknown_absorbs_unset_and_version_skew() {
    assert_eq!(provenance_from_pb(0), Provenance::Unknown);
    assert_eq!(provenance_from_pb(99), Provenance::Unknown);
    assert_eq!(provenance_from_pb(-1), Provenance::Unknown);
}

#[test]
fn process_carries_package_and_provenance_onto_the_wire() {
    let mut p = Process::unknown(42);
    assert_eq!(process_to_pb(&p).package, "");
    assert_eq!(
        process_to_pb(&p).provenance,
        pb::Provenance::Unspecified.number()
    );

    p.package = Some("curl 8.21.0-1".into());
    p.provenance = Provenance::Modified;
    let pb = process_to_pb(&p);
    assert_eq!(pb.package, "curl 8.21.0-1");
    assert_eq!(pb.provenance, pb::Provenance::Modified.number());
    assert_eq!(provenance_from_pb(pb.provenance), Provenance::Modified);

    p.provenance = Provenance::Unknown;
    let pb = process_to_pb(&p);
    assert_eq!(pb.package, "curl 8.21.0-1");
    assert_eq!(pb.provenance, pb::Provenance::Unspecified.number());
}

#[test]
fn protocol_roundtrip() {
    for p in [Protocol::Tcp, Protocol::Udp, Protocol::Icmp] {
        let pb = protocol_to_pb(p).number();
        assert_eq!(protocol_from_pb(pb).unwrap(), p);
    }
}

#[test]
fn duration_roundtrip_common_cases() {
    for d in [Duration::Once, Duration::UntilRestart, Duration::Always] {
        assert_eq!(duration_from_pb(duration_to_pb(d).number()).unwrap(), d);
    }
}

#[test]
fn duration_seconds_collapses_to_always() {
    assert_eq!(
        duration_from_pb(duration_to_pb(Duration::Seconds(60)).number()).unwrap(),
        Duration::Always
    );
}

#[test]
fn scope_roundtrip_full() {
    let scope = RuleScope {
        direction: None,
        src_net: None,
        src_port: None,
        exe_path: Some("/usr/bin/curl".to_string()),
        exe_sha256: Some("a".repeat(64)),
        parent_exe: Some("/bin/bash".to_string()),
        uid: Some(1000),
        dst_host: Some("example.com".into()),
        dst_net: IpNet::new(IpAddr::V4(0x0a00_0000), 8),
        dst_port: Some(443),
        protocol: Some(Protocol::Tcp),
    };
    let pb = scope_to_pb(&scope);
    let back = scope_from_pb(&pb).expect("a scope we produced must convert back");
    assert_eq!(back, scope);
}

#[test]
fn scope_roundtrip_empty() {
    let scope = RuleScope::any();
    let pb = scope_to_pb(&scope);
    let back = scope_from_pb(&pb).expect("a scope we produced must convert back");
    assert_eq!(back, scope);
}

#[test]
fn a_malformed_dst_net_is_refused_not_dropped() {
    let mut pb = scope_to_pb(&RuleScope::any());
    pb.exe_path = "/usr/bin/curl".into();
    pb.dst_net = "10.0.0.0/33".into();
    let e = scope_from_pb(&pb).expect_err("a bad CIDR must not be silently ignored");
    assert!(
        e.contains("dst_net"),
        "the message must name the field: {e}"
    );
    assert!(e.contains("10.0.0.0/33"), "and quote the value: {e}");

    let mut r = rule_to_pb(&Rule::new(1, NOW, "x".to_string(), Action::Allow, RuleScope::any()));
    r.scope = Some(pb);
    assert!(rule_from_pb(&r, NOW).is_err());
}

#[test]
fn an_unspecified_protocol_is_refused_rather_than_made_unmatchable() {
    let mut pb = scope_to_pb(&RuleScope::any());
    pb.has_protocol = true;
    pb.protocol = pb::Protocol::Unspecified.number();
    assert!(scope_from_pb(&pb).is_err());

    pb.protocol = 9999;
    assert!(scope_from_pb(&pb).is_err());

    pb.protocol = pb::Protocol::Other.number();
    assert!(scope_from_pb(&pb).is_err());
}

#[test]
fn an_absent_protocol_is_still_absent_not_an_error() {
    let mut pb = scope_to_pb(&RuleScope::any());
    pb.has_protocol = false;
    pb.protocol = 9999;
    assert_eq!(scope_from_pb(&pb).unwrap().protocol, None);
}

#[test]
fn rule_roundtrip() {
    let mut scope = RuleScope::any();
    scope.exe_path = Some("/usr/bin/curl".to_string());
    scope.dst_port = Some(443);
    let rule = Rule::new(9, NOW, "curl-https".to_string(), Action::Allow, scope);

    let pb = rule_to_pb(&rule);
    let back = rule_from_pb(&pb, NOW).expect("test rule should be valid");
    assert_eq!(back.id, rule.id);
    assert_eq!(back.name, rule.name);
    assert_eq!(back.action, rule.action);
    assert_eq!(back.duration, rule.duration);
    assert_eq!(back.scope, rule.scope);
}

#[test]
fn rule_from_pb_invalid_id() {
    let pb = pb::RuleInfo {
        id: "not-a-uuid".into(),
        name: "x".into(),
        enabled: true,
        action: pb::Action::Allow.number(),
        duration: pb::Duration::Always.number(),
        scope: Some(pb::RuleScope::default()),
        created_at_unix_ms: 0,
        hit_count: 0,
    };
    assert!(rule_from_pb(&pb, NOW).is_err());
}

#[test]
fn connection_to_pb_carries_5tuple() {
    let conn = Connection::new(
        7,
        NOW,
        Protocol::Tcp,
        Direction::Outbound,
        (IpAddr::V4(0x0102_0304), 5555),
        (IpAddr::V4(0x0808_0808), 443),
    );
    let pb = connection_to_pb(&conn);
    assert_eq!(pb.src_ip, "1.2.3.4");
    assert_eq!(pb.dst_ip, "8.8.8.8");
    assert_eq!(pb.src_port, 5555);
    assert_eq!(pb.dst_port, 443);
    assert_eq!(pb.protocol, pb::Protocol::Tcp.number());
}

#[test]
fn event_row_roundtrips_through_the_wire_shape() {
    let mut conn = Connection::new(
        7,
        NOW,
        Protocol::Udp,
        Direction::Outbound,
        (IpAddr::V4(0x0a00_0002), 5353),
        (IpAddr::V4(0x0101_0101), 53),
    );
    conn.dst_host = Some("one.one.one.one".into());
    let mut proc = Process::unknown(4242);
    proc.exe = "/usr/bin/dig".to_string();
    proc.uid = Some(1000);
    let rule_id = uuid::Uuid::new_v4();
    let verdict = Verdict::from_rule(Action::Deny, rule_id.as_u128());

    let row = event_row_from_observed(&conn, &proc, &verdict);
    assert_eq!(row.action, "Deny");
    assert_eq!(row.source, "rule");
    assert_eq!(row.rule_id.as_deref(), Some(rule_id.to_string().as_str()));
    assert_eq!(row.proto.as_deref(), Some("udp"));
    assert_eq!(row.uid, Some(1000));

    let ev = event_row_to_pb(&row);
    assert_eq!(ev.dst_port, 53);
    assert_eq!(ev.dst_host, "one.one.one.one");
    assert_eq!(ev.exe, "/usr/bin/dig");
    assert_eq!(ev.pid, 4242);
    assert_eq!(ev.uid, Some(1000));
    assert_eq!(ev.action, pb::Action::Deny.number());
}

#[test]
fn event_row_keeps_unattributed_uid_absent() {
    let conn = Connection::new(
        7,
        NOW,
        Protocol::Tcp,
        Direction::Outbound,
        (IpAddr::V4(0x0a00_0002), 1),
        (IpAddr::V4(0x0101_0101), 2),
    );
    let proc = Process::unknown(7);
    let row = event_row_from_observed(&conn, &proc, &Verdict::default_allow());
    assert_eq!(row.uid, None);
    assert_eq!(row.source, "default");
    assert_eq!(row.rule_id, None);
    assert_eq!(event_row_to_pb(&row).uid, None);
}

#[test]
fn event_row_to_pb_tolerates_unknown_action_strings() {
    let row = EventRow {
        action: "Something-Else".into(),
        ..Default::default()
    };
    assert_eq!(
        event_row_to_pb(&row).action,
        pb::Action::Unspecified.number()
    );
}

#[test]
fn action_db_str_matches_the_filter_vocabulary() {
    for a in [Action::Allow, Action::Deny, Action::Reject] {
        assert_eq!(action_db_from_str(action_db_str(a)), Some(a));
    }
}

#[test]
fn directions_survive_the_wire() {
    for d in [Direction::Outbound, Direction::Inbound] {
        assert_eq!(direction_from_pb(direction_to_pb(d).number()).unwrap(), d);
    }
    assert_eq!(
        direction_from_pb(-7).unwrap_err(),
        "direction unspecified/unknown: -7"
    );
}

#[test]
fn a_digest_is_read_in_its_one_spelling() {
    let mut w = pb::RuleScope::default();
    w.exe_sha256 = "AB".repeat(32);
    assert_eq!(scope_from_pb(&w).unwrap().exe_sha256, Some("ab".repeat(32)));
    w.exe_sha256 = "abc123".to_string();
    assert!(scope_from_pb(&w).is_err());
}

#[test]
fn a_bad_source_is_named() {
    let mut w = pb::RuleScope::default();
    w.src_net = "nonsense".to_string();
    assert_eq!(
        scope_from_pb(&w).unwrap_err(),
        "bad src_net `nonsense`: invalid IP address syntax"
    );
    let mut w = pb::RuleScope::default();
    w.has_src_port = true;
    w.src_port = 70_000;
    assert_eq!(
        scope_from_pb(&w).unwrap_err(),
        "src_port 70000 is out of range; a port is 0-65535"
    );
}

#[test]
fn networks_are_written_the_usual_way() {
    let mut scope = RuleScope::any();
    scope.src_net = IpNet::new(IpAddr::V4(0xc0a8_0000), 16);
    scope.dst_net = IpNet::new(IpAddr::V6(0x2001_0db8 << 96), 32);
    let w = scope_to_pb(&scope);
    assert_eq!(w.src_net, "192.168.0.0/16");
    assert_eq!(w.dst_net, "2001:db8::/32");
    assert_eq!(scope_from_pb(&w).unwrap(), scope);
}

#[test]
fn addresses_are_written_the_usual_way() {
    assert_eq!(ip_string(IpAddr::V4(0x7f00_0001)), "127.0.0.1");
    assert_eq!(ip_string(IpAddr::V4(u32::MAX)), "255.255.255.255");
    assert_eq!(ip_string(IpAddr::V6(1)), "::1");
}

#[test]
fn a_rule_without_an_id_gets_the_one_it_is_given() {
    let mut scope = RuleScope::any();
    scope.dst_port = Some(443);
    let mut w = rule_to_pb(&Rule::new(3, NOW, "x".to_string(), Action::Deny, scope));
    assert_eq!(w.id, "00000000-0000-0000-0000-000000000003");
    w.id = String::new();
    w.created_at_unix_ms = 0;
    let r = rule_from_pb_at(&w, 77, NOW + 5).unwrap();
    assert_eq!((r.id, r.created_at_unix_ms), (77, NOW + 5));
    w.created_at_unix_ms = i64::MAX;
    assert_eq!(rule_from_pb_at(&w, 77, NOW + 5).unwrap().created_at_unix_ms, NOW + 5);
    w.created_at_unix_ms = NOW - 9;
    assert_eq!(rule_from_pb_at(&w, 77, NOW + 5).unwrap().created_at_unix_ms, NOW - 9);
    let a = rule_from_pb(&w, NOW).unwrap();
    let b = rule_from_pb(&w, NOW).unwrap();
    assert_ne!(a.id, b.id);
    assert_eq!(a.id >> 76 & 0xf, 4, "a random identifier says that it is one");
}

#[test]
fn a_scope_that_can_never_match_is_refused() {
    let with = |change: fn(&mut RuleScope)| {
        let mut scope = RuleScope::any();
        scope.dst_port = Some(22);
        change(&mut scope);
        let w = rule_to_pb(&Rule::new(3, NOW, "x".to_string(), Action::Deny, scope));
        rule_from_pb(&w, NOW)
    };
    assert!(with(|_| {}).is_ok());
    assert!(with(|s| s.exe_path = Some("curl".to_string())).is_err());
    assert!(with(|s| s.parent_exe = Some("bash".to_string())).is_err());
    assert!(with(|s| {
        s.direction = Some(Direction::Inbound);
        s.dst_host = Some("a.example".to_string());
    })
    .is_err());
    assert!(with(|s| {
        s.direction = Some(Direction::Inbound);
        s.uid = Some(0);
    })
    .is_err());
    assert!(with(|s| s.direction = Some(Direction::Inbound)).is_ok());
}

#[test]
fn who_decided_is_stored_as_a_word() {
    assert_eq!(verdict_source_db_str(&VerdictSource::Rule(1)), "rule");
    assert_eq!(verdict_source_db_str(&VerdictSource::UserPrompt), "user");
    assert_eq!(verdict_source_db_str(&VerdictSource::DefaultPolicy), "default");
    assert_eq!(verdict_source_db_str(&VerdictSource::Timeout), "timeout");
    assert_eq!(verdict_to_pb_action(&Verdict::default_allow()), pb::Action::Allow);
}

#[test]
fn a_time_outside_the_calendar_counts_as_none() {
    let mut scope = RuleScope::any();
    scope.dst_port = Some(443);
    let mut w = rule_to_pb(&Rule::new(3, NOW, "x".to_string(), Action::Deny, scope));
    for (ms, kept) in [
        (CALENDAR_FIRST_MS, true),
        (CALENDAR_FIRST_MS - 1, false),
        (CALENDAR_LAST_MS, true),
        (CALENDAR_LAST_MS + 1, false),
        (i64::MIN, false),
    ] {
        w.created_at_unix_ms = ms;
        let r = rule_from_pb_at(&w, 77, NOW + 5).unwrap();
        assert_eq!(r.created_at_unix_ms, if kept { ms } else { NOW + 5 }, "{ms}");
    }
}

#[test]
fn every_network_is_read_back() {
    let mut nets = Vec::new();
    for prefix in 0..=32 {
        nets.push(IpNet::new(IpAddr::V4(0xc0a8_01ff), prefix).unwrap());
    }
    for a in [0, 1, 0xffff_0102_0304, 0x0102_0304, 1 << 127, u128::MAX, 0x2001_0db8 << 96 | 7] {
        for prefix in [0, 1, 64, 127, 128] {
            nets.push(IpNet::new(IpAddr::V6(a), prefix).unwrap());
        }
    }
    for net in nets {
        let mut scope = RuleScope::any();
        scope.dst_net = Some(net);
        let w = scope_to_pb(&scope);
        assert_eq!(scope_from_pb(&w).unwrap().dst_net, Some(net), "{}", w.dst_net);
    }
    assert_eq!(IpNet::new(IpAddr::V4(0), 33), None);
    assert_eq!(IpNet::new(IpAddr::V6(0), 129), None);
}
