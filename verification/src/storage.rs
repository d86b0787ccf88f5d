//! The rows of the event log, and what a query of it asks for.

use vstd::prelude::*;

verus! {

/// One decided flow, as it is stored.
#[derive(Debug)]
pub struct EventRow {
    pub id: i64,
    pub ts_unix_ms: i64,
    pub proto: Option<String>,
    pub src_ip: Option<String>,
    pub src_port: Option<u16>,
    pub dst_ip: Option<String>,
    pub dst_port: Option<u16>,
    pub dst_host: Option<String>,
    pub exe: Option<String>,
    pub pid: Option<u32>,
    pub uid: Option<u32>,
    pub action: String,
    pub source: String,
    pub rule_id: Option<String>,
}

impl Default for EventRow {
    fn default() -> (r: Self)
        ensures
            r.id == 0,
            r.ts_unix_ms == 0,
            r.proto is None,
            r.src_ip is None,
            r.src_port is None,
            r.dst_ip is None,
            r.dst_port is None,
            r.dst_host is None,
            r.exe is None,
            r.pid is None,
            r.uid is None,
            r.action@.len() == 0,
            r.source@.len() == 0,
            r.rule_id is None,
    {
        EventRow {
            id: 0,
            ts_unix_ms: 0,
            proto: None,
            src_ip: None,
            src_port: None,
            dst_ip: None,
            dst_port: None,
            dst_host: None,
            exe: None,
            pid: None,
            uid: None,
            action: String::new(),
            source: String::new(),
            rule_id: None,
        }
    }
}

/// Which rows a query wants; a filter that is not set admits every row.
#[derive(Debug)]
pub struct EventFilter {
    pub exe_contains: Option<String>,
    pub action: Option<String>,
    pub since_ts_unix_ms: Option<i64>,
}

} // verus!
