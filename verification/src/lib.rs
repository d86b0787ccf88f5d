//! The decision core of a per-application firewall daemon: what to do with a
//! flow, a process, a rule and the kernel's answers, with every rule proved.
//! All input and output happens elsewhere and reaches this crate as plain
//! values.

pub mod collections;
pub mod config;
pub mod convert;
pub mod decision;
pub mod dns;
pub mod dns_wire;
pub mod ebpf;
pub mod ipc;
pub mod model;
pub mod nfqueue;
pub mod outside;
pub mod packet;
pub mod prompts;
pub mod proto;
pub mod run;
pub mod stats;
pub mod storage;
pub mod text;
