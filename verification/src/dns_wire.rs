//! The address records of a DNS response.
//!
//! The work on one message is bounded: so many records, so many labels in a
//! name, so many jumps, and every jump goes back. A message that ends early, or
//! holds something else, gives the records before that.

use crate::model::IpAddr;
use crate::outside::{lossy, lossy_text};
use crate::packet::{be, be_value, big_endian, numbers_read_back};
use vstd::prelude::*;

verus! {

/// The length of the header.
pub const DNS_HEADER_LEN: usize = 12;

/// How many records of one message are looked at.
pub const MAX_ANSWERS: usize = 16;

/// How many questions of one message are passed over.
pub const MAX_QUESTIONS: usize = 4;

/// How many labels a name may have.
pub const MAX_LABELS: usize = 32;

/// How many jumps a compressed name may take.
pub const MAX_LABEL_JUMPS: usize = 8;

/// An address record.
#[derive(Debug)]
pub struct DnsAnswer {
    pub name: String,
    pub ip: IpAddr,
    pub ttl: u32,
}

/// What an address record says, with its name as it was sent.
pub ghost struct Record {
    pub name: Seq<u8>,
    pub ip: IpAddr,
    pub ttl: u32,
}

/// Whether a length byte is a jump.
pub open spec fn is_jump(b: u8) -> bool {
    b >= 0xc0
}

/// Where a jump leads.
pub open spec fn jump_target(m: Seq<u8>, at: int) -> int {
    (m[at] - 0xc0) * 256 + m[at + 1]
}

/// A label before the rest of its name.
pub open spec fn dotted(label: Seq<u8>, rest: Seq<u8>) -> Seq<u8> {
    if rest.len() == 0 {
        label
    } else {
        label + seq![0x2eu8] + rest
    }
}

/// The name at `at`, its labels joined by dots.
pub open spec fn name_at(m: Seq<u8>, at: int, labels: nat, jumps: nat) -> Option<Seq<u8>>
    decreases labels + jumps,
{
    if at < 0 || at >= m.len() {
        None
    } else if m[at] == 0 {
        Some(Seq::empty())
    } else if is_jump(m[at]) {
        if at + 1 >= m.len() || jumps == 0 || jump_target(m, at) >= at {
            None
        } else {
            name_at(m, jump_target(m, at), labels, (jumps - 1) as nat)
        }
    } else if m[at] >= 64 || labels == 0 || at + 1 + m[at] > m.len() {
        None
    } else {
        match name_at(m, at + 1 + m[at], (labels - 1) as nat, jumps) {
            Some(rest) => Some(dotted(m.subrange(at + 1, at + 1 + m[at]), rest)),
            None => None,
        }
    }
}

/// Where what follows the name at `at` begins.
pub open spec fn after_name(m: Seq<u8>, at: int, labels: nat) -> Option<int>
    decreases labels,
{
    if at < 0 || at >= m.len() {
        None
    } else if m[at] == 0 {
        Some(at + 1)
    } else if is_jump(m[at]) {
        if at + 2 <= m.len() {
            Some(at + 2)
        } else {
            None
        }
    } else if m[at] >= 64 || labels == 0 || at + 1 + m[at] > m.len() {
        None
    } else {
        after_name(m, at + 1 + m[at], (labels - 1) as nat)
    }
}

fn read_name(m: &[u8], at: usize, labels: usize, jumps: usize) -> (r: Option<Vec<u8>>)
    requires
        labels <= MAX_LABELS,
        jumps <= MAX_LABEL_JUMPS,
    ensures
        match name_at(m@, at as int, labels as nat, jumps as nat) {
            Some(n) => r matches Some(v) && v@ == n,
            None => r is None,
        },
    decreases labels + jumps,
{
    let len: usize = m.len();
    if at >= len {
        return None;
    }
    let b: u8 = m[at];
    if b == 0 {
        let none: Vec<u8> = Vec::new();
        proof {
            assert(none@ =~= Seq::<u8>::empty());
        }
        return Some(none);
    }
    if b >= 0xc0 {
        if len - at < 2 || jumps == 0 {
            return None;
        }
        let target: usize = (b - 0xc0) as usize * 256 + m[at + 1] as usize;
        if target >= at {
            return None;
        }
        return read_name(m, target, labels, jumps - 1);
    }
    let n: usize = b as usize;
    if b >= 64 || labels == 0 || len - at - 1 < n {
        return None;
    }
    let rest = match read_name(m, at + 1 + n, labels - 1, jumps) {
        Some(v) => v,
        None => {
            return None;
        },
    };
    let mut out: Vec<u8> = Vec::new();
    let mut i: usize = 0;
    while i < n
        invariant
            i <= n,
            at + 1 + n <= len,
            len == m@.len(),
            out@ == m@.subrange(at + 1, at + 1 + i),
        decreases n - i,
    {
        proof {
            assert(m@.subrange(at + 1, at + 1 + i).push(m@[at + 1 + i]) =~= m@.subrange(
                at + 1,
                at + 1 + i + 1,
            ));
        }
        out.push(m[at + 1 + i]);
        i += 1;
    }
    let ghost label = out@;
    if rest.len() > 0 {
        out.push(0x2e);
        let mut j: usize = 0;
        proof {
            assert(out@ =~= label + seq![0x2eu8] + rest@.take(0));
        }
        while j < rest.len()
            invariant
                j <= rest@.len(),
                out@ == label + seq![0x2eu8] + rest@.take(j as int),
            decreases rest@.len() - j,
        {
            proof {
                assert((label + seq![0x2eu8] + rest@.take(j as int)).push(rest@[j as int])
                    =~= label + seq![0x2eu8] + rest@.take(j + 1));
            }
            out.push(rest[j]);
            j += 1;
        }
        proof {
            assert(rest@.take(j as int) =~= rest@);
        }
    }
    Some(out)
}

fn skip_name(m: &[u8], at: usize, labels: usize) -> (r: Option<usize>)
    requires
        labels <= MAX_LABELS,
    ensures
        match after_name(m@, at as int, labels as nat) {
            Some(n) => r matches Some(v) && v == n && v <= m@.len(),
            None => r is None,
        },
    decreases labels,
{
    let len: usize = m.len();
    if at >= len {
        return None;
    }
    let b: u8 = m[at];
    if b == 0 {
        return Some(at + 1);
    }
    if b >= 0xc0 {
        return if len - at >= 2 {
            Some(at + 2)
        } else {
            None
        };
    }
    let n: usize = b as usize;
    if b >= 64 || labels == 0 || len - at - 1 < n {
        return None;
    }
    skip_name(m, at + 1 + n, labels - 1)
}

/// Where the records begin, behind `n` questions.
pub open spec fn after_questions(m: Seq<u8>, at: int, n: nat) -> Option<int>
    decreases n,
{
    if n == 0 {
        Some(at)
    } else {
        match after_name(m, at, MAX_LABELS as nat) {
            Some(e) => if e + 4 <= m.len() {
                after_questions(m, e + 4, (n - 1) as nat)
            } else {
                None
            },
            None => None,
        }
    }
}

/// The address a record holds, if it holds one: one of the Internet class, of a
/// type and a length that fit each other.
pub open spec fn address_in(m: Seq<u8>, fixed: int) -> Option<IpAddr> {
    let (kind, class, len) = (be(m, fixed, 2), be(m, fixed + 2, 2), be(m, fixed + 8, 2));
    if class != 1 {
        None
    } else if kind == 1 && len == 4 {
        Some(IpAddr::V4(be(m, fixed + 10, 4) as u32))
    } else if kind == 28 && len == 16 {
        Some(IpAddr::V6(be(m, fixed + 10, 16) as u128))
    } else {
        None
    }
}

/// The address records among the first `n` records from `at` on. A record whose
/// name cannot be read, or that has none, is passed over.
pub open spec fn records(m: Seq<u8>, at: int, n: nat) -> Seq<Record>
    decreases n,
{
    if n == 0 {
        Seq::empty()
    } else {
        match after_name(m, at, MAX_LABELS as nat) {
            None => Seq::empty(),
            Some(fixed) => if fixed + 10 > m.len() || fixed + 10 + be(m, fixed + 8, 2) > m.len() {
                Seq::empty()
            } else {
                let rest = records(m, fixed + 10 + be(m, fixed + 8, 2), (n - 1) as nat);
                match (name_at(m, at, MAX_LABELS as nat, MAX_LABEL_JUMPS as nat), address_in(
                    m,
                    fixed,
                )) {
                    (Some(name), Some(ip)) if name.len() > 0 => seq![
                        Record { name, ip, ttl: be(m, fixed + 4, 4) as u32 },
                    ] + rest,
                    _ => rest,
                }
            },
        }
    }
}

/// The smaller of two numbers.
pub open spec fn at_most(a: nat, b: nat) -> nat {
    if a < b {
        a
    } else {
        b
    }
}

/// Whether a message is a response without an error.
pub open spec fn is_answer(m: Seq<u8>) -> bool {
    m.len() >= DNS_HEADER_LEN && m[2] >= 128 && m[3] % 16 == 0
}

/// The address records of a message.
pub open spec fn answers_in(m: Seq<u8>) -> Seq<Record> {
    if !is_answer(m) || be(m, 4, 2) > MAX_QUESTIONS {
        Seq::empty()
    } else {
        match after_questions(m, DNS_HEADER_LEN as int, be(m, 4, 2)) {
            None => Seq::empty(),
            Some(at) => records(m, at, at_most(be(m, 6, 2), MAX_ANSWERS as nat)),
        }
    }
}

/// Whether `v` are these records, with their names as text.
pub open spec fn tells(v: Seq<DnsAnswer>, r: Seq<Record>) -> bool {
    v.len() == r.len() && forall|i: int|
        0 <= i < r.len() ==> {
            let a = #[trigger] v[i];
            a.name@ == lossy_text(r[i].name) && a.ip == r[i].ip && a.ttl == r[i].ttl
        }
}

/// The address records of a message.
pub fn answers(m: &[u8]) -> (r: Vec<DnsAnswer>)
    ensures
        tells(r@, answers_in(m@)),
{
    let mut out: Vec<DnsAnswer> = Vec::new();
    let len: usize = m.len();
    if len < DNS_HEADER_LEN || m[2] < 128 || m[3] % 16 != 0 {
        return out;
    }
    let questions: usize = be_value(m, 4, 2) as usize;
    if questions > MAX_QUESTIONS {
        return out;
    }
    let mut at: usize = DNS_HEADER_LEN;
    let mut left: usize = questions;
    let ghost start = after_questions(m@, DNS_HEADER_LEN as int, be(m@, 4, 2));
    while left > 0
        invariant
            len == m@.len(),
            at <= len,
            is_answer(m@),
            be(m@, 4, 2) <= MAX_QUESTIONS,
            out@.len() == 0,
            start == after_questions(m@, DNS_HEADER_LEN as int, be(m@, 4, 2)),
            start == after_questions(m@, at as int, left as nat),
        decreases left,
    {
        match skip_name(m, at, MAX_LABELS) {
            Some(e) => {
                if len - e < 4 {
                    return out;
                }
                at = e + 4;
            },
            None => {
                return out;
            },
        }
        left -= 1;
    }
    let count: usize = be_value(m, 6, 2) as usize;
    let mut n: usize = if count < MAX_ANSWERS {
        count
    } else {
        MAX_ANSWERS
    };
    let ghost all = answers_in(m@);
    proof {
        assert(all == records(m@, at as int, n as nat));
    }
    let ghost mut done: Seq<Record> = Seq::empty();
    proof {
        assert(done + records(m@, at as int, n as nat) =~= all);
    }
    while n > 0
        invariant
            len == m@.len(),
            all == answers_in(m@),
            tells(out@, done),
            done + records(m@, at as int, n as nat) == all,
        decreases n,
    {
        proof {
            assert(done + Seq::<Record>::empty() =~= done);
        }
        let fixed: usize = match skip_name(m, at, MAX_LABELS) {
            Some(e) => e,
            None => {
                return out;
            },
        };
        if len - fixed < 10 {
            return out;
        }
        let size: usize = be_value(m, fixed + 8, 2) as usize;
        if len - fixed - 10 < size {
            return out;
        }
        let kind: u128 = be_value(m, fixed, 2);
        let class: u128 = be_value(m, fixed + 2, 2);
        let ttl: u32 = be_value(m, fixed + 4, 4) as u32;
        let ip = if class != 1 {
            None
        } else if kind == 1 && size == 4 {
            Some(IpAddr::V4(be_value(m, fixed + 10, 4) as u32))
        } else if kind == 28 && size == 16 {
            Some(IpAddr::V6(be_value(m, fixed + 10, 16)))
        } else {
            None
        };
        let ghost rest = records(m@, fixed + 10 + size, (n - 1) as nat);
        proof {
            assert(ip == address_in(m@, fixed as int));
        }
        if let Some(ip) = ip {
            if let Some(name) = read_name(m, at, MAX_LABELS, MAX_LABEL_JUMPS) {
                if name.len() > 0 {
                    let said = lossy(name.as_slice());
                    out.push(DnsAnswer { name: said, ip, ttl });
                    proof {
                        let one = Record { name: name@, ip, ttl };
                        assert(done + (seq![one] + rest) =~= done.push(one) + rest);
                        done = done.push(one);
                    }
                }
            }
        }
        at = fixed + 10 + size;
        n -= 1;
    }
    proof {
        assert(done + Seq::<Record>::empty() =~= done);
    }
    out
}

/// However large a message claims to be, it gives no more records than are
/// looked at.
pub proof fn the_records_are_bounded(m: Seq<u8>)
    ensures
        answers_in(m).len() <= MAX_ANSWERS,
{
    if let Some(at) = after_questions(m, DNS_HEADER_LEN as int, be(m, 4, 2)) {
        lemma_bounded(m, at, at_most(be(m, 6, 2), MAX_ANSWERS as nat));
    }
}

proof fn lemma_bounded(m: Seq<u8>, at: int, n: nat)
    ensures
        records(m, at, n).len() <= n,
    decreases n,
{
    if n > 0 {
        if let Some(fixed) = after_name(m, at, MAX_LABELS as nat) {
            lemma_bounded(m, fixed + 10 + be(m, fixed + 8, 2), (n - 1) as nat);
        }
    }
}

/// What is not a response without an error tells nothing.
pub proof fn only_good_responses_tell(m: Seq<u8>)
    requires
        !is_answer(m),
    ensures
        answers_in(m).len() == 0,
{
}

/// The labels of a name as they are sent: each behind its length, and a zero.
pub open spec fn wire_name(labels: Seq<Seq<u8>>) -> Seq<u8>
    decreases labels.len(),
{
    if labels.len() == 0 {
        seq![0u8]
    } else {
        seq![labels[0].len() as u8] + labels[0] + wire_name(labels.skip(1))
    }
}

/// The labels of a name with a dot between each two.
pub open spec fn text_name(labels: Seq<Seq<u8>>) -> Seq<u8>
    decreases labels.len(),
{
    if labels.len() == 0 {
        Seq::empty()
    } else if labels.len() == 1 {
        labels[0]
    } else {
        labels[0] + seq![0x2eu8] + text_name(labels.skip(1))
    }
}

/// Whether labels can be sent: there are some but not too many, and each has
/// one to 63 bytes.
pub open spec fn sendable(labels: Seq<Seq<u8>>) -> bool {
    1 <= labels.len() <= 32 && forall|i: int|
        0 <= i < labels.len() ==> 1 <= (#[trigger] labels[i]).len() <= 63
}

/// An address record as it is sent.
pub open spec fn wire_record(labels: Seq<Seq<u8>>, ip: IpAddr, ttl: u32) -> Seq<u8> {
    wire_name(labels) + (match ip {
        IpAddr::V4(a) => seq![0u8, 1, 0, 1] + big_endian(ttl as nat, 4) + seq![0u8, 4] + big_endian(
            a as nat,
            4,
        ),
        IpAddr::V6(a) => seq![0u8, 28, 0, 1] + big_endian(ttl as nat, 4) + seq![0u8, 16]
            + big_endian(a as nat, 16),
    })
}

/// An address record that is sent.
pub ghost struct Sent {
    pub labels: Seq<Seq<u8>>,
    pub ip: IpAddr,
    pub ttl: u32,
}

/// Address records as they are sent, one behind the other.
pub open spec fn wire_records(sent: Seq<Sent>) -> Seq<u8>
    decreases sent.len(),
{
    if sent.len() == 0 {
        Seq::empty()
    } else {
        wire_record(sent[0].labels, sent[0].ip, sent[0].ttl) + wire_records(sent.skip(1))
    }
}

/// Questions as they are sent, one behind the other: a name, a type and a class.
pub open spec fn wire_questions(asked: Seq<Seq<Seq<u8>>>, kind: Seq<u8>) -> Seq<u8>
    decreases asked.len(),
{
    if asked.len() == 0 {
        Seq::empty()
    } else {
        wire_name(asked[0]) + kind + wire_questions(asked.skip(1), kind)
    }
}

proof fn lemma_wire_name(m: Seq<u8>, pre: Seq<u8>, labels: Seq<Seq<u8>>, post: Seq<u8>, n: nat, jumps: nat)
    requires
        m == pre + wire_name(labels) + post,
        labels.len() <= n,
        forall|i: int| 0 <= i < labels.len() ==> 1 <= (#[trigger] labels[i]).len() <= 63,
    ensures
        name_at(m, pre.len() as int, n, jumps) == Some(text_name(labels)),
        after_name(m, pre.len() as int, n) == Some((pre.len() + wire_name(labels).len()) as int),
        labels.len() > 0 ==> text_name(labels).len() > 0,
    decreases labels.len(),
{
    let at = pre.len() as int;
    if labels.len() == 0 {
        assert(m[at] == 0);
    } else {
        let l = labels[0];
        let b = l.len() as u8;
        let tail = labels.skip(1);
        let pre2 = pre + seq![b] + l;
        assert(m =~= pre2 + wire_name(tail) + post);
        assert forall|i: int| 0 <= i < tail.len() implies 1 <= (#[trigger] tail[i]).len() <= 63 by {
            assert(tail[i] == labels[i + 1]);
        }
        lemma_wire_name(m, pre2, tail, post, (n - 1) as nat, jumps);
        assert(m[at] == b);
        assert(pre2.len() == at + 1 + b);
        assert(m.subrange(at + 1, at + 1 + b) =~= l);
        assert(wire_name(labels).len() == 1 + l.len() + wire_name(tail).len());
        assert(wire_name(tail).len() >= 1) by {
            reveal_with_fuel(wire_name, 2);
        }
        if tail.len() == 0 {
            assert(text_name(tail).len() == 0);
        }
    }
}

proof fn lemma_wire_record(m: Seq<u8>, pre: Seq<u8>, s: Sent, post: Seq<u8>, n: nat)
    requires
        m == pre + wire_record(s.labels, s.ip, s.ttl) + post,
        sendable(s.labels),
        n > 0,
    ensures
        records(m, pre.len() as int, n) == seq![
            Record { name: text_name(s.labels), ip: s.ip, ttl: s.ttl },
        ] + records(
            m,
            (pre.len() + wire_record(s.labels, s.ip, s.ttl).len()) as int,
            (n - 1) as nat,
        ),
{
    let at = pre.len() as int;
    let w = wire_name(s.labels);
    let body = match s.ip {
        IpAddr::V4(a) => seq![0u8, 1, 0, 1] + big_endian(s.ttl as nat, 4) + seq![0u8, 4]
            + big_endian(a as nat, 4),
        IpAddr::V6(a) => seq![0u8, 28, 0, 1] + big_endian(s.ttl as nat, 4) + seq![0u8, 16]
            + big_endian(a as nat, 16),
    };
    assert(m =~= pre + w + (body + post));
    lemma_wire_name(m, pre, s.labels, body + post, MAX_LABELS as nat, MAX_LABEL_JUMPS as nat);
    let fixed = (pre.len() + w.len()) as int;
    lemma_big_endian_len(s.ttl as nat, 4);
    reveal_with_fuel(be, 3);
    match s.ip {
        IpAddr::V4(a) => {
            lemma_big_endian_len(a as nat, 4);
            assert(m.subrange(fixed + 4, fixed + 8) =~= big_endian(s.ttl as nat, 4));
            assert(m.subrange(fixed + 10, fixed + 14) =~= big_endian(a as nat, 4));
            numbers_read_back(m, fixed + 4, s.ttl as nat, 4);
            numbers_read_back(m, fixed + 10, a as nat, 4);
            assert(m[fixed] == 0 && m[fixed + 1] == 1 && m[fixed + 2] == 0 && m[fixed + 3] == 1);
            assert(m[fixed + 8] == 0 && m[fixed + 9] == 4);
            assert(be(m, fixed, 2) == 1);
            assert(be(m, fixed + 2, 2) == 1);
            assert(be(m, fixed + 8, 2) == 4);
        },
        IpAddr::V6(a) => {
            lemma_big_endian_len(a as nat, 16);
            assert(m.subrange(fixed + 4, fixed + 8) =~= big_endian(s.ttl as nat, 4));
            assert(m.subrange(fixed + 10, fixed + 26) =~= big_endian(a as nat, 16));
            numbers_read_back(m, fixed + 4, s.ttl as nat, 4);
            numbers_read_back(m, fixed + 10, a as nat, 16);
            assert(m[fixed] == 0 && m[fixed + 1] == 28 && m[fixed + 2] == 0 && m[fixed + 3] == 1);
            assert(m[fixed + 8] == 0 && m[fixed + 9] == 16);
            assert(be(m, fixed, 2) == 28);
            assert(be(m, fixed + 2, 2) == 1);
            assert(be(m, fixed + 8, 2) == 16);
        },
    }
}

proof fn lemma_big_endian_len(v: nat, n: nat)
    ensures
        big_endian(v, n).len() == n,
    decreases n,
{
    if n > 0 {
        lemma_big_endian_len(v / 256, (n - 1) as nat);
    }
}

proof fn lemma_wire_records(m: Seq<u8>, pre: Seq<u8>, sent: Seq<Sent>, post: Seq<u8>)
    requires
        m == pre + wire_records(sent) + post,
        forall|i: int| 0 <= i < sent.len() ==> sendable((#[trigger] sent[i]).labels),
    ensures
        records(m, pre.len() as int, sent.len()) == Seq::new(
            sent.len(),
            |i: int|
                Record { name: text_name(sent[i].labels), ip: sent[i].ip, ttl: sent[i].ttl },
        ),
    decreases sent.len(),
{
    let told = Seq::new(
        sent.len(),
        |i: int| Record { name: text_name(sent[i].labels), ip: sent[i].ip, ttl: sent[i].ttl },
    );
    if sent.len() == 0 {
        assert(told =~= Seq::<Record>::empty());
    } else {
        let s = sent[0];
        let rest = sent.skip(1);
        let w = wire_record(s.labels, s.ip, s.ttl);
        assert(m =~= pre + w + (wire_records(rest) + post));
        lemma_wire_record(m, pre, s, wire_records(rest) + post, sent.len());
        assert(m =~= (pre + w) + wire_records(rest) + post);
        assert forall|i: int| 0 <= i < rest.len() implies sendable((#[trigger] rest[i]).labels) by {
            assert(rest[i] == sent[i + 1]);
        }
        lemma_wire_records(m, pre + w, rest, post);
        let later = Seq::new(
            rest.len(),
            |i: int| Record { name: text_name(rest[i].labels), ip: rest[i].ip, ttl: rest[i].ttl },
        );
        assert(told =~= seq![Record { name: text_name(s.labels), ip: s.ip, ttl: s.ttl }] + later);
    }
}

proof fn lemma_wire_questions(
    m: Seq<u8>,
    pre: Seq<u8>,
    asked: Seq<Seq<Seq<u8>>>,
    kind: Seq<u8>,
    post: Seq<u8>,
)
    requires
        m == pre + wire_questions(asked, kind) + post,
        kind.len() == 4,
        forall|i: int| 0 <= i < asked.len() ==> sendable(#[trigger] asked[i]),
    ensures
        after_questions(m, pre.len() as int, asked.len()) == Some(
            (pre.len() + wire_questions(asked, kind).len()) as int,
        ),
    decreases asked.len(),
{
    if asked.len() > 0 {
        let w = wire_name(asked[0]);
        let rest = asked.skip(1);
        assert(sendable(asked[0]));
        assert(m =~= pre + w + (kind + wire_questions(rest, kind) + post));
        lemma_wire_name(
            m,
            pre,
            asked[0],
            kind + wire_questions(rest, kind) + post,
            MAX_LABELS as nat,
            0,
        );
        assert forall|i: int| 0 <= i < rest.len() implies sendable(#[trigger] rest[i]) by {
            assert(rest[i] == asked[i + 1]);
        }
        assert(m =~= (pre + w + kind) + wire_questions(rest, kind) + post);
        lemma_wire_questions(m, pre + w + kind, rest, kind, post);
    }
}

/// A response without an error tells exactly the address records that were sent
/// in it, in their order: each with its name, its whole address, of either
/// family, and its time to live.
pub proof fn address_records_read_back(
    m: Seq<u8>,
    header: Seq<u8>,
    asked: Seq<Seq<Seq<u8>>>,
    kind: Seq<u8>,
    sent: Seq<Sent>,
    post: Seq<u8>,
)
    requires
        header.len() == 12,
        header[2] >= 128,
        header[3] % 16 == 0,
        asked.len() <= 4,
        header[4] == 0 && header[5] == asked.len(),
        sent.len() <= 16,
        header[6] == 0 && header[7] == sent.len(),
        kind.len() == 4,
        forall|i: int| 0 <= i < asked.len() ==> sendable(#[trigger] asked[i]),
        forall|i: int| 0 <= i < sent.len() ==> sendable((#[trigger] sent[i]).labels),
        m == header + wire_questions(asked, kind) + wire_records(sent) + post,
    ensures
        answers_in(m).len() == sent.len(),
        forall|i: int|
            0 <= i < sent.len() ==> {
                &&& (#[trigger] answers_in(m)[i]).name == text_name(sent[i].labels)
                &&& answers_in(m)[i].ip == sent[i].ip
                &&& answers_in(m)[i].ttl == sent[i].ttl
            },
{
    reveal_with_fuel(be, 3);
    assert(m[2] == header[2] && m[3] == header[3]);
    assert(m[4] == header[4] && m[5] == header[5]);
    assert(m[6] == header[6] && m[7] == header[7]);
    assert(be(m, 4, 2) == asked.len());
    assert(be(m, 6, 2) == sent.len());
    let q = wire_questions(asked, kind);
    assert(m =~= header + q + (wire_records(sent) + post));
    lemma_wire_questions(m, header, asked, kind, wire_records(sent) + post);
    assert(m =~= (header + q) + wire_records(sent) + post);
    lemma_wire_records(m, header + q, sent, post);
}

/// A name that is a jump, or ends in one, is the name that the jump leads to, if
/// it leads back; what follows the name follows the jump.
pub proof fn a_jump_reads_the_name_it_leads_to(m: Seq<u8>, at: int, labels: nat, jumps: nat, target: int)
    requires
        0 <= at,
        at + 1 < m.len(),
        0 <= target < at,
        target < 0x4000,
        m[at] == 0xc0 + target / 256,
        m[at + 1] == target % 256,
    ensures
        jumps > 0 ==> name_at(m, at, labels, jumps) == name_at(
            m,
            target,
            labels,
            (jumps - 1) as nat,
        ),
        after_name(m, at, labels) == Some(at + 2),
{
    assert(jump_target(m, at) == target);
}

/// A record whose name reads, of the Internet class and with an address of its
/// type's length, is told with that address and its time to live, and so are
/// the records behind it; one of another class, type or length, or of which the
/// name is empty or cannot be read, is passed over.
pub proof fn a_record_is_told_or_passed_over(
    m: Seq<u8>,
    at: int,
    n: nat,
    fixed: int,
    kind: u16,
    class: u16,
    ttl: u32,
    data: Seq<u8>,
    v4: u32,
    v6: u128,
)
    requires
        n > 0,
        0 <= at,
        0 <= fixed,
        data.len() <= u16::MAX,
        after_name(m, at, 32) == Some(fixed),
        fixed + 10 + data.len() <= m.len(),
        m.subrange(fixed, fixed + 2) == big_endian(kind as nat, 2),
        m.subrange(fixed + 2, fixed + 4) == big_endian(class as nat, 2),
        m.subrange(fixed + 4, fixed + 8) == big_endian(ttl as nat, 4),
        m.subrange(fixed + 8, fixed + 10) == big_endian(data.len(), 2),
        m.subrange(fixed + 10, fixed + 10 + data.len()) == data,
    ensures
        ({
            let name = name_at(m, at, 32, 8);
            let named = name is Some && name->Some_0.len() > 0;
            let rest = records(m, (fixed + 10 + data.len()) as int, (n - 1) as nat);
            &&& named && class == 1 && kind == 1 && data == big_endian(v4 as nat, 4) ==> records(
                m,
                at,
                n,
            ) == seq![Record { name: name->Some_0, ip: IpAddr::V4(v4), ttl }] + rest
            &&& named && class == 1 && kind == 28 && data == big_endian(v6 as nat, 16) ==> records(
                m,
                at,
                n,
            ) == seq![Record { name: name->Some_0, ip: IpAddr::V6(v6), ttl }] + rest
            &&& !named || class != 1 || (kind != 1 && kind != 28) || (kind == 1 && data.len() != 4)
                || (kind == 28 && data.len() != 16) ==> records(m, at, n) == rest
        }),
{
    numbers_read_back(m, fixed, kind as nat, 2);
    numbers_read_back(m, fixed + 2, class as nat, 2);
    numbers_read_back(m, fixed + 4, ttl as nat, 4);
    numbers_read_back(m, fixed + 8, data.len(), 2);
    lemma_big_endian_len(v4 as nat, 4);
    lemma_big_endian_len(v6 as nat, 16);
    if data == big_endian(v4 as nat, 4) {
        numbers_read_back(m, fixed + 10, v4 as nat, 4);
    }
    if data == big_endian(v6 as nat, 16) {
        numbers_read_back(m, fixed + 10, v6 as nat, 16);
    }
}

/// What is told is each record, its address and its time to live as they are and
/// its name as text.
pub proof fn what_is_told_is_the_records(v: Seq<DnsAnswer>, r: Seq<Record>, i: int)
    requires
        tells(v, r),
        0 <= i < r.len(),
    ensures
        v.len() == r.len(),
        v[i].ip == r[i].ip,
        v[i].ttl == r[i].ttl,
        v[i].name@ == lossy_text(r[i].name),
{
    let a = v[i];
}

/// A name that ends early, has a label that is too long, or jumps to where it is
/// or ahead of it cannot be read.
pub proof fn a_broken_name_is_not_read(m: Seq<u8>, at: int, labels: nat, jumps: nat)
    requires
        0 <= at,
    ensures
        at >= m.len() ==> name_at(m, at, labels, jumps) is None && after_name(m, at, labels) is None,
        at < m.len() && 64 <= m[at] < 192 ==> name_at(m, at, labels, jumps) is None && after_name(
            m,
            at,
            labels,
        ) is None,
        at < m.len() && 0 < m[at] < 64 && at + 1 + m[at] >= m.len() ==> name_at(
            m,
            at,
            labels,
            jumps,
        ) is None && after_name(m, at, labels) is None,
        at < m.len() && m[at] >= 192 && at + 1 >= m.len() ==> name_at(m, at, labels, jumps) is None
            && after_name(m, at, labels) is None,
        at + 1 < m.len() && m[at] >= 192 && (m[at] - 192) * 256 + m[at + 1] >= at ==> name_at(
            m,
            at,
            labels,
            jumps,
        ) is None,
        at < m.len() && m[at] == 0 ==> name_at(m, at, labels, jumps) is Some && name_at(
            m,
            at,
            labels,
            jumps,
        )->Some_0.len() == 0 && after_name(m, at, labels) == Some(at + 1),
{
    if at < m.len() && 0 < m[at] < 64 && labels > 0 {
        let e = at + 1 + m[at];
        reveal_with_fuel(name_at, 2);
        reveal_with_fuel(after_name, 2);
    }
}

/// Only a response without an error tells anything, and only if its questions
/// can be passed over.
pub proof fn what_is_no_response_tells_nothing(m: Seq<u8>)
    ensures
        m.len() < 12 ==> answers_in(m).len() == 0,
        m.len() >= 12 && m[2] < 128 ==> answers_in(m).len() == 0,
        m.len() >= 12 && m[3] % 16 != 0 ==> answers_in(m).len() == 0,
{
}

} // verus!
