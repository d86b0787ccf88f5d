//! In-kernel `connect()` enforcement, and the pins that outlive the daemon.
//!
//! The kernel consults two maps by pid: the refusals, which stay in force when
//! the daemon is gone, and the grants, which mark a socket past the packet queue
//! and are honoured only while the daemon keeps a deadline ahead of now. This
//! module decides what goes into them; it never reads `/proc` or a map itself.
//!
//! One rule for every writer of grants: a grant is re-earned, never inherited.
//! In doubt a refusal stays and a grant goes, because a refusal kept in doubt
//! fails closed and a grant kept in doubt is a bypass.

use crate::decision::{
    first_hit, hits, holds_text, is_for_exe, names_exe, refusal_open, refuses, user_rule_for_all,
    user_rule_names, wide_from, Engine, ProcessVerdict,
};
use crate::model::{Action, Connection, Direction, Process, Provenance, Rule};
use crate::outside::{lossy, lossy_text};
use crate::text::{
    chars_of, decimal_value, lines, parse_decimal, rows, same_text, split_lines, split_words,
    strip_prefix_chars, string_of, text, after_prefix, words,
};
use std::collections::HashMap;
use vstd::prelude::*;
use vstd::slice::slice_subrange;
use vstd::string::StringExecFns;

verus! {

broadcast use vstd::std_specs::hash::group_hash_axioms;

/// What the kernel appends to the path of an executable that was replaced while
/// it runs.
pub const DELETED_SUFFIX: &'static str = " (deleted)";

/// What precedes a suffix, where there is one.
pub open spec fn before_suffix(s: Seq<char>, p: Seq<char>) -> Seq<char> {
    if s.len() >= p.len() && s.skip(s.len() - p.len()) == p {
        s.take(s.len() - p.len())
    } else {
        s
    }
}

/// The path of a running executable, from what the kernel says of it.
pub fn proc_exe(link: &str) -> (r: String)
    ensures
        r@ == before_suffix(link@, DELETED_SUFFIX@),
{
    let s: Vec<char> = chars_of(link);
    let p: Vec<char> = chars_of(DELETED_SUFFIX);
    if s.len() >= p.len() {
        let at: usize = s.len() - p.len();
        let tail = slice_subrange(s.as_slice(), at, s.len());
        proof {
            assert(tail@ =~= s@.skip(at as int));
        }
        if crate::text::chars_eq(tail, p.as_slice()) {
            let head = slice_subrange(s.as_slice(), 0, at);
            proof {
                assert(head@ =~= s@.take(at as int));
            }
            return string_of(head);
        }
    }
    string_of(s.as_slice())
}

/// What follows the prefix of the first line that has it.
pub open spec fn first_line_after(v: Seq<Seq<char>>, p: Seq<char>) -> Option<Seq<char>>
    decreases v.len(),
{
    if v.len() == 0 {
        None
    } else if after_prefix(v[0], p) is Some {
        after_prefix(v[0], p)
    } else {
        first_line_after(v.skip(1), p)
    }
}

/// The user of a process, from the text of its status file.
pub open spec fn status_uid(s: Seq<char>) -> Option<u32> {
    match first_line_after(lines(s), "Uid:"@) {
        None => None,
        Some(rest) => if words(rest).len() == 0 {
            None
        } else {
            match decimal_value(words(rest)[0], u32::MAX as nat) {
                Some(n) => Some(n as u32),
                None => None,
            }
        },
    }
}

/// The real user of a live process, from its status file. The file carries the
/// program's name raw, so it is read lossily.
pub fn proc_uid(status: &[u8]) -> (r: Option<u32>)
    ensures
        r == status_uid(lossy_text(status@)),
{
    let decoded = lossy(status);
    let all: Vec<char> = chars_of(decoded.as_str());
    let found = split_lines(all.as_slice());
    let ghost v = lines(all@);
    let mut i: usize = 0;
    proof {
        assert(v.skip(0) =~= v);
    }
    while i < found.len()
        invariant
            i <= found@.len(),
            rows(found@) == v,
            v == lines(lossy_text(status@)),
            first_line_after(v, "Uid:"@) == first_line_after(v.skip(i as int), "Uid:"@),
        decreases found@.len() - i,
    {
        proof {
            assert(rows(found@)[i as int] == found@[i as int]@);
            assert(v.skip(i as int)[0] == v[i as int]);
            assert(v.skip(i as int).skip(1) =~= v.skip(i + 1));
        }
        if let Some(rest) = strip_prefix_chars(found[i].as_slice(), "Uid:") {
            let parts = split_words(rest.as_slice());
            proof {
                assert(rows(parts@).len() == parts@.len());
            }
            if parts.len() == 0 {
                return None;
            }
            proof {
                assert(rows(parts@)[0] == parts@[0]@);
            }
            return match parse_decimal(parts[0].as_slice(), u32::MAX as u64) {
                Some(n) => Some(n as u32),
                None => None,
            };
        }
        i += 1;
    }
    proof {
        assert(rows(found@).len() == found@.len());
        assert(v.skip(i as int).len() == 0);
    }
    None
}

/// Where a character stands last.
pub open spec fn last_index(s: Seq<char>, c: char) -> Option<int>
    decreases s.len(),
{
    if s.len() == 0 {
        None
    } else if s.last() == c {
        Some(s.len() - 1)
    } else {
        last_index(s.drop_last(), c)
    }
}

/// The start time of a process, from the text of its stat file: the twentieth
/// word after the last closing bracket. The name before it may itself hold
/// brackets and blanks.
pub open spec fn stat_start(s: Seq<char>) -> Option<u64> {
    match last_index(s, ')') {
        None => None,
        Some(i) => {
            let w = words(s.skip(i + 1));
            if w.len() < 20 {
                None
            } else {
                match decimal_value(w[19], u64::MAX as nat) {
                    Some(n) => Some(n as u64),
                    None => None,
                }
            }
        },
    }
}

/// When a live process began, from its stat file. Within one boot no two
/// processes share both a pid and a start time.
pub fn proc_starttime(stat: &[u8]) -> (r: Option<u64>)
    ensures
        r == stat_start(lossy_text(stat@)),
{
    let decoded = lossy(stat);
    let all: Vec<char> = chars_of(decoded.as_str());
    let mut i: usize = all.len();
    proof {
        assert(all@.take(i as int) =~= all@);
    }
    while i > 0
        invariant
            i <= all@.len(),
            all@ == lossy_text(stat@),
            last_index(all@, ')') == last_index(all@.take(i as int), ')'),
        decreases i,
    {
        proof {
            assert(all@.take(i as int).drop_last() =~= all@.take(i - 1));
            assert(all@.take(i as int).last() == all@[i - 1]);
        }
        if all[i - 1] == ')' {
            let rest = slice_subrange(all.as_slice(), i, all.len());
            proof {
                assert(rest@ =~= all@.skip(i as int));
            }
            let parts = split_words(rest);
            proof {
                assert(rows(parts@).len() == parts@.len());
            }
            if parts.len() < 20 {
                return None;
            }
            proof {
                assert(rows(parts@)[19] == parts@[19]@);
            }
            return parse_decimal(parts[19].as_slice(), u64::MAX);
        }
        i -= 1;
    }
    proof {
        assert(all@.take(0).len() == 0);
    }
    None
}

/// The pid that a directory name stands for.
pub fn pid_of_name(name: &str) -> (r: Option<u32>)
    ensures
        r == (match decimal_value(name@, u32::MAX as nat) {
            Some(n) => Some(n as u32),
            None => None,
        }),
{
    let c: Vec<char> = chars_of(name);
    match parse_decimal(c.as_slice(), u32::MAX as u64) {
        Some(n) => Some(n as u32),
        None => None,
    }
}

/// Everything a decision needs about one pid, and when the process began.
#[derive(Debug)]
pub struct ProcView {
    pub pid: u32,
    pub process: Process,
    /// `None` when the process was already gone.
    pub judged_at: Option<u64>,
}

/// Whether a view is what these readings give.
pub open spec fn views(
    v: ProcView,
    pid: u32,
    link: Seq<char>,
    status: Option<Seq<u8>>,
    stat: Option<Seq<u8>>,
) -> bool {
    &&& v.pid == pid
    &&& v.process.pid == pid
    &&& v.process.exe@ == before_suffix(link, DELETED_SUFFIX@)
    &&& v.process.uid == (match status {
        Some(s) => status_uid(lossy_text(s)),
        None => None,
    })
    &&& v.judged_at == (match stat {
        Some(s) => stat_start(lossy_text(s)),
        None => None,
    })
    &&& v.process.ppid is None
    &&& v.process.gid is None
    &&& v.process.cmdline@.len() == 0
    &&& v.process.cwd is None
    &&& v.process.sha256 is None
    &&& v.process.parent_exe is None
    &&& v.process.package is None
    &&& v.process.provenance == Provenance::Unknown
}

/// The bytes of an optional reading.
pub open spec fn bytes_of(v: Option<Vec<u8>>) -> Option<Seq<u8>> {
    match v {
        Some(b) => Some(b@),
        None => None,
    }
}

/// A view of a process from what `/proc` says of it: the executable it resolves
/// to, the status file and the stat file, each as far as it could be read. The
/// digest is not read: a rule on the digest then has no answer, which is what
/// keeps a standing refusal. `None` when the process is gone.
pub fn proc_view(
    pid: u32,
    link: Option<String>,
    status: Option<Vec<u8>>,
    stat: Option<Vec<u8>>,
) -> (r: Option<ProcView>)
    ensures
        r is Some <==> link is Some,
        r matches Some(v) ==> views(v, pid, link->Some_0@, bytes_of(status), bytes_of(stat)),
{
    match link {
        None => None,
        Some(l) => {
            let mut process = Process::unknown(pid);
            process.exe = proc_exe(l.as_str());
            process.uid = match status {
                Some(s) => proc_uid(s.as_slice()),
                None => None,
            };
            let judged_at: Option<u64> = match stat {
                Some(s) => proc_starttime(s.as_slice()),
                None => None,
            };
            Some(ProcView { pid, process, judged_at })
        },
    }
}

/// What a resync does to the refusal of one pid.
#[derive(Debug, Clone, Copy, PartialEq, Eq, Structural)]
pub enum DenyOp {
    Deny,
    Clear,
    /// The rules leave it open; what stands stays.
    Keep,
}

/// What the rules make of the refusal of a process.
pub open spec fn deny_op(rules: Seq<Rule>, p: &Process, now: i64) -> DenyOp {
    match wide_from(rules, p, now, 0) {
        Some(v) => if refuses(v.action) {
            DenyOp::Deny
        } else {
            DenyOp::Clear
        },
        None => if refusal_open(rules, p, now) {
            DenyOp::Keep
        } else {
            DenyOp::Clear
        },
    }
}

/// What the rules make of the refusal of a process. An answer that could still
/// turn out to be a refusal keeps what stands; "no rule matched" is the deleted
/// rule, and clears.
pub fn deny_op_for(engine: &Engine, proc: &Process, now_unix_ms: i64) -> (r: DenyOp)
    ensures
        r == deny_op(engine.rules(), proc, now_unix_ms),
{
    match engine.process_wide_action(proc, now_unix_ms) {
        Some(Action::Deny) | Some(Action::Reject) => DenyOp::Deny,
        Some(Action::Allow) => DenyOp::Clear,
        None => if engine.deny_still_possible_for(proc, now_unix_ms) {
            DenyOp::Keep
        } else {
            DenyOp::Clear
        },
    }
}

/// One decision about a grant.
#[derive(Debug, Clone, Copy, PartialEq, Eq, Structural)]
pub enum Grant {
    /// Write the entry; the rule that justifies it.
    Yes(u128),
    /// Remove the entry, whatever it held.
    No,
}

/// Whether a process has earned a grant: its answer is an allow that lasts.
pub open spec fn earned(rules: Seq<Rule>, p: &Process, now: i64) -> Grant {
    match wide_from(rules, p, now, 0) {
        Some(v) => if v.lasting_allow() {
            Grant::Yes(v.rule_id)
        } else {
            Grant::No
        },
        None => Grant::No,
    }
}

/// The grant decision for one process: the shared rule for every writer.
pub fn grant_for(engine: &Engine, proc: &Process, now_unix_ms: i64) -> (r: Grant)
    ensures
        r == earned(engine.rules(), proc, now_unix_ms),
{
    match engine.process_wide_verdict(proc, now_unix_ms) {
        Some(v) => if v.fast_allow_eligible() {
            Grant::Yes(v.rule_id)
        } else {
            Grant::No
        },
        None => Grant::No,
    }
}

/// What to do about a grant that was decided a moment ago.
#[derive(Debug, Clone, Copy, PartialEq, Eq, Structural)]
pub enum GrantStep {
    /// Remove the entry.
    Withdraw,
    /// Leave the entry as it is: what was judged is not there any more.
    Refuse,
    /// Write the entry, then look at the executable once more.
    Write(u128),
}

/// Whether the executable of a pid is still the one that was judged.
pub open spec fn same_exe(judged: &Process, exe_now: Option<Seq<char>>) -> bool {
    exe_now == Some(judged.exe@)
}

/// What to do about a grant that was decided a moment ago: `start_now` and
/// `exe_now` are what the pid shows at the time of the write.
pub open spec fn grant_step(
    grant: Grant,
    judged: &Process,
    judged_at: Option<u64>,
    start_now: Option<u64>,
    exe_now: Option<Seq<char>>,
) -> GrantStep {
    match grant {
        Grant::No => GrantStep::Withdraw,
        Grant::Yes(rule) => if judged_at is Some && start_now == judged_at && same_exe(
            judged,
            exe_now,
        ) {
            GrantStep::Write(rule)
        } else {
            GrantStep::Refuse
        },
    }
}

fn still_runs(judged: &Process, exe_now: &Option<String>) -> (r: bool)
    ensures
        r == same_exe(judged, crate::model::text_of(*exe_now)),
{
    match exe_now {
        Some(e) => same_text(e.as_str(), judged.exe.as_str()),
        None => false,
    }
}

/// Guards a grant: it is written only if the pid still holds the process that
/// was judged. No start time is no process, so nothing is granted for it. A
/// withdrawal needs no guard: it is always the safe direction.
pub fn grant_if_still(
    grant: Grant,
    judged: &Process,
    judged_at: Option<u64>,
    start_now: Option<u64>,
    exe_now: &Option<String>,
) -> (r: GrantStep)
    ensures
        r == grant_step(grant, judged, judged_at, start_now, crate::model::text_of(*exe_now)),
{
    match grant {
        Grant::No => GrantStep::Withdraw,
        Grant::Yes(rule) => {
            let same_start = match (judged_at, start_now) {
                (Some(a), Some(b)) => a == b,
                _ => false,
            };
            if !same_start || !still_runs(judged, exe_now) {
                return GrantStep::Refuse;
            }
            GrantStep::Write(rule)
        },
    }
}

/// The look after the write: an `execve` keeps the start time, so a grant that
/// was written while the program changed is withdrawn again.
pub fn grant_stands(judged: &Process, exe_after: &Option<String>) -> (r: bool)
    ensures
        r == same_exe(judged, crate::model::text_of(*exe_after)),
{
    still_runs(judged, exe_after)
}

/// Which rule granted which pid, so that a flow the packet path never sees is
/// credited to it.
pub struct GrantBook {
    granted_by: HashMap<u32, u128>,
}

impl View for GrantBook {
    type V = Map<u32, u128>;

    closed spec fn view(&self) -> Map<u32, u128> {
        self.granted_by@
    }
}

/// The book once a grant decision has been carried out.
pub open spec fn booked(b: Map<u32, u128>, pid: u32, grant: Grant, written: bool) -> Map<
    u32,
    u128,
> {
    match grant {
        Grant::Yes(rule) => if written {
            b.insert(pid, rule)
        } else {
            b
        },
        Grant::No => b.remove(pid),
    }
}

impl GrantBook {
    /// Nothing is granted.
    pub fn new() -> (r: GrantBook)
        ensures
            r@ == Map::<u32, u128>::empty(),
    {
        GrantBook { granted_by: HashMap::new() }
    }

    /// Notes what a grant decision came to. A grant that could not be written
    /// is not noted.
    pub fn apply(&mut self, pid: u32, grant: Grant, written: bool)
        ensures
            final(self)@ == (match grant {
                Grant::Yes(rule) => if written {
                    old(self)@.insert(pid, rule)
                } else {
                    old(self)@
                },
                Grant::No => old(self)@.remove(pid),
            }),
            final(self)@ == booked(old(self)@, pid, grant, written),
    {
        match grant {
            Grant::Yes(rule) => {
                if written {
                    self.granted_by.insert(pid, rule);
                }
            },
            Grant::No => {
                self.granted_by.remove(&pid);
            },
        }
    }

    /// The rule that granted `pid`. A grant of an earlier daemon is credited to
    /// nobody.
    pub fn granted_by(&self, pid: u32) -> (r: Option<u128>)
        ensures
            r == (if self@.contains_key(pid) {
                Some(self@[pid])
            } else {
                None
            }),
    {
        match self.granted_by.get(&pid) {
            Some(rule) => Some(*rule),
            None => None,
        }
    }

    /// Forgets every grant.
    pub fn clear(&mut self)
        ensures
            final(self)@ == Map::<u32, u128>::empty(),
    {
        self.granted_by.clear();
    }
}

/// Whether a pid still holds the process that was judged.
pub open spec fn unchanged(judged_at: Option<u64>, start_now: Option<u64>) -> bool {
    judged_at is Some && start_now == judged_at
}

/// What a resync does to the refusals of the processes it has a view of.
/// `starts` are the start times at the time of the write: a pid that changed
/// hands since the view is left to its new owner.
pub open spec fn deny_work_of(
    rules: Seq<Rule>,
    v: Seq<ProcView>,
    starts: Seq<Option<u64>>,
    now: i64,
) -> Seq<(u32, DenyOp)>
    decreases v.len(),
{
    if v.len() == 0 {
        Seq::empty()
    } else {
        let rest = deny_work_of(rules, v.drop_last(), starts, now);
        if unchanged(v.last().judged_at, starts[v.len() - 1]) {
            rest.push((v.last().pid, deny_op(rules, &v.last().process, now)))
        } else {
            rest
        }
    }
}

/// What a resync does to the refusals of the processes it has a view of.
pub fn deny_work(
    engine: &Engine,
    views: &Vec<ProcView>,
    starts: &Vec<Option<u64>>,
    now_unix_ms: i64,
) -> (r: Vec<(u32, DenyOp)>)
    requires
        views@.len() == starts@.len(),
    ensures
        r@ == deny_work_of(engine.rules(), views@, starts@, now_unix_ms),
{
    let mut out: Vec<(u32, DenyOp)> = Vec::new();
    let mut i: usize = 0;
    proof {
        assert(views@.take(0) =~= Seq::<ProcView>::empty());
    }
    while i < views.len()
        invariant
            i <= views@.len(),
            views@.len() == starts@.len(),
            out@ == deny_work_of(engine.rules(), views@.take(i as int), starts@, now_unix_ms),
        decreases views@.len() - i,
    {
        proof {
            assert(views@.take(i + 1).drop_last() =~= views@.take(i as int));
        }
        let same = match (views[i].judged_at, starts[i]) {
            (Some(a), Some(b)) => a == b,
            _ => false,
        };
        if same {
            out.push((views[i].pid, deny_op_for(engine, &views[i].process, now_unix_ms)));
        }
        i += 1;
    }
    proof {
        assert(views@.take(i as int) =~= views@);
    }
    out
}

fn among(v: &Vec<u32>, pid: u32) -> (r: bool)
    ensures
        r == v@.contains(pid),
{
    let mut i: usize = 0;
    while i < v.len()
        invariant
            i <= v@.len(),
            forall|k: int| 0 <= k < i ==> v@[k] != pid,
        decreases v@.len() - i,
    {
        if v[i] == pid {
            return true;
        }
        i += 1;
    }
    false
}

/// The pids that are not among the `known` ones, in their order.
pub open spec fn strangers(known: Seq<u32>, pids: Seq<u32>) -> Seq<u32>
    decreases pids.len(),
{
    if pids.len() == 0 {
        Seq::empty()
    } else {
        let s = strangers(known, pids.drop_last());
        if known.contains(pids.last()) {
            s
        } else {
            s.push(pids.last())
        }
    }
}

/// The refused pids that are not among the `known` ones, in their order, and
/// then the granted ones of which neither holds, in theirs.
pub open spec fn orphans_of(known: Seq<u32>, refused: Seq<u32>, granted: Seq<u32>) -> Seq<u32>
    decreases granted.len(),
{
    if granted.len() == 0 {
        strangers(known, refused)
    } else {
        let s = orphans_of(known, refused, granted.drop_last());
        if known.contains(granted.last()) || s.contains(granted.last()) {
            s
        } else {
            s.push(granted.last())
        }
    }
}

/// The pids that hold an entry and were not among the recently started ones:
/// those with a refusal first, then those with only a grant.
pub fn orphans(known: &Vec<u32>, refused: &Vec<u32>, granted: &Vec<u32>) -> (r: Vec<u32>)
    ensures
        r@ == orphans_of(known@, refused@, granted@),
        forall|pid: u32| #[trigger]
            r@.contains(pid) <==> ((refused@.contains(pid) || granted@.contains(pid))
                && !known@.contains(pid)),
        refused@.no_duplicates() ==> r@.no_duplicates(),
{
    let mut out: Vec<u32> = Vec::new();
    let mut i: usize = 0;
    while i < refused.len()
        invariant
            i <= refused@.len(),
            forall|pid: u32| #[trigger]
                out@.contains(pid) <==> (refused@.take(i as int).contains(pid) && !known@.contains(
                    pid,
                )),
            refused@.no_duplicates() ==> out@.no_duplicates(),
            out@ == strangers(known@, refused@.take(i as int)),
        decreases refused@.len() - i,
    {
        proof {
            assert(refused@.take(i + 1).drop_last() =~= refused@.take(i as int));
        }
        let ghost before = out@;
        let pid: u32 = refused[i];
        if !among(known, pid) {
            out.push(pid);
        }
        proof {
            lemma_take_contains(refused@, i as int);
            lemma_push_contains(before, pid);
            if refused@.no_duplicates() {
                assert(!refused@.take(i as int).contains(pid)) by {
                    if refused@.take(i as int).contains(pid) {
                        let head = refused@.take(i as int);
                        let k = choose|k: int| 0 <= k < head.len() && head[k] == pid;
                        assert(refused@[k] == refused@[i as int]);
                    }
                }
                assert(!before.contains(pid));
            }
        }
        i += 1;
    }
    proof {
        assert(refused@.take(i as int) =~= refused@);
    }
    let mut i: usize = 0;
    while i < granted.len()
        invariant
            i <= granted@.len(),
            forall|pid: u32| #[trigger]
                out@.contains(pid) <==> ((refused@.contains(pid) || granted@.take(
                    i as int,
                ).contains(pid)) && !known@.contains(pid)),
            refused@.no_duplicates() ==> out@.no_duplicates(),
            out@ == orphans_of(known@, refused@, granted@.take(i as int)),
        decreases granted@.len() - i,
    {
        proof {
            assert(granted@.take(i + 1).drop_last() =~= granted@.take(i as int));
        }
        let ghost before = out@;
        let pid: u32 = granted[i];
        if !among(known, pid) && !among(&out, pid) {
            out.push(pid);
        }
        proof {
            lemma_take_contains(granted@, i as int);
            lemma_push_contains(before, pid);
        }
        i += 1;
    }
    proof {
        assert(granted@.take(i as int) =~= granted@);
    }
    out
}

proof fn lemma_take_contains(s: Seq<u32>, i: int)
    requires
        0 <= i < s.len(),
    ensures
        forall|p: u32| #[trigger]
            s.take(i + 1).contains(p) <==> (s.take(i).contains(p) || p == s[i]),
{
    assert forall|p: u32| #[trigger]
        s.take(i + 1).contains(p) <==> (s.take(i).contains(p) || p == s[i]) by {
        if s.take(i + 1).contains(p) {
            let t = s.take(i + 1);
            let k = choose|k: int| 0 <= k < t.len() && t[k] == p;
            if k < i {
                assert(s.take(i)[k] == p);
            }
        }
        if s.take(i).contains(p) {
            let k = choose|k: int| 0 <= k < i && s.take(i)[k] == p;
            assert(s.take(i + 1)[k] == p);
        }
        assert(s.take(i + 1)[i] == s[i]);
    }
}

proof fn lemma_push_contains(s: Seq<u32>, x: u32)
    ensures
        forall|p: u32| #[trigger] s.push(x).contains(p) <==> (s.contains(p) || p == x),
{
    assert forall|p: u32| #[trigger] s.push(x).contains(p) <==> (s.contains(p) || p == x) by {
        if s.contains(p) {
            let k = choose|k: int| 0 <= k < s.len() && s[k] == p;
            assert(s.push(x)[k] == p);
        }
        assert(s.push(x)[s.len() as int] == x);
    }
}

/// An orphan, as far as it could be viewed.
#[derive(Debug)]
pub struct Orphan {
    pub pid: u32,
    /// `None` when the process is gone.
    pub view: Option<ProcView>,
}

/// Whether an orphan loses its refusal.
pub open spec fn is_doomed(rules: Seq<Rule>, o: Orphan, now: i64) -> bool {
    match o.view {
        None => true,
        Some(v) => deny_op(rules, &v.process, now) == DenyOp::Clear,
    }
}

/// When an orphan was judged.
pub open spec fn judged_when(o: Orphan) -> Option<u64> {
    match o.view {
        None => None,
        Some(v) => v.judged_at,
    }
}

/// The orphans that lose their refusal, each with the start time it was judged
/// at.
pub open spec fn doomed_of(rules: Seq<Rule>, o: Seq<Orphan>, now: i64) -> Seq<(u32, Option<u64>)>
    decreases o.len(),
{
    if o.len() == 0 {
        Seq::empty()
    } else {
        let rest = doomed_of(rules, o.drop_last(), now);
        if is_doomed(rules, o.last(), now) {
            rest.push((o.last().pid, judged_when(o.last())))
        } else {
            rest
        }
    }
}

/// The orphans that lose their refusal: those that are gone, or a recycled pid
/// would inherit the answer, and those that no rule refuses any more.
pub fn doomed(engine: &Engine, all: &Vec<Orphan>, now_unix_ms: i64) -> (r: Vec<
    (u32, Option<u64>),
>)
    ensures
        r@ == doomed_of(engine.rules(), all@, now_unix_ms),
{
    let mut out: Vec<(u32, Option<u64>)> = Vec::new();
    let mut i: usize = 0;
    proof {
        assert(all@.take(0) =~= Seq::<Orphan>::empty());
    }
    while i < all.len()
        invariant
            i <= all@.len(),
            out@ == doomed_of(engine.rules(), all@.take(i as int), now_unix_ms),
        decreases all@.len() - i,
    {
        proof {
            assert(all@.take(i + 1).drop_last() =~= all@.take(i as int));
        }
        match &all[i].view {
            None => {
                out.push((all[i].pid, None));
            },
            Some(v) => {
                if deny_op_for(engine, &v.process, now_unix_ms) == DenyOp::Clear {
                    out.push((all[i].pid, v.judged_at));
                }
            },
        }
        i += 1;
    }
    proof {
        assert(all@.take(i as int) =~= all@);
    }
    out
}

/// Whether a doomed refusal may go: the judged process is still there, or no
/// process is. Any other is a new owner of the pid.
pub open spec fn may_clear(judged_at: Option<u64>, start_now: Option<u64>) -> bool {
    start_now is None || start_now == judged_at
}

/// The pids whose refusal may go.
pub open spec fn clearable_of(d: Seq<(u32, Option<u64>)>, starts: Seq<Option<u64>>) -> Seq<u32>
    decreases d.len(),
{
    if d.len() == 0 {
        Seq::empty()
    } else {
        let rest = clearable_of(d.drop_last(), starts);
        if may_clear(d.last().1, starts[d.len() - 1]) {
            rest.push(d.last().0)
        } else {
            rest
        }
    }
}

/// The pids whose refusal may go; `starts` are the start times read again.
pub fn clearable(doomed: &Vec<(u32, Option<u64>)>, starts: &Vec<Option<u64>>) -> (r: Vec<u32>)
    requires
        doomed@.len() == starts@.len(),
    ensures
        r@ == clearable_of(doomed@, starts@),
{
    let mut out: Vec<u32> = Vec::new();
    let mut i: usize = 0;
    proof {
        assert(doomed@.take(0) =~= Seq::<(u32, Option<u64>)>::empty());
    }
    while i < doomed.len()
        invariant
            i <= doomed@.len(),
            doomed@.len() == starts@.len(),
            out@ == clearable_of(doomed@.take(i as int), starts@),
        decreases doomed@.len() - i,
    {
        proof {
            assert(doomed@.take(i + 1).drop_last() =~= doomed@.take(i as int));
        }
        let ok = match (starts[i], doomed[i].1) {
            (None, _) => true,
            (Some(a), Some(b)) => a == b,
            (Some(_), None) => false,
        };
        if ok {
            out.push(doomed[i].0);
        }
        i += 1;
    }
    proof {
        assert(doomed@.take(i as int) =~= doomed@);
    }
    out
}

/// The process that a fresh `execve` is judged as.
pub open spec fn exec_exe(event: &Process, resolved: Option<Seq<char>>) -> Seq<char> {
    match resolved {
        Some(link) => before_suffix(link, DELETED_SUFFIX@),
        None => event.exe@,
    }
}

/// Whether `p` is the event's process with the executable that was resolved.
pub open spec fn corrected(p: Process, event: Process, resolved: Option<Seq<char>>) -> bool {
    &&& p.exe@ == exec_exe(&event, resolved)
    &&& p.pid == event.pid
    &&& p.ppid == event.ppid
    &&& p.uid == event.uid
    &&& p.gid == event.gid
    &&& p.cmdline@ == event.cmdline@
    &&& p.cwd == event.cwd
    &&& p.sha256 == event.sha256
    &&& p.parent_exe == event.parent_exe
    &&& p.package == event.package
    &&& p.provenance == event.provenance
}

/// What an `execve` does to the two maps.
#[derive(Debug)]
pub struct ExecDecision {
    /// The process that was judged.
    pub process: Process,
    /// Write a refusal; otherwise clear what the program before left.
    pub deny: bool,
    /// What to do about the grant, guarded by [`grant_if_still`].
    pub grant: Grant,
}

/// Decides on a process that was just started. `resolved` is what `/proc` says
/// its executable is; the path in the event is only what the caller typed. When
/// `/proc` cannot be read the event's path decides about the refusal, and
/// nothing is granted: a refusal for a pid that is gone is the safe direction,
/// a grant for one is a grant for whoever owns the pid next.
pub fn on_exec(engine: &Engine, event: &Process, resolved: &Option<String>, now_unix_ms: i64) -> (r:
    ExecDecision)
    ensures
        corrected(r.process, *event, crate::model::text_of(*resolved)),
        r.deny == (deny_op(engine.rules(), &r.process, now_unix_ms) == DenyOp::Deny),
        r.grant == (if *resolved is Some {
            earned(engine.rules(), &r.process, now_unix_ms)
        } else {
            Grant::No
        }),
{
    let mut process = event.clone();
    if let Some(link) = resolved {
        process.exe = proc_exe(link.as_str());
    }
    let deny = match engine.process_wide_action(&process, now_unix_ms) {
        Some(Action::Deny) | Some(Action::Reject) => true,
        _ => false,
    };
    let grant = if resolved.is_some() {
        grant_for(engine, &process, now_unix_ms)
    } else {
        Grant::No
    };
    ExecDecision { process, deny, grant }
}

/// The process that stands for "whoever runs this executable".
pub open spec fn stands_for(p: Process, exe: Seq<char>) -> bool {
    p.exe@ == exe && p.uid is None && p.sha256 is None && p.parent_exe is None
}

/// Whether every process of this executable is refused, by its path alone.
pub open spec fn refused_outright(rules: Seq<Rule>, now: i64, exe: Seq<char>) -> bool {
    &&& !user_rule_for_all(rules, now)
    &&& names_exe(rules, now, exe)
    &&& !user_rule_names(rules, now, exe)
    &&& exists|p: Process|
        stands_for(p, exe) && (#[trigger] wide_from(rules, &p, now, 0) matches Some(v) && refuses(
            v.action,
        ))
}

proof fn lemma_wide_by_parts(rules: Seq<Rule>, a: &Process, b: &Process, now: i64, i: int)
    requires
        a.exe@ == b.exe@,
        a.uid == b.uid,
        a.sha256 is None && b.sha256 is None,
        a.parent_exe is None && b.parent_exe is None,
    ensures
        wide_from(rules, a, now, i) == wide_from(rules, b, now, i),
    decreases rules.len() - i,
{
    if 0 <= i < rules.len() {
        let s = rules[i].scope;
        assert(s.fits_process(a) == s.fits_process(b));
        assert(s.open_for(a) == s.open_for(b));
        lemma_wide_by_parts(rules, a, b, now, i + 1);
    }
}

/// The executables that the kernel's own table refuses, so that a process that
/// starts while no daemon runs still gets an answer. Precedence is not decided
/// anew: each executable that a rule names is put to the engine.
pub fn denied_exes(engine: &Engine, now_unix_ms: i64) -> (r: Vec<String>)
    ensures
        forall|e: Seq<char>| #[trigger]
            holds_text(r@, e) <==> refused_outright(engine.rules(), now_unix_ms, e),
{
    let ghost rules = engine.rules();
    let exes = match engine.compilable_exe_paths(now_unix_ms) {
        Some(v) => v,
        None => {
            // A rule that names a user and no executable could apply to any.
            return Vec::new();
        },
    };
    let mut out: Vec<String> = Vec::new();
    let mut i: usize = 0;
    while i < exes.len()
        invariant
            i <= exes@.len(),
            rules == engine.rules(),
            !user_rule_for_all(rules, now_unix_ms),
            forall|e: Seq<char>| #[trigger]
                holds_text(exes@, e) <==> (names_exe(rules, now_unix_ms, e) && !user_rule_names(
                    rules,
                    now_unix_ms,
                    e,
                )),
            forall|e: Seq<char>| #[trigger]
                holds_text(out@, e) <==> (holds_text(exes@.take(i as int), e) && refused_outright(
                    rules,
                    now_unix_ms,
                    e,
                )),
        decreases exes@.len() - i,
    {
        let ghost before = out@;
        let mut p = Process::unknown(0);
        p.exe = exes[i].clone();
        let refused = match engine.process_wide_action(&p, now_unix_ms) {
            Some(Action::Deny) | Some(Action::Reject) => true,
            _ => false,
        };
        proof {
            let e = exes@[i as int]@;
            assert(holds_text(exes@, e));
            assert(stands_for(p, e));
            assert(refused == refused_outright(rules, now_unix_ms, e)) by {
                if refused_outright(rules, now_unix_ms, e) {
                    let q = choose|q: Process|
                        stands_for(q, e) && (#[trigger] wide_from(
                            rules,
                            &q,
                            now_unix_ms,
                            0,
                        ) matches Some(v) && refuses(v.action));
                    lemma_wide_by_parts(rules, &p, &q, now_unix_ms, 0);
                }
            }
            lemma_texts_take(exes@, i as int);
        }
        if refused {
            out.push(exes[i].clone());
            proof {
                lemma_texts_push(before, out@.last());
                assert(out@ =~= before.push(out@.last()));
            }
        }
        i += 1;
    }
    proof {
        assert(exes@.take(i as int) =~= exes@);
        assert forall|e: Seq<char>| #[trigger] holds_text(out@, e) <==> refused_outright(
            rules,
            now_unix_ms,
            e,
        ) by {
            assert(refused_outright(rules, now_unix_ms, e) ==> holds_text(exes@, e));
        }
    }
    out
}

proof fn lemma_texts_take(s: Seq<String>, i: int)
    requires
        0 <= i < s.len(),
    ensures
        forall|e: Seq<char>| #[trigger]
            holds_text(s.take(i + 1), e) <==> (holds_text(s.take(i), e) || e == s[i]@),
{
    assert forall|e: Seq<char>| #[trigger]
        holds_text(s.take(i + 1), e) <==> (holds_text(s.take(i), e) || e == s[i]@) by {
        if holds_text(s.take(i + 1), e) {
            let t = s.take(i + 1);
            let k = choose|k: int| 0 <= k < t.len() && (#[trigger] t[k])@ == e;
            if k < i {
                assert(s.take(i)[k]@ == e);
            }
        }
        if holds_text(s.take(i), e) {
            let k = choose|k: int| 0 <= k < i && (#[trigger] s.take(i)[k])@ == e;
            assert(s.take(i + 1)[k]@ == e);
        }
        assert(s.take(i + 1)[i] == s[i]);
    }
}

proof fn lemma_texts_push(s: Seq<String>, x: String)
    ensures
        forall|e: Seq<char>| #[trigger]
            holds_text(s.push(x), e) <==> (holds_text(s, e) || e == x@),
{
    assert forall|e: Seq<char>| #[trigger]
        holds_text(s.push(x), e) <==> (holds_text(s, e) || e == x@) by {
        if holds_text(s, e) {
            let k = choose|k: int| 0 <= k < s.len() && (#[trigger] s[k])@ == e;
            assert(s.push(x)[k]@ == e);
        }
        assert(s.push(x)[s.len() as int] == x);
    }
}

fn key_among(v: &Vec<u64>, key: u64) -> (r: bool)
    ensures
        r == v@.contains(key),
{
    let mut i: usize = 0;
    while i < v.len()
        invariant
            i <= v@.len(),
            forall|k: int| 0 <= k < i ==> v@[k] != key,
        decreases v@.len() - i,
    {
        if v[i] == key {
            return true;
        }
        i += 1;
    }
    false
}

fn keys_within(a: &Vec<u64>, b: &Vec<u64>) -> (r: bool)
    ensures
        r == (forall|k: u64| #[trigger] a@.contains(k) ==> b@.contains(k)),
{
    let mut i: usize = 0;
    while i < a.len()
        invariant
            i <= a@.len(),
            forall|k: int| 0 <= k < i ==> b@.contains(#[trigger] a@[k]),
        decreases a@.len() - i,
    {
        if !key_among(b, a[i]) {
            proof {
                assert(a@.contains(a@[i as int]));
            }
            return false;
        }
        i += 1;
    }
    true
}

/// What a recompile does to the kernel's own rule table.
#[derive(Debug)]
pub enum CompilePlan {
    /// The table already says so.
    Unchanged,
    /// Remove the stale keys, then write the others. Removing first means that
    /// a full table cannot reject the additions.
    Write { stale: Vec<u64>, add: Vec<u64> },
}

/// What was last written to the kernel's own rule table, so that a recompile
/// that changes nothing costs nothing.
pub struct RuleTable {
    last: Option<Vec<u64>>,
}

impl View for RuleTable {
    type V = Option<Set<u64>>;

    closed spec fn view(&self) -> Option<Set<u64>> {
        match self.last {
            Some(v) => Some(v@.to_set()),
            None => None,
        }
    }
}

/// What is remembered of the table once so many of its keys were written.
pub open spec fn remembered(add: Seq<u64>, written: usize) -> Option<Set<u64>> {
    if written == add.len() {
        Some(add.to_set())
    } else {
        None
    }
}

impl RuleTable {
    /// Nothing was written yet.
    pub fn new() -> (r: RuleTable)
        ensures
            r@ is None,
    {
        RuleTable { last: None }
    }

    /// How to make the table hold the `wanted` keys; `held` is what it holds.
    pub fn plan(&self, wanted: &Vec<u64>, held: &Vec<u64>) -> (r: CompilePlan)
        ensures
            r is Unchanged <==> self@ == Some(wanted@.to_set()),
            r matches CompilePlan::Write { stale, add } ==> {
                &&& forall|k: u64| #[trigger]
                    stale@.contains(k) <==> (held@.contains(k) && !wanted@.contains(k))
                &&& forall|k: u64| #[trigger] add@.contains(k) <==> wanted@.contains(k)
                &&& add@.no_duplicates()
            },
    {
        if let Some(last) = &self.last {
            let same = keys_within(last, wanted) && keys_within(wanted, last);
            proof {
                if same {
                    assert forall|k: u64| last@.to_set().contains(k) <==> wanted@.to_set().contains(
                        k,
                    ) by {
                        assert(last@.contains(k) <==> wanted@.contains(k));
                    }
                    assert(last@.to_set() =~= wanted@.to_set());
                } else if last@.to_set() == wanted@.to_set() {
                    assert forall|k: u64| last@.contains(k) <==> wanted@.contains(k) by {
                        assert(last@.to_set().contains(k) <==> wanted@.to_set().contains(k));
                    }
                }
            }
            if same {
                return CompilePlan::Unchanged;
            }
        }
        let mut stale: Vec<u64> = Vec::new();
        let mut i: usize = 0;
        while i < held.len()
            invariant
                i <= held@.len(),
                forall|k: u64| #[trigger]
                    stale@.contains(k) <==> (held@.take(i as int).contains(k) && !wanted@.contains(
                        k,
                    )),
            decreases held@.len() - i,
        {
            let ghost before = stale@;
            let key: u64 = held[i];
            if !key_among(wanted, key) {
                stale.push(key);
            }
            proof {
                lemma_keys_take(held@, i as int);
                lemma_keys_push(before, key);
            }
            i += 1;
        }
        proof {
            assert(held@.take(i as int) =~= held@);
        }
        let mut add: Vec<u64> = Vec::new();
        let mut i: usize = 0;
        while i < wanted.len()
            invariant
                i <= wanted@.len(),
                add@.no_duplicates(),
                forall|k: u64| #[trigger]
                    add@.contains(k) <==> wanted@.take(i as int).contains(k),
            decreases wanted@.len() - i,
        {
            let ghost before = add@;
            let key: u64 = wanted[i];
            if !key_among(&add, key) {
                add.push(key);
            }
            proof {
                lemma_keys_take(wanted@, i as int);
                lemma_keys_push(before, key);
            }
            i += 1;
        }
        proof {
            assert(wanted@.take(i as int) =~= wanted@);
        }
        CompilePlan::Write { stale, add }
    }

    /// Notes how many of the keys were written. Only a complete table is
    /// remembered: after a failed write nothing is known of the table, and the
    /// next recompile writes it again. Returns whether the kernel is to look
    /// anything up at all.
    pub fn finished(&mut self, add: Vec<u64>, written: usize) -> (r: bool)
        ensures
            final(self)@ == (if written == add@.len() {
                Some(add@.to_set())
            } else {
                None
            }),
            r == (written > 0),
            final(self)@ == remembered(add@, written),
    {
        self.last = if written == add.len() {
            Some(add)
        } else {
            None
        };
        written > 0
    }
}

/// What the kernel's own rule table holds once the `stale` keys are removed and
/// the `done` ones written.
pub open spec fn compiled(held: Set<u64>, stale: Set<u64>, done: Set<u64>) -> Set<u64> {
    held.difference(stale).union(done)
}

/// Whether what is remembered of the table is what it holds.
pub open spec fn remembers(memo: Option<Set<u64>>, held: Set<u64>) -> bool {
    memo matches Some(w) ==> held == w
}

/// A recompile leaves in the kernel no refusal that the rules do not ask for,
/// and every one they ask for if all writes landed; `add` are the keys asked
/// for and `done` those of them that were written. What is remembered
/// afterwards is what the table holds, so a recompile that is skipped is one
/// that would change nothing.
pub proof fn a_recompile_leaves_what_the_rules_say(
    memo: Option<Set<u64>>,
    held: Set<u64>,
    add: Seq<u64>,
    done: Set<u64>,
)
    requires
        remembers(memo, held),
        add.no_duplicates(),
        done.subset_of(add.to_set()),
    ensures
        memo == Some(add.to_set()) ==> held == add.to_set(),
        ({
            let table = compiled(held, held.difference(add.to_set()), done);
            &&& table.subset_of(add.to_set())
            &&& done == add.to_set() ==> table == add.to_set()
            &&& remembers(
                if done.len() == add.len() {
                    Some(add.to_set())
                } else {
                    None
                },
                table,
            )
        }),
{
    let wanted = add.to_set();
    let table = compiled(held, held.difference(wanted), done);
    add.unique_seq_to_set();
    if done.len() == add.len() {
        vstd::set_lib::lemma_subset_equality(done, wanted);
    }
    if done == wanted {
        assert(table =~= wanted);
    }
}

proof fn lemma_keys_take(s: Seq<u64>, i: int)
    requires
        0 <= i < s.len(),
    ensures
        forall|p: u64| #[trigger]
            s.take(i + 1).contains(p) <==> (s.take(i).contains(p) || p == s[i]),
{
    let t = s.take(i + 1);
    let u = s.take(i);
    assert forall|p: u64| #[trigger] t.contains(p) <==> (u.contains(p) || p == s[i]) by {
        if t.contains(p) {
            let k = choose|k: int| 0 <= k < t.len() && t[k] == p;
            if k < i {
                assert(u[k] == p);
            }
        }
        if u.contains(p) {
            let k = choose|k: int| 0 <= k < u.len() && u[k] == p;
            assert(t[k] == p);
        }
        assert(t[i] == s[i]);
    }
}

proof fn lemma_keys_push(s: Seq<u64>, x: u64)
    ensures
        forall|p: u64| #[trigger] s.push(x).contains(p) <==> (s.contains(p) || p == x),
{
    assert forall|p: u64| #[trigger] s.push(x).contains(p) <==> (s.contains(p) || p == x) by {
        if s.contains(p) {
            let k = choose|k: int| 0 <= k < s.len() && s[k] == p;
            assert(s.push(x)[k] == p);
        }
        assert(s.push(x)[s.len() as int] == x);
    }
}

/// A write to the maps of the fast path.
#[derive(Debug, Clone, Copy, PartialEq, Eq, Structural)]
pub enum FastWrite {
    /// Grants are honoured until this time.
    Until(u64),
    /// The mark that a granted socket gets.
    Mark(u32),
    /// Remove every grant.
    Flush,
}

/// The mark of a fast path that is not armed.
pub const UNARMED: u32 = 0;

/// What the kernel holds of the fast path.
pub ghost struct FastKernel {
    pub until: u64,
    pub mark: u32,
    pub granted: Set<u32>,
}

/// What the kernel holds after a write.
pub open spec fn wrote(k: FastKernel, w: FastWrite) -> FastKernel {
    match w {
        FastWrite::Until(t) => FastKernel { until: t, ..k },
        FastWrite::Mark(m) => FastKernel { mark: m, ..k },
        FastWrite::Flush => FastKernel { granted: Set::empty(), ..k },
    }
}

/// What the kernel holds after some writes.
pub open spec fn wrote_all(k: FastKernel, w: Seq<FastWrite>) -> FastKernel
    decreases w.len(),
{
    if w.len() == 0 {
        k
    } else {
        wrote(wrote_all(k, w.drop_last()), w.last())
    }
}

/// Whether the kernel marks the sockets of `pid`.
pub open spec fn marks(k: FastKernel, pid: u32, boot_ns: u64) -> bool {
    k.granted.contains(pid) && k.mark != UNARMED && boot_ns < k.until
}

/// The writes that arm the path.
pub open spec fn arming(mark: u32) -> Seq<FastWrite> {
    seq![FastWrite::Until(0), FastWrite::Mark(mark)]
}

/// The writes that disarm the path.
pub open spec fn disarming() -> Seq<FastWrite> {
    seq![FastWrite::Until(0), FastWrite::Mark(UNARMED), FastWrite::Flush]
}

/// The write that keeps the path alive.
pub open spec fn heartbeat(boot_ns: u64, deadline_secs: u64) -> FastWrite {
    FastWrite::Until((boot_ns + deadline_secs * 1_000_000_000) as u64)
}

/// Arms the path: the deadline of an earlier daemon is zeroed before the mark
/// is written, so nothing is honoured before the first beat.
pub fn arm(mark: u32) -> (r: Vec<FastWrite>)
    ensures
        r@ == seq![FastWrite::Until(0), FastWrite::Mark(mark)],
        r@ == arming(mark),
{
    let mut out: Vec<FastWrite> = Vec::new();
    out.push(FastWrite::Until(0));
    out.push(FastWrite::Mark(mark));
    proof {
        assert(out@ =~= seq![FastWrite::Until(0), FastWrite::Mark(mark)]);
    }
    out
}

/// Disarms the path at once: no deadline, no mark, no grant. Each step is tried
/// whether or not the one before it worked.
pub fn disarm() -> (r: Vec<FastWrite>)
    ensures
        r@ == seq![FastWrite::Until(0), FastWrite::Mark(UNARMED), FastWrite::Flush],
        r@ == disarming(),
{
    let mut out: Vec<FastWrite> = Vec::new();
    out.push(FastWrite::Until(0));
    out.push(FastWrite::Mark(UNARMED));
    out.push(FastWrite::Flush);
    proof {
        assert(out@ =~= seq![FastWrite::Until(0), FastWrite::Mark(UNARMED), FastWrite::Flush]);
    }
    out
}

/// The boot clock in nanoseconds, from its two parts; a part below zero counts
/// as zero.
pub fn boottime_ns(sec: i64, nsec: i64) -> (r: u64)
    requires
        sec * 1_000_000_000 + nsec <= u64::MAX,
        sec * 1_000_000_000 <= u64::MAX,
        nsec < 1_000_000_000,
    ensures
        r == (if sec < 0 {
            0
        } else {
            sec as int
        }) * 1_000_000_000 + (if nsec < 0 {
            0
        } else {
            nsec as int
        }),
{
    let s: u64 = if sec < 0 {
        0
    } else {
        sec as u64
    };
    let n: u64 = if nsec < 0 {
        0
    } else {
        nsec as u64
    };
    s * 1_000_000_000 + n
}

/// Pushes the deadline out to `deadline_secs` from now. If this stops being
/// called, grants stop being honoured within one deadline.
pub fn beat(boot_ns: u64, deadline_secs: u64) -> (r: FastWrite)
    requires
        boot_ns + deadline_secs * 1_000_000_000 <= u64::MAX,
    ensures
        r == FastWrite::Until((boot_ns + deadline_secs * 1_000_000_000) as u64),
        r == heartbeat(boot_ns, deadline_secs),
{
    FastWrite::Until(boot_ns + deadline_secs * 1_000_000_000)
}

/// Which maps an object has.
#[derive(Debug, Clone, Copy, PartialEq, Eq, Structural)]
pub struct ObjectMaps {
    pub verdicts: bool,
    pub exe_rules: bool,
    pub exe_rules_on: bool,
    pub fast_allow: bool,
    pub fast_allow_until: bool,
    pub fast_allow_mark: bool,
}

/// What a daemon can steer with an object's maps.
#[derive(Debug, Clone, Copy, PartialEq, Eq, Structural)]
pub struct SinkParts {
    /// The kernel can answer for processes that start while no daemon runs.
    pub precommit: bool,
    /// Grants can be written.
    pub fast_path: bool,
}

pub const NO_VERDICTS: &'static str = "no map named `VERDICTS` in the object";

/// What can be steered with the maps of an object.
pub open spec fn steers(m: ObjectMaps) -> Option<SinkParts> {
    if m.verdicts {
        Some(
            SinkParts {
                precommit: m.exe_rules && m.exe_rules_on,
                fast_path: m.fast_allow && m.fast_allow_until && m.fast_allow_mark,
            },
        )
    } else {
        None
    }
}

/// What a daemon can steer with an object's maps. The refusals are a must. The
/// fast path takes all three of its maps or none: grants without a deadline
/// would be honoured for ever.
pub fn sink_parts(m: ObjectMaps) -> (r: Result<SinkParts, String>)
    ensures
        r is Ok <==> m.verdicts,
        r matches Err(e) ==> e@ == NO_VERDICTS@,
        r matches Ok(p) ==> p == (SinkParts {
            precommit: m.exe_rules && m.exe_rules_on,
            fast_path: m.fast_allow && m.fast_allow_until && m.fast_allow_mark,
        }),
        (match r {
            Ok(p) => Some(p),
            Err(_) => None,
        }) == steers(m),
{
    if !m.verdicts {
        return Err(text(NO_VERDICTS));
    }
    Ok(
        SinkParts {
            precommit: m.exe_rules && m.exe_rules_on,
            fast_path: m.fast_allow && m.fast_allow_until && m.fast_allow_mark,
        },
    )
}

/// Why a map operation failed, as far as it matters here.
#[derive(Debug, Clone, Copy, PartialEq, Eq, Structural)]
pub enum MapFailure {
    KeyNotFound,
    /// The system's error number, where there was one.
    Os(i32),
    Other,
}

/// The error number for "no such entry".
pub const ENOENT: i32 = 2;

/// True when a map error is the kernel saying "no such key". Removing a key
/// that is not there is the usual case, and no failure.
pub fn is_absent(err: MapFailure) -> (r: bool)
    ensures
        r == (err == MapFailure::KeyNotFound || err == MapFailure::Os(ENOENT)),
        r <==> err is KeyNotFound || (err is Os && err->Os_0 == 2),
{
    match err {
        MapFailure::KeyNotFound => true,
        MapFailure::Os(n) => n == ENOENT,
        MapFailure::Other => false,
    }
}

/// The kernel's counters, summed over the processors.
#[derive(Debug, Clone, Copy, PartialEq, Eq, Structural)]
pub struct EnforceStats {
    /// `connect()` calls allowed because the map held an allow.
    pub allowed: u64,
    /// `connect()` calls refused in the kernel.
    pub denied: u64,
    /// `connect()` calls with no entry, which went on to the packet path.
    pub unknown: u64,
    /// Grants not honoured because the deadline had lapsed.
    pub stale: u64,
    /// Grants not applied because the socket carried a mark of somebody else.
    pub foreign_mark: u64,
    /// Decisions that could not be reported.
    pub report_dropped: u64,
}

/// What reading one counter came to.
#[derive(Debug)]
pub enum CounterRead {
    /// One value for each processor.
    Values(Vec<u64>),
    /// The pinned map has no such slot: it was made by a build that did not
    /// count this.
    Missing,
    Failed(String),
}

/// The sum of some counters, which wraps.
pub open spec fn total(v: Seq<u64>) -> int
    decreases v.len(),
{
    if v.len() == 0 {
        0
    } else {
        (total(v.drop_last()) + v.last()) % 0x1_0000_0000_0000_0000
    }
}

/// What a counter says.
pub open spec fn counter_value(c: CounterRead) -> Option<int> {
    match c {
        CounterRead::Values(v) => Some(total(v@)),
        CounterRead::Missing => Some(0),
        CounterRead::Failed(_) => None,
    }
}

/// What a failed read is reported as.
pub open spec fn counter_fault(slot: nat, e: Seq<char>) -> Seq<char> {
    "reading ENFORCE_STATS["@ + crate::text::decimal(slot) + "]: "@ + e
}

fn counter(slot: u64, c: &CounterRead) -> (r: Result<u64, String>)
    ensures
        match counter_value(*c) {
            Some(n) => r matches Ok(v) && v == n,
            None => r matches Err(e) && e@ == counter_fault(slot as nat, c->Failed_0@),
        },
{
    match c {
        CounterRead::Values(v) => {
            let mut sum: u64 = 0;
            let mut i: usize = 0;
            proof {
                assert(v@.take(0) =~= Seq::<u64>::empty());
            }
            while i < v.len()
                invariant
                    i <= v@.len(),
                    sum == total(v@.take(i as int)),
                decreases v@.len() - i,
            {
                proof {
                    assert(v@.take(i + 1).drop_last() =~= v@.take(i as int));
                }
                sum = sum.wrapping_add(v[i]);
                i += 1;
            }
            proof {
                assert(v@.take(i as int) =~= v@);
            }
            Ok(sum)
        },
        CounterRead::Missing => Ok(0),
        CounterRead::Failed(e) => {
            let mut m = text("reading ENFORCE_STATS[");
            crate::text::push_decimal(&mut m, slot);
            m.append("]: ");
            m.append(e.as_str());
            Err(m)
        },
    }
}

/// The slots of the counters.
pub const STAT_ALLOWED: usize = 0;

pub const STAT_DENIED: usize = 1;

pub const STAT_UNKNOWN: usize = 2;

pub const STAT_STALE: usize = 3;

pub const STAT_FOREIGN_MARK: usize = 4;

pub const STAT_REPORT_DROPPED: usize = 5;

/// The first counter that could not be read.
pub open spec fn first_failed(c: Seq<CounterRead>, i: int) -> Option<int>
    decreases c.len() - i,
{
    if i < 0 || i >= c.len() {
        None
    } else if counter_value(c[i]) is None {
        Some(i)
    } else {
        first_failed(c, i + 1)
    }
}

/// The counters from what was read of each slot, or the first read that failed.
pub fn stats(slots: &Vec<CounterRead>) -> (r: Result<EnforceStats, String>)
    requires
        slots@.len() == 6,
    ensures
        match first_failed(slots@, 0) {
            Some(i) => r matches Err(e) && e@ == counter_fault(i as nat, slots@[i]->Failed_0@),
            None => r matches Ok(s) && {
                &&& Some(s.allowed as int) == counter_value(slots@[0])
                &&& Some(s.denied as int) == counter_value(slots@[1])
                &&& Some(s.unknown as int) == counter_value(slots@[2])
                &&& Some(s.stale as int) == counter_value(slots@[3])
                &&& Some(s.foreign_mark as int) == counter_value(slots@[4])
                &&& Some(s.report_dropped as int) == counter_value(slots@[5])
            },
        },
{
    let mut values: Vec<u64> = Vec::new();
    let mut i: usize = 0;
    while i < 6
        invariant
            i <= 6,
            slots@.len() == 6,
            values@.len() == i,
            forall|k: int|
                0 <= k < i ==> Some(#[trigger] values@[k] as int) == counter_value(slots@[k]),
            first_failed(slots@, 0) == first_failed(slots@, i as int),
        decreases 6 - i,
    {
        match counter(i as u64, &slots[i]) {
            Ok(v) => {
                values.push(v);
            },
            Err(e) => {
                return Err(e);
            },
        }
        i += 1;
    }
    Ok(
        EnforceStats {
            allowed: values[STAT_ALLOWED],
            denied: values[STAT_DENIED],
            unknown: values[STAT_UNKNOWN],
            stale: values[STAT_STALE],
            foreign_mark: values[STAT_FOREIGN_MARK],
            report_dropped: values[STAT_REPORT_DROPPED],
        },
    )
}

/// Where the kernel expects its filesystem for pins.
pub const BPFFS: &'static str = "/sys/fs/bpf";

/// What that filesystem calls itself.
pub const BPF_FS_MAGIC: i64 = 0xcafe_4a11;

/// One directory for all pins.
pub const PIN_NAMESPACE: &'static str = "colony-firewall";

/// The layout of the events that the kernel side and the daemon exchange.
pub const ABI_VERSION: u64 = 4;

/// The name of a version's directory.
pub open spec fn version_name(v: nat) -> Seq<char> {
    "v"@ + crate::text::decimal(v)
}

fn own_version() -> (r: String)
    ensures
        r@ == version_name(ABI_VERSION as nat),
{
    let mut s = text("v");
    crate::text::push_decimal(&mut s, ABI_VERSION);
    s
}

/// The directory this build pins into.
pub fn pin_dir() -> (r: String)
    ensures
        r@ == BPFFS@ + "/"@ + PIN_NAMESPACE@ + "/"@ + version_name(ABI_VERSION as nat),
{
    let mut s = text(BPFFS);
    s.append("/");
    s.append(PIN_NAMESPACE);
    s.append("/");
    let v = own_version();
    s.append(v.as_str());
    s
}

/// Whether a directory beside the pins belongs to another version, whose pins
/// have to go: its programs would stay attached and keep this one's out.
pub fn is_other_version(name: &str) -> (r: bool)
    ensures
        r == (name@ != version_name(ABI_VERSION as nat)),
{
    let mine = own_version();
    !same_text(name, mine.as_str())
}

/// Whether a filesystem type is that of the pins. A plain directory of that name
/// is not: pinning into it would do nothing.
pub fn is_bpffs(f_type: i64) -> (r: bool)
    ensures
        r == (f_type == BPF_FS_MAGIC),
        r <==> f_type == 0xcafe_4a11,
{
    f_type == BPF_FS_MAGIC
}

/// What is wrong when there is no filesystem for pins.
pub const NOT_BPFFS: &'static str =
    "/sys/fs/bpf is not a bpffs mount (mount -t bpf bpffs /sys/fs/bpf)";

/// A program of the enforcement layer.
#[derive(Debug, Clone, Copy, PartialEq, Eq, Structural)]
pub enum Hook {
    Connect4,
    Connect6,
    /// Without the socket cookie, for kernels that do not offer it here.
    Connect4Basic,
    Connect6Basic,
    Sendmsg4,
    Sendmsg6,
}

impl Hook {
    /// The program's name in the object.
    pub open spec fn name(self) -> Seq<char> {
        match self {
            Hook::Connect4 => "cfc_connect4"@,
            Hook::Connect6 => "cfc_connect6"@,
            Hook::Connect4Basic => "cfc_connect4_basic"@,
            Hook::Connect6Basic => "cfc_connect6_basic"@,
            Hook::Sendmsg4 => "cfc_sendmsg4"@,
            Hook::Sendmsg6 => "cfc_sendmsg6"@,
        }
    }

    /// The pin that holds the program.
    pub open spec fn pin(self) -> Pin {
        match self {
            Hook::Connect4 | Hook::Connect4Basic => Pin::Connect4,
            Hook::Connect6 | Hook::Connect6Basic => Pin::Connect6,
            Hook::Sendmsg4 => Pin::Sendmsg4,
            Hook::Sendmsg6 => Pin::Sendmsg6,
        }
    }

    /// The program's name in the object.
    pub fn program(self) -> (r: &'static str)
        ensures
            r@ == self.name(),
    {
        match self {
            Hook::Connect4 => "cfc_connect4",
            Hook::Connect6 => "cfc_connect6",
            Hook::Connect4Basic => "cfc_connect4_basic",
            Hook::Connect6Basic => "cfc_connect6_basic",
            Hook::Sendmsg4 => "cfc_sendmsg4",
            Hook::Sendmsg6 => "cfc_sendmsg6",
        }
    }

    /// The pin that holds the program.
    pub fn pinned_as(self) -> (r: Pin)
        ensures
            r == self.pin(),
    {
        match self {
            Hook::Connect4 | Hook::Connect4Basic => Pin::Connect4,
            Hook::Connect6 | Hook::Connect6Basic => Pin::Connect6,
            Hook::Sendmsg4 => Pin::Sendmsg4,
            Hook::Sendmsg6 => Pin::Sendmsg6,
        }
    }
}

/// A pin of the enforcement layer.
#[derive(Debug, Clone, Copy, PartialEq, Eq, Structural)]
pub enum Pin {
    Connect4,
    Connect6,
    Sendmsg4,
    Sendmsg6,
}

impl Pin {
    /// The pin's file name.
    pub fn file_name(self) -> (r: &'static str)
        ensures
            r@ == (match self {
                Pin::Connect4 => "connect4"@,
                Pin::Connect6 => "connect6"@,
                Pin::Sendmsg4 => "sendmsg4"@,
                Pin::Sendmsg6 => "sendmsg6"@,
            }),
    {
        match self {
            Pin::Connect4 => "connect4",
            Pin::Connect6 => "connect6",
            Pin::Sendmsg4 => "sendmsg4",
            Pin::Sendmsg6 => "sendmsg6",
        }
    }
}

/// True when both connect pins are present: a previous daemon left enforcement
/// running, and this one steers it. Half a pair is a leftover, not enforcement.
pub fn already_attached(connect4: bool, connect6: bool) -> (r: bool)
    ensures
        r == (connect4 && connect6),
{
    connect4 && connect6
}

/// The pins that are there, of the four.
pub open spec fn present(connect4: bool, connect6: bool, sendmsg4: bool, sendmsg6: bool) -> Seq<
    Pin,
> {
    (if connect4 {
        seq![Pin::Connect4]
    } else {
        seq![]
    }) + (if connect6 {
        seq![Pin::Connect6]
    } else {
        seq![]
    }) + (if sendmsg4 {
        seq![Pin::Sendmsg4]
    } else {
        seq![]
    }) + (if sendmsg6 {
        seq![Pin::Sendmsg6]
    } else {
        seq![]
    })
}

/// The pins to remove before a fresh attach: each that is there, unless both
/// connect pins are. A lone one holds the cgroup's only slot, so every later
/// attach would fail, while its program goes on refusing with nobody to steer
/// it.
pub fn leftovers(connect4: bool, connect6: bool, sendmsg4: bool, sendmsg6: bool) -> (r: Vec<Pin>)
    ensures
        r@ == (if connect4 && connect6 {
            seq![]
        } else {
            present(connect4, connect6, sendmsg4, sendmsg6)
        }),
{
    let mut out: Vec<Pin> = Vec::new();
    if already_attached(connect4, connect6) {
        return out;
    }
    if connect4 {
        out.push(Pin::Connect4);
    }
    if connect6 {
        out.push(Pin::Connect6);
    }
    if sendmsg4 {
        out.push(Pin::Sendmsg4);
    }
    if sendmsg6 {
        out.push(Pin::Sendmsg6);
    }
    proof {
        assert(out@ =~= present(connect4, connect6, sendmsg4, sendmsg6));
    }
    out
}

/// True when the previous daemon left the programs of the fast path pinned too.
pub fn fast_path_attached(sendmsg4: bool, sendmsg6: bool) -> (r: bool)
    ensures
        r == (sendmsg4 && sendmsg6),
{
    sendmsg4 && sendmsg6
}

/// What this kernel let the fast path have.
#[derive(Debug, Clone, Copy, PartialEq, Eq, Structural)]
pub enum FastPathCapability {
    /// Both connect programs with the mark decision, and both sendmsg programs.
    Ready,
    /// A connect hook fell back to its basic twin.
    BasicConnect,
    /// A sendmsg hook did not load, attach or pin.
    SendmsgUnavailable,
    /// Pins of a previous daemon, which do not say.
    Inconclusive,
}

pub const BASIC_CONNECT: &'static str =
    "the connect hooks fell back to the basic variants (usually no bpf_get_socket_cookie / bpf_setsockopt on sock_addr programs; the log line beside this one has the kernel's actual answer)";

pub const SENDMSG_UNAVAILABLE: &'static str =
    "a cgroup/sendmsg hook did not load or attach (usually this kernel's verifier: bpf_getsockopt/setsockopt on sendmsg needs a newer kernel than on connect - 5.10 refuses, 6.12 accepts; the log line beside this one has the kernel's actual answer)";

pub const INCONCLUSIVE: &'static str =
    "these are a previous daemon's pins and they do not say whether this kernel runs the fast path's hooks; restart with the pins removed to find out";

impl FastPathCapability {
    /// Why the fast path is off.
    pub open spec fn reason(self) -> Option<Seq<char>> {
        match self {
            FastPathCapability::Ready => None,
            FastPathCapability::BasicConnect => Some(BASIC_CONNECT@),
            FastPathCapability::SendmsgUnavailable => Some(SENDMSG_UNAVAILABLE@),
            FastPathCapability::Inconclusive => Some(INCONCLUSIVE@),
        }
    }

    /// Why the fast path is off, or `None` when it is ready.
    pub fn off_reason(self) -> (r: Option<&'static str>)
        ensures
            match self.reason() {
                Some(t) => r matches Some(s) && s@ == t,
                None => r is None,
            },
    {
        match self {
            FastPathCapability::Ready => None,
            FastPathCapability::BasicConnect => Some(BASIC_CONNECT),
            FastPathCapability::SendmsgUnavailable => Some(SENDMSG_UNAVAILABLE),
            FastPathCapability::Inconclusive => Some(INCONCLUSIVE),
        }
    }
}

/// What attaching does next.
#[derive(Debug, Clone, Copy, PartialEq, Eq, Structural)]
pub enum AttachStage {
    /// Load, attach and pin this program, and report how it went.
    Try(Hook),
    /// Everything that could be put in place is.
    Done,
    /// A connect family could not be attached at all.
    Failed,
}

/// The attaching of the enforcement layer, one program at a time.
#[derive(Debug)]
pub struct AttachRun {
    pub stage: AttachStage,
    /// Pins can be made.
    pub pinning: bool,
    /// Every program attached, with its verified instruction count.
    pub programs: Vec<(Hook, Option<u32>)>,
    /// The connect pins that were made.
    pub pinned: Vec<Pin>,
    pub fast_path: FastPathCapability,
    /// Pins to remove before going on.
    pub unpin: Vec<Pin>,
}

/// What attaching has come to.
pub ghost struct Attaching {
    pub stage: AttachStage,
    pub pinning: bool,
    pub programs: Seq<(Hook, Option<u32>)>,
    pub pinned: Seq<Pin>,
    pub fast_path: FastPathCapability,
    pub unpin: Seq<Pin>,
}

impl View for AttachRun {
    type V = Attaching;

    open spec fn view(&self) -> Attaching {
        Attaching {
            stage: self.stage,
            pinning: self.pinning,
            programs: self.programs@,
            pinned: self.pinned@,
            fast_path: self.fast_path,
            unpin: self.unpin@,
        }
    }
}

/// The program to try when one could not be attached.
pub open spec fn basic_twin(h: Hook) -> Option<Hook> {
    match h {
        Hook::Connect4 => Some(Hook::Connect4Basic),
        Hook::Connect6 => Some(Hook::Connect6Basic),
        _ => None,
    }
}

/// Whether a program is a connect hook with the mark decision, or follows one.
pub open spec fn marks_sockets(h: Hook) -> bool {
    h != Hook::Connect4Basic && h != Hook::Connect6Basic
}

/// What follows a program that was attached. The programs of the fast path come
/// only behind connect hooks that both carry the mark decision.
pub open spec fn stage_after(h: Hook, all_mark: bool) -> AttachStage {
    match h {
        Hook::Connect4 | Hook::Connect4Basic => AttachStage::Try(Hook::Connect6),
        Hook::Connect6 => if all_mark {
            AttachStage::Try(Hook::Sendmsg4)
        } else {
            AttachStage::Done
        },
        Hook::Connect6Basic => AttachStage::Done,
        Hook::Sendmsg4 => AttachStage::Try(Hook::Sendmsg6),
        Hook::Sendmsg6 => AttachStage::Done,
    }
}

/// What attaching comes to when a program was attached.
pub open spec fn attached_one(a: Attaching, h: Hook, insns: Option<u32>) -> Attaching {
    let fast_path = if marks_sockets(h) {
        a.fast_path
    } else {
        FastPathCapability::BasicConnect
    };
    Attaching {
        stage: stage_after(h, fast_path == FastPathCapability::Ready),
        programs: a.programs.push((h, insns)),
        pinned: if a.pinning && h != Hook::Sendmsg4 && h != Hook::Sendmsg6 {
            a.pinned.push(h.pin())
        } else {
            a.pinned
        },
        fast_path,
        ..a
    }
}

/// What attaching comes to when a program could not be attached: the basic twin
/// of a connect hook is tried; without one the family fails, and what was pinned
/// goes, or the failure would leave half a pair behind. A sendmsg hook costs the
/// fast path, never enforcement.
pub open spec fn failed_one(a: Attaching, h: Hook) -> Attaching {
    match basic_twin(h) {
        Some(b) => Attaching { stage: AttachStage::Try(b), ..a },
        None => if h == Hook::Sendmsg4 || h == Hook::Sendmsg6 {
            Attaching {
                stage: AttachStage::Done,
                fast_path: FastPathCapability::SendmsgUnavailable,
                unpin: if a.pinning {
                    seq![Pin::Sendmsg4, Pin::Sendmsg6]
                } else {
                    Seq::empty()
                },
                ..a
            }
        } else {
            Attaching { stage: AttachStage::Failed, unpin: a.pinned, ..a }
        },
    }
}

/// What attaching starts from.
pub open spec fn fresh_attach(pinning: bool) -> Attaching {
    Attaching {
        stage: AttachStage::Try(Hook::Connect4),
        pinning,
        programs: Seq::empty(),
        pinned: Seq::empty(),
        fast_path: FastPathCapability::Ready,
        unpin: Seq::empty(),
    }
}

impl AttachRun {
    /// Starts with the connect hooks.
    pub fn new(pinning: bool) -> (r: AttachRun)
        ensures
            r@ == fresh_attach(pinning),
    {
        AttachRun {
            stage: AttachStage::Try(Hook::Connect4),
            pinning,
            programs: Vec::new(),
            pinned: Vec::new(),
            fast_path: FastPathCapability::Ready,
            unpin: Vec::new(),
        }
    }

    /// Takes how the attempt went: the verified instruction count of a program
    /// that was attached, or `None` for one that was not.
    pub fn step(&mut self, attached: Option<Option<u32>>)
        ensures
            match old(self).stage {
                AttachStage::Try(h) => final(self)@ == (match attached {
                    Some(insns) => attached_one(old(self)@, h, insns),
                    None => failed_one(old(self)@, h),
                }),
                _ => *final(self) == *old(self),
            },
    {
        let h = match self.stage {
            AttachStage::Try(h) => h,
            _ => {
                return;
            },
        };
        let ghost before = self@;
        match attached {
            Some(insns) => {
                let basic = h == Hook::Connect4Basic || h == Hook::Connect6Basic;
                if basic {
                    self.fast_path = FastPathCapability::BasicConnect;
                }
                self.programs.push((h, insns));
                if self.pinning && h != Hook::Sendmsg4 && h != Hook::Sendmsg6 {
                    self.pinned.push(h.pinned_as());
                }
                self.stage = match h {
                    Hook::Connect4 | Hook::Connect4Basic => AttachStage::Try(Hook::Connect6),
                    Hook::Connect6 => if self.fast_path == FastPathCapability::Ready {
                        AttachStage::Try(Hook::Sendmsg4)
                    } else {
                        AttachStage::Done
                    },
                    Hook::Connect6Basic => AttachStage::Done,
                    Hook::Sendmsg4 => AttachStage::Try(Hook::Sendmsg6),
                    Hook::Sendmsg6 => AttachStage::Done,
                };
            },
            None => match h {
                Hook::Connect4 => {
                    self.stage = AttachStage::Try(Hook::Connect4Basic);
                },
                Hook::Connect6 => {
                    self.stage = AttachStage::Try(Hook::Connect6Basic);
                },
                Hook::Connect4Basic | Hook::Connect6Basic => {
                    self.stage = AttachStage::Failed;
                    let mut gone: Vec<Pin> = Vec::new();
                    let mut i: usize = 0;
                    while i < self.pinned.len()
                        invariant
                            i <= self.pinned@.len(),
                            self.pinned@ == before.pinned,
                            self.programs@ == before.programs,
                            self.stage == AttachStage::Failed,
                            self.fast_path == before.fast_path,
                            self.pinning == before.pinning,
                            gone@ == self.pinned@.take(i as int),
                        decreases self.pinned@.len() - i,
                    {
                        proof {
                            assert(self.pinned@.take(i as int).push(self.pinned@[i as int])
                                =~= self.pinned@.take(i + 1));
                        }
                        gone.push(self.pinned[i]);
                        i += 1;
                    }
                    proof {
                        assert(self.pinned@.take(i as int) =~= self.pinned@);
                    }
                    self.unpin = gone;
                },
                Hook::Sendmsg4 | Hook::Sendmsg6 => {
                    self.stage = AttachStage::Done;
                    self.fast_path = FastPathCapability::SendmsgUnavailable;
                    let mut gone: Vec<Pin> = Vec::new();
                    if self.pinning {
                        gone.push(Pin::Sendmsg4);
                        gone.push(Pin::Sendmsg6);
                    }
                    proof {
                        assert(self.pinning ==> gone@ =~= seq![Pin::Sendmsg4, Pin::Sendmsg6]);
                    }
                    self.unpin = gone;
                },
            },
        }
    }
}

/// Both writers of refusals agree about one process: what the walk over recent
/// processes clears, the sweep over the others clears too, and nothing else.
pub proof fn both_sweeps_agree(rules: Seq<Rule>, v: ProcView, now: i64)
    ensures
        is_doomed(rules, Orphan { pid: v.pid, view: Some(v) }, now) <==> deny_op(
            rules,
            &v.process,
            now,
        ) == DenyOp::Clear,
{
}

/// A refusal that is written or kept has a rule behind it: one that refuses the
/// process, or one that could still turn out to.
pub proof fn no_refusal_without_a_rule(rules: Seq<Rule>, p: &Process, now: i64)
    requires
        deny_op(rules, p, now) != DenyOp::Clear,
    ensures
        (wide_from(rules, p, now, 0) matches Some(v) && refuses(v.action)) || refusal_open(
            rules,
            p,
            now,
        ),
{
}

/// A process is never both refused and granted, and an answer in doubt grants
/// nothing.
pub proof fn doubt_grants_nothing(rules: Seq<Rule>, p: &Process, now: i64)
    ensures
        earned(rules, p, now) is Yes ==> deny_op(rules, p, now) == DenyOp::Clear,
        wide_from(rules, p, now, 0) is None ==> earned(rules, p, now) == Grant::No,
{
}

/// A grant is written only for the process that was judged: with its start time
/// known and unchanged, and its executable the same.
pub proof fn a_grant_never_lands_on_another_process(
    grant: Grant,
    judged: &Process,
    judged_at: Option<u64>,
    start_now: Option<u64>,
    exe_now: Option<Seq<char>>,
)
    requires
        grant_step(grant, judged, judged_at, start_now, exe_now) is Write,
    ensures
        judged_at is Some,
        start_now == judged_at,
        exe_now == Some(judged.exe@),
{
}

/// A refusal is cleared only where the judged process still is, or none is.
pub proof fn a_recycled_pid_keeps_its_refusal(
    d: Seq<(u32, Option<u64>)>,
    starts: Seq<Option<u64>>,
    pid: u32,
)
    requires
        d.len() == starts.len(),
        clearable_of(d, starts).contains(pid),
    ensures
        exists|i: int|
            0 <= i < d.len() && (#[trigger] d[i]).0 == pid && (starts[i] is None || starts[i]
                == d[i].1),
    decreases d.len(),
{
    lemma_clearable(d, starts, pid);
}

proof fn lemma_clearable(d: Seq<(u32, Option<u64>)>, starts: Seq<Option<u64>>, pid: u32)
    requires
        d.len() <= starts.len(),
        clearable_of(d, starts).contains(pid),
    ensures
        exists|i: int| 0 <= i < d.len() && (#[trigger] d[i]).0 == pid && may_clear(d[i].1, starts[i]),
    decreases d.len(),
{
    if d.len() > 0 {
        let last = d.len() - 1;
        let rest = clearable_of(d.drop_last(), starts);
        if rest.contains(pid) {
            lemma_clearable(d.drop_last(), starts, pid);
            let i = choose|i: int|
                0 <= i < d.drop_last().len() && (#[trigger] d.drop_last()[i]).0 == pid && may_clear(
                    d.drop_last()[i].1,
                    starts[i],
                );
            assert(d[i].0 == pid);
        } else {
            assert(may_clear(d.last().1, starts[last]));
            assert(clearable_of(d, starts) == rest.push(d.last().0));
            let k = choose|k: int|
                0 <= k < clearable_of(d, starts).len() && clearable_of(d, starts)[k] == pid;
            assert(k == rest.len()) by {
                if k < rest.len() {
                    assert(rest[k] == pid);
                }
            }
            assert(d[last].0 == pid);
        }
    }
}

/// The kernel's own table refuses nothing that the packet path would let pass:
/// every outbound flow of every process of such an executable, whoever runs it,
/// is decided by a rule that refuses.
pub proof fn compiled_refusals_agree_with_the_packet_path(
    rules: Seq<Rule>,
    now: i64,
    full: &Process,
    c: &Connection,
)
    requires
        refused_outright(rules, now, full.exe@),
        c.direction == Direction::Outbound,
    ensures
        first_hit(rules, c, full, now, 0) matches Some(k) && 0 <= k < rules.len() && refuses(
            rules[k].action,
        ),
{
    let p = choose|p: Process|
        stands_for(p, full.exe@) && (#[trigger] wide_from(rules, &p, now, 0) matches Some(v)
            && refuses(v.action));
    lemma_compiled(rules, now, &p, full, c, 0);
}

proof fn lemma_compiled(
    rules: Seq<Rule>,
    now: i64,
    p: &Process,
    full: &Process,
    c: &Connection,
    i: int,
)
    requires
        stands_for(*p, full.exe@),
        !user_rule_for_all(rules, now),
        !user_rule_names(rules, now, full.exe@),
        c.direction == Direction::Outbound,
        0 <= i <= rules.len(),
        wide_from(rules, p, now, i) is Some,
    ensures
        first_hit(rules, c, full, now, i) matches Some(k) && {
            &&& i <= k < rules.len()
            &&& wide_from(rules, p, now, i) == Some(
                ProcessVerdict {
                    rule_id: rules[k].id,
                    action: rules[k].action,
                    duration: rules[k].duration,
                },
            )
        },
    decreases rules.len() - i,
{
    if i < rules.len() {
        let r = rules[i];
        if r.live(now) && r.scope.direction != Some(Direction::Inbound) && r.scope.fits_process(p)
            && !r.scope.open_for(p) {
            assert(hits(r, c, full, now));
        } else {
            if r.live(now) && r.scope.direction != Some(Direction::Inbound) {
                assert(!r.scope.open_for(p));
                assert(!r.scope.fits_process(p));
                if r.scope.uid is Some {
                    assert(r.scope.exe_path is Some);
                    assert(!is_for_exe(r, now, full.exe@));
                }
                assert(!r.scope.fits_process(full));
            }
            assert(!hits(r, c, full, now));
            lemma_compiled(rules, now, p, full, c, i + 1);
        }
    }
}

/// Arming honours nothing, whatever an earlier daemon left in the maps: from its
/// first write until the first beat the kernel marks no socket.
pub proof fn arming_honours_nothing(k: FastKernel, mark: u32, pid: u32, boot_ns: u64)
    ensures
        ({
            let w = seq![FastWrite::Until(0), FastWrite::Mark(mark)];
            &&& !marks(wrote_all(k, w.take(1)), pid, boot_ns)
            &&& !marks(wrote_all(k, w), pid, boot_ns)
        }),
{
    let w = seq![FastWrite::Until(0), FastWrite::Mark(mark)];
    reveal_with_fuel(wrote_all, 3);
    assert(w.take(1).drop_last() =~= Seq::<FastWrite>::empty());
    assert(w.drop_last() =~= w.take(1));
}

/// Each step of disarming is enough by itself: once one of them has worked, the
/// kernel marks nothing, whatever became of the others.
pub proof fn any_step_of_disarming_is_enough(k: FastKernel, step: int, pid: u32, boot_ns: u64)
    requires
        0 <= step < 3,
    ensures
        ({
            let w = seq![FastWrite::Until(0), FastWrite::Mark(UNARMED), FastWrite::Flush];
            !marks(wrote(k, w[step]), pid, boot_ns)
        }),
{
}

/// A daemon that stops beating stops its grants: a deadline's length after the
/// last beat nothing is honoured.
pub proof fn grants_lapse_without_a_beat(
    k: FastKernel,
    beat_ns: u64,
    deadline_secs: u64,
    later_ns: u64,
    pid: u32,
)
    requires
        beat_ns + deadline_secs * 1_000_000_000 <= u64::MAX,
        later_ns >= beat_ns + deadline_secs * 1_000_000_000,
    ensures
        !marks(
            wrote(k, FastWrite::Until((beat_ns + deadline_secs * 1_000_000_000) as u64)),
            pid,
            later_ns,
        ),
{
}

/// What holds at every point of attaching: a failed run removes every pin it
/// made, and the fast path is ready only with all four programs in place.
pub open spec fn attach_invariant(a: Attaching) -> bool {
    &&& a.stage == AttachStage::Failed ==> a.unpin == a.pinned
    &&& a.stage == AttachStage::Done && a.fast_path == FastPathCapability::Ready ==> {
        &&& a.programs.len() == 4
        &&& forall|i: int| 0 <= i < 4 ==> marks_sockets((#[trigger] a.programs[i]).0)
    }
    &&& a.stage == AttachStage::Done && a.pinning ==> a.pinned == seq![Pin::Connect4, Pin::Connect6]
    &&& (a.stage matches AttachStage::Try(h) ==> attach_ready(a, h))
}

/// Where attaching stands when a program is about to be tried.
pub open spec fn attach_ready(a: Attaching, h: Hook) -> bool {
    &&& a.unpin.len() == 0
    &&& a.fast_path == FastPathCapability::Ready ==> forall|i: int|
        0 <= i < a.programs.len() ==> marks_sockets((#[trigger] a.programs[i]).0)
    &&& match h {
        Hook::Connect4 | Hook::Connect4Basic => a.programs.len() == 0 && a.pinned.len() == 0,
        Hook::Connect6 | Hook::Connect6Basic => {
            &&& a.programs.len() == 1
            &&& a.pinned == (if a.pinning {
                seq![Pin::Connect4]
            } else {
                Seq::empty()
            })
        },
        Hook::Sendmsg4 => a.programs.len() == 2 && a.fast_path == FastPathCapability::Ready
            && a.pinned == (if a.pinning {
            seq![Pin::Connect4, Pin::Connect6]
        } else {
            Seq::empty()
        }),
        Hook::Sendmsg6 => a.programs.len() == 3 && a.fast_path == FastPathCapability::Ready
            && a.pinned == (if a.pinning {
            seq![Pin::Connect4, Pin::Connect6]
        } else {
            Seq::empty()
        }),
    }
}

/// A failed attach leaves no pin behind, a finished one holds both families, and
/// the fast path is ready only with all four programs: this holds from the start
/// and whatever each attempt comes to.
pub proof fn attaching_leaves_no_half_pair(
    a: Attaching,
    h: Hook,
    insns: Option<u32>,
    pinning: bool,
)
    requires
        attach_invariant(a),
        a.stage == AttachStage::Try(h),
    ensures
        attach_invariant(fresh_attach(pinning)),
        attach_invariant(attached_one(a, h, insns)),
        attach_invariant(failed_one(a, h)),
{
    let b = attached_one(a, h, insns);
    if a.pinning {
        assert(Seq::<Pin>::empty().push(Pin::Connect4) =~= seq![Pin::Connect4]);
        assert(seq![Pin::Connect4].push(Pin::Connect6) =~= seq![Pin::Connect4, Pin::Connect6]);
        if h == Hook::Connect4 || h == Hook::Connect4Basic {
            assert(a.pinned =~= Seq::<Pin>::empty());
        }
    } else if h == Hook::Connect4 || h == Hook::Connect4Basic {
        assert(a.pinned =~= Seq::<Pin>::empty());
    }
    assert(b.programs.last() == (h, insns));
}

/// The pids that are refused once some work is done.
pub open spec fn worked(refused: Set<u32>, work: Seq<(u32, DenyOp)>) -> Set<u32>
    decreases work.len(),
{
    if work.len() == 0 {
        refused
    } else {
        let before = worked(refused, work.drop_last());
        match work.last().1 {
            DenyOp::Deny => before.insert(work.last().0),
            DenyOp::Clear => before.remove(work.last().0),
            DenyOp::Keep => before,
        }
    }
}

/// Whether no two views are of one pid.
pub open spec fn distinct_pids(v: Seq<ProcView>) -> bool {
    forall|i: int, j: int| 0 <= i < j < v.len() ==> (#[trigger] v[i]).pid != (#[trigger] v[j]).pid
}

/// After a resync the refusals are what the rules say: of every process that was
/// viewed and is still there, it is refused if its answer is a refusal, if not
/// it is not, and if the rules leave it open it is as it was. Every other pid is
/// as it was, one that changed hands meanwhile among them.
pub proof fn a_resync_leaves_what_the_rules_say(
    rules: Seq<Rule>,
    v: Seq<ProcView>,
    starts: Seq<Option<u64>>,
    now: i64,
    refused: Set<u32>,
    pid: u32,
)
    requires
        v.len() == starts.len(),
        distinct_pids(v),
    ensures
        forall|i: int|
            0 <= i < v.len() && (#[trigger] v[i]).pid == pid && unchanged(v[i].judged_at, starts[i])
                ==> (worked(refused, deny_work_of(rules, v, starts, now)).contains(pid) <==> (
            match deny_op(rules, &v[i].process, now) {
                DenyOp::Deny => true,
                DenyOp::Clear => false,
                DenyOp::Keep => refused.contains(pid),
            })),
        (forall|i: int|
            0 <= i < v.len() && (#[trigger] v[i]).pid == pid ==> !unchanged(
                v[i].judged_at,
                starts[i],
            )) ==> (worked(refused, deny_work_of(rules, v, starts, now)).contains(pid)
            <==> refused.contains(pid)),
{
    lemma_resync(rules, v, starts, now, refused, pid);
}

/// Whether some view of this pid is of a process that is still there.
spec fn touched(v: Seq<ProcView>, starts: Seq<Option<u64>>, pid: u32) -> bool {
    exists|i: int|
        0 <= i < v.len() && (#[trigger] v[i]).pid == pid && unchanged(v[i].judged_at, starts[i])
}

proof fn lemma_resync(
    rules: Seq<Rule>,
    v: Seq<ProcView>,
    starts: Seq<Option<u64>>,
    now: i64,
    refused: Set<u32>,
    pid: u32,
)
    requires
        v.len() <= starts.len(),
        distinct_pids(v),
    ensures
        forall|i: int|
            0 <= i < v.len() && (#[trigger] v[i]).pid == pid && unchanged(v[i].judged_at, starts[i])
                ==> (worked(refused, deny_work_of(rules, v, starts, now)).contains(pid) <==> (
            match deny_op(rules, &v[i].process, now) {
                DenyOp::Deny => true,
                DenyOp::Clear => false,
                DenyOp::Keep => refused.contains(pid),
            })),
        !touched(v, starts, pid) ==> (worked(
            refused,
            deny_work_of(rules, v, starts, now),
        ).contains(pid) <==> refused.contains(pid)),
    decreases v.len(),
{
    if v.len() > 0 {
        let front = v.drop_last();
        let last = v.len() - 1;
        assert forall|i: int, j: int| 0 <= i < j < front.len() implies (#[trigger] front[i]).pid
            != (#[trigger] front[j]).pid by {
            assert(v[i].pid != v[j].pid);
        }
        lemma_resync(rules, front, starts, now, refused, pid);
        let rest = deny_work_of(rules, front, starts, now);
        let all = deny_work_of(rules, v, starts, now);
        if unchanged(v[last].judged_at, starts[last]) {
            assert(all.drop_last() =~= rest);
        }
        assert(touched(front, starts, pid) ==> touched(v, starts, pid)) by {
            if touched(front, starts, pid) {
                let i = choose|i: int|
                    0 <= i < front.len() && (#[trigger] front[i]).pid == pid && unchanged(
                        front[i].judged_at,
                        starts[i],
                    );
                assert(v[i].pid == pid);
            }
        }
        assert forall|i: int|
            0 <= i < v.len() && (#[trigger] v[i]).pid == pid && unchanged(
                v[i].judged_at,
                starts[i],
            ) implies (worked(refused, all).contains(pid) <==> (match deny_op(
            rules,
            &v[i].process,
            now,
        ) {
            DenyOp::Deny => true,
            DenyOp::Clear => false,
            DenyOp::Keep => refused.contains(pid),
        })) by {
            if i < last {
                assert(front[i] == v[i]);
                assert(v[i].pid != v[last].pid);
            } else {
                if touched(front, starts, pid) {
                    let j = choose|j: int|
                        0 <= j < front.len() && (#[trigger] front[j]).pid == pid && unchanged(
                            front[j].judged_at,
                            starts[j],
                        );
                    assert(v[j].pid != v[last].pid);
                }
            }
        }
        if !touched(v, starts, pid) && v[last].pid == pid {
            assert(!unchanged(v[last].judged_at, starts[last]));
        }
    }
}

/// A deleted rule lifts its refusal: an orphan that no rule refuses, or could
/// still turn out to refuse, is marked for clearing, with the start time it was
/// judged at.
pub proof fn an_orphan_without_a_rule_is_doomed(
    rules: Seq<Rule>,
    o: Seq<Orphan>,
    now: i64,
    k: int,
)
    requires
        0 <= k < o.len(),
        is_doomed(rules, o[k], now),
    ensures
        doomed_of(rules, o, now).contains((o[k].pid, judged_when(o[k]))),
    decreases o.len(),
{
    let front = o.drop_last();
    let rest = doomed_of(rules, front, now);
    let all = doomed_of(rules, o, now);
    let x = (o[k].pid, judged_when(o[k]));
    if k < front.len() {
        an_orphan_without_a_rule_is_doomed(rules, front, now, k);
        let j = choose|j: int| 0 <= j < rest.len() && rest[j] == x;
        assert(all[j] == x);
    } else {
        assert(all[rest.len() as int] == x);
    }
}

/// What goes into the kernel's maps is what the packet path would say: whatever
/// else becomes known of a process, every outbound flow of one that is refused
/// is decided by a rule that refuses, and every outbound flow of one that is
/// granted by the rule that granted, which allows.
pub proof fn the_kernel_agrees_with_the_packet_path(
    rules: Seq<Rule>,
    known: &Process,
    full: &Process,
    c: &Connection,
    now: i64,
)
    requires
        crate::decision::refines(full, known),
        c.direction == Direction::Outbound,
    ensures
        deny_op(rules, known, now) == DenyOp::Deny ==> (first_hit(rules, c, full, now, 0) matches Some(
            k,
        ) && 0 <= k < rules.len() && refuses(rules[k].action)),
        earned(rules, known, now) matches Grant::Yes(id) ==> (first_hit(
            rules,
            c,
            full,
            now,
            0,
        ) matches Some(k) && 0 <= k < rules.len() && rules[k].id == id && rules[k].action
            == Action::Allow),
{
    if wide_from(rules, known, now, 0) is Some {
        crate::decision::process_wide_answers_agree_with_the_packet_path(
            rules,
            known,
            full,
            c,
            now,
            0,
        );
    }
}

/// A process whose answer is a refusal of either kind is refused in the kernel,
/// and one whose answer is an allow is not. Without an answer what stands is
/// kept exactly where an outbound rule in force that does not allow could still
/// turn out to apply, and cleared everywhere else.
pub proof fn a_refusing_answer_is_never_cleared(rules: Seq<Rule>, p: &Process, now: i64)
    ensures
        wide_from(rules, p, now, 0) is Some ==> deny_op(rules, p, now) == (if wide_from(
            rules,
            p,
            now,
            0,
        )->Some_0.action == Action::Allow {
            DenyOp::Clear
        } else {
            DenyOp::Deny
        }),
        wide_from(rules, p, now, 0) is None ==> deny_op(rules, p, now) == (if exists|i: int|
            0 <= i < rules.len() && (#[trigger] rules[i]).enabled && !rules[i].over(now)
                && rules[i].scope.direction != Some(Direction::Inbound) && rules[i].action
                != Action::Allow && rules[i].scope.open_for(p) {
            DenyOp::Keep
        } else {
            DenyOp::Clear
        }),
{
    crate::decision::every_action_but_allow_refuses(Action::Allow, rules, p, now);
}

/// A refusing rule for nothing but the executable refuses every process of it,
/// unless a rule before it is about that process too; an allow for nothing but
/// the executable lifts the refusal.
pub proof fn a_rule_for_an_executable_reaches_the_kernel(
    rules: Seq<Rule>,
    p: &Process,
    now: i64,
    k: int,
)
    requires
        0 <= k < rules.len(),
        rules[k].enabled,
        !rules[k].over(now),
        rules[k].scope.exe_path is Some && rules[k].scope.exe_path->Some_0@ == p.exe@,
        rules[k].scope.exe_sha256 is None && rules[k].scope.parent_exe is None,
        rules[k].scope.uid is None,
        rules[k].scope.direction is None,
        rules[k].scope.src_net is None && rules[k].scope.src_port is None,
        rules[k].scope.dst_host is None && rules[k].scope.dst_net is None,
        rules[k].scope.dst_port is None && rules[k].scope.protocol is None,
        forall|j: int|
            0 <= j < k ==> (#[trigger] rules[j]).scope.exe_path is Some
                && rules[j].scope.exe_path->Some_0@ != p.exe@,
    ensures
        rules[k].action == Action::Deny ==> deny_op(rules, p, now) == DenyOp::Deny,
        rules[k].action == Action::Reject ==> deny_op(rules, p, now) == DenyOp::Deny,
        rules[k].action == Action::Allow ==> deny_op(rules, p, now) == DenyOp::Clear,
        earned(rules, p, now) == (if rules[k].action == Action::Allow && (rules[k].duration
            == crate::model::Duration::Always || rules[k].duration
            == crate::model::Duration::UntilRestart) {
            Grant::Yes(rules[k].id)
        } else {
            Grant::No
        }),
{
    assert forall|j: int| 0 <= j < k implies (!(#[trigger] rules[j]).enabled || rules[j].over(now)
        || rules[j].scope.direction == Some(Direction::Inbound) || (!rules[j].scope.fits_process(p)
        && !rules[j].scope.open_for(p))) by {}
    crate::decision::the_first_rule_that_could_apply_answers_for_the_process(rules, p, now, k);
}

/// A grant is earned by an answer that allows and lasts, and by nothing else;
/// the rule that is credited is the one that answered.
pub proof fn a_grant_is_earned_by_a_lasting_allow(rules: Seq<Rule>, p: &Process, now: i64)
    ensures
        earned(rules, p, now) is Yes <==> wide_from(rules, p, now, 0) is Some && wide_from(
            rules,
            p,
            now,
            0,
        )->Some_0.action == Action::Allow && (wide_from(rules, p, now, 0)->Some_0.duration
            == crate::model::Duration::Always || wide_from(rules, p, now, 0)->Some_0.duration
            == crate::model::Duration::UntilRestart),
        earned(rules, p, now) is Yes ==> earned(rules, p, now)->Yes_0 == wide_from(
            rules,
            p,
            now,
            0,
        )->Some_0.rule_id,
{
}

/// A grant that was decided is written for the rule that earned it if the pid
/// shows the start time it was judged at and runs the same executable, and is
/// left alone if not; a grant that was not earned is withdrawn in any case.
pub proof fn a_grant_is_written_where_nothing_changed(
    rule: u128,
    judged: &Process,
    at: u64,
    now: u64,
    exe: Seq<char>,
)
    ensures
        grant_step(Grant::Yes(rule), judged, Some(at), Some(now), Some(exe)) == (if at == now && exe
            == judged.exe@ {
            GrantStep::Write(rule)
        } else {
            GrantStep::Refuse
        }),
        grant_step(Grant::Yes(rule), judged, None, Some(now), Some(exe)) == GrantStep::Refuse,
        grant_step(Grant::Yes(rule), judged, Some(at), None, Some(exe)) == GrantStep::Refuse,
        grant_step(Grant::Yes(rule), judged, None, None, Some(exe)) == GrantStep::Refuse,
        grant_step(Grant::Yes(rule), judged, Some(at), Some(now), None) == GrantStep::Refuse,
        grant_step(Grant::No, judged, Some(at), Some(now), Some(exe)) == GrantStep::Withdraw,
        grant_step(Grant::No, judged, None, None, None) == GrantStep::Withdraw,
        same_exe(judged, Some(exe)) <==> exe == judged.exe@,
        !same_exe(judged, None),
{
}

/// A pid holds the process that was judged only where both start times are known
/// and the same; a refusal may go only where that is so or no process is.
pub proof fn a_start_time_tells_processes_apart(at: u64, now: u64)
    ensures
        unchanged(Some(at), Some(now)) <==> at == now,
        !unchanged(None, Some(now)) && !unchanged(Some(at), None) && !unchanged(None, None),
        may_clear(Some(at), Some(now)) <==> at == now,
        may_clear(Some(at), None) && may_clear(None, None) && !may_clear(None, Some(now)),
{
}

/// The work of a resync is one step for each process that was viewed and is
/// still there, in their order, and nothing for the others.
pub proof fn a_resync_works_on_what_is_still_there(
    rules: Seq<Rule>,
    v: Seq<ProcView>,
    starts: Seq<Option<u64>>,
    now: i64,
    last: ProcView,
)
    requires
        v.len() < starts.len(),
    ensures
        deny_work_of(rules, Seq::empty(), starts, now).len() == 0,
        deny_work_of(rules, v.push(last), starts, now) == (if last.judged_at is Some
            && starts[v.len() as int] == last.judged_at {
            deny_work_of(rules, v, starts, now).push(
                (last.pid, deny_op(rules, &last.process, now)),
            )
        } else {
            deny_work_of(rules, v, starts, now)
        }),
{
    assert(v.push(last).drop_last() =~= v);
}

/// An orphan is doomed, at the time it was judged, exactly when it is gone or
/// the rules clear its refusal; the others are not.
pub proof fn the_doomed_are_the_gone_and_the_cleared(rules: Seq<Rule>, o: Seq<Orphan>, last: Orphan, now: i64)
    ensures
        doomed_of(rules, Seq::empty(), now).len() == 0,
        last.view is None ==> doomed_of(rules, o.push(last), now) == doomed_of(
            rules,
            o,
            now,
        ).push((last.pid, None)),
        last.view is Some && deny_op(rules, &last.view->Some_0.process, now) == DenyOp::Clear
            ==> doomed_of(rules, o.push(last), now) == doomed_of(rules, o, now).push(
            (last.pid, last.view->Some_0.judged_at),
        ),
        last.view is Some && deny_op(rules, &last.view->Some_0.process, now) != DenyOp::Clear
            ==> doomed_of(rules, o.push(last), now) == doomed_of(rules, o, now),
{
    assert(o.push(last).drop_last() =~= o);
}

/// Of the doomed, those go whose pid shows no process or the one that was
/// judged, in their order; the others stay.
pub proof fn the_cleared_are_those_nobody_took_over(
    d: Seq<(u32, Option<u64>)>,
    starts: Seq<Option<u64>>,
    pid: u32,
    at: Option<u64>,
)
    requires
        d.len() < starts.len(),
    ensures
        clearable_of(Seq::empty(), starts).len() == 0,
        clearable_of(d.push((pid, at)), starts) == (if starts[d.len() as int] is None
            || starts[d.len() as int] == at {
            clearable_of(d, starts).push(pid)
        } else {
            clearable_of(d, starts)
        }),
{
    assert(d.push((pid, at)).drop_last() =~= d);
}

/// Orphans are the pids that hold an entry and are not known, each once: the
/// refused in their order, then the granted that were not refused.
pub proof fn orphans_are_the_unknown_holders(
    known: Seq<u32>,
    refused: Seq<u32>,
    granted: Seq<u32>,
    pid: u32,
)
    ensures
        strangers(known, refused) == refused.filter(|p: u32| !known.contains(p)),
        orphans_of(known, refused, Seq::empty()) == strangers(known, refused),
        orphans_of(known, refused, granted.push(pid)) == (if known.contains(pid) || orphans_of(
            known,
            refused,
            granted,
        ).contains(pid) {
            orphans_of(known, refused, granted)
        } else {
            orphans_of(known, refused, granted).push(pid)
        }),
    decreases refused.len(),
{
    reveal(Seq::filter);
    if refused.len() > 0 {
        orphans_are_the_unknown_holders(known, refused.drop_last(), granted, pid);
    }
    assert(granted.push(pid).drop_last() =~= granted);
}

/// The path of a replaced executable is what stands before the kernel's remark;
/// every other path is itself.
pub proof fn the_kernels_remark_comes_off(path: Seq<char>)
    ensures
        before_suffix(path + " (deleted)"@, DELETED_SUFFIX@) == path,
        (forall|t: Seq<char>| path != #[trigger] (t + " (deleted)"@)) ==> before_suffix(
            path,
            DELETED_SUFFIX@,
        ) == path,
{
    let s = path + " (deleted)"@;
    let n = " (deleted)"@.len() as int;
    assert(s.skip(s.len() - n) =~= " (deleted)"@);
    assert(s.take(s.len() - n) =~= path);
    if path.len() >= n && path.skip(path.len() - n) == " (deleted)"@ {
        let t = path.take(path.len() - n);
        assert(path =~= t + " (deleted)"@);
    }
}

/// The user of a process is the first number behind `Uid:`, the real one, on the
/// first line that begins so; without such a line there is none.
pub proof fn the_user_is_read_off_its_line(
    s: Seq<char>,
    k: int,
    user: nat,
    rest: Seq<char>,
)
    ensures
        0 <= k < lines(s).len() && lines(s)[k] == "Uid:"@ + seq!['\t'] + crate::text::decimal(user)
            + seq!['\t'] + rest && (forall|j: int|
            0 <= j < k ==> !((#[trigger] lines(s)[j]).len() >= 4 && lines(s)[j].take(4)
                == "Uid:"@)) ==> status_uid(s) == (if user <= u32::MAX {
            Some(user as u32)
        } else {
            None
        }),
        (forall|j: int|
            0 <= j < lines(s).len() ==> !((#[trigger] lines(s)[j]).len() >= 4 && lines(s)[j].take(4)
                == "Uid:"@)) ==> status_uid(s) is None,
{
    reveal_strlit("Uid:");
    let v = lines(s);
    let d = crate::text::decimal(user);
    let after = seq!['\t'] + d + seq!['\t'] + rest;
    if 0 <= k < v.len() && v[k] == "Uid:"@ + seq!['\t'] + d + seq!['\t'] + rest && (forall|j: int|
        0 <= j < k ==> !((#[trigger] v[j]).len() >= 4 && v[j].take(4) == "Uid:"@)) {
        assert(v[k] =~= "Uid:"@ + after);
        crate::text::a_prefix_comes_off(v[k], "Uid:"@, after);
        lemma_line_at(v, "Uid:"@, k);
        crate::text::decimal_numbers_read_back(user, u32::MAX as nat, d);
        let none = Seq::<char>::empty();
        lemma_digits_are_a_word(user);
        crate::text::whitespace_parts_words(none, '\t', d + seq!['\t'] + rest);
        assert(none + seq!['\t'] + (d + seq!['\t'] + rest) =~= after);
        crate::text::whitespace_parts_words(d, '\t', rest);
        crate::text::words_read_back(none, '\t', d);
        assert(words(after) =~= words(none) + (seq![d] + words(rest)));
        assert(words(after)[0] == d);
    }
    if forall|j: int|
        0 <= j < v.len() ==> !((#[trigger] v[j]).len() >= 4 && v[j].take(4) == "Uid:"@) {
        lemma_no_line(v, "Uid:"@);
    }
}

proof fn lemma_digits_are_a_word(n: nat)
    ensures
        crate::text::decimal(n).len() > 0,
        forall|i: int|
            0 <= i < crate::text::decimal(n).len() ==> !crate::text::is_space(
                #[trigger] crate::text::decimal(n)[i],
            ),
    decreases n,
{
    if n >= 10 {
        lemma_digits_are_a_word(n / 10);
        let d = crate::text::decimal(n);
        assert forall|i: int| 0 <= i < d.len() implies !crate::text::is_space(#[trigger] d[i]) by {
            if i < d.len() - 1 {
                assert(d[i] == crate::text::decimal(n / 10)[i]);
            }
        }
    }
}

proof fn lemma_line_at(v: Seq<Seq<char>>, p: Seq<char>, k: int)
    requires
        0 <= k < v.len(),
        after_prefix(v[k], p) is Some,
        forall|j: int|
            0 <= j < k ==> !((#[trigger] v[j]).len() >= p.len() && v[j].take(p.len() as int) == p),
    ensures
        first_line_after(v, p) == after_prefix(v[k], p),
    decreases k,
{
    if k > 0 {
        assert(after_prefix(v[0], p) is None);
        assert(v.skip(1)[k - 1] == v[k]);
        assert forall|j: int| 0 <= j < k - 1 implies !((#[trigger] v.skip(1)[j]).len() >= p.len()
            && v.skip(1)[j].take(p.len() as int) == p) by {
            assert(v.skip(1)[j] == v[j + 1]);
        }
        lemma_line_at(v.skip(1), p, k - 1);
    }
}

proof fn lemma_no_line(v: Seq<Seq<char>>, p: Seq<char>)
    requires
        forall|j: int|
            0 <= j < v.len() ==> !((#[trigger] v[j]).len() >= p.len() && v[j].take(p.len() as int)
                == p),
    ensures
        first_line_after(v, p) is None,
    decreases v.len(),
{
    if v.len() > 0 {
        assert(after_prefix(v[0], p) is None);
        assert forall|j: int| 0 <= j < v.skip(1).len() implies !((#[trigger] v.skip(1)[j]).len()
            >= p.len() && v.skip(1)[j].take(p.len() as int) == p) by {
            assert(v.skip(1)[j] == v[j + 1]);
        }
        lemma_no_line(v.skip(1), p);
    }
}

/// The start time is the twentieth word behind the last closing bracket,
/// whatever the name before it holds; without that bracket, or with fewer
/// words, there is none.
pub proof fn the_start_time_is_read_behind_the_name(head: Seq<char>, rest: Seq<char>, start: nat)
    requires
        !rest.contains(')'),
    ensures
        stat_start(rest) is None,
        words(rest).len() < 20 ==> stat_start(head + seq![')'] + rest) is None,
        words(rest).len() >= 20 && words(rest)[19] == crate::text::decimal(start) ==> stat_start(
            head + seq![')'] + rest,
        ) == (if start <= u64::MAX {
            Some(start as u64)
        } else {
            None
        }),
{
    lemma_last_index(head, ')', rest);
    let s = head + seq![')'] + rest;
    assert(s.skip((head.len() + 1) as int) =~= rest);
    crate::text::decimal_numbers_read_back(start, u64::MAX as nat, rest);
}

proof fn lemma_last_index(head: Seq<char>, c: char, rest: Seq<char>)
    requires
        !rest.contains(c),
    ensures
        last_index(rest, c) is None,
        last_index(head + seq![c] + rest, c) == Some(head.len() as int),
    decreases rest.len(),
{
    let s = head + seq![c] + rest;
    if rest.len() == 0 {
        assert(s.last() == c);
    } else {
        let u = rest.drop_last();
        assert(!u.contains(c)) by {
            if u.contains(c) {
                let k = choose|k: int| 0 <= k < u.len() && u[k] == c;
                assert(rest[k] == c);
            }
        }
        assert(rest.contains(rest.last()));
        lemma_last_index(head, c, u);
        assert(s.drop_last() =~= head + seq![c] + u);
        assert(s.last() == rest.last());
    }
}

/// An executable is in the kernel's own table exactly when a rule in force names
/// it, no rule in force that names a user could apply to it, and a process of
/// which nothing but this path is known is refused.
pub proof fn the_table_refuses_by_path_alone(rules: Seq<Rule>, now: i64, p: Process)
    requires
        p.uid is None && p.sha256 is None && p.parent_exe is None,
    ensures
        refused_outright(rules, now, p.exe@) <==> {
            &&& exists|k: int|
                0 <= k < rules.len() && (#[trigger] rules[k]).enabled && !rules[k].over(now)
                    && rules[k].scope.exe_path is Some && rules[k].scope.exe_path->Some_0@ == p.exe@
            &&& !exists|k: int|
                0 <= k < rules.len() && (#[trigger] rules[k]).enabled && !rules[k].over(now)
                    && rules[k].scope.uid is Some && (rules[k].scope.exe_path is None
                    || rules[k].scope.exe_path->Some_0@ == p.exe@)
            &&& wide_from(rules, &p, now, 0) is Some
            &&& wide_from(rules, &p, now, 0)->Some_0.action != Action::Allow
        },
{
    crate::decision::executables_are_named_by_rules_in_force(rules, now, p.exe@);
    assert(stands_for(p, p.exe@));
    if exists|q: Process|
        stands_for(q, p.exe@) && (#[trigger] wide_from(rules, &q, now, 0) matches Some(v)
            && refuses(v.action)) {
        let q = choose|q: Process|
            stands_for(q, p.exe@) && (#[trigger] wide_from(rules, &q, now, 0) matches Some(v)
                && refuses(v.action));
        lemma_wide_by_parts(rules, &p, &q, now, 0);
    }
}

/// A counter is the sum over the processors, as far as a number of 64 bits
/// holds it; a slot that is not there counts nothing, and one that could not be
/// read has no value. The first that could not be read is the one reported.
pub proof fn counters_add_up(v: Seq<u64>, x: u64, c: Seq<CounterRead>, i: int)
    ensures
        total(Seq::empty()) == 0,
        total(v.push(x)) == (total(v) + x) % 0x1_0000_0000_0000_0000,
        0 <= total(v) <= u64::MAX,
        counter_value(CounterRead::Missing) == Some(0int),
        0 <= i < c.len() && c[i] is Failed && (forall|j: int|
            0 <= j < i ==> !((#[trigger] c[j]) is Failed)) ==> first_failed(c, 0) == Some(i),
        (forall|j: int| 0 <= j < c.len() ==> !((#[trigger] c[j]) is Failed)) ==> first_failed(
            c,
            0,
        ) is None,
    decreases v.len(),
{
    assert(v.push(x).drop_last() =~= v);
    if v.len() > 0 {
        counters_add_up(v.drop_last(), v.last(), c, i);
    }
    if 0 <= i < c.len() && c[i] is Failed && (forall|j: int|
        0 <= j < i ==> !((#[trigger] c[j]) is Failed)) {
        lemma_failed_at(c, 0, i);
    }
    if forall|j: int| 0 <= j < c.len() ==> !((#[trigger] c[j]) is Failed) {
        lemma_none_failed(c, 0);
    }
}

proof fn lemma_failed_at(c: Seq<CounterRead>, from: int, i: int)
    requires
        0 <= from <= i < c.len(),
        c[i] is Failed,
        forall|j: int| from <= j < i ==> !((#[trigger] c[j]) is Failed),
    ensures
        first_failed(c, from) == Some(i),
    decreases i - from,
{
    if from < i {
        assert(!(c[from] is Failed));
        lemma_failed_at(c, from + 1, i);
    }
}

proof fn lemma_none_failed(c: Seq<CounterRead>, from: int)
    requires
        0 <= from <= c.len(),
        forall|j: int| from <= j < c.len() ==> !((#[trigger] c[j]) is Failed),
    ensures
        first_failed(c, from) is None,
    decreases c.len() - from,
{
    if from < c.len() {
        assert(!(c[from] is Failed));
        lemma_none_failed(c, from + 1);
    }
}

/// A program is held by the pin of its own hook and family: the two variants of
/// a connect hook share one, and no others do.
pub proof fn pins_keep_hooks_and_families_apart(h: Hook)
    ensures
        h.pin() == Pin::Connect4 <==> h == Hook::Connect4 || h == Hook::Connect4Basic,
        h.pin() == Pin::Connect6 <==> h == Hook::Connect6 || h == Hook::Connect6Basic,
        h.pin() == Pin::Sendmsg4 <==> h == Hook::Sendmsg4,
        h.pin() == Pin::Sendmsg6 <==> h == Hook::Sendmsg6,
        basic_twin(h) is Some ==> h == Hook::Connect4 || h == Hook::Connect6,
        basic_twin(h) is Some ==> basic_twin(h)->Some_0 != h && basic_twin(h)->Some_0.pin()
            == h.pin() && basic_twin(h)->Some_0.name() == h.name() + "_basic"@,
        (h == Hook::Connect4 || h == Hook::Connect6) ==> basic_twin(h) is Some && h.name()
            == "cfc_connect"@ + (if h == Hook::Connect4 {
            "4"@
        } else {
            "6"@
        }),
        (h == Hook::Sendmsg4 || h == Hook::Sendmsg6) ==> basic_twin(h) is None && h.name()
            == "cfc_sendmsg"@ + (if h == Hook::Sendmsg4 {
            "4"@
        } else {
            "6"@
        }),
{
    reveal_strlit("cfc_connect4");
    reveal_strlit("cfc_connect6");
    reveal_strlit("cfc_connect4_basic");
    reveal_strlit("cfc_connect6_basic");
    reveal_strlit("cfc_sendmsg4");
    reveal_strlit("cfc_sendmsg6");
    reveal_strlit("cfc_connect");
    reveal_strlit("cfc_sendmsg");
    reveal_strlit("_basic");
    reveal_strlit("4");
    reveal_strlit("6");
    assert("cfc_connect4_basic"@ =~= "cfc_connect4"@ + "_basic"@);
    assert("cfc_connect6_basic"@ =~= "cfc_connect6"@ + "_basic"@);
    assert("cfc_connect4"@ =~= "cfc_connect"@ + "4"@);
    assert("cfc_connect6"@ =~= "cfc_connect"@ + "6"@);
    assert("cfc_sendmsg4"@ =~= "cfc_sendmsg"@ + "4"@);
    assert("cfc_sendmsg6"@ =~= "cfc_sendmsg"@ + "6"@);
}

/// Attaching goes on from IPv4 to IPv6, and from there to the programs of the
/// fast path only if both connect hooks carry the mark decision. A connect hook
/// that is refused is tried again without it; refused once more, attaching
/// fails and takes back the pins it made. A program of the fast path that is
/// refused costs the fast path and nothing else.
pub proof fn attaching_goes_family_by_family(a: Attaching, h: Hook, insns: Option<u32>)
    ensures
        ({
            let b = attached_one(a, h, insns);
            let basic = h == Hook::Connect4Basic || h == Hook::Connect6Basic;
            let sendmsg = h == Hook::Sendmsg4 || h == Hook::Sendmsg6;
            &&& b.programs == a.programs.push((h, insns))
            &&& b.pinning == a.pinning && b.unpin == a.unpin
            &&& basic ==> b.fast_path == FastPathCapability::BasicConnect
            &&& !basic ==> b.fast_path == a.fast_path
            &&& a.pinning && !sendmsg ==> b.pinned == a.pinned.push(h.pin())
            &&& !a.pinning || sendmsg ==> b.pinned == a.pinned
            &&& h == Hook::Connect4 || h == Hook::Connect4Basic ==> b.stage == AttachStage::Try(
                Hook::Connect6,
            )
            &&& h == Hook::Connect6 && a.fast_path == FastPathCapability::Ready ==> b.stage
                == AttachStage::Try(Hook::Sendmsg4)
            &&& h == Hook::Connect6 && a.fast_path != FastPathCapability::Ready ==> b.stage
                == AttachStage::Done
            &&& h == Hook::Connect6Basic || h == Hook::Sendmsg6 ==> b.stage == AttachStage::Done
            &&& h == Hook::Sendmsg4 ==> b.stage == AttachStage::Try(Hook::Sendmsg6)
        }),
        ({
            let f = failed_one(a, h);
            &&& f.programs == a.programs && f.pinned == a.pinned && f.pinning == a.pinning
            &&& h == Hook::Connect4 ==> f.stage == AttachStage::Try(Hook::Connect4Basic)
            &&& h == Hook::Connect6 ==> f.stage == AttachStage::Try(Hook::Connect6Basic)
            &&& h == Hook::Connect4 || h == Hook::Connect6 ==> f.unpin == a.unpin && f.fast_path
                == a.fast_path
            &&& h == Hook::Connect4Basic || h == Hook::Connect6Basic ==> f.stage
                == AttachStage::Failed && f.unpin == a.pinned && f.fast_path == a.fast_path
            &&& h == Hook::Sendmsg4 || h == Hook::Sendmsg6 ==> f.stage == AttachStage::Done
                && f.fast_path == FastPathCapability::SendmsgUnavailable
            &&& (h == Hook::Sendmsg4 || h == Hook::Sendmsg6) && a.pinning ==> f.unpin
                == seq![Pin::Sendmsg4, Pin::Sendmsg6]
            &&& (h == Hook::Sendmsg4 || h == Hook::Sendmsg6) && !a.pinning ==> f.unpin.len() == 0
        }),
        ({
            let s = fresh_attach(a.pinning);
            &&& s.stage == AttachStage::Try(Hook::Connect4) && s.pinning == a.pinning
            &&& s.programs.len() == 0 && s.pinned.len() == 0 && s.unpin.len() == 0
            &&& s.fast_path == FastPathCapability::Ready
        }),
{
}

/// A fast path that is not ready has a reason, each its own.
pub proof fn a_fast_path_is_off_for_a_reason(c: FastPathCapability)
    ensures
        c.reason() is None <==> c == FastPathCapability::Ready,
        c == FastPathCapability::BasicConnect ==> c.reason() == Some(BASIC_CONNECT@),
        c == FastPathCapability::SendmsgUnavailable ==> c.reason() == Some(SENDMSG_UNAVAILABLE@),
        c == FastPathCapability::Inconclusive ==> c.reason() == Some(INCONCLUSIVE@),
{
}

/// What is removed before a fresh attach is each pin that is there, and nothing
/// where both connect pins are.
pub proof fn leftovers_are_what_is_there(c4: bool, c6: bool, s4: bool, s6: bool)
    ensures
        present(c4, c6, s4, s6).contains(Pin::Connect4) <==> c4,
        present(c4, c6, s4, s6).contains(Pin::Connect6) <==> c6,
        present(c4, c6, s4, s6).contains(Pin::Sendmsg4) <==> s4,
        present(c4, c6, s4, s6).contains(Pin::Sendmsg6) <==> s6,
        present(c4, c6, s4, s6).no_duplicates(),
{
    let p = present(c4, c6, s4, s6);
    let a: int = if c4 {
        1
    } else {
        0
    };
    let b: int = if c6 {
        a + 1
    } else {
        a
    };
    let c: int = if s4 {
        b + 1
    } else {
        b
    };
    if c4 {
        assert(p[0] == Pin::Connect4);
    }
    if c6 {
        assert(p[a] == Pin::Connect6);
    }
    if s4 {
        assert(p[b] == Pin::Sendmsg4);
    }
    if s6 {
        assert(p[c] == Pin::Sendmsg6);
    }
}

/// A process that just started is judged as the event told of it, but for its
/// executable, which is what was resolved, without the kernel's remark, where
/// it was.
pub proof fn a_started_process_is_judged_by_what_it_runs(
    p: Process,
    event: Process,
    path: Seq<char>,
)
    ensures
        corrected(p, event, Some(path + " (deleted)"@)) ==> p.exe@ == path,
        corrected(p, event, None) ==> p.exe@ == event.exe@,
        corrected(p, event, None) || corrected(p, event, Some(path)) ==> {
            &&& p.pid == event.pid && p.ppid == event.ppid && p.uid == event.uid && p.gid
                == event.gid
            &&& p.sha256 == event.sha256 && p.parent_exe == event.parent_exe
            &&& p.cmdline@ == event.cmdline@ && p.cwd == event.cwd
            &&& p.package == event.package && p.provenance == event.provenance
        },
{
    the_kernels_remark_comes_off(path);
}

/// A process that is viewed is known by its pid, the path it runs and its user,
/// as far as they were read, and is otherwise unknown - its digest above all.
pub proof fn a_view_knows_no_more_than_was_read(
    v: ProcView,
    pid: u32,
    path: Seq<char>,
    status: Seq<u8>,
    stat: Seq<u8>,
)
    ensures
        views(v, pid, path + " (deleted)"@, Some(status), Some(stat)) ==> {
            &&& v.pid == pid && v.process.pid == pid && v.process.exe@ == path
            &&& v.process.uid == status_uid(lossy_text(status))
            &&& v.judged_at == stat_start(lossy_text(stat))
        },
        views(v, pid, path, None, None) ==> v.process.uid is None && v.judged_at is None,
        views(v, pid, path, None, None) || views(v, pid, path, Some(status), Some(stat)) ==> {
            &&& v.process.sha256 is None && v.process.parent_exe is None
            &&& v.process.ppid is None && v.process.gid is None
            &&& v.process.cmdline@.len() == 0 && v.process.cwd is None
            &&& v.process.package is None && v.process.provenance == Provenance::Unknown
        },
{
    the_kernels_remark_comes_off(path);
}

/// A version's directory is `v` and its number, and a counter that could not be
/// read is named by its slot.
pub proof fn versions_and_slots_are_numbered(n: nat, e: Seq<char>)
    ensures
        version_name(n) == "v"@ + crate::text::decimal(n),
        counter_fault(n, e) == "reading ENFORCE_STATS["@ + crate::text::decimal(n) + "]: "@ + e,
{
}

/// The book says of a process what was last decided of it: the rule that granted
/// it once the grant was written, nothing once it was withdrawn, and what it said
/// before where the write failed. Of other processes it says what it said.
pub proof fn the_book_follows_the_grants(
    b: Map<u32, u128>,
    pid: u32,
    rule: u128,
    other: u32,
    grant: Grant,
    written: bool,
)
    ensures
        booked(b, pid, Grant::Yes(rule), true).contains_key(pid),
        booked(b, pid, Grant::Yes(rule), true)[pid] == rule,
        booked(b, pid, Grant::Yes(rule), false) == b,
        !booked(b, pid, Grant::No, written).contains_key(pid),
        other != pid ==> (booked(b, pid, grant, written).contains_key(other) <==> b.contains_key(
            other,
        )),
        other != pid && b.contains_key(other) ==> booked(b, pid, grant, written)[other]
            == b[other],
{
}

/// An armed path honours nothing before its first beat, and then the grants it
/// finds, under its own mark, for as long as the deadline says and no longer.
pub proof fn a_beat_keeps_the_path_alive(
    k: FastKernel,
    mark: u32,
    pid: u32,
    boot_ns: u64,
    deadline_secs: u64,
    later_ns: u64,
)
    requires
        boot_ns + deadline_secs * 1_000_000_000 <= u64::MAX,
        mark != 0,
    ensures
        !marks(wrote_all(k, arming(mark)), pid, later_ns),
        wrote_all(k, arming(mark)).mark == mark,
        wrote_all(k, arming(mark)).granted == k.granted,
        marks(wrote(wrote_all(k, arming(mark)), heartbeat(boot_ns, deadline_secs)), pid, later_ns)
            <==> k.granted.contains(pid) && later_ns < boot_ns + deadline_secs * 1_000_000_000,
{
    let w = arming(mark);
    reveal_with_fuel(wrote_all, 3);
    assert(w.drop_last() =~= w.take(1));
    assert(w.take(1).drop_last() =~= Seq::<FastWrite>::empty());
}

/// A path is armed with its deadline gone before the mark is written, and
/// disarmed for good: no grant is left, and no beat or mark brings one back.
pub proof fn a_disarmed_path_stays_disarmed(
    k: FastKernel,
    mark: u32,
    pid: u32,
    boot_ns: u64,
    deadline_secs: u64,
    later_ns: u64,
)
    ensures
        !marks(wrote_all(k, arming(mark).take(1)), pid, later_ns),
        wrote_all(k, disarming()).until == 0,
        wrote_all(k, disarming()).mark == 0,
        wrote_all(k, disarming()).granted == Set::<u32>::empty(),
        !marks(
            wrote(wrote_all(k, disarming()), heartbeat(boot_ns, deadline_secs)),
            pid,
            later_ns,
        ),
        !marks(
            wrote(
                wrote(wrote_all(k, disarming()), FastWrite::Mark(mark)),
                heartbeat(boot_ns, deadline_secs),
            ),
            pid,
            later_ns,
        ),
{
    let a = arming(mark);
    let w = disarming();
    reveal_with_fuel(wrote_all, 4);
    assert(a.take(1).drop_last() =~= Seq::<FastWrite>::empty());
    assert(w.drop_last() =~= w.take(2));
    assert(w.take(2).drop_last() =~= w.take(1));
    assert(w.take(1).drop_last() =~= Seq::<FastWrite>::empty());
}

/// Only a table that was written to its last key is remembered, as the keys it
/// holds; of one that was not, nothing is known.
pub proof fn only_a_whole_table_is_remembered(add: Seq<u64>, written: usize, k: u64)
    ensures
        remembered(add, written) is Some <==> written == add.len(),
        remembered(add, written) is Some ==> (remembered(add, written)->Some_0.contains(k) <==> (
        exists|i: int| 0 <= i < add.len() && #[trigger] add[i] == k)),
{
    if written == add.len() {
        assert(add.to_set().contains(k) <==> add.contains(k));
    }
}

/// An object steers what it has all the maps for: nothing without the verdicts,
/// refusals ahead of time with both of theirs, and the fast path with its three.
pub proof fn an_object_steers_what_it_has_maps_for(m: ObjectMaps)
    ensures
        steers(m) is None <==> !m.verdicts,
        m.verdicts ==> (steers(m)->Some_0.precommit <==> m.exe_rules && m.exe_rules_on),
        m.verdicts ==> (steers(m)->Some_0.fast_path <==> m.fast_allow && m.fast_allow_until
            && m.fast_allow_mark),
{
}

} // verus!
