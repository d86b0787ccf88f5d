//! Live process identity as the kernel reported it at `execve()` time.
//!
//! Pids are recycled, so an entry is bound to the start time of the process it
//! describes as soon as one is known, and a lookup that presents another start
//! time drops it.
//!
//! Times are nanoseconds on a clock that does not go back.

use crate::collections::keys_of;
use crate::dns::NANOS_PER_SEC;
use crate::model::{absolute, is_absolute};
use crate::outside::{lossy, lossy_text};
use std::collections::HashMap;
use vstd::prelude::*;
use vstd::slice::slice_subrange;

verus! {

broadcast use vstd::std_specs::hash::group_hash_axioms;

/// How long an entry survives without being refreshed by a new exec.
pub const ENTRY_TTL_SECS: u64 = 3600;

/// Hard cap on live entries, matching the kernel map's size. When full,
/// expired entries are pruned first and then the oldest is evicted.
pub const MAX_ENTRIES: usize = 10_240;

/// An exec as the kernel side reports it: fixed buffers, of which the lengths
/// say how much is real.
#[derive(Debug)]
pub struct ExecEvent {
    pub pid: u32,
    /// 0 when the kernel side could not resolve it.
    pub ppid: u32,
    pub uid: u32,
    pub gid: u32,
    pub comm: Vec<u8>,
    pub filename: Vec<u8>,
    pub filename_len: u16,
}

/// How many bytes precede the first NUL.
pub open spec fn before_nul(s: Seq<u8>, i: int) -> int
    decreases s.len() - i,
{
    if i < 0 || i >= s.len() || s[i] == 0 {
        i
    } else {
        before_nul(s, i + 1)
    }
}

/// The bytes of a C string in a buffer.
pub open spec fn c_string(s: Seq<u8>) -> Seq<u8> {
    s.take(before_nul(s, 0))
}

proof fn lemma_before_nul(s: Seq<u8>, i: int)
    requires
        0 <= i <= s.len(),
    ensures
        i <= before_nul(s, i) <= s.len(),
    decreases s.len() - i,
{
    if i < s.len() && s[i] != 0 {
        lemma_before_nul(s, i + 1);
    }
}

/// The text of the C string in a buffer.
fn c_text(buf: &[u8]) -> (r: String)
    ensures
        r@ == lossy_text(c_string(buf@)),
{
    let mut n: usize = 0;
    while n < buf.len() && buf[n] != 0
        invariant
            n <= buf@.len(),
            before_nul(buf@, 0) == before_nul(buf@, n as int),
        decreases buf@.len() - n,
    {
        n += 1;
    }
    proof {
        assert(buf@.subrange(0, n as int) =~= c_string(buf@));
    }
    lossy(slice_subrange(buf, 0, n))
}

impl ExecEvent {
    /// The path bytes that are real.
    pub open spec fn path_bytes(&self) -> Seq<u8> {
        let n = if (self.filename_len as int) < self.filename@.len() {
            self.filename_len as int
        } else {
            self.filename@.len() as int
        };
        c_string(self.filename@.take(n))
    }

    /// The path as text. Only `filename_len` says how much of the buffer is
    /// real: the rest may hold the path of an earlier event.
    pub fn filename_str(&self) -> (r: String)
        ensures
            r@ == lossy_text(self.path_bytes()),
    {
        let n: usize = if (self.filename_len as usize) < self.filename.len() {
            self.filename_len as usize
        } else {
            self.filename.len()
        };
        let path = slice_subrange(self.filename.as_slice(), 0, n);
        proof {
            assert(path@ =~= self.filename@.take(n as int));
        }
        c_text(path)
    }

    /// The kernel's short process name.
    pub fn comm_str(&self) -> (r: String)
        ensures
            r@ == lossy_text(c_string(self.comm@)),
    {
        c_text(self.comm.as_slice())
    }
}

/// One process as the kernel described it at `execve()` time.
#[derive(Debug, PartialEq, Eq)]
pub struct KernelProc {
    pub pid: u32,
    /// The parent, or `None` when it could not be resolved.
    pub ppid: Option<u32>,
    pub uid: u32,
    pub gid: u32,
    /// Path as passed to `execve()`. May be relative.
    pub exe: String,
    /// The 15-character kernel process name.
    pub comm: String,
}

impl Clone for KernelProc {
    fn clone(&self) -> (r: Self)
        ensures
            r == *self,
    {
        KernelProc {
            pid: self.pid,
            ppid: self.ppid,
            uid: self.uid,
            gid: self.gid,
            exe: self.exe.clone(),
            comm: self.comm.clone(),
        }
    }
}

/// Whether `p` is what the event describes. A path length of 0 is the kernel
/// side saying that it did not read one.
pub open spec fn describes(e: &ExecEvent, p: KernelProc) -> bool {
    &&& p.pid == e.pid
    &&& p.ppid == if e.ppid == 0 {
        None
    } else {
        Some(e.ppid)
    }
    &&& p.uid == e.uid
    &&& p.gid == e.gid
    &&& p.exe@ == if e.filename_len == 0 {
        Seq::empty()
    } else {
        lossy_text(e.path_bytes())
    }
    &&& p.comm@ == lossy_text(c_string(e.comm@))
}

impl KernelProc {
    /// The exec path, but only when it is absolute: rules match on absolute
    /// paths, and a relative one means nothing outside the launcher's
    /// directory.
    pub fn absolute_exe(&self) -> (r: Option<&str>)
        ensures
            r is Some <==> absolute(self.exe@),
            r matches Some(p) ==> p@ == self.exe@,
    {
        if is_absolute(self.exe.as_str()) {
            Some(self.exe.as_str())
        } else {
            None
        }
    }

    /// The process an exec event describes.
    pub fn from_event(e: &ExecEvent) -> (r: KernelProc)
        ensures
            describes(e, r),
    {
        KernelProc {
            pid: e.pid,
            ppid: if e.ppid != 0 {
                Some(e.ppid)
            } else {
                None
            },
            uid: e.uid,
            gid: e.gid,
            exe: if e.filename_len == 0 {
                String::new()
            } else {
                e.filename_str()
            },
            comm: e.comm_str(),
        }
    }
}

/// A process record, when it was made, and the start time of the process it
/// belongs to once that is known.
#[derive(Debug)]
pub struct Seen {
    pub proc: KernelProc,
    pub seen_at: u64,
    pub starttime: Option<u64>,
}

/// Whether a record's time has not run out.
pub open spec fn current(s: Seen, now: u64) -> bool {
    now - s.seen_at <= ENTRY_TTL_SECS * NANOS_PER_SEC
}

fn is_current(seen_at: u64, now: u64) -> (r: bool)
    ensures
        r == (now - seen_at <= ENTRY_TTL_SECS * NANOS_PER_SEC),
{
    now <= seen_at || now - seen_at <= ENTRY_TTL_SECS * NANOS_PER_SEC
}

/// The records whose time has not run out.
pub open spec fn pruned(m: Map<u32, Seen>, now: u64) -> Map<u32, Seen> {
    m.restrict(Set::new(|k: u32| m.contains_key(k) && current(m[k], now)))
}

/// What is left of `m` when room is made for `pid`: all of it while there is
/// room or when `pid` has a record already; else the current records, less an
/// oldest one if even those fill the table.
pub open spec fn room_for(m: Map<u32, Seen>, pid: u32, now: u64, left: Map<u32, Seen>) -> bool {
    if m.dom().len() < MAX_ENTRIES || m.contains_key(pid) {
        left == m
    } else {
        let p = pruned(m, now);
        if p.dom().len() < MAX_ENTRIES {
            left == p
        } else {
            exists|k: u32| #[trigger]
                p.contains_key(k) && left == p.remove(k) && (forall|o: u32| #[trigger]
                    p.contains_key(o) ==> p[k].seen_at <= p[o].seen_at)
        }
    }
}

/// Whether `after` is `before` with the exec recorded: room was made where it
/// was needed, and the event's process stands under its pid.
pub open spec fn recorded(
    before: Map<u32, Seen>,
    after: Map<u32, Seen>,
    event: &ExecEvent,
    starttime: Option<u64>,
    now: u64,
) -> bool {
    exists|left: Map<u32, Seen>, proc: KernelProc|
        #![trigger room_for(before, event.pid, now, left), describes(event, proc)]
        room_for(before, event.pid, now, left) && describes(event, proc) && after == left.insert(
            event.pid,
            (Seen { proc, seen_at: now, starttime }),
        )
}

/// Whether a process with this pid is listed.
pub open spec fn has_pid(r: Seq<KernelProc>, pid: u32) -> bool {
    exists|a: int| 0 <= a < r.len() && (#[trigger] r[a]).pid == pid
}

/// Whether `r` lists the processes whose record is current, each once.
pub open spec fn lists_current(m: Map<u32, Seen>, now: u64, r: Seq<KernelProc>) -> bool {
    &&& forall|a: int|
        0 <= a < r.len() ==> {
            let p = #[trigger] r[a];
            m.contains_key(p.pid) && current(m[p.pid], now) && m[p.pid].proc == p
        }
    &&& forall|k: u32| #[trigger] m.contains_key(k) && current(m[k], now) ==> has_pid(r, k)
    &&& forall|a: int, b: int|
        0 <= a < b < r.len() ==> (#[trigger] r[a]).pid != (#[trigger] r[b]).pid
}

/// What a lookup answers.
pub open spec fn answer(m: Map<u32, Seen>, live: bool, pid: u32, starttime: Option<u64>, now: u64) -> Option<
    KernelProc,
> {
    if !live || !m.contains_key(pid) || !current(m[pid], now) || (m[pid].starttime is Some
        && starttime is Some && m[pid].starttime != starttime) {
        None
    } else {
        Some(m[pid].proc)
    }
}

/// What a lookup leaves: an expired record and one of another process go, and
/// a first start time is kept.
pub open spec fn after_lookup(
    m: Map<u32, Seen>,
    live: bool,
    pid: u32,
    starttime: Option<u64>,
    now: u64,
) -> Map<u32, Seen> {
    if !live || !m.contains_key(pid) {
        m
    } else if answer(m, live, pid, starttime, now) is None {
        m.remove(pid)
    } else if m[pid].starttime is None && starttime is Some {
        m.insert(pid, Seen { starttime, ..m[pid] })
    } else {
        m
    }
}

/// Live process identity as reported by the kernel.
pub struct KernelProcTable {
    map: HashMap<u32, Seen>,
    live: bool,
}

impl View for KernelProcTable {
    type V = Map<u32, Seen>;

    closed spec fn view(&self) -> Map<u32, Seen> {
        self.map@
    }
}

impl KernelProcTable {
    /// Each record stands under the pid it describes.
    pub open spec fn wf(&self) -> bool {
        forall|k: u32| #[trigger] self@.contains_key(k) ==> self@[k].proc.pid == k
    }

    /// Whether the exec tracepoint feeds the table.
    pub closed spec fn fed(&self) -> bool {
        self.live
    }

    pub fn new() -> (r: KernelProcTable)
        ensures
            r.wf(),
            r@ == Map::<u32, Seen>::empty(),
            !r.fed(),
    {
        KernelProcTable { map: HashMap::new(), live: false }
    }

    /// Marks the table as fed by a live exec tracepoint. Until this is set,
    /// every lookup returns `None` regardless of contents.
    pub fn set_live(&mut self, live: bool)
        ensures
            final(self)@ == old(self)@,
            final(self).fed() == live,
    {
        self.live = live;
    }

    pub fn is_live(&self) -> (r: bool)
        ensures
            r == self.fed(),
    {
        self.live
    }

    /// Number of records.
    pub fn len(&self) -> (r: usize)
        ensures
            r == self@.dom().len(),
    {
        self.map.len()
    }

    pub fn is_empty(&self) -> (r: bool)
        ensures
            r == (self@.dom().len() == 0),
    {
        self.map.len() == 0
    }

    /// Drops the records whose time has run out.
    fn prune(&mut self, now: u64)
        ensures
            final(self)@ == pruned(old(self)@, now),
            final(self).fed() == old(self).fed(),
    {
        let keys = keys_of(&self.map);
        let ghost all = self.map@;
        let mut i: usize = 0;
        while i < keys.len()
            invariant
                i <= keys@.len(),
                keys@.no_duplicates(),
                self.live == old(self).live,
                all == old(self)@,
                forall|k: u32| keys@.contains(k) <==> #[trigger] all.contains_key(k),
                forall|k: u32| #[trigger]
                    self.map@.contains_key(k) ==> all.contains_key(k) && self.map@[k] == all[k],
                forall|j: int|
                    i <= j < keys@.len() ==> self.map@.contains_key(#[trigger] keys@[j]),
                forall|j: int|
                    0 <= j < i ==> (self.map@.contains_key(#[trigger] keys@[j]) <==> current(
                        all[keys@[j]],
                        now,
                    )),
            decreases keys@.len() - i,
        {
            let k: u32 = keys[i];
            let keep: bool = match self.map.get(&k) {
                Some(s) => is_current(s.seen_at, now),
                None => true,
            };
            proof {
                assert(keys@.contains(keys@[i as int]));
            }
            if !keep {
                let _ = self.map.remove(&k);
            }
            i += 1;
        }
        proof {
            let goal = pruned(all, now);
            assert forall|k: u32| #[trigger] self.map@.contains_key(k) <==> goal.contains_key(k) by {
                if all.contains_key(k) {
                    let j = choose|j: int| 0 <= j < keys@.len() && keys@[j] == k;
                    assert(keys@[j] == k);
                }
            }
            assert(self.map@ =~= goal);
        }
    }

    /// The pid of an oldest record.
    fn oldest(&self) -> (r: Option<u32>)
        ensures
            r is None <==> self@.dom().len() == 0,
            r matches Some(k) ==> self@.contains_key(k) && forall|o: u32| #[trigger]
                self@.contains_key(o) ==> self@[k].seen_at <= self@[o].seen_at,
    {
        let keys = keys_of(&self.map);
        if keys.len() == 0 {
            return None;
        }
        let ghost m = self.map@;
        let mut best: u32 = keys[0];
        proof {
            assert(keys@.contains(keys@[0]));
        }
        let mut best_at: u64 = match self.map.get(&best) {
            Some(s) => s.seen_at,
            None => 0,
        };
        let mut i: usize = 1;
        while i < keys.len()
            invariant
                1 <= i <= keys@.len(),
                m == self.map@,
                forall|k: u32| keys@.contains(k) <==> #[trigger] m.contains_key(k),
                m.contains_key(best),
                best_at == m[best].seen_at,
                forall|j: int| 0 <= j < i ==> best_at <= m[#[trigger] keys@[j]].seen_at,
            decreases keys@.len() - i,
        {
            let k: u32 = keys[i];
            proof {
                assert(keys@.contains(keys@[i as int]));
            }
            let at: u64 = match self.map.get(&k) {
                Some(s) => s.seen_at,
                None => 0,
            };
            if at < best_at {
                best = k;
                best_at = at;
            }
            i += 1;
        }
        proof {
            assert forall|o: u32| #[trigger] m.contains_key(o) implies m[best].seen_at
                <= m[o].seen_at by {
                let j = choose|j: int| 0 <= j < keys@.len() && keys@[j] == o;
                assert(best_at <= m[keys@[j]].seen_at);
            }
        }
        Some(best)
    }

    /// Records an exec. A second exec for the same pid replaces the first: the
    /// pid now runs a different program.
    pub fn observe_exec(&mut self, event: &ExecEvent, starttime: Option<u64>, now: u64)
        requires
            old(self).wf(),
        ensures
            final(self).wf(),
            final(self).fed() == old(self).fed(),
            recorded(old(self)@, final(self)@, event, starttime, now),
    {
        let proc = KernelProc::from_event(event);
        let ghost p0 = proc;
        if self.map.len() >= MAX_ENTRIES && !self.map.contains_key(&event.pid) {
            self.prune(now);
            if self.map.len() >= MAX_ENTRIES {
                if let Some(k) = self.oldest() {
                    let ghost p = self.map@;
                    let _ = self.map.remove(&k);
                    proof {
                        assert(p.contains_key(k));
                        assert(self.map@ == p.remove(k));
                    }
                }
            }
        }
        proof {
            assert(room_for(old(self)@, event.pid, now, self.map@));
        }
        let ghost left = self.map@;
        let _ = self.map.insert(event.pid, Seen { proc, seen_at: now, starttime });
        proof {
            assert(describes(event, p0));
            assert(self.map@ == left.insert(event.pid, (Seen { proc: p0, seen_at: now, starttime })));
        }
    }

    /// The processes with a current record, each once, in no particular order;
    /// none while the table is not fed. The table stays as it is.
    pub fn live_processes(&self, now: u64) -> (r: Vec<KernelProc>)
        requires
            self.wf(),
        ensures
            !self.fed() ==> r@.len() == 0,
            self.fed() ==> lists_current(self@, now, r@),
    {
        let mut out: Vec<KernelProc> = Vec::new();
        if !self.live {
            return out;
        }
        let keys = keys_of(&self.map);
        let ghost m = self.map@;
        let mut i: usize = 0;
        while i < keys.len()
            invariant
                i <= keys@.len(),
                self.wf(),
                m == self.map@,
                keys@.no_duplicates(),
                forall|k: u32| keys@.contains(k) <==> #[trigger] m.contains_key(k),
                forall|a: int|
                    0 <= a < out@.len() ==> {
                        let p = #[trigger] out@[a];
                        m.contains_key(p.pid) && current(m[p.pid], now) && m[p.pid].proc == p
                            && keys@.take(i as int).contains(p.pid)
                    },
                forall|j: int|
                    0 <= j < i && current(m[#[trigger] keys@[j]], now) ==> has_pid(
                        out@,
                        keys@[j],
                    ),
                forall|a: int, b: int|
                    0 <= a < b < out@.len() ==> (#[trigger] out@[a]).pid != (
                    #[trigger] out@[b]).pid,
            decreases keys@.len() - i,
        {
            let k: u32 = keys[i];
            proof {
                assert(keys@.contains(keys@[i as int]));
                assert forall|x: u32| keys@.take(i as int).contains(x) implies keys@.take(
                    i + 1,
                ).contains(x) && x != k by {
                    let j = choose|j: int|
                        0 <= j < keys@.take(i as int).len() && keys@.take(i as int)[j] == x;
                    assert(keys@.take(i + 1)[j] == x);
                    assert(keys@[j] == x);
                }
                assert(keys@.take(i + 1)[i as int] == k);
            }
            let ghost had = out@;
            if let Some(s) = self.map.get(&k) {
                if is_current(s.seen_at, now) {
                    let p = s.proc.clone();
                    out.push(p);
                    proof {
                        assert(out@[had.len() as int].pid == k);
                        assert forall|j: int| 0 <= j < i && has_pid(had, keys@[j]) implies has_pid(
                            out@,
                            #[trigger] keys@[j],
                        ) by {
                            let a = choose|a: int|
                                0 <= a < had.len() && (#[trigger] had[a]).pid == keys@[j];
                            assert(out@[a].pid == keys@[j]);
                        }
                    }
                }
            }
            i += 1;
        }
        proof {
            assert forall|k: u32| #[trigger] m.contains_key(k) && current(m[k], now) implies has_pid(
                out@,
                k,
            ) by {
                let j = choose|j: int| 0 <= j < keys@.len() && keys@[j] == k;
                assert(current(m[keys@[j]], now));
            }
        }
        out
    }

    /// Records that a process is gone.
    pub fn observe_exit(&mut self, pid: u32)
        ensures
            old(self).wf() ==> final(self).wf(),
            final(self)@ == old(self)@.remove(pid),
            final(self).fed() == old(self).fed(),
    {
        let _ = self.map.remove(&pid);
    }

    /// Looks a pid up, verifying it against the start time the caller just read
    /// for it. `None` means that it could not be read, which is the case the
    /// table exists to serve and no failure.
    pub fn get(&mut self, pid: u32, starttime: Option<u64>, now: u64) -> (r: Option<KernelProc>)
        ensures
            old(self).wf() ==> final(self).wf(),
            r == answer(old(self)@, old(self).fed(), pid, starttime, now),
            final(self)@ == after_lookup(old(self)@, old(self).fed(), pid, starttime, now),
            final(self).fed() == old(self).fed(),
    {
        if !self.live {
            return None;
        }
        let (proc, seen_at, known) = match self.map.get(&pid) {
            Some(s) => (s.proc.clone(), s.seen_at, s.starttime),
            None => {
                return None;
            },
        };
        if !is_current(seen_at, now) {
            let _ = self.map.remove(&pid);
            return None;
        }
        match (known, starttime) {
            (Some(a), Some(b)) => if a == b {
                Some(proc)
            } else {
                let _ = self.map.remove(&pid);
                None
            },
            (None, Some(_)) => {
                let copy = proc.clone();
                let _ = self.map.insert(pid, Seen { proc: copy, seen_at, starttime });
                Some(proc)
            },
            (_, None) => Some(proc),
        }
    }
}

/// The table stays bounded: an exec never makes it larger than its cap.
pub proof fn the_table_stays_bounded(
    before: Map<u32, Seen>,
    after: Map<u32, Seen>,
    event: &ExecEvent,
    starttime: Option<u64>,
    now: u64,
)
    requires
        before.dom().finite(),
        before.dom().len() <= MAX_ENTRIES,
        recorded(before, after, event, starttime, now),
    ensures
        after.dom().finite(),
        after.dom().len() <= MAX_ENTRIES,
{
    let (left, proc) = choose|left: Map<u32, Seen>, proc: KernelProc|
        #![trigger room_for(before, event.pid, now, left), describes(event, proc)]
        room_for(before, event.pid, now, left) && describes(event, proc) && after == left.insert(
            event.pid,
            (Seen { proc, seen_at: now, starttime }),
        );
    let p = pruned(before, now);
    assert(p.dom().subset_of(before.dom()));
    vstd::set_lib::lemma_len_subset(p.dom(), before.dom());
    if before.dom().len() < MAX_ENTRIES {
        assert(after.dom() =~= before.dom().insert(event.pid));
    } else if before.contains_key(event.pid) {
        assert(after.dom() =~= before.dom());
    } else if p.dom().len() < MAX_ENTRIES {
        assert(after.dom() =~= p.dom().insert(event.pid));
    } else {
        let k = choose|k: u32| #[trigger]
            p.contains_key(k) && left == p.remove(k) && (forall|o: u32| #[trigger]
                p.contains_key(o) ==> p[k].seen_at <= p[o].seen_at);
        assert(left.dom() =~= p.dom().remove(k));
        assert(after.dom() =~= left.dom().insert(event.pid));
    }
}

/// The pid of a recorded exec stands for what was just started, whatever it
/// stood for before, and no other pid changes what it stands for.
pub proof fn a_second_exec_replaces_the_first(
    before: Map<u32, Seen>,
    after: Map<u32, Seen>,
    event: &ExecEvent,
    starttime: Option<u64>,
    now: u64,
    other: u32,
)
    requires
        recorded(before, after, event, starttime, now),
        other != event.pid,
    ensures
        answer(after, true, event.pid, starttime, now) matches Some(p) && describes(event, p),
        after.contains_key(other) ==> before.contains_key(other) && after[other] == before[other],
{
}

/// A record bound to one start time is never served for another: the lookup
/// answers nothing and drops the record.
pub proof fn a_reused_pid_is_not_served(
    m: Map<u32, Seen>,
    live: bool,
    pid: u32,
    first: u64,
    second: u64,
    now: u64,
    later: u64,
)
    requires
        first != second,
        answer(m, live, pid, Some(first), now) is Some,
    ensures
        ({
            let bound = after_lookup(m, live, pid, Some(first), now);
            &&& answer(bound, live, pid, Some(second), later) is None
            &&& !after_lookup(bound, live, pid, Some(second), later).contains_key(pid)
        }),
{
}

/// Nothing is served until the kernel feeds the table, and nothing of a process
/// once it is gone.
pub proof fn only_what_is_there_is_served(
    m: Map<u32, Seen>,
    pid: u32,
    starttime: Option<u64>,
    now: u64,
)
    ensures
        answer(m, false, pid, starttime, now) is None,
        answer(m.remove(pid), true, pid, starttime, now) is None,
{
}

/// A C string ends before its first zero, or with its buffer.
pub proof fn a_c_string_ends_at_its_zero(t: Seq<u8>, rest: Seq<u8>)
    requires
        !t.contains(0),
    ensures
        c_string(t) == t,
        c_string(t + seq![0u8] + rest) == t,
{
    lemma_nul_at(t, 0);
    let s = t + seq![0u8] + rest;
    assert forall|k: int| 0 <= k < t.len() implies s[k] != 0 by {
        assert(t.contains(t[k]));
    }
    lemma_nul_here(s, 0, t.len() as int);
    assert(t.take(t.len() as int) =~= t);
    assert(s.take(t.len() as int) =~= t);
}

proof fn lemma_nul_at(t: Seq<u8>, i: int)
    requires
        !t.contains(0),
        0 <= i <= t.len(),
    ensures
        before_nul(t, i) == t.len(),
    decreases t.len() - i,
{
    if i < t.len() {
        assert(t.contains(t[i]));
        lemma_nul_at(t, i + 1);
    }
}

proof fn lemma_nul_here(s: Seq<u8>, i: int, n: int)
    requires
        0 <= i <= n < s.len(),
        s[n] == 0,
        forall|k: int| i <= k < n ==> s[k] != 0,
    ensures
        before_nul(s, i) == n,
    decreases n - i,
{
    if i < n {
        lemma_nul_here(s, i + 1, n);
    }
}

/// A path is as much of the buffer as the event says was written, up to its
/// zero: what an earlier event left behind it is not part of it.
pub proof fn a_path_is_what_was_written(e: &ExecEvent, path: Seq<u8>, left: Seq<u8>)
    requires
        !path.contains(0),
        e.filename@ == path + left,
    ensures
        e.filename_len == path.len() ==> e.path_bytes() == path,
        left.len() == 0 && e.filename_len >= path.len() ==> e.path_bytes() == path,
        left.len() > 0 && left[0] == 0 && e.filename_len > path.len() ==> e.path_bytes() == path,
{
    let n = if (e.filename_len as int) < e.filename@.len() {
        e.filename_len as int
    } else {
        e.filename@.len() as int
    };
    let s = e.filename@.take(n);
    if e.filename_len == path.len() || left.len() == 0 && e.filename_len >= path.len() {
        assert(s =~= path);
        a_c_string_ends_at_its_zero(path, left);
    }
    if left.len() > 0 && left[0] == 0 && e.filename_len > path.len() {
        let rest = left.subrange(1, n - path.len());
        assert(s =~= path + seq![0u8] + rest);
        a_c_string_ends_at_its_zero(path, rest);
    }
}

/// What an event describes is the event's own process, with no parent where the
/// kernel names none and no path where it read none.
pub proof fn an_event_describes_its_own_process(e: &ExecEvent, p: KernelProc)
    requires
        describes(e, p),
    ensures
        p.pid == e.pid,
        p.uid == e.uid,
        p.gid == e.gid,
        e.ppid == 0 ==> p.ppid is None,
        e.ppid != 0 ==> p.ppid is Some && p.ppid->Some_0 == e.ppid,
        e.filename_len == 0 ==> p.exe@.len() == 0,
        e.filename_len > 0 ==> p.exe@ == lossy_text(e.path_bytes()),
        p.comm@ == lossy_text(c_string(e.comm@)),
{
}

/// A record is served for an hour, to whoever asks for the start time it is
/// bound to or names none, while the kernel feeds the table; and it is served as
/// it was recorded.
pub proof fn a_record_is_served_for_an_hour(
    m: Map<u32, Seen>,
    pid: u32,
    starttime: Option<u64>,
    now: u64,
)
    ensures
        answer(m, true, pid, starttime, now) is Some <==> {
            &&& m.contains_key(pid)
            &&& now <= m[pid].seen_at || now - m[pid].seen_at <= 3_600_000_000_000
            &&& m[pid].starttime is None || starttime is None || m[pid].starttime->Some_0
                == starttime->Some_0
        },
        answer(m, true, pid, starttime, now) is Some ==> answer(
            m,
            true,
            pid,
            starttime,
            now,
        )->Some_0 == m[pid].proc,
{
}

/// A lookup binds a record to the first start time it is asked for, takes out
/// one that it cannot serve, and touches no other.
pub proof fn a_lookup_binds_or_drops_its_own_record(
    m: Map<u32, Seen>,
    pid: u32,
    starttime: Option<u64>,
    now: u64,
    other: u32,
)
    requires
        other != pid,
    ensures
        ({
            let a = after_lookup(m, true, pid, starttime, now);
            let served = answer(m, true, pid, starttime, now) is Some;
            &&& a.contains_key(other) == m.contains_key(other)
            &&& m.contains_key(other) ==> a[other] == m[other]
            &&& a.contains_key(pid) == served
            &&& served ==> a[pid].proc == m[pid].proc && a[pid].seen_at == m[pid].seen_at
            &&& served && m[pid].starttime is Some ==> a[pid].starttime == m[pid].starttime
            &&& served && m[pid].starttime is None ==> a[pid].starttime == starttime
            &&& after_lookup(m, false, pid, starttime, now) == m
        }),
{
}

/// Room is made only where a new pid finds the table full, and then at the cost
/// of what has run out, or else of an oldest record; no record changes.
pub proof fn room_costs_the_stale_or_the_oldest(
    m: Map<u32, Seen>,
    pid: u32,
    now: u64,
    left: Map<u32, Seen>,
    k: u32,
)
    requires
        room_for(m, pid, now, left),
        m.contains_key(k),
    ensures
        left.contains_key(k) ==> left[k] == m[k],
        m.dom().len() < 10_240 || m.contains_key(pid) ==> left.contains_key(k),
        !left.contains_key(k) && (now <= m[k].seen_at || now - m[k].seen_at <= 3_600_000_000_000)
            ==> forall|o: u32| #[trigger] left.contains_key(o) ==> m[k].seen_at <= left[o].seen_at,
{
    let p = pruned(m, now);
    if !left.contains_key(k) && current(m[k], now) {
        assert(p.contains_key(k));
        assert forall|o: u32| #[trigger] left.contains_key(o) implies m[k].seen_at
            <= left[o].seen_at by {
            assert(p.contains_key(o));
        }
    }
}

/// A recorded exec stands under its pid, seen now and bound to the start time
/// that was given.
pub proof fn a_recorded_exec_stands_under_its_pid(
    before: Map<u32, Seen>,
    after: Map<u32, Seen>,
    event: &ExecEvent,
    starttime: Option<u64>,
    now: u64,
)
    requires
        recorded(before, after, event, starttime, now),
    ensures
        after.contains_key(event.pid),
        after[event.pid].seen_at == now,
        after[event.pid].starttime == starttime,
        describes(event, after[event.pid].proc),
{
}

/// What is listed is every process whose record has not run out, as it was
/// recorded and once, and nothing else.
pub proof fn the_living_are_listed(m: Map<u32, Seen>, now: u64, r: Seq<KernelProc>, pid: u32)
    requires
        lists_current(m, now, r),
    ensures
        m.contains_key(pid) && (now <= m[pid].seen_at || now - m[pid].seen_at <= 3_600_000_000_000)
            ==> exists|a: int| 0 <= a < r.len() && (#[trigger] r[a]).pid == pid,
        forall|a: int|
            0 <= a < r.len() && (#[trigger] r[a]).pid == pid ==> m.contains_key(pid) && m[pid].proc
                == r[a] && (now <= m[pid].seen_at || now - m[pid].seen_at <= 3_600_000_000_000),
        forall|a: int, b: int|
            0 <= a < r.len() && 0 <= b < r.len() && (#[trigger] r[a]).pid == pid && (
            #[trigger] r[b]).pid == pid ==> a == b,
{
    if m.contains_key(pid) && current(m[pid], now) {
        assert(has_pid(r, pid));
    }
}

/// A full table sheds every record that has run out before any that has not.
pub proof fn the_stale_go_first(m: Map<u32, Seen>, pid: u32, now: u64, left: Map<u32, Seen>, k: u32)
    requires
        room_for(m, pid, now, left),
        m.dom().len() >= 10_240,
        !m.contains_key(pid),
        m.contains_key(k),
        now > m[k].seen_at,
        now - m[k].seen_at > 3_600_000_000_000,
    ensures
        !left.contains_key(k),
{
}

} // verus!
