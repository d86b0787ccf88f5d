//! Loading the object and attaching its programs: what is vetted, what each
//! failure means, and what the report says of it all.
//!
//! [`LoadRun`] is the order of a load. It says what is to be done next, takes
//! how it went, and writes the report; every program is attached independently
//! of the others.

use crate::config::EbpfMode;
use crate::ebpf::btf::{word_at, TaskStructOffsets, VMLINUX_BTF};
use crate::ebpf::enforce::{
    pin_dir, version_name, EnforceStats, ABI_VERSION, BPFFS, ENOENT, NO_VERDICTS, PIN_NAMESPACE,
};
use crate::ebpf::proc_table::ExecEvent;
use crate::ebpf::tracefs::Resolution;
use crate::ebpf::{
    blank, named, Degrade, Enforcement, ExecOffset, Findings, LoadError, Report, Trust,
};
use crate::model::{Process, Provenance};
use crate::text::{
    chars_of, contains, contains_chars, decimal, joined, joined3, octal, push_decimal, push_octal,
    text, texts,
};
use vstd::prelude::*;
use vstd::string::StringExecFns;

verus! {

/// Whether a mode lets nobody but the owner write.
pub open spec fn owner_writes(mode: u32) -> bool {
    mode & 0o022 == 0
}

/// Whether a directory on the way to the object is safe.
pub open spec fn safe_dir(uid: u32, mode: u32) -> bool {
    uid == 0 && (owner_writes(mode) || mode & 0o1000 != 0)
}

/// Whether a directory on the way to the object is safe: root's, and either
/// writable by root alone or sticky, so that nobody else can rename root's
/// files.
pub fn dir_is_safe(uid: u32, mode: u32) -> (r: bool)
    ensures
        r == safe_dir(uid, mode),
{
    uid == 0 && (mode & 0o022 == 0 || mode & 0o1000 != 0)
}

/// Whether the object file itself is safe.
pub open spec fn safe_file(uid: u32, mode: u32) -> bool {
    uid == 0 && owner_writes(mode)
}

/// Whether the object file itself is safe. The sticky bit means nothing on a
/// file, so it excuses nothing.
pub fn file_is_safe(uid: u32, mode: u32) -> (r: bool)
    ensures
        r == safe_file(uid, mode),
{
    uid == 0 && mode & 0o022 == 0
}

/// A file or directory, as far as vetting looks.
#[derive(Debug)]
pub struct Inode {
    pub path: String,
    pub regular: bool,
    pub uid: u32,
    pub mode: u32,
}

/// The first directory that is not safe.
pub open spec fn first_unsafe(dirs: Seq<Inode>, i: int) -> Option<int>
    decreases dirs.len() - i,
{
    if i < 0 || i >= dirs.len() {
        None
    } else if !safe_dir(dirs[i].uid, dirs[i].mode) {
        Some(i)
    } else {
        first_unsafe(dirs, i + 1)
    }
}

/// The part of a mode that is shown.
pub open spec fn shown_mode(mode: u32) -> Seq<char> {
    octal((mode & 0o7777) as nat)
}

/// What is wrong with an object, if anything: it is no file, it is not root's
/// alone, or it lies under a directory that somebody else could rename.
pub open spec fn object_fault(file: Inode, dirs: Seq<Inode>) -> Option<Seq<char>> {
    if !file.regular {
        Some(file.path@ + " is not a regular file"@)
    } else if !safe_file(file.uid, file.mode) {
        Some(
            file.path@ + " is uid "@ + decimal(file.uid as nat) + " mode "@ + shown_mode(file.mode)
                + "; a BPF object must be root-owned and writable only by root"@,
        )
    } else {
        match first_unsafe(dirs, 0) {
            None => None,
            Some(i) => Some(
                file.path@ + " lies under "@ + dirs[i].path@ + ", which is uid "@ + decimal(
                    dirs[i].uid as nat,
                ) + " mode "@ + shown_mode(dirs[i].mode)
                    + "; a non-root user could replace the object"@,
            ),
        }
    }
}

/// Vets an object: the file with its symlinks resolved, and every directory
/// above it, nearest first.
pub fn vet_object(file: &Inode, dirs: &Vec<Inode>) -> (r: Result<(), String>)
    ensures
        match object_fault(*file, dirs@) {
            None => r is Ok,
            Some(t) => r matches Err(e) && e@ == t,
        },
{
    if !file.regular {
        return Err(joined(file.path.as_str(), " is not a regular file"));
    }
    if !file_is_safe(file.uid, file.mode) {
        let mut m = joined(file.path.as_str(), " is uid ");
        push_decimal(&mut m, file.uid as u64);
        m.append(" mode ");
        push_octal(&mut m, file.mode & 0o7777);
        m.append("; a BPF object must be root-owned and writable only by root");
        return Err(m);
    }
    let mut i: usize = 0;
    while i < dirs.len()
        invariant
            i <= dirs@.len(),
            file.regular,
            safe_file(file.uid, file.mode),
            first_unsafe(dirs@, 0) == first_unsafe(dirs@, i as int),
        decreases dirs@.len() - i,
    {
        if !dir_is_safe(dirs[i].uid, dirs[i].mode) {
            let mut m = joined3(file.path.as_str(), " lies under ", dirs[i].path.as_str());
            m.append(", which is uid ");
            push_decimal(&mut m, dirs[i].uid as u64);
            m.append(" mode ");
            push_octal(&mut m, dirs[i].mode & 0o7777);
            m.append("; a non-root user could replace the object");
            return Err(m);
        }
        i += 1;
    }
    Ok(())
}

/// System error numbers.
pub const EPERM: i32 = 1;

pub const E2BIG: i32 = 7;

pub const EACCES: i32 = 13;

pub const EEXIST: i32 = 17;

pub const EINVAL: i32 = 22;

pub const ENOSYS: i32 = 38;

pub const ENOTSUP: i32 = 95;

/// The symbol by which an object says which event layout it was built for.
pub const ABI_SYMBOL: &'static str = "CFC_ABI_VERSION";

/// A failure of an outside call: what it says, and the system's error number
/// where there is one.
#[derive(Debug)]
pub struct Failure {
    pub text: String,
    pub errno: Option<i32>,
}

/// What a failure to load the object means. No program has been submitted yet,
/// so a refusal is one of permission.
pub open spec fn load_reason(text: Seq<char>, errno: Option<i32>) -> Degrade {
    if contains(text, ABI_SYMBOL@) {
        Degrade::AbiMismatch
    } else if errno == Some(EPERM) || errno == Some(EACCES) {
        Degrade::NotPermitted
    } else if errno == Some(EINVAL) || errno == Some(ENOTSUP) || errno == Some(ENOSYS) {
        Degrade::Unsupported
    } else {
        Degrade::Other
    }
}

/// Classifies a failure to load the object. An object of another release is
/// known by the missing symbol.
pub fn classify_load(f: &Failure) -> (r: Degrade)
    ensures
        r == load_reason(f.text@, f.errno),
{
    let chars = chars_of(f.text.as_str());
    if contains_chars(chars.as_slice(), ABI_SYMBOL) {
        return Degrade::AbiMismatch;
    }
    match f.errno {
        Some(n) => if n == EPERM || n == EACCES {
            Degrade::NotPermitted
        } else if n == EINVAL || n == ENOTSUP || n == ENOSYS {
            Degrade::Unsupported
        } else {
            Degrade::Other
        },
        None => Degrade::Other,
    }
}

/// What a failure to load a program means. Here the verifier speaks, and its
/// rejection is not the refusal of a caller without the capability.
pub open spec fn verify_degrade(errno: Option<i32>) -> Degrade {
    if errno == Some(EPERM) {
        Degrade::NotPermitted
    } else if errno == Some(ENOTSUP) || errno == Some(ENOSYS) {
        Degrade::Unsupported
    } else {
        Degrade::Rejected
    }
}

/// Classifies a failure to load a program. One that is not known is far more
/// likely a rejection than a missing capability.
pub fn classify_verify(f: &Failure) -> (r: Degrade)
    ensures
        r == verify_degrade(f.errno),
{
    match f.errno {
        Some(n) => if n == EACCES || n == E2BIG {
            Degrade::Rejected
        } else if n == EPERM {
            Degrade::NotPermitted
        } else if n == ENOTSUP || n == ENOSYS {
            Degrade::Unsupported
        } else {
            Degrade::Rejected
        },
        None => Degrade::Rejected,
    }
}

/// Whether a failure to resolve the object's path is that it is not there.
pub fn is_missing(errno: Option<i32>) -> (r: bool)
    ensures
        r == (errno == Some(ENOENT)),
{
    match errno {
        Some(n) => n == ENOENT,
        None => false,
    }
}

/// What is said of a failure to attach the observer of DNS answers. A slot that
/// somebody else holds is not a missing mount.
pub open spec fn dns_attach_fault(f: Failure, root: Seq<char>) -> Seq<char> {
    if f.errno == Some(EEXIST) {
        "another program already holds the exclusive cgroup_skb/ingress slot on "@ + root
            + "; observed DNS answers are unavailable while it does: "@ + f.text@
    } else {
        "attaching cgroup_skb/ingress to "@ + root + ": "@ + f.text@
    }
}

/// What is said of a failure to attach the observer of DNS answers.
pub fn dns_attach_error(f: &Failure, root: &str) -> (r: String)
    ensures
        r@ == dns_attach_fault(*f, root@),
{
    let taken = match f.errno {
        Some(n) => n == EEXIST,
        None => false,
    };
    if taken {
        let mut m = joined3(
            "another program already holds the exclusive cgroup_skb/ingress slot on ",
            root,
            "; observed DNS answers are unavailable while it does: ",
        );
        m.append(f.text.as_str());
        m
    } else {
        let mut m = joined3("attaching cgroup_skb/ingress to ", root, ": ");
        m.append(f.text.as_str());
        m
    }
}

/// Whether `p` says of a process what its `execve` showed, and nothing else.
pub open spec fn seen_starting(e: ExecEvent, p: Process) -> bool {
    &&& p.pid == e.pid
    &&& p.ppid == (if e.ppid != 0 {
        Some(e.ppid)
    } else {
        None
    })
    &&& p.uid == Some(e.uid)
    &&& p.gid == Some(e.gid)
    &&& p.exe@ == crate::outside::lossy_text(e.path_bytes())
    &&& p.sha256 is None
    &&& p.parent_exe is None
    &&& p.cwd is None
    &&& p.package is None
    &&& p.cmdline@.len() == 0
    &&& p.provenance == Provenance::Unknown
}

/// The process as it was at its `execve`, for matching rules only. What costs a
/// file to read is left out.
pub fn exec_process(event: &ExecEvent) -> (r: Process)
    ensures
        r.pid == event.pid,
        r.ppid == (if event.ppid != 0 {
            Some(event.ppid)
        } else {
            None
        }),
        r.uid == Some(event.uid),
        r.gid == Some(event.gid),
        r.exe@ == crate::outside::lossy_text(event.path_bytes()),
        r.sha256 is None,
        r.parent_exe is None,
        r.cwd is None,
        r.package is None,
        r.cmdline@.len() == 0,
        r.provenance == Provenance::Unknown,
        seen_starting(*event, r),
{
    let mut p = Process::unknown(event.pid);
    p.ppid = if event.ppid != 0 {
        Some(event.ppid)
    } else {
        None
    };
    p.uid = Some(event.uid);
    p.gid = Some(event.gid);
    p.exe = event.filename_str();
    p
}

/// The known prefix of a record. A record that is too short is dropped rather
/// than read past; one that is longer comes from a kernel side that grew.
pub fn decode(bytes: &[u8], want: usize) -> (r: Option<Vec<u8>>)
    ensures
        r is Some <==> bytes@.len() >= want,
        r matches Some(v) ==> v@ == bytes@.take(want as int),
{
    if bytes.len() < want {
        return None;
    }
    let mut out: Vec<u8> = Vec::new();
    let mut i: usize = 0;
    while i < want
        invariant
            i <= want <= bytes@.len(),
            out@ == bytes@.take(i as int),
        decreases want - i,
    {
        proof {
            assert(bytes@.take(i as int).push(bytes@[i as int]) =~= bytes@.take(i + 1));
        }
        out.push(bytes[i]);
        i += 1;
    }
    Some(out)
}

/// The length of a program's short name in an exec record.
pub const COMM_LEN: usize = 16;

/// The length of the filename in an exec record.
pub const FILENAME_LEN: usize = 256;

/// The length of an exec record: four numbers, the two names, and how much of
/// the filename was written.
pub const EXEC_RECORD_LEN: usize = 292;

/// Whether an event is what an exec record holds.
pub open spec fn holds_exec(b: Seq<u8>, e: ExecEvent) -> bool {
    &&& e.pid == word_at(b, 0, true)
    &&& e.ppid == word_at(b, 4, true)
    &&& e.uid == word_at(b, 8, true)
    &&& e.gid == word_at(b, 12, true)
    &&& e.comm@ == b.subrange(16, 32)
    &&& e.filename@ == b.subrange(32, 288)
    &&& e.filename_len == b[288] + 0x100 * b[289]
}

fn word(b: &[u8], at: usize) -> (r: u32)
    requires
        at + 4 <= b@.len(),
    ensures
        r == word_at(b@, at as int, true),
{
    b[at] as u32 + 0x100 * (b[at + 1] as u32) + 0x1_0000 * (b[at + 2] as u32) + 0x100_0000 * (
    b[at + 3] as u32)
}

fn piece(b: &[u8], from: usize, to: usize) -> (r: Vec<u8>)
    requires
        from <= to <= b@.len(),
    ensures
        r@ == b@.subrange(from as int, to as int),
{
    let mut out: Vec<u8> = Vec::new();
    let mut i: usize = from;
    while i < to
        invariant
            from <= i <= to <= b@.len(),
            out@ == b@.subrange(from as int, i as int),
        decreases to - i,
    {
        proof {
            assert(b@.subrange(from as int, i as int).push(b@[i as int]) =~= b@.subrange(
                from as int,
                i + 1,
            ));
        }
        out.push(b[i]);
        i += 1;
    }
    out
}

/// The event in an exec record.
pub fn exec_record(bytes: &[u8]) -> (r: Option<ExecEvent>)
    ensures
        r is Some <==> bytes@.len() >= EXEC_RECORD_LEN,
        r matches Some(e) ==> holds_exec(bytes@, e),
{
    let b: Vec<u8> = match decode(bytes, EXEC_RECORD_LEN) {
        Some(b) => b,
        None => {
            return None;
        },
    };
    let s: &[u8] = b.as_slice();
    let comm = piece(s, 16, 32);
    let filename = piece(s, 32, 288);
    proof {
        assert(comm@ =~= bytes@.subrange(16, 32));
        assert(filename@ =~= bytes@.subrange(32, 288));
    }
    Some(
        ExecEvent {
            pid: word(s, 0),
            ppid: word(s, 4),
            uid: word(s, 8),
            gid: word(s, 12),
            comm,
            filename,
            filename_len: s[288] as u16 + 0x100 * (s[289] as u16),
        },
    )
}

/// The pid that a record starts with.
pub open spec fn pid_at_start(b: Seq<u8>) -> Option<int> {
    if b.len() >= 4 {
        Some(word_at(b, 0, true) as int)
    } else {
        None
    }
}

/// The pid at the start of an exit record, and of the record of a refusal.
pub fn pid_record(bytes: &[u8]) -> (r: Option<u32>)
    ensures
        r is Some <==> bytes@.len() >= 4,
        r matches Some(pid) ==> pid == word_at(bytes@, 0, true),
        pid_at_start(bytes@) == (match r {
            Some(pid) => Some(pid as int),
            None => None,
        }),
{
    match decode(bytes, 4) {
        Some(b) => Some(word(b.as_slice(), 0)),
        None => None,
    }
}

/// The room for a message in a DNS record.
pub const DNS_DATA_LEN: usize = 512;

/// The length of a DNS record: how much of the message was written, and the
/// message.
pub const DNS_RECORD_LEN: usize = 514;

/// The message that a DNS record tells.
pub open spec fn told(b: Seq<u8>) -> Option<Seq<u8>> {
    if b.len() >= DNS_RECORD_LEN {
        let len = b[0] + 0x100 * b[1];
        Some(
            b.subrange(
                2,
                2 + (if len > DNS_DATA_LEN {
                    DNS_DATA_LEN as int
                } else {
                    len
                }),
            ),
        )
    } else {
        None
    }
}

/// The message in a DNS record, so much of it as was written. A length that
/// goes past the room for it counts as all of the room.
pub fn dns_record(bytes: &[u8]) -> (r: Option<Vec<u8>>)
    ensures
        r is Some <==> bytes@.len() >= DNS_RECORD_LEN,
        r matches Some(v) ==> ({
            let len = bytes@[0] + 0x100 * bytes@[1];
            v@ == bytes@.subrange(
                2,
                2 + (if len > DNS_DATA_LEN {
                    DNS_DATA_LEN as int
                } else {
                    len
                }),
            )
        }),
        told(bytes@) == (match r {
            Some(v) => Some(v@),
            None => None,
        }),
{
    let b: Vec<u8> = match decode(bytes, DNS_RECORD_LEN) {
        Some(b) => b,
        None => {
            return None;
        },
    };
    let s: &[u8] = b.as_slice();
    let len: usize = s[0] as usize + 0x100 * (s[1] as usize);
    let end: usize = if len > DNS_DATA_LEN {
        2 + DNS_DATA_LEN
    } else {
        2 + len
    };
    let v = piece(s, 2, end);
    proof {
        assert(v@ =~= bytes@.subrange(2, end as int));
    }
    Some(v)
}

/// A report with one more note.
pub open spec fn noted(f: Findings, note: Seq<char>) -> Findings {
    Findings { notes: f.notes.push(note), ..f }
}

fn push_note(report: &mut Report, note: String)
    ensures
        final(report)@ == noted(old(report)@, note@),
{
    report.notes.push(note);
    proof {
        assert(texts(report.notes@) =~= texts(old(report).notes@).push(note@));
    }
}

/// A report with one more accepted program, where its cost is known.
pub open spec fn costed(f: Findings, program: Seq<char>, insns: Option<u32>) -> Findings {
    match insns {
        Some(n) => Findings { verified_insns: f.verified_insns.push((program, n)), ..f },
        None => f,
    }
}

fn push_cost(report: &mut Report, program: &str, insns: Option<u32>)
    ensures
        final(report)@ == costed(old(report)@, program@, insns),
{
    if let Some(n) = insns {
        report.verified_insns.push((text(program), n));
        proof {
            assert(named(report.verified_insns@) =~= named(old(report).verified_insns@).push(
                (program@, n),
            ));
        }
    }
}

/// A report whose reason is this one, unless there is one already.
pub open spec fn blamed(f: Findings, d: Degrade) -> Findings {
    Findings {
        degrade: if f.degrade is Some {
            f.degrade
        } else {
            Some(d)
        },
        ..f
    }
}

fn blame(report: &mut Report, d: Degrade)
    ensures
        final(report)@ == blamed(old(report)@, d),
{
    if report.degrade.is_none() {
        report.degrade = Some(d);
    }
}

/// A report after one attempt to attach a program.
pub open spec fn attach_recorded(
    f: Findings,
    program: Seq<char>,
    what: Seq<char>,
    r: Result<Option<u32>, Failure>,
) -> Findings {
    match r {
        Ok(insns) => costed(f, program, insns),
        Err(e) => blamed(noted(f, what + " not attached: "@ + e.text@), verify_degrade(e.errno)),
    }
}

/// Folds one attempt to attach a program into the report and says whether it is
/// live. The first failure gives the report its reason: when several fail it is
/// almost always for one.
pub fn record_attach(
    report: &mut Report,
    program: &str,
    what: &str,
    result: &Result<Option<u32>, Failure>,
) -> (r: bool)
    ensures
        r == (*result is Ok),
        final(report)@ == attach_recorded(old(report)@, program@, what@, *result),
{
    match result {
        Ok(insns) => {
            push_cost(report, program, *insns);
            true
        },
        Err(e) => {
            push_note(report, joined3(what, " not attached: ", e.text.as_str()));
            blame(report, classify_verify(e));
            false
        },
    }
}

/// What a load does next.
#[derive(Debug, Clone, Copy, PartialEq, Eq, Structural)]
pub enum LoadStage {
    /// Vet the object.
    Vet,
    /// Read it.
    Read,
    /// Find the offsets into the kernel's task structure.
    Offsets,
    /// Make the directory for pins, and look for pins of a previous daemon.
    Prepare,
    /// Read the format of the exit record.
    ExitFormat,
    /// Read the kernel's type information.
    KernelBtf,
    /// Read the format of the exec record.
    ExecFormat,
    /// Hand the object to the kernel, with the globals that were found.
    Load,
    AttachExec,
    AttachExit,
    AttachDns,
    /// Attach the enforcement layer.
    Enforce,
    /// Take the map that attributes sockets.
    SockPids,
    /// Read the counters.
    Counters,
    /// Evict what processes that are gone left behind.
    Sweep,
    /// Take the maps that verdicts are written to.
    Sink,
    /// Start draining the exec records.
    StartExec,
    StartExit,
    StartDeny,
    StartDns,
    Done,
    /// The object could not be loaded at all.
    Failed,
}

/// How reading the object went.
#[derive(Debug)]
pub enum ReadOutcome {
    Read,
    NotFound(String),
    Failed(String),
}

/// How evicting went.
#[derive(Debug)]
pub enum SweepOutcome {
    Swept,
    NoMap,
    NotAMap(String),
}

/// How a step of a load went.
#[derive(Debug)]
pub enum LoadEvent {
    /// What is wrong with the object, if anything.
    Vetted(Option<Failure>),
    ObjectRead(ReadOutcome),
    Offsets(Result<TaskStructOffsets, String>),
    /// Whether a previous daemon's programs are still attached.
    Prepared(Result<bool, String>),
    ExitFormat(Result<Option<u32>, String>),
    KernelBtf(Result<(), String>),
    ExecFormat(Result<Resolution, String>),
    Loaded(Result<(), Failure>),
    Attached(Result<Option<u32>, Failure>),
    Enforced(Result<Vec<(String, Option<u32>)>, Failure>),
    SockPids(Result<(), String>),
    Counters(Result<EnforceStats, String>),
    Swept(SweepOutcome),
    Sink(Result<(), String>),
    Started(Result<(), String>),
}

/// One load, from vetting the object to draining its records.
#[derive(Debug)]
pub struct LoadRun {
    pub stage: LoadStage,
    pub report: Report,
    pub object: String,
    pub trust: Trust,
    /// There are rules to steer enforcement by.
    pub has_engine: bool,
    pub pinning: bool,
    /// A previous daemon's programs are still attached.
    pub inherited: bool,
    /// Where a task's parent and its thread group stand.
    pub offsets: Option<(u32, u32)>,
    /// Where the exit record says that the whole process is gone.
    pub group_dead_off: u32,
    /// Where the exec record has the filename, if that is to be overridden.
    pub exec_off: Option<u32>,
    pub failure: Option<LoadError>,
}

/// What a load has come to.
pub ghost struct Loading {
    pub stage: LoadStage,
    pub report: Findings,
    pub object: Seq<char>,
    pub trust: Trust,
    pub has_engine: bool,
    pub pinning: bool,
    pub inherited: bool,
    pub offsets: Option<(u32, u32)>,
    pub group_dead_off: u32,
    pub exec_off: Option<u32>,
    pub failure: Option<(Degrade, Seq<char>)>,
}

impl View for LoadRun {
    type V = Loading;

    open spec fn view(&self) -> Loading {
        Loading {
            stage: self.stage,
            report: self.report@,
            object: self.object@,
            trust: self.trust,
            has_engine: self.has_engine,
            pinning: self.pinning,
            inherited: self.inherited,
            offsets: self.offsets,
            group_dead_off: self.group_dead_off,
            exec_off: self.exec_off,
            failure: match self.failure {
                Some(e) => Some((e.degrade, e.source@)),
                None => None,
            },
        }
    }
}

/// The offset that stands for "not there".
pub const ABSENT: u32 = 0xffff_ffff;

/// Where the exec record has the filename on every kernel seen so far.
pub const USUAL_FILENAME_OFFSET: u32 = 8;

pub const HOW_TO_BUILD: &'static str =
    " (build it with `cargo xtask build-ebpf` and install it there, or set [ebpf] object_path): ";

pub const NEEDS_CAPS: &'static str =
    " (needs CAP_BPF + CAP_PERFMON; on kernels < 5.8, CAP_SYS_ADMIN): ";

pub const PPID_UNKNOWN: &'static str = "; exec events will report ppid 0";

pub const LEADER_ONLY: &'static str =
    "this kernel's sched_process_exit has no readable `group_dead`; process exit is approximated by thread-group leader exit";

pub const NO_FILENAME: &'static str =
    "sched_process_exec filename field is in a form this build cannot read; exec events will carry no path, and attribution falls back to /proc";

pub const EXIT_NEEDED: &'static str =
    "exit tracking is unavailable, so exec records could outlive their processes; disabling kernel-sourced process identity";

/// A load that ended without an object.
pub open spec fn load_failed(s: Loading, d: Degrade, source: Seq<char>) -> Loading {
    Loading { stage: LoadStage::Failed, failure: Some((d, source)), ..s }
}

/// A load with one more note, at its next step.
pub open spec fn went_on(s: Loading, note: Option<Seq<char>>, stage: LoadStage) -> Loading {
    Loading {
        stage,
        report: match note {
            Some(n) => noted(s.report, n),
            None => s.report,
        },
        ..s
    }
}

/// What vetting comes to. An object that is not there is missing, not
/// untrusted; one that fails the check is loaded anyway if a human chose it.
#[verifier::opaque]
pub open spec fn vetted(s: Loading, fault: Option<Failure>) -> Loading {
    match fault {
        None => went_on(s, None, LoadStage::Read),
        Some(f) => if f.errno == Some(ENOENT) {
            load_failed(
                s,
                Degrade::ObjectMissing,
                "no BPF object at "@ + s.object + HOW_TO_BUILD@ + f.text@,
            )
        } else if s.trust == Trust::Refuse {
            load_failed(s, Degrade::ObjectUntrusted, f.text@)
        } else {
            went_on(
                s,
                Some("BPF object failed its ownership check: "@ + f.text@),
                LoadStage::Read,
            )
        },
    }
}

/// What reading the object comes to.
#[verifier::opaque]
pub open spec fn object_read(s: Loading, r: ReadOutcome) -> Loading {
    match r {
        ReadOutcome::Read => went_on(s, None, LoadStage::Offsets),
        ReadOutcome::NotFound(e) => load_failed(
            s,
            Degrade::ObjectMissing,
            "reading BPF object "@ + s.object + HOW_TO_BUILD@ + e@,
        ),
        ReadOutcome::Failed(e) => load_failed(
            s,
            Degrade::ObjectUnreadable,
            "reading BPF object "@ + s.object + HOW_TO_BUILD@ + e@,
        ),
    }
}

/// Offsets written out.
pub open spec fn offsets_text(o: TaskStructOffsets) -> Seq<char> {
    "TaskStructOffsets { real_parent: "@ + decimal(o.real_parent as nat) + ", tgid: "@ + decimal(
        o.tgid as nat,
    ) + " }"@
}

/// What is said of offsets that cannot be used.
pub open spec fn unusable_offsets(o: TaskStructOffsets) -> Seq<char> {
    "kernel BTF has no usable task_struct offsets ("@ + offsets_text(o) + ")"@ + PPID_UNKNOWN@
}

fn unusable_offsets_note(o: &TaskStructOffsets) -> (r: String)
    ensures
        r@ == unusable_offsets(*o),
{
    let mut shown = text("TaskStructOffsets { real_parent: ");
    push_decimal(&mut shown, o.real_parent as u64);
    shown.append(", tgid: ");
    push_decimal(&mut shown, o.tgid as u64);
    shown.append(" }");
    let mut m = text("kernel BTF has no usable task_struct offsets (");
    m.append(shown.as_str());
    m.append(")");
    m.append(PPID_UNKNOWN);
    m
}

/// What is said when there are no offsets.
pub open spec fn no_offsets(e: Seq<char>) -> Seq<char> {
    "could not resolve task_struct offsets from "@ + VMLINUX_BTF@ + ": "@ + e + PPID_UNKNOWN@
}

fn no_offsets_note(e: &str) -> (r: String)
    ensures
        r@ == no_offsets(e@),
{
    let mut m = joined3("could not resolve task_struct offsets from ", VMLINUX_BTF, ": ");
    m.append(e);
    m.append(PPID_UNKNOWN);
    m
}

/// What is said of an offset that is not the usual one.
pub open spec fn unusual_offset(off: u32) -> Seq<char> {
    "sched_process_exec filename offset is "@ + decimal(off as nat) + ", not the usual 8"@
}

fn unusual_offset_note(off: u32) -> (r: String)
    ensures
        r@ == unusual_offset(off),
{
    let mut m = text("sched_process_exec filename offset is ");
    push_decimal(&mut m, off as u64);
    m.append(", not the usual 8");
    m
}

/// What looking for the offsets comes to.
#[verifier::opaque]
pub open spec fn offsets_found(s: Loading, r: Result<TaskStructOffsets, String>) -> Loading {
    match r {
        Ok(o) => if o.real_parent != 0 && o.tgid != 0 {
            Loading {
                stage: LoadStage::Prepare,
                offsets: Some((o.real_parent, o.tgid)),
                report: Findings { ppid_offsets: true, ..s.report },
                ..s
            }
        } else {
            went_on(
                Loading { offsets: None, report: Findings { ppid_offsets: false, ..s.report }, ..s },
                Some(unusable_offsets(o)),
                LoadStage::Prepare,
            )
        },
        Err(e) => went_on(
            Loading { offsets: None, report: Findings { ppid_offsets: false, ..s.report }, ..s },
            Some(no_offsets(e@)),
            LoadStage::Prepare,
        ),
    }
}

/// What preparing for pins comes to. Without pins the programs still attach;
/// they just do not outlive this process.
#[verifier::opaque]
pub open spec fn prepared(s: Loading, r: Result<bool, String>) -> Loading {
    match r {
        Ok(there) => Loading {
            stage: LoadStage::ExitFormat,
            pinning: true,
            inherited: there,
            ..s
        },
        Err(e) => went_on(
            Loading { pinning: false, inherited: false, ..s },
            Some(
                "in-kernel enforcement cannot be pinned: "@ + e@
                    + "; it will stop when this daemon does"@,
            ),
            LoadStage::ExitFormat,
        ),
    }
}

/// What the format of the exit record comes to. An offset that cannot be
/// confirmed is not guessed.
#[verifier::opaque]
pub open spec fn exit_format(s: Loading, r: Result<Option<u32>, String>) -> Loading {
    match r {
        Ok(Some(off)) => Loading { stage: LoadStage::KernelBtf, group_dead_off: off, ..s },
        Ok(None) => went_on(
            Loading { group_dead_off: ABSENT, ..s },
            Some(LEADER_ONLY@),
            LoadStage::KernelBtf,
        ),
        Err(_) => Loading { stage: LoadStage::KernelBtf, group_dead_off: ABSENT, ..s },
    }
}

/// What reading the kernel's type information comes to.
#[verifier::opaque]
pub open spec fn kernel_btf(s: Loading, r: Result<(), String>) -> Loading {
    match r {
        Ok(_) => went_on(s, None, LoadStage::ExecFormat),
        Err(e) => went_on(
            s,
            Some(
                "kernel BTF unavailable ("@ + e@ + "); verifier diagnostics will be poorer"@,
            ),
            LoadStage::ExecFormat,
        ),
    }
}

/// What the format of the exec record comes to. A field that cannot be read is
/// switched off in the kernel too.
#[verifier::opaque]
pub open spec fn exec_format(s: Loading, r: Result<Resolution, String>) -> Loading {
    match r {
        Ok(Resolution::Parsed(off)) => went_on(
            filename_at(s, Some(off), ExecOffset::Parsed(off)),
            if off != USUAL_FILENAME_OFFSET {
                Some(unusual_offset(off))
            } else {
                None
            },
            LoadStage::Load,
        ),
        Ok(Resolution::Unsupported) => went_on(
            filename_at(s, Some(0), ExecOffset::Suppressed),
            Some(NO_FILENAME@),
            LoadStage::Load,
        ),
        Err(_) => went_on(filename_at(s, None, ExecOffset::Default), None, LoadStage::Load),
    }
}

/// A load that knows where the exec record has the filename.
pub open spec fn filename_at(s: Loading, exec_off: Option<u32>, found: ExecOffset) -> Loading {
    Loading { exec_off, report: Findings { exec_offset: found, ..s.report }, ..s }
}

/// What is said of a failure to load the object.
pub open spec fn load_fault(object: Seq<char>, e: Seq<char>) -> Seq<char> {
    "loading "@ + object + NEEDS_CAPS@ + e
}

/// What handing the object to the kernel comes to.
#[verifier::opaque]
pub open spec fn object_loaded(s: Loading, r: Result<(), Failure>) -> Loading {
    match r {
        Ok(_) => went_on(s, None, LoadStage::AttachExec),
        Err(f) => load_failed(
            s,
            load_reason(load_fault(s.object, f.text@), f.errno),
            load_fault(s.object, f.text@),
        ),
    }
}

pub const PROG_EXEC: &'static str = "cfc_sched_process_exec";

pub const PROG_EXIT: &'static str = "cfc_sched_process_exit";

pub const PROG_DNS: &'static str = "cfc_dns_ingress";

/// What attaching the exec program comes to.
#[verifier::opaque]
pub open spec fn exec_attached(s: Loading, r: Result<Option<u32>, Failure>) -> Loading {
    Loading {
        stage: LoadStage::AttachExit,
        report: Findings {
            exec_tracking: r is Ok,
            ..attach_recorded(s.report, PROG_EXEC@, "sched_process_exec"@, r)
        },
        ..s
    }
}

/// What attaching the exit program comes to.
#[verifier::opaque]
pub open spec fn exit_attached(s: Loading, r: Result<Option<u32>, Failure>) -> Loading {
    Loading {
        stage: LoadStage::AttachDns,
        report: Findings {
            exit_tracking: r is Ok,
            ..attach_recorded(s.report, PROG_EXIT@, "sched_process_exit"@, r)
        },
        ..s
    }
}

/// The directory of the pins.
pub open spec fn pin_place() -> Seq<char> {
    BPFFS@ + "/"@ + PIN_NAMESPACE@ + "/"@ + version_name(ABI_VERSION as nat)
}

/// What attaching the observer of DNS answers comes to. Enforcement that a
/// previous daemon left attached is steered, not replaced.
#[verifier::opaque]
pub open spec fn dns_attached(s: Loading, r: Result<Option<u32>, Failure>) -> Loading {
    let t = Loading {
        report: Findings {
            dns_capture: r is Ok,
            ..attach_recorded(s.report, PROG_DNS@, "cgroup_skb/ingress"@, r)
        },
        ..s
    };
    if s.inherited {
        let u = went_on(
            t,
            Some(
                "in-kernel enforcement was already attached and pinned at "@ + pin_place()
                    + "; steering it rather than replacing it"@,
            ),
            LoadStage::SockPids,
        );
        Loading { report: Findings { enforcement: Enforcement::Inherited, ..u.report }, ..u }
    } else {
        Loading { stage: LoadStage::Enforce, ..t }
    }
}

/// A report with the costs of some programs.
pub open spec fn costed_all(f: Findings, v: Seq<(String, Option<u32>)>) -> Findings
    decreases v.len(),
{
    if v.len() == 0 {
        f
    } else {
        costed(costed_all(f, v.drop_last()), v.last().0@, v.last().1)
    }
}

/// What attaching the enforcement layer comes to.
#[verifier::opaque]
pub open spec fn enforced(
    s: Loading,
    r: Result<Vec<(String, Option<u32>)>, Failure>,
) -> Loading {
    match r {
        Ok(programs) => Loading {
            stage: LoadStage::SockPids,
            report: Findings {
                enforcement: if s.pinning {
                    Enforcement::Pinned
                } else {
                    Enforcement::Process
                },
                ..costed_all(s.report, programs@)
            },
            ..s
        },
        Err(f) => to_consumers(
            Loading {
                report: Findings {
                    enforcement: Enforcement::Unavailable,
                    ..blamed(
                        noted(s.report, "cgroup/connect4|6 not attached: "@ + f.text@),
                        verify_degrade(f.errno),
                    )
                },
                ..s
            },
        ),
    }
}

/// A report in which exec records are trusted only with exit records: without
/// them an entry could outlive its process.
pub open spec fn settled(f: Findings) -> Findings {
    if f.exec_tracking && !f.exit_tracking {
        Findings { exec_tracking: false, ..noted(f, EXIT_NEEDED@) }
    } else {
        f
    }
}

/// Where draining goes on: the refusals if enforcement is up, then the DNS
/// answers.
pub open spec fn draining(f: Findings, from_deny: bool) -> LoadStage {
    if from_deny && f.enforcement.live() {
        LoadStage::StartDeny
    } else if f.dns_capture {
        LoadStage::StartDns
    } else {
        LoadStage::Done
    }
}

/// A load whose programs are attached: what is drained first.
pub open spec fn to_consumers(s: Loading) -> Loading {
    let report = settled(s.report);
    Loading {
        report,
        stage: if report.exec_tracking {
            LoadStage::StartExec
        } else {
            draining(report, true)
        },
        ..s
    }
}

/// What taking the map that attributes sockets comes to.
#[verifier::opaque]
pub open spec fn sock_pids(s: Loading, r: Result<(), String>) -> Loading {
    match r {
        Ok(_) => went_on(s, None, LoadStage::Counters),
        Err(e) => went_on(s, Some("SOCK_PIDS unusable: "@ + e@), LoadStage::Counters),
    }
}

/// What the counters of a carried-over layer say.
pub open spec fn carried_over(c: EnforceStats) -> Seq<char> {
    "in-kernel enforcement carried over: "@ + decimal(c.denied as nat) + " connect() refused, "@
        + decimal(c.allowed as nat) + " allowed, "@ + decimal(c.unknown as nat)
        + " passed to the packet path since the pins were made"@
}

/// What reading the counters comes to. They are above zero at the start only if
/// a previous daemon's programs kept working.
#[verifier::opaque]
pub open spec fn counters(s: Loading, r: Result<EnforceStats, String>) -> Loading {
    match r {
        Ok(c) => went_on(
            s,
            if c.denied > 0 || c.allowed > 0 || c.unknown > 0 {
                Some(carried_over(c))
            } else {
                None
            },
            LoadStage::Sweep,
        ),
        Err(e) => went_on(s, Some("enforcement counters unreadable: "@ + e@), LoadStage::Sweep),
    }
}

/// What evicting comes to. Verdicts are written only if there are rules.
#[verifier::opaque]
pub open spec fn swept(s: Loading, r: SweepOutcome) -> Loading {
    let t = match r {
        SweepOutcome::Swept => went_on(s, None, LoadStage::Sink),
        SweepOutcome::NoMap => went_on(s, Some(NO_VERDICTS@), LoadStage::Sink),
        SweepOutcome::NotAMap(e) => went_on(
            s,
            Some("VERDICTS is not a hash map: "@ + e@),
            LoadStage::Sink,
        ),
    };
    if s.has_engine {
        t
    } else {
        to_consumers(t)
    }
}

/// What taking the maps for verdicts comes to.
#[verifier::opaque]
pub open spec fn sink(s: Loading, r: Result<(), String>) -> Loading {
    match r {
        Ok(_) => to_consumers(s),
        Err(e) => to_consumers(
            Loading {
                report: noted(s.report, "in-kernel verdicts will not be written: "@ + e@),
                ..s
            },
        ),
    }
}

/// What is said of a stream that is not drained.
pub open spec fn not_started(map: Seq<char>, e: Seq<char>) -> Seq<char> {
    map + " consumer not started: "@ + e
}

/// What starting to drain the exec records comes to.
#[verifier::opaque]
pub open spec fn exec_started(s: Loading, r: Result<(), String>) -> Loading {
    match r {
        Ok(_) => Loading {
            stage: if s.report.exit_tracking {
                LoadStage::StartExit
            } else {
                draining(s.report, true)
            },
            ..s
        },
        Err(e) => {
            let report = Findings {
                exec_tracking: false,
                ..noted(s.report, not_started("EXEC_EVENTS"@, e@))
            };
            Loading { report, stage: draining(report, true), ..s }
        },
    }
}

/// What starting to drain the exit records comes to. Without evictions there is
/// no process identity from the kernel.
#[verifier::opaque]
pub open spec fn exit_started(s: Loading, r: Result<(), String>) -> Loading {
    match r {
        Ok(_) => Loading { stage: draining(s.report, true), ..s },
        Err(e) => {
            let report = Findings {
                exec_tracking: false,
                exit_tracking: false,
                ..noted(s.report, not_started("EXIT_EVENTS"@, e@))
            };
            Loading { report, stage: draining(report, true), ..s }
        },
    }
}

/// What starting to drain the refusals comes to.
#[verifier::opaque]
pub open spec fn deny_started(s: Loading, r: Result<(), String>) -> Loading {
    match r {
        Ok(_) => Loading { stage: draining(s.report, false), ..s },
        Err(e) => {
            let report = noted(
                s.report,
                not_started("DENY_EVENTS"@, e@)
                    + "; in-kernel denials will be enforced but not reported"@,
            );
            Loading { report, stage: draining(report, false), ..s }
        },
    }
}

/// What starting to drain the DNS answers comes to.
#[verifier::opaque]
pub open spec fn dns_started(s: Loading, r: Result<(), String>) -> Loading {
    match r {
        Ok(_) => Loading { stage: LoadStage::Done, ..s },
        Err(e) => Loading {
            stage: LoadStage::Done,
            report: Findings {
                dns_capture: false,
                ..noted(s.report, not_started("DNS_PACKETS"@, e@))
            },
            ..s
        },
    }
}

/// What one step of a load comes to. An event that is not of the step changes
/// nothing.
pub open spec fn advanced(s: Loading, e: LoadEvent) -> Loading {
    match (s.stage, e) {
        (LoadStage::Vet, LoadEvent::Vetted(f)) => vetted(s, f),
        (LoadStage::Read, LoadEvent::ObjectRead(r)) => object_read(s, r),
        (LoadStage::Offsets, LoadEvent::Offsets(r)) => offsets_found(s, r),
        (LoadStage::Prepare, LoadEvent::Prepared(r)) => prepared(s, r),
        (LoadStage::ExitFormat, LoadEvent::ExitFormat(r)) => exit_format(s, r),
        (LoadStage::KernelBtf, LoadEvent::KernelBtf(r)) => kernel_btf(s, r),
        (LoadStage::ExecFormat, LoadEvent::ExecFormat(r)) => exec_format(s, r),
        (LoadStage::Load, LoadEvent::Loaded(r)) => object_loaded(s, r),
        (LoadStage::AttachExec, LoadEvent::Attached(r)) => exec_attached(s, r),
        (LoadStage::AttachExit, LoadEvent::Attached(r)) => exit_attached(s, r),
        (LoadStage::AttachDns, LoadEvent::Attached(r)) => dns_attached(s, r),
        (LoadStage::Enforce, LoadEvent::Enforced(r)) => enforced(s, r),
        (LoadStage::SockPids, LoadEvent::SockPids(r)) => sock_pids(s, r),
        (LoadStage::Counters, LoadEvent::Counters(r)) => counters(s, r),
        (LoadStage::Sweep, LoadEvent::Swept(r)) => swept(s, r),
        (LoadStage::Sink, LoadEvent::Sink(r)) => sink(s, r),
        (LoadStage::StartExec, LoadEvent::Started(r)) => exec_started(s, r),
        (LoadStage::StartExit, LoadEvent::Started(r)) => exit_started(s, r),
        (LoadStage::StartDeny, LoadEvent::Started(r)) => deny_started(s, r),
        (LoadStage::StartDns, LoadEvent::Started(r)) => dns_started(s, r),
        _ => s,
    }
}

impl LoadRun {
    /// Starts with vetting the object.
    pub fn new(object: String, trust: Trust, has_engine: bool) -> (r: LoadRun)
        ensures
            r.stage == LoadStage::Vet,
            r.report@ == (Findings { mode: EbpfMode::On, compiled_in: true, ..blank() }),
            r.object == object,
            r.trust == trust,
            r.has_engine == has_engine,
            !r.pinning,
            !r.inherited,
            r.offsets is None,
            r.group_dead_off == ABSENT,
            r.exec_off is None,
            r.failure is None,
    {
        let mut report = Report::default();
        report.mode = EbpfMode::On;
        report.compiled_in = true;
        LoadRun {
            stage: LoadStage::Vet,
            report,
            object,
            trust,
            has_engine,
            pinning: false,
            inherited: false,
            offsets: None,
            group_dead_off: ABSENT,
            exec_off: None,
            failure: None,
        }
    }

    fn note(&mut self, note: String)
        ensures
            final(self)@ == (Loading {
                report: noted(old(self)@.report, note@),
                ..old(self)@
            }),
    {
        push_note(&mut self.report, note);
    }

    fn fail(&mut self, degrade: Degrade, source: String)
        ensures
            final(self)@ == load_failed(old(self)@, degrade, source@),
    {
        self.stage = LoadStage::Failed;
        self.failure = Some(LoadError { degrade, source });
    }

    fn set_offsets(&mut self, offsets: Option<(u32, u32)>)
        ensures
            final(self)@ == (Loading {
                offsets,
                report: Findings { ppid_offsets: offsets is Some, ..old(self)@.report },
                ..old(self)@
            }),
    {
        self.offsets = offsets;
        self.report.ppid_offsets = offsets.is_some();
    }

    fn set_exec_offset(&mut self, exec_off: Option<u32>, found: ExecOffset)
        ensures
            final(self)@ == filename_at(old(self)@, exec_off, found),
    {
        self.exec_off = exec_off;
        self.report.exec_offset = found;
    }

    fn go_on(&mut self, stage: LoadStage)
        ensures
            final(self)@ == (Loading { stage, ..old(self)@ }),
    {
        self.stage = stage;
    }

    fn on_vetted(&mut self, fault: &Option<Failure>)
        ensures
            final(self)@ == vetted(old(self)@, *fault),
    {
        proof {
            reveal(vetted);
        }
        if let Some(f) = fault {
            if is_missing(f.errno) {
                let mut m = joined3("no BPF object at ", self.object.as_str(), HOW_TO_BUILD);
                m.append(f.text.as_str());
                self.fail(Degrade::ObjectMissing, m);
                return;
            }
            if self.trust == Trust::Refuse {
                self.fail(Degrade::ObjectUntrusted, text(f.text.as_str()));
                return;
            }
            self.note(joined("BPF object failed its ownership check: ", f.text.as_str()));
        }
        self.stage = LoadStage::Read;
    }

    fn on_read(&mut self, r: &ReadOutcome)
        ensures
            final(self)@ == object_read(old(self)@, *r),
    {
        proof {
            reveal(object_read);
        }
        match r {
            ReadOutcome::Read => {
                self.stage = LoadStage::Offsets;
            },
            ReadOutcome::NotFound(e) => {
                let mut m = joined3("reading BPF object ", self.object.as_str(), HOW_TO_BUILD);
                m.append(e.as_str());
                self.fail(Degrade::ObjectMissing, m);
            },
            ReadOutcome::Failed(e) => {
                let mut m = joined3("reading BPF object ", self.object.as_str(), HOW_TO_BUILD);
                m.append(e.as_str());
                self.fail(Degrade::ObjectUnreadable, m);
            },
        }
    }

    fn on_offsets(&mut self, r: &Result<TaskStructOffsets, String>)
        ensures
            final(self)@ == offsets_found(old(self)@, *r),
    {
        proof {
            reveal(offsets_found);
        }
        match r {
            Ok(o) => {
                if o.is_resolved() {
                    self.set_offsets(Some((o.real_parent, o.tgid)));
                } else {
                    self.set_offsets(None);
                    self.note(unusable_offsets_note(o));
                }
            },
            Err(e) => {
                self.set_offsets(None);
                self.note(no_offsets_note(e.as_str()));
            },
        }
        self.go_on(LoadStage::Prepare);
    }

    fn on_prepared(&mut self, r: &Result<bool, String>)
        ensures
            final(self)@ == prepared(old(self)@, *r),
    {
        proof {
            reveal(prepared);
        }
        match r {
            Ok(there) => {
                self.pinning = true;
                self.inherited = *there;
            },
            Err(e) => {
                self.pinning = false;
                self.inherited = false;
                self.note(
                    joined3(
                        "in-kernel enforcement cannot be pinned: ",
                        e.as_str(),
                        "; it will stop when this daemon does",
                    ),
                );
            },
        }
        self.stage = LoadStage::ExitFormat;
    }

    fn on_exit_format(&mut self, r: &Result<Option<u32>, String>)
        ensures
            final(self)@ == exit_format(old(self)@, *r),
    {
        proof {
            reveal(exit_format);
        }
        match r {
            Ok(Some(off)) => {
                self.group_dead_off = *off;
            },
            Ok(None) => {
                self.group_dead_off = ABSENT;
                self.note(text(LEADER_ONLY));
            },
            Err(_) => {
                self.group_dead_off = ABSENT;
            },
        }
        self.stage = LoadStage::KernelBtf;
    }

    fn on_kernel_btf(&mut self, r: &Result<(), String>)
        ensures
            final(self)@ == kernel_btf(old(self)@, *r),
    {
        proof {
            reveal(kernel_btf);
        }
        if let Err(e) = r {
            self.note(
                joined3(
                    "kernel BTF unavailable (",
                    e.as_str(),
                    "); verifier diagnostics will be poorer",
                ),
            );
        }
        self.stage = LoadStage::ExecFormat;
    }

    fn on_exec_format(&mut self, r: &Result<Resolution, String>)
        ensures
            final(self)@ == exec_format(old(self)@, *r),
    {
        proof {
            reveal(exec_format);
        }
        match r {
            Ok(Resolution::Parsed(off)) => {
                self.set_exec_offset(Some(*off), ExecOffset::Parsed(*off));
                if *off != USUAL_FILENAME_OFFSET {
                    self.note(unusual_offset_note(*off));
                }
            },
            Ok(Resolution::Unsupported) => {
                self.set_exec_offset(Some(0), ExecOffset::Suppressed);
                self.note(text(NO_FILENAME));
            },
            Err(_) => {
                self.set_exec_offset(None, ExecOffset::Default);
            },
        }
        self.go_on(LoadStage::Load);
    }

    fn on_loaded(&mut self, r: &Result<(), Failure>)
        ensures
            final(self)@ == object_loaded(old(self)@, *r),
    {
        proof {
            reveal(object_loaded);
        }
        match r {
            Ok(_) => {
                self.stage = LoadStage::AttachExec;
            },
            Err(f) => {
                let mut m = joined3("loading ", self.object.as_str(), NEEDS_CAPS);
                m.append(f.text.as_str());
                let whole = Failure { text: m, errno: f.errno };
                let degrade = classify_load(&whole);
                self.fail(degrade, whole.text);
            },
        }
    }

    fn on_exec_attached(&mut self, r: &Result<Option<u32>, Failure>)
        ensures
            final(self)@ == exec_attached(old(self)@, *r),
    {
        proof {
            reveal(exec_attached);
        }
        let live = record_attach(&mut self.report, PROG_EXEC, "sched_process_exec", r);
        self.report.exec_tracking = live;
        self.stage = LoadStage::AttachExit;
    }

    fn on_exit_attached(&mut self, r: &Result<Option<u32>, Failure>)
        ensures
            final(self)@ == exit_attached(old(self)@, *r),
    {
        proof {
            reveal(exit_attached);
        }
        let live = record_attach(&mut self.report, PROG_EXIT, "sched_process_exit", r);
        self.report.exit_tracking = live;
        self.stage = LoadStage::AttachDns;
    }

    fn on_dns_attached(&mut self, r: &Result<Option<u32>, Failure>)
        ensures
            final(self)@ == dns_attached(old(self)@, *r),
    {
        proof {
            reveal(dns_attached);
        }
        let live = record_attach(&mut self.report, PROG_DNS, "cgroup_skb/ingress", r);
        self.report.dns_capture = live;
        if self.inherited {
            let place = pin_dir();
            self.note(
                joined3(
                    "in-kernel enforcement was already attached and pinned at ",
                    place.as_str(),
                    "; steering it rather than replacing it",
                ),
            );
            self.report.enforcement = Enforcement::Inherited;
            self.stage = LoadStage::SockPids;
        } else {
            self.stage = LoadStage::Enforce;
        }
    }

    fn on_enforced(&mut self, r: &Result<Vec<(String, Option<u32>)>, Failure>)
        ensures
            final(self)@ == enforced(old(self)@, *r),
    {
        proof {
            reveal(enforced);
        }
        match r {
            Ok(programs) => {
                let ghost before = self@;
                let mut i: usize = 0;
                proof {
                    assert(programs@.take(0) =~= Seq::<(String, Option<u32>)>::empty());
                }
                while i < programs.len()
                    invariant
                        i <= programs@.len(),
                        self@ == (Loading {
                            report: costed_all(before.report, programs@.take(i as int)),
                            ..before
                        }),
                    decreases programs@.len() - i,
                {
                    proof {
                        assert(programs@.take(i + 1).drop_last() =~= programs@.take(i as int));
                    }
                    push_cost(&mut self.report, programs[i].0.as_str(), programs[i].1);
                    i += 1;
                }
                proof {
                    assert(programs@.take(i as int) =~= programs@);
                }
                self.report.enforcement = if self.pinning {
                    Enforcement::Pinned
                } else {
                    Enforcement::Process
                };
                self.stage = LoadStage::SockPids;
            },
            Err(f) => {
                self.note(joined("cgroup/connect4|6 not attached: ", f.text.as_str()));
                blame(&mut self.report, classify_verify(f));
                self.report.enforcement = Enforcement::Unavailable;
                self.go_to_consumers();
            },
        }
    }

    fn draining_stage(&self, from_deny: bool) -> (r: LoadStage)
        ensures
            r == draining(self@.report, from_deny),
    {
        if from_deny && self.report.enforcement.is_live() {
            LoadStage::StartDeny
        } else if self.report.dns_capture {
            LoadStage::StartDns
        } else {
            LoadStage::Done
        }
    }

    fn go_to_consumers(&mut self)
        ensures
            final(self)@ == to_consumers(old(self)@),
    {
        if self.report.exec_tracking && !self.report.exit_tracking {
            self.note(text(EXIT_NEEDED));
            self.report.exec_tracking = false;
        }
        let stage = if self.report.exec_tracking {
            LoadStage::StartExec
        } else {
            self.draining_stage(true)
        };
        self.stage = stage;
    }

    fn on_sock_pids(&mut self, r: &Result<(), String>)
        ensures
            final(self)@ == sock_pids(old(self)@, *r),
    {
        proof {
            reveal(sock_pids);
        }
        if let Err(e) = r {
            self.note(joined("SOCK_PIDS unusable: ", e.as_str()));
        }
        self.stage = LoadStage::Counters;
    }

    fn on_counters(&mut self, r: &Result<EnforceStats, String>)
        ensures
            final(self)@ == counters(old(self)@, *r),
    {
        proof {
            reveal(counters);
        }
        match r {
            Ok(c) => {
                if c.denied > 0 || c.allowed > 0 || c.unknown > 0 {
                    let mut m = text("in-kernel enforcement carried over: ");
                    push_decimal(&mut m, c.denied);
                    m.append(" connect() refused, ");
                    push_decimal(&mut m, c.allowed);
                    m.append(" allowed, ");
                    push_decimal(&mut m, c.unknown);
                    m.append(" passed to the packet path since the pins were made");
                    self.note(m);
                }
            },
            Err(e) => {
                self.note(joined("enforcement counters unreadable: ", e.as_str()));
            },
        }
        self.stage = LoadStage::Sweep;
    }

    fn on_swept(&mut self, r: &SweepOutcome)
        ensures
            final(self)@ == swept(old(self)@, *r),
    {
        proof {
            reveal(swept);
        }
        match r {
            SweepOutcome::Swept => {},
            SweepOutcome::NoMap => {
                self.note(text(NO_VERDICTS));
            },
            SweepOutcome::NotAMap(e) => {
                self.note(joined("VERDICTS is not a hash map: ", e.as_str()));
            },
        }
        self.stage = LoadStage::Sink;
        if !self.has_engine {
            self.go_to_consumers();
        }
    }

    fn on_sink(&mut self, r: &Result<(), String>)
        ensures
            final(self)@ == sink(old(self)@, *r),
    {
        proof {
            reveal(sink);
        }
        if let Err(e) = r {
            self.note(joined("in-kernel verdicts will not be written: ", e.as_str()));
        }
        self.go_to_consumers();
    }

    fn on_exec_started(&mut self, r: &Result<(), String>)
        ensures
            final(self)@ == exec_started(old(self)@, *r),
    {
        proof {
            reveal(exec_started);
        }
        match r {
            Ok(_) => {
                let stage = if self.report.exit_tracking {
                    LoadStage::StartExit
                } else {
                    self.draining_stage(true)
                };
                self.stage = stage;
            },
            Err(e) => {
                self.note(joined3("EXEC_EVENTS", " consumer not started: ", e.as_str()));
                self.report.exec_tracking = false;
                let stage = self.draining_stage(true);
                self.stage = stage;
            },
        }
    }

    fn on_exit_started(&mut self, r: &Result<(), String>)
        ensures
            final(self)@ == exit_started(old(self)@, *r),
    {
        proof {
            reveal(exit_started);
        }
        if let Err(e) = r {
            self.note(joined3("EXIT_EVENTS", " consumer not started: ", e.as_str()));
            self.report.exec_tracking = false;
            self.report.exit_tracking = false;
        }
        let stage = self.draining_stage(true);
        self.stage = stage;
    }

    fn on_deny_started(&mut self, r: &Result<(), String>)
        ensures
            final(self)@ == deny_started(old(self)@, *r),
    {
        proof {
            reveal(deny_started);
        }
        if let Err(e) = r {
            let mut m = joined3("DENY_EVENTS", " consumer not started: ", e.as_str());
            m.append("; in-kernel denials will be enforced but not reported");
            self.note(m);
        }
        let stage = self.draining_stage(false);
        self.stage = stage;
    }

    fn on_dns_started(&mut self, r: &Result<(), String>)
        ensures
            final(self)@ == dns_started(old(self)@, *r),
    {
        proof {
            reveal(dns_started);
        }
        if let Err(e) = r {
            self.note(joined3("DNS_PACKETS", " consumer not started: ", e.as_str()));
            self.report.dns_capture = false;
        }
        self.stage = LoadStage::Done;
    }

    /// Takes how the current step went, and goes on to the next.
    pub fn step(&mut self, event: &LoadEvent)
        ensures
            final(self)@ == advanced(old(self)@, *event),
    {
        match (self.stage, event) {
            (LoadStage::Vet, LoadEvent::Vetted(f)) => self.on_vetted(f),
            (LoadStage::Read, LoadEvent::ObjectRead(r)) => self.on_read(r),
            (LoadStage::Offsets, LoadEvent::Offsets(r)) => self.on_offsets(r),
            (LoadStage::Prepare, LoadEvent::Prepared(r)) => self.on_prepared(r),
            (LoadStage::ExitFormat, LoadEvent::ExitFormat(r)) => self.on_exit_format(r),
            (LoadStage::KernelBtf, LoadEvent::KernelBtf(r)) => self.on_kernel_btf(r),
            (LoadStage::ExecFormat, LoadEvent::ExecFormat(r)) => self.on_exec_format(r),
            (LoadStage::Load, LoadEvent::Loaded(r)) => self.on_loaded(r),
            (LoadStage::AttachExec, LoadEvent::Attached(r)) => self.on_exec_attached(r),
            (LoadStage::AttachExit, LoadEvent::Attached(r)) => self.on_exit_attached(r),
            (LoadStage::AttachDns, LoadEvent::Attached(r)) => self.on_dns_attached(r),
            (LoadStage::Enforce, LoadEvent::Enforced(r)) => self.on_enforced(r),
            (LoadStage::SockPids, LoadEvent::SockPids(r)) => self.on_sock_pids(r),
            (LoadStage::Counters, LoadEvent::Counters(r)) => self.on_counters(r),
            (LoadStage::Sweep, LoadEvent::Swept(r)) => self.on_swept(r),
            (LoadStage::Sink, LoadEvent::Sink(r)) => self.on_sink(r),
            (LoadStage::StartExec, LoadEvent::Started(r)) => self.on_exec_started(r),
            (LoadStage::StartExit, LoadEvent::Started(r)) => self.on_exit_started(r),
            (LoadStage::StartDeny, LoadEvent::Started(r)) => self.on_deny_started(r),
            (LoadStage::StartDns, LoadEvent::Started(r)) => self.on_dns_started(r),
            _ => {},
        }
    }
}

/// An object that is not there is missing, never untrusted, whoever chose it;
/// and no object that fails the check is loaded unless a human chose it.
pub proof fn a_missing_object_is_not_untrusted(s: Loading, f: Failure)
    ensures
        f.errno == Some(ENOENT) ==> {
            &&& vetted(s, Some(f)).stage == LoadStage::Failed
            &&& vetted(s, Some(f)).failure matches Some((d, _)) && d == Degrade::ObjectMissing
        },
        f.errno != Some(ENOENT) ==> {
            &&& vetted(s, Some(f)).stage == LoadStage::Read <==> s.trust == Trust::Warn
            &&& s.trust == Trust::Refuse ==> (vetted(s, Some(f)).failure matches Some((d, _)) && d
                == Degrade::ObjectUntrusted)
        },
{
    reveal(vetted);
}

/// Whether a step keeps the order of a load: the first reason stands, exec
/// records are trusted only with exit records, and only the object fails a load.
pub open spec fn in_order(s: Loading, t: Loading) -> bool {
    &&& s.report.degrade is Some ==> t.report.degrade == s.report.degrade
    &&& drains(t.stage) ==> (t.report.exec_tracking ==> t.report.exit_tracking)
    &&& t.stage == LoadStage::Failed ==> {
        &&& s.stage == LoadStage::Vet || s.stage == LoadStage::Read || s.stage == LoadStage::Load
        &&& t.failure is Some
    }
}

/// Whether a step comes after the programs are attached.
pub open spec fn drains(stage: LoadStage) -> bool {
    stage == LoadStage::StartExit || stage == LoadStage::StartDeny || stage == LoadStage::StartDns
        || stage == LoadStage::Done || stage == LoadStage::StartExec
}

proof fn lemma_vetted(s: Loading, r: Option<Failure>)
    requires
        s.stage == LoadStage::Vet,
    ensures
        in_order(s, vetted(s, r)),
{
    reveal(vetted);
}

proof fn lemma_object_read(s: Loading, r: ReadOutcome)
    requires
        s.stage == LoadStage::Read,
    ensures
        in_order(s, object_read(s, r)),
{
    reveal(object_read);
}

proof fn lemma_offsets_found(s: Loading, r: Result<TaskStructOffsets, String>)
    requires
        s.stage == LoadStage::Offsets,
    ensures
        in_order(s, offsets_found(s, r)),
{
    reveal(offsets_found);
}

proof fn lemma_prepared(s: Loading, r: Result<bool, String>)
    requires
        s.stage == LoadStage::Prepare,
    ensures
        in_order(s, prepared(s, r)),
{
    reveal(prepared);
}

proof fn lemma_exit_format(s: Loading, r: Result<Option<u32>, String>)
    requires
        s.stage == LoadStage::ExitFormat,
    ensures
        in_order(s, exit_format(s, r)),
{
    reveal(exit_format);
}

proof fn lemma_kernel_btf(s: Loading, r: Result<(), String>)
    requires
        s.stage == LoadStage::KernelBtf,
    ensures
        in_order(s, kernel_btf(s, r)),
{
    reveal(kernel_btf);
}

proof fn lemma_exec_format(s: Loading, r: Result<Resolution, String>)
    requires
        s.stage == LoadStage::ExecFormat,
    ensures
        in_order(s, exec_format(s, r)),
{
    reveal(exec_format);
}

proof fn lemma_object_loaded(s: Loading, r: Result<(), Failure>)
    requires
        s.stage == LoadStage::Load,
    ensures
        in_order(s, object_loaded(s, r)),
{
    reveal(object_loaded);
}

proof fn lemma_exec_attached(s: Loading, r: Result<Option<u32>, Failure>)
    requires
        s.stage == LoadStage::AttachExec,
    ensures
        in_order(s, exec_attached(s, r)),
{
    reveal(exec_attached);
}

proof fn lemma_exit_attached(s: Loading, r: Result<Option<u32>, Failure>)
    requires
        s.stage == LoadStage::AttachExit,
    ensures
        in_order(s, exit_attached(s, r)),
{
    reveal(exit_attached);
}

proof fn lemma_dns_attached(s: Loading, r: Result<Option<u32>, Failure>)
    requires
        s.stage == LoadStage::AttachDns,
    ensures
        in_order(s, dns_attached(s, r)),
{
    reveal(dns_attached);
}

proof fn lemma_enforced(s: Loading, r: Result<Vec<(String, Option<u32>)>, Failure>)
    requires
        s.stage == LoadStage::Enforce,
    ensures
        in_order(s, enforced(s, r)),
{
    reveal(enforced);
    if let Ok(v) = r {
        lemma_costs_blame_nobody(s.report, v@);
    }
}

proof fn lemma_sock_pids(s: Loading, r: Result<(), String>)
    requires
        s.stage == LoadStage::SockPids,
    ensures
        in_order(s, sock_pids(s, r)),
{
    reveal(sock_pids);
}

proof fn lemma_counters(s: Loading, r: Result<EnforceStats, String>)
    requires
        s.stage == LoadStage::Counters,
    ensures
        in_order(s, counters(s, r)),
{
    reveal(counters);
}

proof fn lemma_swept(s: Loading, r: SweepOutcome)
    requires
        s.stage == LoadStage::Sweep,
    ensures
        in_order(s, swept(s, r)),
{
    reveal(swept);
}

proof fn lemma_sink(s: Loading, r: Result<(), String>)
    requires
        s.stage == LoadStage::Sink,
    ensures
        in_order(s, sink(s, r)),
{
    reveal(sink);
}

proof fn lemma_exec_started(s: Loading, r: Result<(), String>)
    requires
        s.stage == LoadStage::StartExec,
        s.report.exec_tracking ==> s.report.exit_tracking,
    ensures
        in_order(s, exec_started(s, r)),
{
    reveal(exec_started);
}

proof fn lemma_exit_started(s: Loading, r: Result<(), String>)
    requires
        s.stage == LoadStage::StartExit,
        s.report.exec_tracking ==> s.report.exit_tracking,
    ensures
        in_order(s, exit_started(s, r)),
{
    reveal(exit_started);
}

proof fn lemma_deny_started(s: Loading, r: Result<(), String>)
    requires
        s.stage == LoadStage::StartDeny,
        s.report.exec_tracking ==> s.report.exit_tracking,
    ensures
        in_order(s, deny_started(s, r)),
{
    reveal(deny_started);
}

proof fn lemma_dns_started(s: Loading, r: Result<(), String>)
    requires
        s.stage == LoadStage::StartDns,
        s.report.exec_tracking ==> s.report.exit_tracking,
    ensures
        in_order(s, dns_started(s, r)),
{
    reveal(dns_started);
}

proof fn lemma_costs_blame_nobody(f: Findings, v: Seq<(String, Option<u32>)>)
    ensures
        costed_all(f, v).degrade == f.degrade,
    decreases v.len(),
{
    if v.len() > 0 {
        lemma_costs_blame_nobody(f, v.drop_last());
    }
}

/// Every step keeps the order of a load: what a load is blamed on does not
/// change; process identity from the kernel is never served without exit records
/// once the programs are attached; and only the object itself fails a load, a
/// program that cannot be attached leaves the rest running.
pub proof fn a_load_keeps_its_order(s: Loading, e: LoadEvent)
    requires
        drains(s.stage) ==> (s.report.exec_tracking ==> s.report.exit_tracking),
        s.stage != LoadStage::Failed,
    ensures
        in_order(s, advanced(s, e)),
{
    match (s.stage, e) {
        (LoadStage::Vet, LoadEvent::Vetted(r)) => {
            lemma_vetted(s, r);
        },
        (LoadStage::Read, LoadEvent::ObjectRead(r)) => {
            lemma_object_read(s, r);
        },
        (LoadStage::Offsets, LoadEvent::Offsets(r)) => {
            lemma_offsets_found(s, r);
        },
        (LoadStage::Prepare, LoadEvent::Prepared(r)) => {
            lemma_prepared(s, r);
        },
        (LoadStage::ExitFormat, LoadEvent::ExitFormat(r)) => {
            lemma_exit_format(s, r);
        },
        (LoadStage::KernelBtf, LoadEvent::KernelBtf(r)) => {
            lemma_kernel_btf(s, r);
        },
        (LoadStage::ExecFormat, LoadEvent::ExecFormat(r)) => {
            lemma_exec_format(s, r);
        },
        (LoadStage::Load, LoadEvent::Loaded(r)) => {
            lemma_object_loaded(s, r);
        },
        (LoadStage::AttachExec, LoadEvent::Attached(r)) => {
            lemma_exec_attached(s, r);
        },
        (LoadStage::AttachExit, LoadEvent::Attached(r)) => {
            lemma_exit_attached(s, r);
        },
        (LoadStage::AttachDns, LoadEvent::Attached(r)) => {
            lemma_dns_attached(s, r);
        },
        (LoadStage::Enforce, LoadEvent::Enforced(r)) => {
            lemma_enforced(s, r);
        },
        (LoadStage::SockPids, LoadEvent::SockPids(r)) => {
            lemma_sock_pids(s, r);
        },
        (LoadStage::Counters, LoadEvent::Counters(r)) => {
            lemma_counters(s, r);
        },
        (LoadStage::Sweep, LoadEvent::Swept(r)) => {
            lemma_swept(s, r);
        },
        (LoadStage::Sink, LoadEvent::Sink(r)) => {
            lemma_sink(s, r);
        },
        (LoadStage::StartExec, LoadEvent::Started(r)) => {
            lemma_exec_started(s, r);
        },
        (LoadStage::StartExit, LoadEvent::Started(r)) => {
            lemma_exit_started(s, r);
        },
        (LoadStage::StartDeny, LoadEvent::Started(r)) => {
            lemma_deny_started(s, r);
        },
        (LoadStage::StartDns, LoadEvent::Started(r)) => {
            lemma_dns_started(s, r);
        },
        _ => {},
    }
}

/// A field that cannot be read is switched off in the kernel as well: the report
/// never says that the filename is left out while the program still reads it.
pub proof fn a_suppressed_filename_reaches_the_kernel(s: Loading, r: Result<Resolution, String>)
    ensures
        exec_format(s, r).report.exec_offset == ExecOffset::Suppressed ==> exec_format(
            s,
            r,
        ).exec_off == Some(0u32),
        exec_format(s, r).report.exec_offset matches ExecOffset::Parsed(off) ==> exec_format(
            s,
            r,
        ).exec_off == Some(off),
{
    reveal(exec_format);
}

/// The file has to be root's, and written by neither its group nor others; a
/// directory above it likewise, unless it is sticky.
pub proof fn nobody_but_root_may_write(uid: u32, mode: u32)
    ensures
        safe_file(uid, mode) <==> uid == 0 && (mode / 16) % 2 == 0 && (mode / 2) % 2 == 0,
        safe_dir(uid, mode) <==> uid == 0 && (((mode / 16) % 2 == 0 && (mode / 2) % 2 == 0) || (mode
            / 512) % 2 == 1),
{
    assert((mode & 0o022 == 0) == ((mode / 16) % 2 == 0 && (mode / 2) % 2 == 0)) by (bit_vector);
    assert((mode & 0o1000 != 0) == ((mode / 512) % 2 == 1)) by (bit_vector);
}

/// An object passes the check if and only if it is a file, it is safe, and so is
/// every directory above it; the first directory that is not is the one named.
pub proof fn an_object_is_as_safe_as_its_path(file: Inode, dirs: Seq<Inode>, i: int)
    ensures
        object_fault(file, dirs) is None <==> {
            &&& file.regular
            &&& safe_file(file.uid, file.mode)
            &&& forall|k: int|
                0 <= k < dirs.len() ==> safe_dir((#[trigger] dirs[k]).uid, dirs[k].mode)
        },
        file.regular && safe_file(file.uid, file.mode) && 0 <= i < dirs.len() && !safe_dir(
            dirs[i].uid,
            dirs[i].mode,
        ) && (forall|k: int|
            0 <= k < i ==> safe_dir((#[trigger] dirs[k]).uid, dirs[k].mode)) ==> first_unsafe(
            dirs,
            0,
        ) == Some(i) && object_fault(file, dirs) == Some(
            file.path@ + " lies under "@ + dirs[i].path@ + ", which is uid "@ + decimal(
                dirs[i].uid as nat,
            ) + " mode "@ + shown_mode(dirs[i].mode) + "; a non-root user could replace the object"@,
        ),
{
    lemma_first_unsafe(dirs, 0);
    if 0 <= i < dirs.len() && !safe_dir(dirs[i].uid, dirs[i].mode) && (forall|k: int|
        0 <= k < i ==> safe_dir((#[trigger] dirs[k]).uid, dirs[k].mode)) {
        let j = first_unsafe(dirs, 0)->Some_0;
        if j < i {
            assert(safe_dir(dirs[j].uid, dirs[j].mode));
        }
    }
}

proof fn lemma_first_unsafe(dirs: Seq<Inode>, from: int)
    requires
        0 <= from <= dirs.len(),
    ensures
        first_unsafe(dirs, from) is None <==> forall|k: int|
            from <= k < dirs.len() ==> safe_dir((#[trigger] dirs[k]).uid, dirs[k].mode),
        first_unsafe(dirs, from) is Some ==> ({
            let j = first_unsafe(dirs, from)->Some_0;
            &&& from <= j < dirs.len()
            &&& !safe_dir(dirs[j].uid, dirs[j].mode)
            &&& forall|k: int| from <= k < j ==> safe_dir((#[trigger] dirs[k]).uid, dirs[k].mode)
        }),
    decreases dirs.len() - from,
{
    if from < dirs.len() && safe_dir(dirs[from].uid, dirs[from].mode) {
        lemma_first_unsafe(dirs, from + 1);
    }
}

/// An object that the kernel does not take is of another release if it lacks the
/// symbol, and otherwise not permitted, not supported, or neither, by the
/// system's number. A program that it does not take is a rejected one, unless
/// the number says that nothing was permitted or supported.
pub proof fn failures_are_told_apart(t: Seq<char>, n: i32)
    ensures
        contains(t, "CFC_ABI_VERSION"@) ==> load_reason(t, Some(n)) == Degrade::AbiMismatch
            && load_reason(t, None) == Degrade::AbiMismatch,
        !contains(t, "CFC_ABI_VERSION"@) ==> {
            &&& load_reason(t, None) == Degrade::Other
            &&& load_reason(t, Some(n)) == Degrade::NotPermitted <==> n == 1 || n == 13
            &&& load_reason(t, Some(n)) == Degrade::Unsupported <==> n == 22 || n == 38 || n == 95
            &&& load_reason(t, Some(n)) == Degrade::Other <==> n != 1 && n != 13 && n != 22 && n
                != 38 && n != 95
        },
        verify_degrade(Some(n)) == Degrade::NotPermitted <==> n == 1,
        verify_degrade(Some(n)) == Degrade::Unsupported <==> n == 38 || n == 95,
        verify_degrade(Some(n)) == Degrade::Rejected <==> n != 1 && n != 38 && n != 95,
        verify_degrade(None) == Degrade::Rejected,
{
}

/// A failure to attach the observer of DNS answers names whoever holds its place,
/// if somebody does, and the place in any case.
pub proof fn a_taken_place_is_called_taken(f: Failure, root: Seq<char>)
    ensures
        f.errno == Some(17i32) ==> dns_attach_fault(f, root)
            == "another program already holds the exclusive cgroup_skb/ingress slot on "@ + root
            + "; observed DNS answers are unavailable while it does: "@ + f.text@,
        f.errno != Some(17i32) ==> dns_attach_fault(f, root)
            == "attaching cgroup_skb/ingress to "@ + root + ": "@ + f.text@,
{
}

/// A record of an exec holds, least significant byte first, the pid, the
/// parent's, the user and the group; then the two names, and how much of the
/// path was written.
pub proof fn an_exec_record_holds_its_fields(b: Seq<u8>, e: ExecEvent)
    requires
        holds_exec(b, e),
        b.len() >= 292,
    ensures
        e.pid == b[0] + 0x100 * b[1] + 0x1_0000 * b[2] + 0x100_0000 * b[3],
        e.ppid == b[4] + 0x100 * b[5] + 0x1_0000 * b[6] + 0x100_0000 * b[7],
        e.uid == b[8] + 0x100 * b[9] + 0x1_0000 * b[10] + 0x100_0000 * b[11],
        e.gid == b[12] + 0x100 * b[13] + 0x1_0000 * b[14] + 0x100_0000 * b[15],
        e.comm@ == b.subrange(16, 32),
        e.filename@ == b.subrange(32, 288),
        e.filename_len == b[288] + 0x100 * b[289],
{
}

/// An attempt to attach is folded in: a success costs what it cost, if that is
/// known, and a failure is noted, with the reason that is kept if there is none
/// yet.
pub proof fn an_attempt_is_recorded(
    f: Findings,
    program: Seq<char>,
    what: Seq<char>,
    insns: u32,
    e: Failure,
)
    ensures
        attach_recorded(f, program, what, Ok(None)) == f,
        ({
            let a = attach_recorded(f, program, what, Ok(Some(insns)));
            &&& a.verified_insns == f.verified_insns.push((program, insns))
            &&& a.notes == f.notes && a.degrade == f.degrade
            &&& a.exec_tracking == f.exec_tracking && a.exit_tracking == f.exit_tracking
            &&& a.dns_capture == f.dns_capture && a.enforcement == f.enforcement
        }),
        ({
            let a = attach_recorded(f, program, what, Err(e));
            &&& a.verified_insns == f.verified_insns
            &&& a.notes == f.notes.push(what + " not attached: "@ + e.text@)
            &&& f.degrade is Some ==> a.degrade == f.degrade
            &&& f.degrade is None ==> a.degrade == Some(verify_degrade(e.errno))
            &&& a.exec_tracking == f.exec_tracking && a.exit_tracking == f.exit_tracking
            &&& a.dns_capture == f.dns_capture && a.enforcement == f.enforcement
        }),
{
}

/// What no step of a load changes, and what only the first steps do.
pub open spec fn same_load(s: Loading, t: Loading) -> bool {
    &&& t.object == s.object && t.trust == s.trust && t.has_engine == s.has_engine
    &&& t.report.mode == s.report.mode && t.report.compiled_in == s.report.compiled_in
}

/// What only the first steps of a load change.
pub open spec fn same_finds(s: Loading, t: Loading) -> bool {
    &&& same_load(s, t)
    &&& t.pinning == s.pinning && t.inherited == s.inherited && t.offsets == s.offsets
    &&& t.group_dead_off == s.group_dead_off && t.exec_off == s.exec_off
    &&& t.failure == s.failure
}

/// An object that passes, or fails with a human's word behind it, is read; one
/// that is not there, or fails without that word, ends the load, each with its
/// own reason.
pub proof fn vetting_ends_or_goes_on(s: Loading, f: Failure)
    ensures
        ({
            let t = vetted(s, None);
            t.stage == LoadStage::Read && t.report == s.report && t.failure == s.failure && t.object
                == s.object
        }),
        ({
            let t = vetted(s, Some(f));
            let gone = f.errno == Some(2i32);
            &&& gone ==> t.stage == LoadStage::Failed && t.failure is Some && t.failure->Some_0.0
                == Degrade::ObjectMissing
            &&& !gone && s.trust == Trust::Refuse ==> t.stage == LoadStage::Failed && t.failure
                == Some((Degrade::ObjectUntrusted, f.text@))
            &&& !gone && s.trust == Trust::Warn ==> t.stage == LoadStage::Read && t.failure
                == s.failure && t.report.notes == s.report.notes.push(
                "BPF object failed its ownership check: "@ + f.text@,
            )
        }),
{
    reveal(vetted);
}

/// An object that was read is loaded on; one that is missing by now, or cannot be
/// read, ends the load, each with its own reason.
pub proof fn reading_ends_or_goes_on(s: Loading, e: String)
    ensures
        object_read(s, ReadOutcome::Read).stage == LoadStage::Offsets,
        object_read(s, ReadOutcome::Read).report == s.report,
        object_read(s, ReadOutcome::NotFound(e)).stage == LoadStage::Failed,
        object_read(s, ReadOutcome::NotFound(e)).failure is Some,
        object_read(s, ReadOutcome::NotFound(e)).failure->Some_0.0 == Degrade::ObjectMissing,
        object_read(s, ReadOutcome::Failed(e)).stage == LoadStage::Failed,
        object_read(s, ReadOutcome::Failed(e)).failure is Some,
        object_read(s, ReadOutcome::Failed(e)).failure->Some_0.0 == Degrade::ObjectUnreadable,
{
    reveal(object_read);
}

/// Offsets are used if both were found, and said to be; otherwise none is, and a
/// note says so. The load goes on either way.
pub proof fn offsets_are_used_together_or_not(s: Loading, r: Result<TaskStructOffsets, String>)
    ensures
        ({
            let t = offsets_found(s, r);
            let both = r is Ok && r->Ok_0.real_parent != 0 && r->Ok_0.tgid != 0;
            &&& t.stage == LoadStage::Prepare
            &&& same_load(s, t)
            &&& t.report.ppid_offsets == both
            &&& both ==> t.offsets == Some((r->Ok_0.real_parent, r->Ok_0.tgid)) && t.report.notes
                == s.report.notes
            &&& !both ==> t.offsets is None && t.report.notes.len() == s.report.notes.len() + 1
            &&& t.failure == s.failure && t.report.degrade == s.report.degrade
        }),
{
    reveal(offsets_found);
}

/// Pins are made where they can be, and those of a previous daemon are taken
/// over; where they cannot, a note says so and the load goes on without.
pub proof fn pins_are_made_where_they_can_be(s: Loading, r: Result<bool, String>)
    ensures
        ({
            let t = prepared(s, r);
            &&& t.stage == LoadStage::ExitFormat
            &&& same_load(s, t)
            &&& t.pinning == (r is Ok)
            &&& t.inherited == (r is Ok && r->Ok_0)
            &&& r is Ok ==> t.report == s.report
            &&& r is Err ==> t.report.notes.len() == s.report.notes.len() + 1
            &&& t.offsets == s.offsets && t.failure == s.failure
        }),
{
    reveal(prepared);
}

/// An offset that was found in the exit record is used, and none is guessed.
pub proof fn an_exit_offset_is_never_guessed(s: Loading, off: u32, e: String)
    ensures
        ({
            let t = exit_format(s, Ok(Some(off)));
            t.stage == LoadStage::KernelBtf && t.group_dead_off == off && t.report == s.report
        }),
        ({
            let t = exit_format(s, Ok(None));
            &&& t.stage == LoadStage::KernelBtf && t.group_dead_off == 0xffff_ffff
            &&& t.report.notes == s.report.notes.push(LEADER_ONLY@)
        }),
        ({
            let t = exit_format(s, Err(e));
            t.stage == LoadStage::KernelBtf && t.group_dead_off == 0xffff_ffff && t.report
                == s.report
        }),
{
    reveal(exit_format);
}

/// Without type information the load goes on, and a note says so.
pub proof fn type_information_is_a_convenience(s: Loading, r: Result<(), String>)
    ensures
        kernel_btf(s, r).stage == LoadStage::ExecFormat,
        same_finds(s, kernel_btf(s, r)),
        r is Ok ==> kernel_btf(s, r).report == s.report,
        r is Err ==> kernel_btf(s, r).report.notes.len() == s.report.notes.len() + 1,
{
    reveal(kernel_btf);
}

/// The filename is read where the format says, from nowhere if it is in a form
/// that cannot be read, and where it usually is if there is no format; a note
/// says so where it is not the usual place.
pub proof fn a_filename_is_read_where_the_format_says(s: Loading, off: u32, e: String)
    ensures
        ({
            let t = exec_format(s, Ok(Resolution::Parsed(off)));
            &&& t.stage == LoadStage::Load && t.exec_off == Some(off)
            &&& t.report.exec_offset == ExecOffset::Parsed(off)
            &&& off == 8 ==> t.report.notes == s.report.notes
            &&& off != 8 ==> t.report.notes.len() == s.report.notes.len() + 1
        }),
        ({
            let t = exec_format(s, Ok(Resolution::Unsupported));
            &&& t.stage == LoadStage::Load && t.exec_off == Some(0u32)
            &&& t.report.exec_offset == ExecOffset::Suppressed
            &&& t.report.notes == s.report.notes.push(NO_FILENAME@)
        }),
        ({
            let t = exec_format(s, Err(e));
            &&& t.stage == LoadStage::Load && t.exec_off is None
            &&& t.report.exec_offset == ExecOffset::Default
            &&& t.report.notes == s.report.notes
        }),
{
    reveal(exec_format);
}

/// An object that the kernel took has its programs attached; one that it did not
/// ends the load, with the reason that the failure gives.
pub proof fn a_refused_object_ends_the_load(s: Loading, f: Failure)
    ensures
        object_loaded(s, Ok(())).stage == LoadStage::AttachExec,
        object_loaded(s, Ok(())).report == s.report,
        object_loaded(s, Err(f)).stage == LoadStage::Failed,
        object_loaded(s, Err(f)).failure == Some(
            (
                load_reason(load_fault(s.object, f.text@), f.errno),
                load_fault(s.object, f.text@),
            ),
        ),
        load_fault(s.object, f.text@) == "loading "@ + s.object + NEEDS_CAPS@ + f.text@,
{
    reveal(object_loaded);
}

/// Each observing program is attached for itself: what it tracks is tracked if
/// it was attached, and the load goes on to the next in any case.
pub proof fn observers_are_attached_one_by_one(s: Loading, r: Result<Option<u32>, Failure>)
    ensures
        ({
            let t = exec_attached(s, r);
            &&& t.stage == LoadStage::AttachExit && same_finds(s, t)
            &&& t.report.exec_tracking == (r is Ok)
            &&& t.report.exit_tracking == s.report.exit_tracking
            &&& t.report.dns_capture == s.report.dns_capture
            &&& r is Err ==> t.report.notes.len() == s.report.notes.len() + 1
                && t.report.degrade is Some
            &&& r is Ok ==> t.report.notes == s.report.notes && t.report.degrade
                == s.report.degrade
        }),
        ({
            let t = exit_attached(s, r);
            &&& t.stage == LoadStage::AttachDns && same_finds(s, t)
            &&& t.report.exit_tracking == (r is Ok)
            &&& t.report.exec_tracking == s.report.exec_tracking
            &&& t.report.dns_capture == s.report.dns_capture
            &&& r is Err ==> t.report.notes.len() == s.report.notes.len() + 1
                && t.report.degrade is Some
            &&& r is Ok ==> t.report.notes == s.report.notes && t.report.degrade
                == s.report.degrade
        }),
        ({
            let t = dns_attached(s, r);
            &&& same_finds(s, t)
            &&& t.report.dns_capture == (r is Ok)
            &&& t.report.exec_tracking == s.report.exec_tracking
            &&& t.report.exit_tracking == s.report.exit_tracking
            &&& r is Err ==> t.report.degrade is Some
            &&& r is Ok ==> t.report.degrade == s.report.degrade
            &&& s.inherited ==> t.stage == LoadStage::SockPids && t.report.enforcement
                == Enforcement::Inherited
            &&& !s.inherited ==> t.stage == LoadStage::Enforce && t.report.enforcement
                == s.report.enforcement
        }),
{
    reveal(exec_attached);
    reveal(exit_attached);
    reveal(dns_attached);
}

/// Enforcement that was attached outlives the daemon if it was pinned, and not
/// otherwise; if it was not attached it is unavailable, for a reason, and what
/// observes goes on.
pub proof fn enforcement_is_pinned_where_pins_can_be(
    s: Loading,
    v: Vec<(String, Option<u32>)>,
    f: Failure,
)
    ensures
        ({
            let t = enforced(s, Ok(v));
            &&& t.stage == LoadStage::SockPids && same_finds(s, t)
            &&& s.pinning ==> t.report.enforcement == Enforcement::Pinned
            &&& !s.pinning ==> t.report.enforcement == Enforcement::Process
            &&& t.report.notes == s.report.notes && t.report.degrade == s.report.degrade
            &&& t.report.exec_tracking == s.report.exec_tracking && t.report.exit_tracking
                == s.report.exit_tracking && t.report.dns_capture == s.report.dns_capture
        }),
        ({
            let t = enforced(s, Err(f));
            &&& same_finds(s, t) && drains(t.stage)
            &&& t.report.enforcement == Enforcement::Unavailable
            &&& t.report.degrade is Some
            &&& t.report.notes.len() > s.report.notes.len()
            &&& t.report.dns_capture == s.report.dns_capture && t.report.exit_tracking
                == s.report.exit_tracking
        }),
{
    reveal(enforced);
    lemma_costs_only_add_costs(s.report, v@);
}

proof fn lemma_costs_only_add_costs(f: Findings, v: Seq<(String, Option<u32>)>)
    ensures
        costed_all(f, v) == (Findings {
            verified_insns: costed_all(f, v).verified_insns,
            ..f
        }),
    decreases v.len(),
{
    if v.len() > 0 {
        lemma_costs_only_add_costs(f, v.drop_last());
    }
}

/// The cost of each program that was attached is kept where it is known, in
/// their order.
pub proof fn known_costs_are_kept(f: Findings, v: Seq<(String, Option<u32>)>, p: String, n: u32)
    ensures
        costed_all(f, Seq::empty()) == f,
        costed_all(f, v.push((p, Some(n)))).verified_insns == costed_all(
            f,
            v,
        ).verified_insns.push((p@, n)),
        costed_all(f, v.push((p, None))) == costed_all(f, v),
{
    assert(v.push((p, Some(n))).drop_last() =~= v);
    assert(v.push((p, None::<u32>)).drop_last() =~= v);
}

/// Process identity from the kernel needs exits as well as execs: without exits
/// it is given up, with a note; everything else stays.
pub proof fn execs_are_worth_nothing_without_exits(f: Findings)
    ensures
        f.exec_tracking && !f.exit_tracking ==> !settled(f).exec_tracking && settled(f).notes
            == f.notes.push(EXIT_NEEDED@) && settled(f).enforcement == f.enforcement && settled(
            f,
        ).dns_capture == f.dns_capture,
        !f.exec_tracking || f.exit_tracking ==> settled(f) == f,
{
}

/// What is attached is drained, and nothing else: execs first, then exits, the
/// refusals while enforcement is up, and the DNS answers.
pub proof fn what_is_attached_is_drained(s: Loading)
    ensures
        ({
            let t = to_consumers(s);
            let live = s.report.enforcement == Enforcement::Process || s.report.enforcement
                == Enforcement::Pinned || s.report.enforcement == Enforcement::Inherited;
            let both = s.report.exec_tracking && s.report.exit_tracking;
            &&& t.report.exec_tracking == both
            &&& both ==> t.stage == LoadStage::StartExec
            &&& !both && live ==> t.stage == LoadStage::StartDeny
            &&& !both && !live && s.report.dns_capture ==> t.stage == LoadStage::StartDns
            &&& !both && !live && !s.report.dns_capture ==> t.stage == LoadStage::Done
        }),
        draining(s.report, false) == (if s.report.dns_capture {
            LoadStage::StartDns
        } else {
            LoadStage::Done
        }),
{
}

/// Attribution by socket, the counters and the sweep are each tried, and a note
/// says where one did not work; counters above zero are what a previous
/// daemon's programs did, and said to be.
pub proof fn what_does_not_work_is_noted(
    s: Loading,
    r: Result<(), String>,
    c: Result<EnforceStats, String>,
    w: SweepOutcome,
)
    ensures
        sock_pids(s, r).stage == LoadStage::Counters && same_finds(s, sock_pids(s, r)),
        r is Ok ==> sock_pids(s, r).report == s.report,
        r is Err ==> sock_pids(s, r).report.notes == s.report.notes.push(
            "SOCK_PIDS unusable: "@ + r->Err_0@,
        ),
        counters(s, c).stage == LoadStage::Sweep && same_finds(s, counters(s, c)),
        c is Err ==> counters(s, c).report.notes == s.report.notes.push(
            "enforcement counters unreadable: "@ + c->Err_0@,
        ),
        c is Ok && c->Ok_0.denied == 0 && c->Ok_0.allowed == 0 && c->Ok_0.unknown == 0 ==> counters(
            s,
            c,
        ).report == s.report,
        c is Ok && (c->Ok_0.denied > 0 || c->Ok_0.allowed > 0 || c->Ok_0.unknown > 0) ==> counters(
            s,
            c,
        ).report.notes == s.report.notes.push(
            "in-kernel enforcement carried over: "@ + decimal(c->Ok_0.denied as nat)
                + " connect() refused, "@ + decimal(c->Ok_0.allowed as nat) + " allowed, "@
                + decimal(c->Ok_0.unknown as nat)
                + " passed to the packet path since the pins were made"@,
        ),
        s.has_engine ==> swept(s, w).stage == LoadStage::Sink && same_finds(s, swept(s, w)),
        s.has_engine && w is Swept ==> swept(s, w).report == s.report,
        s.has_engine && w is NoMap ==> swept(s, w).report.notes == s.report.notes.push(
            NO_VERDICTS@,
        ),
        s.has_engine && w is NotAMap ==> swept(s, w).report.notes == s.report.notes.push(
            "VERDICTS is not a hash map: "@ + w->NotAMap_0@,
        ),
        !s.has_engine ==> drains(swept(s, w).stage),
{
    reveal(sock_pids);
    reveal(counters);
    reveal(swept);
}

/// Without the maps for verdicts everything else goes on, with a note.
pub proof fn verdicts_that_cannot_be_written_are_noted(s: Loading, e: String)
    ensures
        sink(s, Ok(())) == to_consumers(s),
        sink(s, Err(e)).stage == to_consumers(s).stage,
        sink(s, Err(e)).report.notes.len() == to_consumers(s).report.notes.len() + 1,
        sink(s, Err(e)).report.enforcement == s.report.enforcement,
        sink(s, Err(e)).report.dns_capture == s.report.dns_capture,
{
    reveal(sink);
}

/// A stream that cannot be drained is given up, with a note: execs alone, exits
/// with the execs that need them, and DNS answers alone; refusals that cannot
/// be reported are refused all the same.
pub proof fn a_stream_that_is_not_drained_is_given_up(s: Loading, e: String)
    ensures
        ({
            let t = exec_started(s, Err(e));
            &&& !t.report.exec_tracking && t.report.exit_tracking == s.report.exit_tracking
            &&& t.report.notes == s.report.notes.push("EXEC_EVENTS consumer not started: "@ + e@)
            &&& t.stage == draining(s.report, true)
        }),
        ({
            let t = exit_started(s, Err(e));
            &&& !t.report.exec_tracking && !t.report.exit_tracking
            &&& t.report.notes == s.report.notes.push("EXIT_EVENTS consumer not started: "@ + e@)
            &&& t.stage == draining(s.report, true)
        }),
        ({
            let t = deny_started(s, Err(e));
            &&& t.report.enforcement == s.report.enforcement
            &&& t.report.notes.len() == s.report.notes.len() + 1
            &&& t.stage == draining(s.report, false)
        }),
        ({
            let t = dns_started(s, Err(e));
            &&& !t.report.dns_capture && t.stage == LoadStage::Done
            &&& t.report.notes == s.report.notes.push("DNS_PACKETS consumer not started: "@ + e@)
            &&& t.report.exec_tracking == s.report.exec_tracking
        }),
        ({
            let t = exec_started(s, Ok(()));
            &&& t.report == s.report
            &&& s.report.exit_tracking ==> t.stage == LoadStage::StartExit
            &&& !s.report.exit_tracking ==> t.stage == draining(s.report, true)
        }),
        exit_started(s, Ok(())).report == s.report,
        exit_started(s, Ok(())).stage == draining(s.report, true),
        deny_started(s, Ok(())).report == s.report,
        deny_started(s, Ok(())).stage == draining(s.report, false),
        dns_started(s, Ok(())).report == s.report,
        dns_started(s, Ok(())).stage == LoadStage::Done,
{
    reveal(exec_started);
    reveal(exit_started);
    reveal(deny_started);
    reveal(dns_started);
    assert("EXEC_EVENTS"@ + " consumer not started: "@ =~= "EXEC_EVENTS consumer not started: "@)
        by {
        reveal_strlit("EXEC_EVENTS");
        reveal_strlit(" consumer not started: ");
        reveal_strlit("EXEC_EVENTS consumer not started: ");
    }
    assert("EXIT_EVENTS"@ + " consumer not started: "@ =~= "EXIT_EVENTS consumer not started: "@)
        by {
        reveal_strlit("EXIT_EVENTS");
        reveal_strlit(" consumer not started: ");
        reveal_strlit("EXIT_EVENTS consumer not started: ");
    }
    assert("DNS_PACKETS"@ + " consumer not started: "@ =~= "DNS_PACKETS consumer not started: "@)
        by {
        reveal_strlit("DNS_PACKETS");
        reveal_strlit(" consumer not started: ");
        reveal_strlit("DNS_PACKETS consumer not started: ");
    }
}

/// An event that is not of the step changes nothing, and a load that is over
/// stays as it is.
pub proof fn a_load_takes_only_what_it_waits_for(s: Loading, e: LoadEvent)
    ensures
        s.stage == LoadStage::Done || s.stage == LoadStage::Failed ==> advanced(s, e) == s,
        s.stage == LoadStage::Vet && !(e is Vetted) ==> advanced(s, e) == s,
        s.stage == LoadStage::Read && !(e is ObjectRead) ==> advanced(s, e) == s,
        s.stage == LoadStage::Load && !(e is Loaded) ==> advanced(s, e) == s,
        s.stage == LoadStage::Enforce && !(e is Enforced) ==> advanced(s, e) == s,
        s.stage == LoadStage::Vet && e is Vetted ==> advanced(s, e) == vetted(s, e->Vetted_0),
        s.stage == LoadStage::Read && e is ObjectRead ==> advanced(s, e) == object_read(
            s,
            e->ObjectRead_0,
        ),
        s.stage == LoadStage::Load && e is Loaded ==> advanced(s, e) == object_loaded(
            s,
            e->Loaded_0,
        ),
        s.stage == LoadStage::AttachExec && e is Attached ==> advanced(s, e) == exec_attached(
            s,
            e->Attached_0,
        ),
        s.stage == LoadStage::AttachExit && e is Attached ==> advanced(s, e) == exit_attached(
            s,
            e->Attached_0,
        ),
        s.stage == LoadStage::AttachDns && e is Attached ==> advanced(s, e) == dns_attached(
            s,
            e->Attached_0,
        ),
        s.stage == LoadStage::Enforce && e is Enforced ==> advanced(s, e) == enforced(
            s,
            e->Enforced_0,
        ),
        s.stage == LoadStage::StartExec && e is Started ==> advanced(s, e) == exec_started(
            s,
            e->Started_0,
        ),
        s.stage == LoadStage::StartExit && e is Started ==> advanced(s, e) == exit_started(
            s,
            e->Started_0,
        ),
        s.stage == LoadStage::StartDeny && e is Started ==> advanced(s, e) == deny_started(
            s,
            e->Started_0,
        ),
        s.stage == LoadStage::StartDns && e is Started ==> advanced(s, e) == dns_started(
            s,
            e->Started_0,
        ),
{
}

/// The notes of a load say what was found.
pub proof fn notes_say_what_was_found(o: TaskStructOffsets, e: Seq<char>, off: u32)
    ensures
        unusable_offsets(o)
            == "kernel BTF has no usable task_struct offsets ("@ + ("TaskStructOffsets { real_parent: "@
            + decimal(o.real_parent as nat) + ", tgid: "@ + decimal(o.tgid as nat) + " }"@) + ")"@
            + "; exec events will report ppid 0"@,
        no_offsets(e) == "could not resolve task_struct offsets from "@
            + "/sys/kernel/btf/vmlinux"@ + ": "@ + e + "; exec events will report ppid 0"@,
        unusual_offset(off) == "sched_process_exec filename offset is "@ + decimal(off as nat)
            + ", not the usual 8"@,
        pin_place() == "/sys/fs/bpf"@ + "/"@ + "colony-firewall"@ + "/"@ + version_name(
            ABI_VERSION as nat,
        ),
{
}

/// A process that was seen starting is known by what the kernel saw: its own
/// number, its user and group, the one who started it unless there is none, and
/// the path it runs.
pub proof fn a_start_shows_who_and_what(e: ExecEvent, p: Process)
    requires
        seen_starting(e, p),
    ensures
        p.pid == e.pid,
        p.uid == Some(e.uid),
        p.gid == Some(e.gid),
        p.ppid == Some(e.ppid) <==> e.ppid != 0,
        p.ppid is None <==> e.ppid == 0,
        p.exe@ == crate::outside::lossy_text(e.path_bytes()),
        p.sha256 is None && p.parent_exe is None && p.cwd is None && p.package is None,
        p.cmdline@.len() == 0,
        p.provenance is Unknown,
{
}

/// A message that was written into a record is read back from it, whatever
/// stands behind it; the length comes first, its lower byte before its upper
/// one, and the room is 512 bytes.
pub proof fn a_told_message_reads_back(m: Seq<u8>, lo: u8, hi: u8, rest: Seq<u8>)
    requires
        lo + 256 * hi == m.len() <= 512,
        m.len() + rest.len() >= 512,
    ensures
        told(seq![lo, hi] + m + rest) == Some(m),
{
    let b = seq![lo, hi] + m + rest;
    assert(b[0] == lo && b[1] == hi);
    assert(b.subrange(2, 2int + m.len()) =~= m);
}

/// A record without room for 512 bytes tells nothing, and one that claims more
/// than there is room for tells all of the room.
pub proof fn a_told_message_keeps_to_its_room(b: Seq<u8>)
    ensures
        b.len() < 514 <==> told(b) is None,
        b.len() >= 514 && b[0] + 256 * b[1] > 512 ==> told(b) == Some(b.subrange(2, 514)),
{
}

/// The number of the process that ended, or was refused, is read back from its
/// four bytes, the lowest first.
pub proof fn a_recorded_pid_reads_back(a: u8, b: u8, c: u8, d: u8, rest: Seq<u8>, s: Seq<u8>)
    ensures
        pid_at_start(seq![a, b, c, d] + rest) == Some(
            a + 256 * b + 65536 * c + 16777216 * d,
        ),
        s.len() < 4 ==> pid_at_start(s) is None,
{
    let t = seq![a, b, c, d] + rest;
    assert(t[0] == a && t[1] == b && t[2] == c && t[3] == d);
}

} // verus!
