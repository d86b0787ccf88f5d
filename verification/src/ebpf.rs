//! The kernel-side layer: what was brought up, what it can be trusted for,
//! and how loudly to say so.

pub mod btf;
pub mod cgroup;
pub mod enforce;
pub mod loader;
pub mod nft_set;
pub mod proc_table;
pub mod tracefs;

use crate::config::{EbpfConfig, EbpfMode};
use crate::ebpf::proc_table::KernelProcTable;
use crate::text::{decimal, push_decimal, text, texts};
use vstd::prelude::*;
use vstd::string::StringExecFns;

verus! {

/// How loudly a note is said.
#[derive(Debug, Clone, Copy, PartialEq, Eq, Structural)]
pub enum NoteLevel {
    Debug,
    Info,
    Warn,
    Error,
}

/// Where the object is looked for unless configured otherwise.
pub const DEFAULT_OBJECT_PATH: &'static str = "/usr/lib/colony-firewall/cfc-ebpf.o";

/// How far ahead the daemon pushes the deadline of its grants.
pub const DEADLINE_SECS: u64 = 60;

/// Why the layer did not come up, or not all of it.
#[derive(Debug, Clone, Copy, PartialEq, Eq, Structural)]
#[non_exhaustive]
pub enum Degrade {
    ObjectMissing,
    ObjectUnreadable,
    ObjectUntrusted,
    NotPermitted,
    Unsupported,
    AbiMismatch,
    Rejected,
    Other,
}

impl Degrade {
    /// The token for logs.
    pub open spec fn token(self) -> Seq<char> {
        match self {
            Degrade::ObjectMissing => "object_missing"@,
            Degrade::ObjectUnreadable => "object_unreadable"@,
            Degrade::ObjectUntrusted => "object_untrusted"@,
            Degrade::AbiMismatch => "abi_mismatch"@,
            Degrade::NotPermitted => "not_permitted"@,
            Degrade::Unsupported => "unsupported"@,
            Degrade::Rejected => "verifier_rejected"@,
            Degrade::Other => "other"@,
        }
    }

    /// A stable token for logs.
    pub fn as_str(self) -> (r: &'static str)
        ensures
            r@ == self.token(),
    {
        match self {
            Degrade::ObjectMissing => "object_missing",
            Degrade::ObjectUnreadable => "object_unreadable",
            Degrade::ObjectUntrusted => "object_untrusted",
            Degrade::AbiMismatch => "abi_mismatch",
            Degrade::NotPermitted => "not_permitted",
            Degrade::Unsupported => "unsupported",
            Degrade::Rejected => "verifier_rejected",
            Degrade::Other => "other",
        }
    }
}

/// Where the exec record's `filename` was taken to be.
#[derive(Debug, Clone, Copy, PartialEq, Eq, Structural)]
pub enum ExecOffset {
    /// Read from the tracepoint's format file.
    Parsed(u32),
    /// The format file could not be read; the built-in offset stands.
    Default,
    /// The field cannot be read; the program was told to skip it.
    Suppressed,
}

/// How much of the observing half is up.
#[derive(Debug, Clone, Copy, PartialEq, Eq, Structural)]
pub enum Ring0 {
    Off,
    Unavailable,
    Partial,
    Active,
}

impl Ring0 {
    /// A stable token for logs.
    pub fn as_str(self) -> (r: &'static str)
        ensures
            r@ == match self {
                Ring0::Off => "off"@,
                Ring0::Unavailable => "unavailable"@,
                Ring0::Partial => "partial"@,
                Ring0::Active => "active"@,
            },
    {
        match self {
            Ring0::Off => "off",
            Ring0::Unavailable => "unavailable",
            Ring0::Partial => "partial",
            Ring0::Active => "active",
        }
    }
}

/// Where in-kernel enforcement lives.
#[derive(Debug, Clone, Copy, PartialEq, Eq, Structural)]
pub enum Enforcement {
    Off,
    Unavailable,
    /// Attached, and gone when this process is.
    Process,
    /// Attached and pinned.
    Pinned,
    /// Pinned by a previous daemon and taken over.
    Inherited,
}

impl Enforcement {
    /// Whether `connect()` is being refused in the kernel.
    pub open spec fn live(self) -> bool {
        self == Enforcement::Process || self == Enforcement::Pinned || self
            == Enforcement::Inherited
    }

    /// The byte a level travels as.
    pub open spec fn byte(self) -> u8 {
        match self {
            Enforcement::Off => 0,
            Enforcement::Unavailable => 1,
            Enforcement::Process => 2,
            Enforcement::Pinned => 3,
            Enforcement::Inherited => 4,
        }
    }

    /// The token a level goes by.
    pub open spec fn token(self) -> Seq<char> {
        match self {
            Enforcement::Off => "off"@,
            Enforcement::Unavailable => "unavailable"@,
            Enforcement::Process => "process"@,
            Enforcement::Pinned => "pinned"@,
            Enforcement::Inherited => "inherited"@,
        }
    }

    /// Whether refusals at this level go on without the daemon.
    pub open spec fn outlasts(self) -> bool {
        self == Enforcement::Pinned || self == Enforcement::Inherited
    }

    /// A stable token for logs.
    pub fn as_str(self) -> (r: &'static str)
        ensures
            r@ == match self {
                Enforcement::Off => "off"@,
                Enforcement::Unavailable => "unavailable"@,
                Enforcement::Process => "process"@,
                Enforcement::Pinned => "pinned"@,
                Enforcement::Inherited => "inherited"@,
            },
            r@ == self.token(),
    {
        match self {
            Enforcement::Off => "off",
            Enforcement::Unavailable => "unavailable",
            Enforcement::Process => "process",
            Enforcement::Pinned => "pinned",
            Enforcement::Inherited => "inherited",
        }
    }

    /// Whether `connect()` is being refused in the kernel.
    pub fn is_live(self) -> (r: bool)
        ensures
            r == self.live(),
    {
        match self {
            Enforcement::Process | Enforcement::Pinned | Enforcement::Inherited => true,
            _ => false,
        }
    }

    /// Whether refusals go on after this process is gone.
    pub fn survives_daemon(self) -> (r: bool)
        ensures
            r == (self == Enforcement::Pinned || self == Enforcement::Inherited),
            r == self.outlasts(),
    {
        match self {
            Enforcement::Pinned | Enforcement::Inherited => true,
            _ => false,
        }
    }

    /// The level a byte stands for.
    pub fn from_u8(v: u8) -> (r: Enforcement)
        ensures
            v <= 4 ==> r.byte() == v,
            v > 4 ==> r == Enforcement::Off,
    {
        match v {
            1 => Enforcement::Unavailable,
            2 => Enforcement::Process,
            3 => Enforcement::Pinned,
            4 => Enforcement::Inherited,
            _ => Enforcement::Off,
        }
    }

    /// The byte a level travels as.
    pub fn as_u8(self) -> (r: u8)
        ensures
            r == self.byte(),
    {
        match self {
            Enforcement::Off => 0,
            Enforcement::Unavailable => 1,
            Enforcement::Process => 2,
            Enforcement::Pinned => 3,
            Enforcement::Inherited => 4,
        }
    }
}

/// The byte for "nothing has answered yet".
pub const LEVEL_UNKNOWN: u8 = 255;

/// Every level is told apart by its byte, and none is "not known yet".
pub proof fn levels_have_their_own_bytes(a: Enforcement, b: Enforcement)
    ensures
        a.byte() == b.byte() ==> a == b,
        a.byte() != LEVEL_UNKNOWN,
{
}

/// Whether allows go ahead of the packet path.
#[derive(Debug, PartialEq, Eq)]
pub enum FastAllow {
    /// They do, and stop within this long of the daemon falling silent.
    Live { deadline_secs: u64 },
    /// They do not, for this reason.
    Off(String),
}

impl Clone for FastAllow {
    fn clone(&self) -> (r: Self)
        ensures
            r == *self,
    {
        match self {
            FastAllow::Live { deadline_secs } => FastAllow::Live { deadline_secs: *deadline_secs },
            FastAllow::Off(why) => FastAllow::Off(why.clone()),
        }
    }
}

impl FastAllow {
    /// The state in words.
    pub open spec fn words(&self) -> Seq<char> {
        match *self {
            FastAllow::Live { deadline_secs } => if deadline_secs == DEADLINE_SECS {
                "live"@
            } else {
                "live, grants lapse within "@ + decimal(deadline_secs as nat) + "s"@
            },
            FastAllow::Off(why) => "off: "@ + why@,
        }
    }

    /// The state in words.
    pub fn describe(&self) -> (r: String)
        ensures
            r@ == self.words(),
    {
        match self {
            FastAllow::Live { deadline_secs } => {
                if *deadline_secs == DEADLINE_SECS {
                    return text("live");
                }
                let mut s = text("live, grants lapse within ");
                push_decimal(&mut s, *deadline_secs);
                s.append("s");
                s
            },
            FastAllow::Off(why) => {
                let mut s = text("off: ");
                s.append(why.as_str());
                s
            },
        }
    }
}

/// What the status command reads: where enforcement lives and whether allows
/// go ahead of the packet path, each once something has said so.
pub struct Levels {
    enforcement: u8,
    fast_allow: Option<FastAllow>,
}

impl Levels {
    /// Where enforcement lives, once known.
    pub closed spec fn enforcement(&self) -> Option<Enforcement> {
        match self.enforcement {
            0 => Some(Enforcement::Off),
            1 => Some(Enforcement::Unavailable),
            2 => Some(Enforcement::Process),
            3 => Some(Enforcement::Pinned),
            4 => Some(Enforcement::Inherited),
            _ => None,
        }
    }

    /// Whether allows go ahead of the packet path, once known.
    pub closed spec fn fast_allow(&self) -> Option<FastAllow> {
        self.fast_allow
    }

    /// The byte stands for a level, or for none.
    pub closed spec fn wf(&self) -> bool {
        self.enforcement <= 4 || self.enforcement == LEVEL_UNKNOWN
    }

    /// Nothing is known yet.
    pub fn new() -> (r: Levels)
        ensures
            r.wf(),
            r.enforcement() is None,
            r.fast_allow() is None,
    {
        Levels { enforcement: LEVEL_UNKNOWN, fast_allow: None }
    }
}

/// Publishes where enforcement lives.
pub fn set_enforcement_level(levels: &mut Levels, level: Enforcement)
    ensures
        final(levels).wf(),
        final(levels).enforcement() == Some(level),
        final(levels).fast_allow() == old(levels).fast_allow(),
{
    levels.enforcement = level.as_u8();
}

/// Where enforcement lives, or `None` before startup has said.
pub fn enforcement_level(levels: &Levels) -> (r: Option<Enforcement>)
    requires
        levels.wf(),
    ensures
        r == levels.enforcement(),
{
    if levels.enforcement == LEVEL_UNKNOWN {
        None
    } else {
        Some(Enforcement::from_u8(levels.enforcement))
    }
}

/// Publishes whether allows go ahead of the packet path.
pub fn set_fast_allow_level(levels: &mut Levels, level: FastAllow)
    ensures
        old(levels).wf() ==> final(levels).wf(),
        final(levels).enforcement() == old(levels).enforcement(),
        final(levels).fast_allow() == Some(level),
{
    levels.fast_allow = Some(level);
}

/// Whether allows go ahead of the packet path, or `None` before startup has
/// said.
pub fn fast_allow_level(levels: &Levels) -> (r: Option<FastAllow>)
    ensures
        r == levels.fast_allow(),
{
    match &levels.fast_allow {
        Some(f) => Some(f.clone()),
        None => None,
    }
}

/// What came up, what did not, and why.
#[derive(Debug)]
pub struct Report {
    pub mode: EbpfMode,
    pub compiled_in: bool,
    pub exec_tracking: bool,
    pub exit_tracking: bool,
    pub dns_capture: bool,
    pub enforcement: Enforcement,
    pub ppid_offsets: bool,
    pub notes: Vec<String>,
    pub degrade: Option<Degrade>,
    pub exec_offset: ExecOffset,
    pub verified_insns: Vec<(String, u32)>,
    pub fast_allow: Option<FastAllow>,
    pub exit_precise: bool,
    pub lifecycle_pinned: bool,
}

impl Default for Report {
    fn default() -> (r: Self)
        ensures
            r@ == blank(),
    {
        let r = Report {
            mode: EbpfMode::Auto,
            compiled_in: false,
            exec_tracking: false,
            exit_tracking: false,
            dns_capture: false,
            enforcement: Enforcement::Off,
            ppid_offsets: false,
            notes: Vec::new(),
            degrade: None,
            exec_offset: ExecOffset::Default,
            verified_insns: Vec::new(),
            fast_allow: None,
            exit_precise: false,
            lifecycle_pinned: false,
        };
        proof {
            assert(r@.notes =~= blank().notes);
            assert(r@.verified_insns =~= blank().verified_insns);
        }
        r
    }
}

/// What a report says, with its texts as sequences.
pub ghost struct Findings {
    pub mode: EbpfMode,
    pub compiled_in: bool,
    pub exec_tracking: bool,
    pub exit_tracking: bool,
    pub dns_capture: bool,
    pub enforcement: Enforcement,
    pub ppid_offsets: bool,
    pub notes: Seq<Seq<char>>,
    pub degrade: Option<Degrade>,
    pub exec_offset: ExecOffset,
    pub verified_insns: Seq<(Seq<char>, u32)>,
    pub fast_allow: Option<FastAllow>,
    pub exit_precise: bool,
    pub lifecycle_pinned: bool,
}

/// The accepted programs, with their names as sequences.
pub open spec fn named(v: Seq<(String, u32)>) -> Seq<(Seq<char>, u32)> {
    v.map_values(|p: (String, u32)| (p.0@, p.1))
}

impl View for Report {
    type V = Findings;

    open spec fn view(&self) -> Findings {
        Findings {
            mode: self.mode,
            compiled_in: self.compiled_in,
            exec_tracking: self.exec_tracking,
            exit_tracking: self.exit_tracking,
            dns_capture: self.dns_capture,
            enforcement: self.enforcement,
            ppid_offsets: self.ppid_offsets,
            notes: texts(self.notes@),
            degrade: self.degrade,
            exec_offset: self.exec_offset,
            verified_insns: named(self.verified_insns@),
            fast_allow: self.fast_allow,
            exit_precise: self.exit_precise,
            lifecycle_pinned: self.lifecycle_pinned,
        }
    }
}

/// Nothing came up, and nothing is said of it.
pub open spec fn blank() -> Findings {
    Findings {
        mode: EbpfMode::Auto,
        compiled_in: false,
        exec_tracking: false,
        exit_tracking: false,
        dns_capture: false,
        enforcement: Enforcement::Off,
        ppid_offsets: false,
        notes: Seq::empty(),
        degrade: None,
        exec_offset: ExecOffset::Default,
        verified_insns: Seq::empty(),
        fast_allow: None,
        exit_precise: false,
        lifecycle_pinned: false,
    }
}

/// Nothing came up, for this reason and with one note.
pub open spec fn nothing_came_up(
    mode: EbpfMode,
    compiled_in: bool,
    degrade: Option<Degrade>,
    note: Seq<char>,
) -> Findings {
    Findings { mode, compiled_in, degrade, notes: seq![note], ..blank() }
}

/// One line of the startup log.
#[derive(Debug)]
pub enum LogLine {
    /// A note, and how loudly it is said.
    Note { level: NoteLevel, text: String },
    /// What it cost the kernel's verifier to accept a program.
    Verified { program: String, insns: u32 },
    /// The one line that sums up what is running.
    Summary {
        /// "No eBPF" and "eBPF that could not load" look alike from outside, so
        /// the line says which build this is.
        compiled_in: bool,
        ring0: Ring0,
        enforcement: Enforcement,
        degrade: &'static str,
        exec_tracking: bool,
        exit_tracking: bool,
        dns_capture: bool,
        ppid_from_btf: bool,
        fast_allow: String,
        text: String,
    },
}

impl Report {
    /// How much of the observing half is up.
    pub open spec fn spec_ring0(&self) -> Ring0 {
        if self.mode == EbpfMode::Off {
            Ring0::Off
        } else if self.exec_tracking && self.exit_tracking && self.dns_capture {
            Ring0::Active
        } else if self.exec_tracking || self.exit_tracking || self.dns_capture {
            Ring0::Partial
        } else {
            Ring0::Unavailable
        }
    }

    /// How loudly the notes are said.
    pub open spec fn spec_note_level(&self) -> NoteLevel {
        match self.mode {
            EbpfMode::Off => NoteLevel::Debug,
            EbpfMode::On => NoteLevel::Error,
            EbpfMode::Auto => if self.degrade == Some(Degrade::Rejected) || (self.degrade is None
                && self.spec_ring0() == Ring0::Partial) {
                NoteLevel::Warn
            } else {
                NoteLevel::Info
            },
        }
    }

    /// A report of a layer that did not come up, with one note.
    pub fn inert(mode: EbpfMode, compiled_in: bool, note: String) -> (r: Report)
        ensures
            r@ == nothing_came_up(mode, compiled_in, None, note@),
    {
        let mut r = Report::default();
        r.mode = mode;
        r.compiled_in = compiled_in;
        proof {
            assert(texts(r.notes@).len() == r.notes@.len());
        }
        r.notes.push(note);
        proof {
            assert(texts(r.notes@) =~= seq![note@]);
        }
        r
    }

    /// The same, with the reason classified.
    pub fn inert_because(mode: EbpfMode, compiled_in: bool, degrade: Degrade, note: String) -> (r:
        Report)
        ensures
            r@ == nothing_came_up(mode, compiled_in, Some(degrade), note@),
    {
        let mut r = Report::inert(mode, compiled_in, note);
        r.degrade = Some(degrade);
        r
    }

    /// Whether any of the observing programs is up.
    pub fn any_active(&self) -> (r: bool)
        ensures
            r == (self.exec_tracking || self.exit_tracking || self.dns_capture),
    {
        self.exec_tracking || self.exit_tracking || self.dns_capture
    }

    /// How much of the observing half is up.
    pub fn ring0(&self) -> (r: Ring0)
        ensures
            r == self.spec_ring0(),
    {
        if !self.mode.wants_load() {
            return Ring0::Off;
        }
        if self.exec_tracking && self.exit_tracking && self.dns_capture {
            Ring0::Active
        } else if self.any_active() {
            Ring0::Partial
        } else {
            Ring0::Unavailable
        }
    }

    /// How loudly the notes are said: a shortfall of what somebody asked for is
    /// an error, one of an automatic default an ordinary fact - unless the
    /// kernel rejected a program, or only part came up for no known reason.
    pub fn note_level(&self) -> (r: NoteLevel)
        ensures
            r == self.spec_note_level(),
    {
        match self.mode {
            EbpfMode::Off => NoteLevel::Debug,
            EbpfMode::On => NoteLevel::Error,
            EbpfMode::Auto => match self.degrade {
                Some(Degrade::Rejected) => NoteLevel::Warn,
                Some(_) => NoteLevel::Info,
                None => if self.ring0() == Ring0::Partial {
                    NoteLevel::Warn
                } else {
                    NoteLevel::Info
                },
            },
        }
    }

    /// The line for the `i`-th note.
    pub open spec fn note_line(&self, i: int, l: LogLine) -> bool {
        l matches LogLine::Note { level, text } && level == self.spec_note_level() && text@
            == "eBPF: "@ + self.notes@[i]@
    }

    /// The line for the `i`-th accepted program.
    pub open spec fn verified_line(&self, i: int, l: LogLine) -> bool {
        l matches LogLine::Verified { program, insns } && program@ == self.verified_insns@[i].0@
            && insns == self.verified_insns@[i].1
    }

    /// What the summary says attribution and names come from.
    pub open spec fn sources(&self) -> Seq<char> {
        "attribution sources: sock_diag + /proc"@ + (if self.exec_tracking {
            " + eBPF exec events"@
        } else {
            ""@
        }) + "; hostnames: PTR + FCrDNS"@ + (if self.dns_capture {
            " + observed DNS answers"@
        } else {
            ""@
        })
    }

    /// The summary line.
    pub open spec fn summary_line(&self, l: LogLine) -> bool {
        l matches LogLine::Summary {
            compiled_in,
            ring0,
            enforcement,
            degrade,
            exec_tracking,
            exit_tracking,
            dns_capture,
            ppid_from_btf,
            fast_allow,
            text,
        } && {
            &&& compiled_in == self.compiled_in
            &&& exec_tracking == self.exec_tracking
            &&& exit_tracking == self.exit_tracking
            &&& dns_capture == self.dns_capture
            &&& ppid_from_btf == self.ppid_offsets
            &&& ring0 == self.spec_ring0()
            &&& enforcement == self.enforcement
            &&& degrade@ == (match self.degrade {
                Some(d) => d.token(),
                None => "none"@,
            })
            &&& fast_allow@ == (match self.fast_allow {
                Some(f) => f.words(),
                None => "not decided"@,
            })
            &&& text@ == self.sources()
        }
    }

    /// The startup log: every note, every accepted program, and the summary, in
    /// that order.
    pub fn log(&self) -> (r: Vec<LogLine>)
        ensures
            r@.len() == self.notes@.len() + self.verified_insns@.len() + 1,
            forall|i: int| 0 <= i < self.notes@.len() ==> self.note_line(i, #[trigger] r@[i]),
            forall|i: int|
                0 <= i < self.verified_insns@.len() ==> self.verified_line(
                    i,
                    #[trigger] r@[self.notes@.len() + i],
                ),
            self.summary_line(r@[r@.len() - 1]),
    {
        let level = self.note_level();
        let mut out: Vec<LogLine> = Vec::new();
        let mut i: usize = 0;
        while i < self.notes.len()
            invariant
                i <= self.notes@.len(),
                out@.len() == i,
                level == self.spec_note_level(),
                forall|k: int| 0 <= k < i ==> self.note_line(k, #[trigger] out@[k]),
            decreases self.notes@.len() - i,
        {
            let mut s = text("eBPF: ");
            s.append(self.notes[i].as_str());
            out.push(LogLine::Note { level, text: s });
            i += 1;
        }
        let mut j: usize = 0;
        while j < self.verified_insns.len()
            invariant
                j <= self.verified_insns@.len(),
                out@.len() == self.notes@.len() + j,
                forall|k: int|
                    0 <= k < self.notes@.len() ==> self.note_line(k, #[trigger] out@[k]),
                forall|k: int|
                    0 <= k < j ==> self.verified_line(k, #[trigger] out@[self.notes@.len() + k]),
            decreases self.verified_insns@.len() - j,
        {
            let program = self.verified_insns[j].0.clone();
            let insns: u32 = self.verified_insns[j].1;
            out.push(LogLine::Verified { program, insns });
            j += 1;
        }
        let degrade: &'static str = match self.degrade {
            Some(d) => d.as_str(),
            None => "none",
        };
        let fast_allow = match &self.fast_allow {
            Some(f) => f.describe(),
            None => text("not decided"),
        };
        let mut s = text("attribution sources: sock_diag + /proc");
        s.append(
            if self.exec_tracking {
                " + eBPF exec events"
            } else {
                ""
            },
        );
        s.append("; hostnames: PTR + FCrDNS");
        s.append(
            if self.dns_capture {
                " + observed DNS answers"
            } else {
                ""
            },
        );
        out.push(
            LogLine::Summary {
                compiled_in: self.compiled_in,
                ring0: self.ring0(),
                enforcement: self.enforcement,
                degrade,
                exec_tracking: self.exec_tracking,
                exit_tracking: self.exit_tracking,
                dns_capture: self.dns_capture,
                ppid_from_btf: self.ppid_offsets,
                fast_allow,
                text: s,
            },
        );
        out
    }
}

/// What to do about an object that fails its ownership check.
#[derive(Debug, Clone, Copy, PartialEq, Eq, Structural)]
pub enum Trust {
    /// Say so and load it anyway: a human pointed the daemon at this file.
    Warn,
    /// Refuse: the daemon found it by itself.
    Refuse,
}

/// What starting the layer comes to.
#[derive(Debug)]
pub enum Start {
    /// Nothing is loaded, and this is the report.
    Inert(Report),
    /// This object is loaded, with this much trust in it.
    Load { object: String, trust: Trust },
}

pub const SWITCHED_OFF: &'static str = "switched off; using sock_diag + /proc only";

pub const NOT_COMPILED: &'static str =
    "[ebpf] enabled = true but this build was compiled with --no-default-features, so it has no eBPF support; rebuild without that flag (the `ebpf` feature is on by default)";

pub const LAYER_NOT_UP: &'static str = "the in-kernel layer is not up";

pub const LAYER_FAILED: &'static str = "the in-kernel layer did not come up";

/// Whether starting the layer comes to `r`.
pub open spec fn starts(cfg: EbpfConfig, compiled_in: bool, r: Start) -> bool {
    if cfg.enabled == EbpfMode::Off {
        &&& r matches Start::Inert(report)
        &&& report@ == nothing_came_up(EbpfMode::Off, compiled_in, None, SWITCHED_OFF@)
    } else if !compiled_in {
        &&& r matches Start::Inert(report)
        &&& report@ == nothing_came_up(
            cfg.enabled,
            false,
            Some(Degrade::Unsupported),
            NOT_COMPILED@,
        )
    } else {
        &&& r matches Start::Load { object, trust }
        &&& cfg.object_path matches Some(p) ==> object@ == p@ && trust == Trust::Warn
        &&& cfg.object_path is None ==> object@ == DEFAULT_OBJECT_PATH@ && trust == Trust::Refuse
    }
}

/// Decides what starting the layer comes to. Who chose the object decides how
/// much it has to prove: one that was configured is trusted, the one at the
/// default path is not.
pub fn start(cfg: &EbpfConfig, compiled_in: bool, levels: &mut Levels) -> (r: Start)
    ensures
        final(levels).enforcement() == old(levels).enforcement(),
        old(levels).wf() ==> final(levels).wf(),
        final(levels).fast_allow() matches Some(FastAllow::Off(why)) && why@ == LAYER_NOT_UP@,
        cfg.enabled == EbpfMode::Off ==> {
            &&& r matches Start::Inert(report)
            &&& report@ == nothing_came_up(EbpfMode::Off, compiled_in, None, SWITCHED_OFF@)
        },
        cfg.enabled != EbpfMode::Off && !compiled_in ==> {
            &&& r matches Start::Inert(report)
            &&& report@ == nothing_came_up(
                cfg.enabled,
                false,
                Some(Degrade::Unsupported),
                NOT_COMPILED@,
            )
        },
        cfg.enabled != EbpfMode::Off && compiled_in ==> {
            &&& r matches Start::Load { object, trust }
            &&& cfg.object_path matches Some(p) ==> object@ == p@ && trust == Trust::Warn
            &&& cfg.object_path is None ==> object@ == DEFAULT_OBJECT_PATH@ && trust
                == Trust::Refuse
        },
        starts(*cfg, compiled_in, r),
{
    set_fast_allow_level(levels, FastAllow::Off(text(LAYER_NOT_UP)));
    if !cfg.enabled.wants_load() {
        return Start::Inert(Report::inert(cfg.enabled, compiled_in, text(SWITCHED_OFF)));
    }
    if !compiled_in {
        return Start::Inert(
            Report::inert_because(cfg.enabled, false, Degrade::Unsupported, text(NOT_COMPILED)),
        );
    }
    match &cfg.object_path {
        Some(p) => Start::Load { object: p.clone(), trust: Trust::Warn },
        None => Start::Load { object: text(DEFAULT_OBJECT_PATH), trust: Trust::Refuse },
    }
}

/// A load that did not happen, with the reason classified.
#[derive(Debug)]
pub struct LoadError {
    pub degrade: Degrade,
    pub source: String,
}

/// What the daemon goes on with once a load has succeeded or failed: the report
/// under the mode that was asked for, the process table marked as fed or not,
/// and the fast path off when nothing came up.
pub fn finish_start(
    mode: EbpfMode,
    loaded: Result<Report, LoadError>,
    table: &mut KernelProcTable,
    levels: &mut Levels,
) -> (r: Report)
    ensures
        final(table)@ == old(table)@,
        final(levels).enforcement() == old(levels).enforcement(),
        old(levels).wf() ==> final(levels).wf(),
        loaded matches Ok(report) ==> {
            &&& r == (Report { mode, ..report })
            &&& final(table).fed() == report.exec_tracking
            &&& final(levels).fast_allow() == old(levels).fast_allow()
        },
        loaded matches Err(e) ==> {
            &&& r@ == nothing_came_up(
                mode,
                true,
                Some(e.degrade),
                "load failed, continuing without it: "@ + e.source@,
            )
            &&& final(table).fed() == old(table).fed()
            &&& final(levels).fast_allow() matches Some(FastAllow::Off(why)) && why@
                == LAYER_FAILED@
        },
{
    match loaded {
        Ok(report) => {
            let mut report = report;
            report.mode = mode;
            table.set_live(report.exec_tracking);
            report
        },
        Err(e) => {
            set_fast_allow_level(levels, FastAllow::Off(text(LAYER_FAILED)));
            let mut note = text("load failed, continuing without it: ");
            note.append(e.source.as_str());
            Report::inert_because(mode, true, e.degrade, note)
        },
    }
}

/// How loud a shortfall is follows what was asked for: what somebody asked for
/// and did not get is an error, what nobody asked for is nothing above debug,
/// and under the automatic default it is never an error, and a warning only if
/// it is this project's own doing or has no known cause.
pub proof fn severity_follows_the_mode(r: Report)
    ensures
        r.mode == EbpfMode::On ==> r.spec_note_level() == NoteLevel::Error,
        r.mode == EbpfMode::Off ==> r.spec_note_level() == NoteLevel::Debug,
        r.mode == EbpfMode::Auto ==> r.spec_note_level() != NoteLevel::Error && (
        r.spec_note_level() == NoteLevel::Warn <==> (r.degrade == Some(Degrade::Rejected) || (
        r.degrade is None && r.spec_ring0() == Ring0::Partial))),
{
}

/// How much is up: nothing if it was switched off, all three programs, some, or
/// none.
pub proof fn what_is_up_is_counted(r: Report)
    ensures
        r.mode == EbpfMode::Off <==> r.spec_ring0() == Ring0::Off,
        r.mode != EbpfMode::Off ==> {
            &&& r.spec_ring0() == Ring0::Active <==> r.exec_tracking && r.exit_tracking
                && r.dns_capture
            &&& r.spec_ring0() == Ring0::Unavailable <==> !r.exec_tracking && !r.exit_tracking
                && !r.dns_capture
        },
{
}

/// Enforcement is up where it is attached, whoever attached it, and nowhere else.
pub proof fn enforcement_is_up_where_it_is_attached(e: Enforcement)
    ensures
        e == Enforcement::Off || e == Enforcement::Unavailable <==> !e.live(),
        e.byte() <= 4,
{
}

/// Each reason has a token of its own.
pub proof fn reasons_have_tokens(d: Degrade)
    ensures
        d == Degrade::ObjectMissing ==> d.token() == "object_missing"@,
        d == Degrade::ObjectUnreadable ==> d.token() == "object_unreadable"@,
        d == Degrade::ObjectUntrusted ==> d.token() == "object_untrusted"@,
        d == Degrade::AbiMismatch ==> d.token() == "abi_mismatch"@,
        d == Degrade::NotPermitted ==> d.token() == "not_permitted"@,
        d == Degrade::Unsupported ==> d.token() == "unsupported"@,
        d == Degrade::Rejected ==> d.token() == "verifier_rejected"@,
        d == Degrade::Other ==> d.token() == "other"@,
{
}

/// The summary names the sources that are up besides those that always are.
pub proof fn the_summary_names_what_is_up(r: Report)
    ensures
        r.exec_tracking && r.dns_capture ==> r.sources()
            == "attribution sources: sock_diag + /proc"@ + " + eBPF exec events"@
            + "; hostnames: PTR + FCrDNS"@ + " + observed DNS answers"@,
        !r.exec_tracking && r.dns_capture ==> r.sources()
            == "attribution sources: sock_diag + /proc"@ + "; hostnames: PTR + FCrDNS"@
            + " + observed DNS answers"@,
        r.exec_tracking && !r.dns_capture ==> r.sources()
            == "attribution sources: sock_diag + /proc"@ + " + eBPF exec events"@
            + "; hostnames: PTR + FCrDNS"@,
        !r.exec_tracking && !r.dns_capture ==> r.sources()
            == "attribution sources: sock_diag + /proc"@ + "; hostnames: PTR + FCrDNS"@,
{
    reveal_strlit("");
    assert(""@ =~= Seq::<char>::empty());
    let a = "attribution sources: sock_diag + /proc"@;
    let b = "; hostnames: PTR + FCrDNS"@;
    assert(a + ""@ =~= a);
    assert(a + ""@ + b + ""@ =~= a + b);
    assert(a + " + eBPF exec events"@ + b + ""@ =~= a + " + eBPF exec events"@ + b);
}

/// A layer that did not come up is reported with its mode, its build, its reason
/// and one note; nothing in it is up.
pub proof fn a_layer_that_is_down_says_so(
    mode: EbpfMode,
    compiled_in: bool,
    degrade: Option<Degrade>,
    note: Seq<char>,
)
    ensures
        ({
            let f = nothing_came_up(mode, compiled_in, degrade, note);
            &&& f.mode == mode && f.compiled_in == compiled_in && f.degrade == degrade
            &&& f.notes.len() == 1 && f.notes[0] == note
            &&& !f.exec_tracking && !f.exit_tracking && !f.dns_capture && !f.ppid_offsets
            &&& f.enforcement == Enforcement::Off && f.exec_offset == ExecOffset::Default
            &&& f.verified_insns.len() == 0 && f.fast_allow is None
            &&& !f.exit_precise && !f.lifecycle_pinned
        }),
{
}

/// The fast path is described as live, with its deadline where that is not the
/// usual one, or as off, with the reason.
pub proof fn the_fast_path_is_described(why: String, secs: u64)
    ensures
        FastAllow::Off(why).words() == "off: "@ + why@,
        secs == DEADLINE_SECS ==> (FastAllow::Live { deadline_secs: secs }).words() == "live"@,
        secs != DEADLINE_SECS ==> (FastAllow::Live { deadline_secs: secs }).words()
            == "live, grants lapse within "@ + decimal(secs as nat) + "s"@,
{
}

/// A note is said as loudly as the mode asks, under the layer's name; a program
/// with what it cost; and the summary says of every part whether it is up.
pub proof fn a_log_line_says_what_was_found(r: Report, i: int, l: LogLine)
    ensures
        r.note_line(i, l) ==> l is Note && l->level == r.spec_note_level() && l->Note_text@
            == "eBPF: "@ + r.notes@[i]@,
        r.verified_line(i, l) ==> l is Verified && l->program@ == r.verified_insns@[i].0@
            && l->insns == r.verified_insns@[i].1,
        r.summary_line(l) ==> {
            &&& l is Summary
            &&& l->compiled_in == r.compiled_in
            &&& l->ring0 == r.spec_ring0()
            &&& l->enforcement == r.enforcement
            &&& l->exec_tracking == r.exec_tracking
            &&& l->exit_tracking == r.exit_tracking
            &&& l->dns_capture == r.dns_capture
            &&& l->ppid_from_btf == r.ppid_offsets
            &&& r.degrade is None ==> l->degrade@ == "none"@
            &&& r.degrade is Some ==> l->degrade@ == r.degrade->Some_0.token()
            &&& r.fast_allow is None ==> l->fast_allow@ == "not decided"@
            &&& r.fast_allow is Some ==> l->fast_allow@ == r.fast_allow->Some_0.words()
            &&& l->Summary_text@ == r.sources()
        },
{
}

/// An object is loaded exactly where the layer is wanted and the build has it.
/// One that was configured is loaded from where it was said to be, with a
/// warning at most; the packaged one has to prove itself.
pub proof fn a_start_loads_what_was_asked_for(
    cfg: EbpfConfig,
    compiled_in: bool,
    r: Start,
)
    requires
        starts(cfg, compiled_in, r),
    ensures
        r is Load <==> cfg.enabled != EbpfMode::Off && compiled_in,
        r matches Start::Load { object, trust } ==> {
            &&& trust == Trust::Warn <==> cfg.object_path is Some
            &&& trust == Trust::Refuse <==> cfg.object_path is None
            &&& cfg.object_path is Some ==> object@ == cfg.object_path->Some_0@
            &&& cfg.object_path is None ==> object@ == "/usr/lib/colony-firewall/cfc-ebpf.o"@
        },
        r matches Start::Inert(report) ==> {
            &&& report@.mode == cfg.enabled
            &&& report@.compiled_in == compiled_in
            &&& report@.notes.len() == 1
            &&& report@.degrade is None <==> cfg.enabled == EbpfMode::Off
            &&& report@.degrade is None ==> report@.notes[0]
                == "switched off; using sock_diag + /proc only"@
            &&& report@.degrade is Some ==> report@.degrade == Some(Degrade::Unsupported)
            &&& report@.enforcement == Enforcement::Off
        },
{
}

/// Each level has its byte and its token; only what is attached refuses, and
/// only what is pinned goes on refusing once the daemon is gone.
pub proof fn levels_are_told_by_byte_and_token(e: Enforcement)
    ensures
        e.byte() == 0 <==> e is Off,
        e.byte() == 1 <==> e is Unavailable,
        e.byte() == 2 <==> e is Process,
        e.byte() == 3 <==> e is Pinned,
        e.byte() == 4 <==> e is Inherited,
        e is Off ==> e.token() == "off"@,
        e is Unavailable ==> e.token() == "unavailable"@,
        e is Process ==> e.token() == "process"@,
        e is Pinned ==> e.token() == "pinned"@,
        e is Inherited ==> e.token() == "inherited"@,
        e.outlasts() ==> e.live(),
        e.live() && !e.outlasts() <==> e is Process,
{
}

} // verus!
