//! The one thing the daemon does to nftables: put its fast-allow mark into the
//! set that the snippet declares empty, and take it out again.
//!
//! `nft` is run as a child; this module says with which arguments, and what each
//! outcome means. It never makes the table or the set: those belong to the
//! snippet. A missing table is usually one that is not there yet, a missing set
//! one that will not come by itself, and [`Absent`] tells the two apart.
//!
//! The mark is a secret. `nft` echoes a failing command, so the mark is taken
//! out of every text before it goes anywhere.

use crate::ebpf::enforce::UNARMED;
use crate::text::{
    chars_of, contains, contains_chars, hex, push_hex, starts_with, string_of, text,
    texts, trim, trim_chars,
};
use vstd::prelude::*;
use vstd::slice::slice_subrange;
use vstd::string::StringExecFns;

verus! {

pub const FAMILY: &'static str = "inet";

pub const TABLE: &'static str = "colony_firewall";

pub const SET: &'static str = "fast_allow";

/// How long one command is given before it is killed.
pub const NFT_TIMEOUT_SECS: u64 = 5;

/// How often the deadline is looked at.
pub const NFT_POLL_INTERVAL_MS: u64 = 50;

pub const NFT_OVERRAN: &'static str =
    "nft did not finish within 5s (another process may be holding the nftables transaction lock)";

pub const NFT_FIRST: &'static str = "/usr/sbin/nft";

pub const NFT_SECOND: &'static str = "/usr/bin/nft";

pub const NFT_NOT_FOUND: &'static str =
    "nft not found at /usr/sbin/nft or /usr/bin/nft (the package requires nftables, and without it colony-firewall-nft.service could not have loaded the table either)";

/// The program to run: the first of the two fixed places that has it.
pub fn locate_nft(first_exists: bool, second_exists: bool) -> (r: Result<&'static str, String>)
    ensures
        match r {
            Ok(p) => (first_exists || second_exists) && p@ == (if first_exists {
                NFT_FIRST@
            } else {
                NFT_SECOND@
            }),
            Err(e) => !first_exists && !second_exists && e@ == NFT_NOT_FOUND@,
        },
        first_exists ==> (r matches Ok(p) && p@ == "/usr/sbin/nft"@),
        !first_exists && second_exists ==> (r matches Ok(p) && p@ == "/usr/bin/nft"@),
        r is Err <==> !first_exists && !second_exists,
{
    if first_exists {
        Ok(NFT_FIRST)
    } else if second_exists {
        Ok(NFT_SECOND)
    } else {
        Err(text(NFT_NOT_FOUND))
    }
}

/// Why there is nothing to arm.
#[derive(Debug, Clone, Copy, PartialEq, Eq, Structural)]
pub enum Absent {
    /// The table is not loaded.
    Table,
    /// The table is loaded but has no such set.
    MarkSet,
}

pub const NO_TABLE: &'static str =
    "table inet colony_firewall is not loaded, so there is no fast_allow set to arm; colony-firewall-nft.service loads it once the daemon is up";

pub const NO_SET: &'static str =
    "the loaded nftables snippet predates fast_allow; reinstall systemd/nftables-snippet.conf and restart colony-firewall-nft.service";

impl Absent {
    /// What is missing, and the fix.
    pub fn message(self) -> (r: String)
        ensures
            r@ == (match self {
                Absent::Table => NO_TABLE@,
                Absent::MarkSet => NO_SET@,
            }),
    {
        match self {
            Absent::Table => text(NO_TABLE),
            Absent::MarkSet => text(NO_SET),
        }
    }
}

/// The commands that are issued.
#[derive(Debug, Clone, Copy, PartialEq, Eq, Structural)]
pub enum Op {
    /// Does the set exist? The exit status is the answer.
    ListSet,
    /// Does the table?
    ListTable,
    /// Put the mark into the set.
    AddElement(u32),
    /// Empty the set.
    FlushSet,
}

/// The mark as an element: `0x` and eight digits. There is one spelling, so
/// that it can be taken out by exact match.
pub open spec fn literal(mark: u32) -> Seq<char> {
    "0x"@ + hex(mark as nat, 8)
}

/// The mark as an element.
pub fn mark_literal(mark: u32) -> (r: String)
    ensures
        r@ == literal(mark),
{
    let mut s = text("0x");
    push_hex(&mut s, mark as u64, 8);
    s
}

/// The words of a command, without the program.
pub open spec fn words_of(op: Op) -> Seq<Seq<char>> {
    match op {
        Op::ListSet => seq!["list"@, "set"@, FAMILY@, TABLE@, SET@],
        Op::ListTable => seq!["list"@, "table"@, FAMILY@, TABLE@],
        Op::AddElement(mark) => seq![
            "add"@,
            "element"@,
            FAMILY@,
            TABLE@,
            SET@,
            "{ "@ + literal(mark) + " }"@,
        ],
        Op::FlushSet => seq!["flush"@, "set"@, FAMILY@, TABLE@, SET@],
    }
}

/// The arguments of a command, without the program.
pub fn argv(op: Op) -> (r: Vec<String>)
    ensures
        texts(r@) == words_of(op),
{
    let mut out: Vec<String> = Vec::new();
    match op {
        Op::ListSet => {
            out.push(text("list"));
            out.push(text("set"));
        },
        Op::ListTable => {
            out.push(text("list"));
            out.push(text("table"));
        },
        Op::AddElement(_) => {
            out.push(text("add"));
            out.push(text("element"));
        },
        Op::FlushSet => {
            out.push(text("flush"));
            out.push(text("set"));
        },
    }
    out.push(text(FAMILY));
    out.push(text(TABLE));
    if let Op::ListTable = op {
        proof {
            assert(texts(out@) =~= words_of(op));
        }
        return out;
    }
    out.push(text(SET));
    if let Op::AddElement(mark) = op {
        let mut e = text("{ ");
        let m = mark_literal(mark);
        e.append(m.as_str());
        e.append(" }");
        out.push(e);
    }
    proof {
        assert(texts(out@) =~= words_of(op));
    }
    out
}

/// A text with every occurrence of `p` replaced, from the left.
pub open spec fn replaced(s: Seq<char>, p: Seq<char>, w: Seq<char>) -> Seq<char>
    decreases s.len(),
{
    if s.len() == 0 || p.len() == 0 {
        s
    } else if starts_with(s, p) {
        w + replaced(s.skip(p.len() as int), p, w)
    } else {
        seq![s[0]] + replaced(s.skip(1), p, w)
    }
}

/// What stands in the place of the mark.
pub const MARK_GONE: &'static str = "<mark>";

/// A text without the mark of the command it belongs to.
pub open spec fn redacted(op: Op, s: Seq<char>) -> Seq<char> {
    match op {
        Op::AddElement(mark) => replaced(s, literal(mark), MARK_GONE@),
        _ => s,
    }
}

/// Takes the mark of the command out of a text. Only one command carries it.
pub fn redact(op: Op, s: &str) -> (r: String)
    ensures
        r@ == redacted(op, s@),
{
    let mark: u32 = match op {
        Op::AddElement(mark) => mark,
        _ => {
            return text(s);
        },
    };
    let p = mark_literal(mark);
    let pc: Vec<char> = chars_of(p.as_str());
    let all: Vec<char> = chars_of(s);
    let mut out: String = String::new();
    let mut i: usize = 0;
    let n: usize = all.len();
    proof {
        reveal_strlit("0x");
        lemma_hex_len(mark as nat, 8);
        assert(all@.skip(0) =~= all@);
        assert(out@ + replaced(all@, pc@, MARK_GONE@) =~= replaced(all@, pc@, MARK_GONE@));
    }
    while i < n
        invariant
            n == all@.len(),
            i <= n,
            pc@ == literal(mark),
            pc@.len() == 10,
            all@ == s@,
            out@ + replaced(all@.skip(i as int), pc@, MARK_GONE@) == replaced(
                all@,
                pc@,
                MARK_GONE@,
            ),
        decreases n - i,
    {
        let ghost rest = all@.skip(i as int);
        let ghost done = out@;
        let here = if n - i >= pc.len() {
            let piece = slice_subrange(all.as_slice(), i, i + pc.len());
            proof {
                assert(piece@ =~= rest.take(pc@.len() as int));
            }
            crate::text::chars_eq(piece, pc.as_slice())
        } else {
            false
        };
        proof {
            assert(here == starts_with(rest, pc@));
        }
        if here {
            out.append(MARK_GONE);
            proof {
                assert(all@.skip(i as int).skip(pc@.len() as int) =~= all@.skip(i + pc@.len()));
                assert(done + (MARK_GONE@ + replaced(all@.skip(i + pc@.len()), pc@, MARK_GONE@))
                    =~= done + MARK_GONE@ + replaced(all@.skip(i + pc@.len()), pc@, MARK_GONE@));
            }
            i += pc.len();
        } else {
            out.push(all[i]);
            proof {
                assert(rest[0] == all@[i as int]);
                assert(all@.skip(i as int).skip(1) =~= all@.skip(i + 1));
                assert(done + (seq![rest[0]] + replaced(all@.skip(i + 1), pc@, MARK_GONE@))
                    =~= done.push(rest[0]) + replaced(all@.skip(i + 1), pc@, MARK_GONE@));
            }
            i += 1;
        }
    }
    proof {
        assert(all@.skip(i as int) =~= Seq::<char>::empty());
        assert(out@ + Seq::<char>::empty() =~= out@);
    }
    out
}

proof fn lemma_hex_len(n: nat, width: nat)
    ensures
        hex(n, width).len() == width,
    decreases width,
{
    if width > 0 {
        lemma_hex_len(n / 16, (width - 1) as nat);
    }
}

/// One command that did not succeed.
#[derive(Debug)]
pub enum Failed {
    /// `nft` ran and said no.
    Nft { status: String, stderr: String },
    /// `nft` could not be found or started, or overran its time.
    Run(String),
}

pub const NO_SUCH_OBJECT: &'static str = "No such file or directory";

/// Whether this is what `nft` says of an object that does not exist.
pub fn stderr_names_no_such_object(stderr: &str) -> (r: bool)
    ensures
        r == contains(stderr@, NO_SUCH_OBJECT@),
{
    let c = chars_of(stderr);
    contains_chars(c.as_slice(), NO_SUCH_OBJECT)
}

/// A command written out, without its mark.
pub open spec fn command_text(op: Op) -> Seq<char> {
    redacted(op, "nft "@ + joined_by_blank(words_of(op)))
}

/// Words with a blank between each two.
pub open spec fn joined_by_blank(w: Seq<Seq<char>>) -> Seq<char>
    decreases w.len(),
{
    if w.len() == 0 {
        Seq::empty()
    } else if w.len() == 1 {
        w[0]
    } else {
        joined_by_blank(w.drop_last()) + " "@ + w.last()
    }
}

fn join_blank(w: &Vec<String>) -> (r: String)
    ensures
        r@ == joined_by_blank(texts(w@)),
{
    let mut out: String = String::new();
    let mut i: usize = 0;
    let ghost all = texts(w@);
    proof {
        assert(all.take(0) =~= Seq::<Seq<char>>::empty());
    }
    while i < w.len()
        invariant
            i <= w@.len(),
            all == texts(w@),
            out@ == joined_by_blank(all.take(i as int)),
        decreases w@.len() - i,
    {
        proof {
            assert(all.take(i + 1).drop_last() =~= all.take(i as int));
            assert(all.take(i + 1).last() == w@[i as int]@);
        }
        if i > 0 {
            out.append(" ");
        }
        out.append(w[i].as_str());
        proof {
            if i == 0 {
                assert(out@ =~= w@[0]@);
            }
        }
        i += 1;
    }
    proof {
        assert(all.take(i as int) =~= all);
    }
    out
}

/// What is said of a command that failed.
pub open spec fn failure_text(op: Op, f: Failed) -> Seq<char> {
    match f {
        Failed::Nft { status, stderr } => command_text(op) + " failed ("@ + status@ + "): "@ + trim(
            redacted(op, stderr@),
        ),
        Failed::Run(e) => "running "@ + command_text(op) + ": "@ + e@,
    }
}

impl Failed {
    /// Whether the table or the set that the command names does not exist. A
    /// child that could not be started says nothing of the kind, whatever its
    /// text.
    pub open spec fn absent(&self) -> bool {
        match *self {
            Failed::Nft { stderr, .. } => contains(stderr@, NO_SUCH_OBJECT@),
            Failed::Run(_) => false,
        }
    }

    /// Whether the table or the set that the command names does not exist.
    pub fn is_no_such_object(&self) -> (r: bool)
        ensures
            r == self.absent(),
    {
        match self {
            Failed::Nft { stderr, .. } => stderr_names_no_such_object(stderr.as_str()),
            Failed::Run(_) => false,
        }
    }

    /// A text that is safe to log.
    pub fn into_error(&self, op: Op) -> (r: String)
        ensures
            r@ == failure_text(op, *self),
    {
        let args = argv(op);
        let line = join_blank(&args);
        let mut whole = text("nft ");
        whole.append(line.as_str());
        let command = redact(op, whole.as_str());
        match self {
            Failed::Nft { status, stderr } => {
                let clean = redact(op, stderr.as_str());
                let c = chars_of(clean.as_str());
                let t = trim_chars(c.as_slice());
                let said = string_of(t.as_slice());
                let mut m = command;
                m.append(" failed (");
                m.append(status.as_str());
                m.append("): ");
                m.append(said.as_str());
                m
            },
            Failed::Run(e) => {
                let mut m = text("running ");
                m.append(command.as_str());
                m.append(": ");
                m.append(e.as_str());
                m
            },
        }
    }
}

/// Why arming failed.
#[derive(Debug)]
pub enum ArmError {
    /// There is nothing to arm; a missing table is worth a retry.
    Absent(Absent),
    Other(String),
}

/// What arming does next.
#[derive(Debug)]
pub enum ArmStep {
    /// Run this command and report how it went.
    Run(Op),
    Armed,
    Failed(ArmError),
}

/// What is said of the mark of every socket that nothing has marked.
pub open spec fn unarmed_text(mark: u32) -> Seq<char> {
    "refusing to arm the fast path with mark "@ + literal(mark)
        + ": that is the mark of every socket nothing has marked, and accepting it would accept everything"@
}

/// Starts arming with `mark`: looks whether the set is there. The mark of every
/// unmarked socket is refused before anything runs.
pub fn arm(mark: u32) -> (r: ArmStep)
    ensures
        mark != UNARMED ==> r == ArmStep::Run(Op::ListSet),
        mark == UNARMED ==> (r matches ArmStep::Failed(ArmError::Other(e)) && e@ == unarmed_text(
            mark,
        )),
{
    if mark == UNARMED {
        let mut m = text("refusing to arm the fast path with mark ");
        let l = mark_literal(mark);
        m.append(l.as_str());
        m.append(
            ": that is the mark of every socket nothing has marked, and accepting it would accept everything",
        );
        return ArmStep::Failed(ArmError::Other(m));
    }
    ArmStep::Run(Op::ListSet)
}

/// What a step of arming comes to.
pub open spec fn arm_goes(op: Op, mark: u32, result: Result<(), Failed>, r: ArmStep) -> bool {
    match result {
        Ok(_) => match op {
            Op::ListSet => r == ArmStep::Run(Op::AddElement(mark)),
            Op::ListTable => r == ArmStep::Failed(ArmError::Absent(Absent::MarkSet)),
            _ => r == ArmStep::Armed,
        },
        Err(f) => if f.absent() && op == Op::ListSet {
            r == ArmStep::Run(Op::ListTable)
        } else if f.absent() && op == Op::ListTable {
            r == ArmStep::Failed(ArmError::Absent(Absent::Table))
        } else {
            r matches ArmStep::Failed(ArmError::Other(e)) && e@ == failure_text(op, f)
        },
    }
}

/// Takes how a command of arming went. `nft` says the same of a missing table
/// and of a missing set, so the table is looked for once the set was not found.
pub fn arm_next(op: Op, mark: u32, result: &Result<(), Failed>) -> (r: ArmStep)
    ensures
        arm_goes(op, mark, *result, r),
{
    match result {
        Ok(_) => match op {
            Op::ListSet => ArmStep::Run(Op::AddElement(mark)),
            Op::ListTable => ArmStep::Failed(ArmError::Absent(Absent::MarkSet)),
            _ => ArmStep::Armed,
        },
        Err(f) => {
            if f.is_no_such_object() {
                if let Op::ListSet = op {
                    return ArmStep::Run(Op::ListTable);
                }
                if let Op::ListTable = op {
                    return ArmStep::Failed(ArmError::Absent(Absent::Table));
                }
            }
            ArmStep::Failed(ArmError::Other(f.into_error(op)))
        },
    }
}

/// Takes how emptying the set went. Where there is no table or no set there is
/// nothing that could accept a mark.
pub fn disarmed(result: &Result<(), Failed>) -> (r: Result<(), String>)
    ensures
        match *result {
            Err(f) if !f.absent() => r matches Err(e) && e@ == failure_text(Op::FlushSet, f),
            _ => r is Ok,
        },
{
    match result {
        Ok(_) => Ok(()),
        Err(f) => if f.is_no_such_object() {
            Ok(())
        } else {
            Err(f.into_error(Op::FlushSet))
        },
    }
}

proof fn lemma_hex_digits(n: nat, width: nat, i: int)
    requires
        0 <= i < width,
    ensures
        hex(n, width)[i] != '<' && hex(n, width)[i] != '>',
    decreases width,
{
    lemma_hex_len(n, width);
    lemma_hex_len(n / 16, (width - 1) as nat);
    if i < width - 1 {
        lemma_hex_digits(n / 16, (width - 1) as nat, i);
        assert(hex(n, width)[i] == hex(n / 16, (width - 1) as nat)[i]);
    }
}

/// Where a text has been cleaned and shows no bracket, it is the text as it was.
proof fn lemma_prefix_kept(s: Seq<char>, p: Seq<char>, w: Seq<char>, n: int)
    requires
        p.len() > 0,
        w.len() > 0,
        w[0] == '<',
        0 <= n <= replaced(s, p, w).len(),
        forall|i: int| 0 <= i < n ==> replaced(s, p, w)[i] != '<',
    ensures
        n <= s.len(),
        replaced(s, p, w).take(n) == s.take(n),
    decreases s.len(),
{
    let r = replaced(s, p, w);
    if n > 0 && s.len() > 0 {
        if starts_with(s, p) {
            assert(r[0] == w[0]);
        } else {
            let rest = replaced(s.skip(1), p, w);
            assert(r == seq![s[0]] + rest);
            assert forall|i: int| 0 <= i < n - 1 implies rest[i] != '<' by {
                assert(r[i + 1] == rest[i]);
            }
            lemma_prefix_kept(s.skip(1), p, w, n - 1);
            assert(r.take(n) =~= seq![s[0]] + rest.take(n - 1));
            assert(s.take(n) =~= seq![s[0]] + s.skip(1).take(n - 1));
        }
    } else {
        assert(r.take(n) =~= s.take(n));
    }
}

proof fn lemma_gone(s: Seq<char>, p: Seq<char>, w: Seq<char>, i: int)
    requires
        p.len() > w.len(),
        w.len() > 1,
        w[0] == '<',
        w.last() == '>',
        forall|k: int| 0 <= k < p.len() ==> p[k] != '<' && p[k] != '>',
        0 <= i <= replaced(s, p, w).len(),
    ensures
        !starts_with(replaced(s, p, w).skip(i), p),
    decreases s.len(),
{
    let r = replaced(s, p, w);
    let m = p.len() as int;
    if starts_with(r.skip(i), p) {
        let there = r.skip(i).take(m);
        assert(there == p);
        assert(r.len() >= i + m);
        assert forall|k: int| 0 <= k < m implies r[i + k] == p[k] by {
            assert(there[k] == r[i + k]);
        }
        if s.len() == 0 {
        } else if starts_with(s, p) {
            let rest = replaced(s.skip(m), p, w);
            assert(r == w + rest);
            if i < w.len() {
                let k = w.len() - 1 - i;
                assert(r[i + k] == w[w.len() - 1]);
                assert(r[i + k] == p[k]);
            } else {
                lemma_gone(s.skip(m), p, w, i - w.len());
                assert(r.skip(i) =~= rest.skip(i - w.len()));
            }
        } else {
            let rest = replaced(s.skip(1), p, w);
            assert(r == seq![s[0]] + rest);
            if i > 0 {
                lemma_gone(s.skip(1), p, w, i - 1);
                assert(r.skip(i) =~= rest.skip(i - 1));
            } else {
                assert forall|k: int| 0 <= k < m implies r[k] != '<' by {
                    assert(r[0 + k] == p[k]);
                }
                lemma_prefix_kept(s, p, w, m);
                assert(r.skip(0) =~= r);
                assert(s.take(m) == p);
                assert(starts_with(s, p));
            }
        }
    }
}

/// The mark never gets out: whatever a text held, once it is cleaned it does not
/// hold the mark of the command it belongs to.
pub proof fn a_clean_text_never_names_the_mark(mark: u32, s: Seq<char>)
    ensures
        !contains(redacted(Op::AddElement(mark), s), literal(mark)),
{
    let p = literal(mark);
    let w = MARK_GONE@;
    reveal_strlit("0x");
    reveal_strlit("<mark>");
    lemma_hex_len(mark as nat, 8);
    assert forall|k: int| 0 <= k < p.len() implies p[k] != '<' && p[k] != '>' by {
        if k >= 2 {
            lemma_hex_digits(mark as nat, 8, k - 2);
            assert(p[k] == hex(mark as nat, 8)[k - 2]);
        }
    }
    let r = replaced(s, p, w);
    assert forall|i: int| 0 <= i <= r.len() - p.len() implies #[trigger] r.subrange(
        i,
        i + p.len(),
    ) != p by {
        lemma_gone(s, p, w, i);
        assert(r.skip(i).take(p.len() as int) =~= r.subrange(i, i + p.len()));
    }
}

/// Every command names the table and the set of the snippet.
pub proof fn commands_name_the_snippets_set(op: Op)
    ensures
        words_of(op)[2] == FAMILY@,
        words_of(op)[3] == TABLE@,
        op != Op::ListTable ==> words_of(op)[4] == SET@,
{
}

/// A mark is written as `0x` and eight hexadecimal digits.
pub proof fn a_mark_is_written_in_full(mark: u32)
    ensures
        literal(mark).len() == 10,
        literal(mark)[0] == '0' && literal(mark)[1] == 'x',
        literal(mark).skip(2) == hex(mark as nat, 8),
{
    reveal_strlit("0x");
    lemma_hex_len(mark as nat, 8);
    assert(literal(mark).skip(2) =~= hex(mark as nat, 8));
}

/// Looking lists, arming adds the mark and nothing else, disarming empties the
/// set; each in the snippet's table.
pub proof fn each_command_does_one_thing(mark: u32)
    ensures
        words_of(Op::ListSet) == seq!["list"@, "set"@, "inet"@, "colony_firewall"@, "fast_allow"@],
        words_of(Op::ListTable) == seq!["list"@, "table"@, "inet"@, "colony_firewall"@],
        words_of(Op::FlushSet) == seq!["flush"@, "set"@, "inet"@, "colony_firewall"@, "fast_allow"@],
        words_of(Op::AddElement(mark)).len() == 6,
        words_of(Op::AddElement(mark))[0] == "add"@,
        words_of(Op::AddElement(mark))[1] == "element"@,
        words_of(Op::AddElement(mark))[2] == "inet"@,
        words_of(Op::AddElement(mark))[3] == "colony_firewall"@,
        words_of(Op::AddElement(mark))[4] == "fast_allow"@,
        words_of(Op::AddElement(mark))[5] == "{ "@ + literal(mark) + " }"@,
{
}

/// What is replaced is the text that is looked for, each time it stands there;
/// what does not hold it stays as it is.
pub proof fn only_occurrences_are_replaced(s: Seq<char>, p: Seq<char>, w: Seq<char>)
    requires
        p.len() > 0,
    ensures
        replaced(p + s, p, w) == w + replaced(s, p, w),
        !contains(s, p) ==> replaced(s, p, w) == s,
    decreases s.len(),
{
    let t = p + s;
    assert(t.take(p.len() as int) =~= p);
    assert(t.skip(p.len() as int) =~= s);
    if !contains(s, p) && s.len() > 0 {
        if starts_with(s, p) {
            assert(s.subrange(0, 0int + p.len()) =~= s.take(p.len() as int));
            assert(contains(s, p));
        }
        let r = s.skip(1);
        if contains(r, p) {
            let i = choose|i: int|
                0 <= i <= r.len() - p.len() && #[trigger] r.subrange(i, i + p.len()) == p;
            assert(s.subrange(i + 1, i + 1 + p.len()) =~= r.subrange(i, i + p.len()));
        }
        only_occurrences_are_replaced(r, p, w);
        assert(seq![s[0]] + r =~= s);
    }
}

/// Only the command that carries the mark has it taken out; where it does not
/// stand, and in what belongs to another command, nothing changes.
pub proof fn only_the_mark_is_taken_out(mark: u32, s: Seq<char>)
    ensures
        redacted(Op::ListSet, s) == s,
        redacted(Op::ListTable, s) == s,
        redacted(Op::FlushSet, s) == s,
        !contains(s, literal(mark)) ==> redacted(Op::AddElement(mark), s) == s,
        redacted(Op::AddElement(mark), literal(mark) + s) == "<mark>"@ + redacted(
            Op::AddElement(mark),
            s,
        ),
{
    a_mark_is_written_in_full(mark);
    only_occurrences_are_replaced(s, literal(mark), MARK_GONE@);
}

/// An object is absent only if `nft` ran and said so.
pub proof fn only_nft_says_that_something_is_absent(status: String, stderr: String, e: String)
    ensures
        (Failed::Nft { status, stderr }).absent() <==> contains(
            stderr@,
            "No such file or directory"@,
        ),
        !Failed::Run(e).absent(),
{
}

/// Arming looks for the set, and adds the mark if it is there. If it is not, the
/// table is looked for, so that what is missing can be told; any other failure
/// ends it, in words that do not name the mark.
pub proof fn arming_adds_only_to_what_is_there(mark: u32, f: Failed, r: ArmStep)
    ensures
        arm_goes(Op::ListSet, mark, Ok(()), r) ==> r is Run && r->Run_0 == Op::AddElement(mark),
        arm_goes(Op::AddElement(mark), mark, Ok(()), r) ==> r is Armed,
        arm_goes(Op::ListTable, mark, Ok(()), r) ==> r is Failed && r->Failed_0 is Absent
            && r->Failed_0->Absent_0 == Absent::MarkSet,
        f.absent() && arm_goes(Op::ListSet, mark, Err(f), r) ==> r is Run && r->Run_0
            == Op::ListTable,
        f.absent() && arm_goes(Op::ListTable, mark, Err(f), r) ==> r is Failed
            && r->Failed_0 is Absent && r->Failed_0->Absent_0 == Absent::Table,
        !f.absent() && (arm_goes(Op::ListSet, mark, Err(f), r) || arm_goes(
            Op::ListTable,
            mark,
            Err(f),
            r,
        )) ==> r is Failed && r->Failed_0 is Other,
        arm_goes(Op::AddElement(mark), mark, Err(f), r) ==> r is Failed && r->Failed_0 is Other
            && r->Failed_0->Other_0@ == failure_text(Op::AddElement(mark), f),
{
}

/// Words are written with one blank between each two.
pub proof fn words_are_joined_by_blanks(w: Seq<Seq<char>>, last: Seq<char>)
    ensures
        joined_by_blank(Seq::empty()).len() == 0,
        joined_by_blank(seq![last]) == last,
        w.len() > 0 ==> joined_by_blank(w.push(last)) == joined_by_blank(w) + " "@ + last,
{
    assert(w.push(last).drop_last() =~= w);
}

/// A failure says the command, without its mark, and what was said of it, or why
/// it could not be run.
pub proof fn a_failure_names_its_command(op: Op, status: String, stderr: String, e: String)
    ensures
        failure_text(op, Failed::Nft { status, stderr }) == command_text(op) + " failed ("@ + status@
            + "): "@ + trim(redacted(op, stderr@)),
        failure_text(op, Failed::Run(e)) == "running "@ + command_text(op) + ": "@ + e@,
        command_text(op) == redacted(op, "nft "@ + joined_by_blank(words_of(op))),
{
}

/// A mark that everything carries is refused by name.
pub proof fn the_common_mark_is_refused_by_name(mark: u32)
    ensures
        unarmed_text(mark) == "refusing to arm the fast path with mark "@ + literal(mark)
            + ": that is the mark of every socket nothing has marked, and accepting it would accept everything"@,
{
}

} // verus!
