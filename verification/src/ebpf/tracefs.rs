//! Reading tracepoint `format` files.
//!
//! A tracepoint's record layout is published as text. Reading it is what keeps
//! the programs from assuming an offset that a later kernel moves.

use crate::text::{
    a_prefix_comes_off, after_prefix, chars_eq, chars_of, contains, contains_chars, copy_range,
    cutting_keeps_the_pieces, decimal, decimal_numbers_read_back, decimal_value, is_space, lines,
    parse_decimal, rows, split_chars, split_lines, split_on, split_words, strip_prefix_chars, text,
    trim, trim_chars, trimming_takes_what_surrounds, words,
};
use vstd::prelude::*;
use vstd::string::StringExecFns;

verus! {

/// Where a tracefs is looked for, in order.
pub const TRACEFS_FIRST: &'static str = "/sys/kernel/tracing";

pub const TRACEFS_SECOND: &'static str = "/sys/kernel/debug/tracing";

/// What the format file said about `filename`.
#[derive(Debug, Clone, Copy, PartialEq, Eq, Structural)]
pub enum Resolution {
    /// A `__data_loc` field of the expected width, at this byte offset.
    Parsed(u32),
    /// The field exists but this program cannot read it: `__rel_loc` (whose
    /// offset is relative to the field, not the record) or a width other than
    /// 4. The kernel side must be told to skip the filename entirely.
    Unsupported,
}

/// Why there is no answer.
#[derive(Debug)]
pub enum TracefsError {
    /// No tracefs mount, or an empty one.
    NotMounted,
    /// The format file could not be read, for the reason given.
    Unreadable(String),
    /// The file parsed, but has no `filename` field at all.
    NoSuchField,
}

impl TracefsError {
    /// The error as one sentence.
    pub fn message(&self) -> (r: String)
        ensures
            r@ == match *self {
                TracefsError::NotMounted => "no tracefs mount at "@ + TRACEFS_FIRST@ + " or "@
                    + TRACEFS_SECOND@,
                TracefsError::Unreadable(e) => "reading the tracepoint format file: "@ + e@,
                TracefsError::NoSuchField => "the format file declares no `filename` field"@,
            },
    {
        match self {
            TracefsError::NotMounted => {
                let mut s = text("no tracefs mount at ");
                s.append(TRACEFS_FIRST);
                s.append(" or ");
                s.append(TRACEFS_SECOND);
                s
            },
            TracefsError::Unreadable(e) => {
                let mut s = text("reading the tracepoint format file: ");
                s.append(e.as_str());
                s
            },
            TracefsError::NoSuchField => text("the format file declares no `filename` field"),
        }
    }
}

/// The parts of a `field:` line between its semicolons, each trimmed.
pub open spec fn field_parts(line: Seq<char>) -> Option<Seq<Seq<char>>> {
    match after_prefix(trim(line), "field:"@) {
        Some(rest) => Some(split_on(rest, ';').map_values(|p: Seq<char>| trim(p))),
        None => None,
    }
}

/// The number a part gives behind `key`, trimmed.
pub open spec fn number_after(part: Seq<char>, key: Seq<char>) -> Option<nat> {
    match after_prefix(part, key) {
        Some(v) => decimal_value(trim(v), u32::MAX as nat),
        None => None,
    }
}

/// The first of the first `n` parts that is a declaration rather than an
/// attribute.
pub open spec fn declaration(parts: Seq<Seq<char>>, n: int) -> Option<Seq<char>>
    decreases n,
{
    if n <= 0 {
        None
    } else if declaration(parts, n - 1) is Some {
        declaration(parts, n - 1)
    } else if after_prefix(parts[n - 1], "offset:"@) is None && after_prefix(
        parts[n - 1],
        "size:"@,
    ) is None && parts[n - 1].len() > 0 {
        Some(parts[n - 1])
    } else {
        None
    }
}

/// The number given by the last of the first `n` parts that carries `key`.
pub open spec fn last_number(parts: Seq<Seq<char>>, key: Seq<char>, n: int) -> Option<nat>
    decreases n,
{
    if n <= 0 {
        None
    } else if after_prefix(parts[n - 1], key) is Some {
        number_after(parts[n - 1], key)
    } else {
        last_number(parts, key, n - 1)
    }
}

/// Whether the last word of a declaration is `name`.
pub open spec fn declares(decl: Seq<char>, name: Seq<char>) -> bool {
    words(decl).len() > 0 && words(decl).last() == name
}

/// What one line says of `group_dead`: nothing, or its offset when it is one
/// byte wide.
pub open spec fn group_dead_in(line: Seq<char>) -> Option<Option<nat>> {
    match field_parts(line) {
        None => None,
        Some(parts) => {
            let n = parts.len() as int;
            if declaration(parts, n) is Some && declares(
                declaration(parts, n)->Some_0,
                "group_dead"@,
            ) {
                if last_number(parts, "size:"@, n) == Some(1nat) {
                    Some(last_number(parts, "offset:"@, n))
                } else {
                    Some(None)
                }
            } else {
                None
            }
        },
    }
}

/// What the first line from `i` on that declares `group_dead` says of it.
pub open spec fn group_dead_from(ls: Seq<Seq<char>>, i: int) -> Option<nat>
    decreases ls.len() - i,
{
    if i < 0 || i >= ls.len() {
        None
    } else {
        match group_dead_in(ls[i]) {
            Some(r) => r,
            None => group_dead_from(ls, i + 1),
        }
    }
}

proof fn lemma_size_before_offset()
    ensures
        forall|s: Seq<char>|
            #[trigger] after_prefix(s, "offset:"@) is Some ==> after_prefix(s, "size:"@) is None,
{
    reveal_strlit("offset:");
    reveal_strlit("size:");
    assert forall|s: Seq<char>| #[trigger]
        after_prefix(s, "offset:"@) is Some implies after_prefix(s, "size:"@) is None by {
        assert(s.take("offset:"@.len() as int)[0] == 'o');
        if s.len() >= "size:"@.len() && s.take("size:"@.len() as int) == "size:"@ {
            assert(s.take("size:"@.len() as int)[0] == 's');
        }
    }
}

/// The trimmed parts of a `field:` line.
fn parts_of(line: &Vec<char>) -> (r: Option<Vec<Vec<char>>>)
    ensures
        r matches Some(p) ==> field_parts(line@) == Some(rows(p@)) && p@.len() > 0,
        r is None ==> field_parts(line@) is None,
{
    let line = trim_chars(line.as_slice());
    match strip_prefix_chars(line.as_slice(), "field:") {
        None => None,
        Some(rest) => {
            let raw = split_chars(rest.as_slice(), ';');
            let ghost pieces = split_on(rest@, ';');
            let mut out: Vec<Vec<char>> = Vec::new();
            let mut i: usize = 0;
            proof {
                lemma_split_nonempty(rest@, ';');
                assert(rows(raw@).len() == raw@.len());
            }
            while i < raw.len()
                invariant
                    i <= raw@.len(),
                    rows(raw@) == pieces,
                    pieces.len() == raw@.len(),
                    rows(out@) =~= pieces.map_values(|p: Seq<char>| trim(p)).take(i as int),
                    out@.len() == i,
                decreases raw@.len() - i,
            {
                proof {
                    assert(rows(raw@)[i as int] == raw@[i as int]@);
                }
                out.push(trim_chars(raw[i].as_slice()));
                i += 1;
            }
            proof {
                assert(rows(out@) =~= pieces.map_values(|p: Seq<char>| trim(p)));
            }
            Some(out)
        },
    }
}

proof fn lemma_split_nonempty(s: Seq<char>, c: char)
    ensures
        split_on(s, c).len() > 0,
    decreases s.len(),
{
    if s.len() > 0 {
        lemma_split_nonempty(s.drop_last(), c);
    }
}

fn number(part: &Vec<char>) -> (r: Option<u32>)
    ensures
        r matches Some(v) ==> decimal_value(trim(part@), u32::MAX as nat) == Some(v as nat),
        r is None ==> decimal_value(trim(part@), u32::MAX as nat) is None,
{
    let t = trim_chars(part.as_slice());
    match parse_decimal(t.as_slice(), u32::MAX as u64) {
        Some(v) => Some(v as u32),
        None => None,
    }
}

fn last_word_is(decl: &Vec<char>, name: &str) -> (r: bool)
    ensures
        r == declares(decl@, name@),
{
    let w = split_words(decl.as_slice());
    proof {
        assert(rows(w@).len() == w@.len());
    }
    if w.len() == 0 {
        return false;
    }
    let name = chars_of(name);
    proof {
        assert(rows(w@)[w@.len() - 1] == w@[w@.len() - 1]@);
    }
    chars_eq(w[w.len() - 1].as_slice(), name.as_slice())
}

/// Byte offset of `group_dead` in the `sched_process_exit` record, from the
/// text of its format file.
///
/// Keyed on the field name and its declared width. A `group_dead` that is not
/// one byte wide is one this program does not know how to read, and reading it
/// wrong would evict verdicts for processes that are still running.
pub fn parse_exit_group_dead_offset(text: &str) -> (r: Option<u32>)
    ensures
        r matches Some(v) ==> group_dead_from(lines(text@), 0) == Some(v as nat),
        r is None ==> group_dead_from(lines(text@), 0) is None,
{
    let all = split_lines(chars_of(text).as_slice());
    let ghost ls = lines(text@);
    let mut i: usize = 0;
    proof {
        assert(rows(all@).len() == all@.len());
    }
    while i < all.len()
        invariant
            i <= all@.len(),
            rows(all@) == ls,
            ls == lines(text@),
            ls.len() == all@.len(),
            group_dead_from(ls, 0) == group_dead_from(ls, i as int),
        decreases all@.len() - i,
    {
        proof {
            assert(ls[i as int] == all@[i as int]@);
        }
        if let Some(parts) = parts_of(&all[i]) {
            let mut decl: Option<Vec<char>> = None;
            let mut offset: Option<u32> = None;
            let mut size: Option<u32> = None;
            let mut k: usize = 0;
            let ghost ps = rows(parts@);
            proof {
                lemma_size_before_offset();
            }
            while k < parts.len()
                invariant
                    k <= parts@.len(),
                    ps == rows(parts@),
                    decl matches Some(d) ==> declaration(ps, k as int) == Some(d@),
                    decl is None ==> declaration(ps, k as int) is None,
                    offset matches Some(o) ==> last_number(ps, "offset:"@, k as int) == Some(
                        o as nat,
                    ),
                    offset is None ==> last_number(ps, "offset:"@, k as int) is None,
                    size matches Some(o) ==> last_number(ps, "size:"@, k as int) == Some(o as nat),
                    size is None ==> last_number(ps, "size:"@, k as int) is None,
                    forall|s: Seq<char>| #[trigger]
                        after_prefix(s, "offset:"@) is Some ==> after_prefix(s, "size:"@) is None,
                decreases parts@.len() - k,
            {
                proof {
                    assert(ps[k as int] == parts@[k as int]@);
                }
                if let Some(v) = strip_prefix_chars(parts[k].as_slice(), "offset:") {
                    offset = number(&v);
                } else if let Some(v) = strip_prefix_chars(parts[k].as_slice(), "size:") {
                    size = number(&v);
                } else if parts[k].len() > 0 && decl.is_none() {
                    let d = parts[k].clone();
                    proof {
                        assert(d@ =~= parts@[k as int]@);
                    }
                    decl = Some(d);
                }
                k += 1;
            }
            proof {
                assert(ps.len() == parts@.len());
            }
            if let Some(d) = decl {
                if last_word_is(&d, "group_dead") {
                    return match (offset, size) {
                        (Some(off), Some(1)) => Some(off),
                        _ => None,
                    };
                }
            }
        }
        i += 1;
    }
    None
}

/// A name without any `[]` at its end.
pub open spec fn unbracketed(s: Seq<char>) -> Seq<char>
    decreases s.len(),
{
    if s.len() >= 2 && s[s.len() - 2] == '[' && s[s.len() - 1] == ']' {
        unbracketed(s.take(s.len() - 2))
    } else {
        s
    }
}

/// Whether a field declaration names the field `filename`.
pub open spec fn is_filename_decl(decl: Seq<char>) -> bool {
    words(decl).len() > 0 && unbracketed(words(decl).last()) == "filename"@
}

/// Whether a field declaration names the field `filename`.
///
/// The declaration is a C-ish type followed by the name, e.g.
/// `__data_loc char[] filename`. Matching on the last whitespace-separated
/// token avoids matching `filename` inside a type.
fn declares_filename(decl: &Vec<char>) -> (r: bool)
    ensures
        r == is_filename_decl(decl@),
{
    let w = split_words(decl.as_slice());
    proof {
        assert(rows(w@).len() == w@.len());
    }
    if w.len() == 0 {
        return false;
    }
    let last: usize = w.len() - 1;
    let ghost name = w@[last as int]@;
    proof {
        assert(rows(w@)[last as int] == name);
    }
    let mut n: usize = w[last].len();
    proof {
        assert(name.take(n as int) =~= name);
    }
    while n >= 2 && w[last][n - 2] == '[' && w[last][n - 1] == ']'
        invariant
            last < w@.len(),
            name == w@[last as int]@,
            n <= name.len(),
            unbracketed(name.take(n as int)) == unbracketed(name),
        decreases n,
    {
        proof {
            assert(name.take(n as int).take(n - 2) =~= name.take(n - 2));
        }
        n -= 2;
    }
    let cut = copy_range(w[last].as_slice(), 0, n);
    proof {
        assert(cut@ =~= name.take(n as int));
    }
    let goal = chars_of("filename");
    chars_eq(cut.as_slice(), goal.as_slice())
}

/// What follows `key` in the first part from `i` on that carries it.
pub open spec fn first_after(parts: Seq<Seq<char>>, key: Seq<char>, i: int) -> Option<Seq<char>>
    decreases parts.len() - i,
{
    if i < 0 || i >= parts.len() {
        None
    } else if after_prefix(parts[i], key) is Some {
        after_prefix(parts[i], key)
    } else {
        first_after(parts, key, i + 1)
    }
}

fn find_after(parts: &Vec<Vec<char>>, key: &str) -> (r: Option<Vec<char>>)
    ensures
        r matches Some(v) ==> first_after(rows(parts@), key@, 1) == Some(v@),
        r is None ==> first_after(rows(parts@), key@, 1) is None,
{
    let mut i: usize = 1;
    let ghost ps = rows(parts@);
    while i < parts.len()
        invariant
            1 <= i,
            ps == rows(parts@),
            first_after(ps, key@, 1) == first_after(ps, key@, i as int),
        decreases parts@.len() - i,
    {
        proof {
            assert(ps[i as int] == parts@[i as int]@);
        }
        if let Some(v) = strip_prefix_chars(parts[i].as_slice(), key) {
            return Some(v);
        }
        i += 1;
    }
    None
}

/// What one line says of `filename`: nothing, or whether and where it can be
/// read.
pub open spec fn filename_in(line: Seq<char>) -> Option<Resolution> {
    match field_parts(line) {
        None => None,
        Some(parts) => if !is_filename_decl(parts[0]) {
            None
        } else {
            match (first_after(parts, "offset:"@, 1), first_after(parts, "size:"@, 1)) {
                (Some(o), Some(s)) => {
                    let off = decimal_value(trim(o), u32::MAX as nat);
                    let size = decimal_value(trim(s), u32::MAX as nat);
                    if off is Some && size == Some(4nat) && contains(parts[0], "__data_loc"@) {
                        Some(Resolution::Parsed(off->Some_0 as u32))
                    } else {
                        Some(Resolution::Unsupported)
                    }
                },
                _ => Some(Resolution::Unsupported),
            }
        },
    }
}

/// What the first line from `i` on that declares `filename` says of it.
pub open spec fn filename_from(ls: Seq<Seq<char>>, i: int) -> Option<Resolution>
    decreases ls.len() - i,
{
    if i < 0 || i >= ls.len() {
        None
    } else if filename_in(ls[i]) is Some {
        filename_in(ls[i])
    } else {
        filename_from(ls, i + 1)
    }
}

/// Where `filename` sits in the `sched_process_exec` record, from the text of
/// its format file.
///
/// Keyed on the field **name**, not on "the first `__data_loc`". Those happen
/// to coincide on today's kernels, and would stop coinciding the moment a
/// variable-length field is added ahead of `filename`.
pub fn parse_exec_filename_offset(text: &str) -> (r: Result<Resolution, TracefsError>)
    ensures
        r matches Ok(v) ==> filename_from(lines(text@), 0) == Some(v),
        r matches Err(e) ==> e is NoSuchField && filename_from(lines(text@), 0) is None,
{
    let all = split_lines(chars_of(text).as_slice());
    let ghost ls = lines(text@);
    let mut i: usize = 0;
    proof {
        assert(rows(all@).len() == all@.len());
    }
    while i < all.len()
        invariant
            i <= all@.len(),
            rows(all@) == ls,
            ls == lines(text@),
            ls.len() == all@.len(),
            filename_from(ls, 0) == filename_from(ls, i as int),
        decreases all@.len() - i,
    {
        proof {
            assert(ls[i as int] == all@[i as int]@);
        }
        if let Some(parts) = parts_of(&all[i]) {
            proof {
                assert(rows(parts@)[0] == parts@[0]@);
            }
            if declares_filename(&parts[0]) {
                let offset = match find_after(&parts, "offset:") {
                    Some(v) => number(&v),
                    None => None,
                };
                let size = match find_after(&parts, "size:") {
                    Some(v) => number(&v),
                    None => None,
                };
                let offset: u32 = match offset {
                    Some(o) => o,
                    None => {
                        return Ok(Resolution::Unsupported);
                    },
                };
                let size: u32 = match size {
                    Some(o) => o,
                    None => {
                        return Ok(Resolution::Unsupported);
                    },
                };
                if size != 4 || !contains_chars(parts[0].as_slice(), "__data_loc") {
                    return Ok(Resolution::Unsupported);
                }
                return Ok(Resolution::Parsed(offset));
            }
        }
        i += 1;
    }
    Err(TracefsError::NoSuchField)
}

/// Where the tracing filesystem is: the first of its two places that is there
/// and not empty. A bare mount point is what an unmounted one looks like.
pub fn find_tracefs(first_populated: bool, second_populated: bool) -> (r: Option<&'static str>)
    ensures
        match r {
            Some(p) => (first_populated || second_populated) && p@ == (if first_populated {
                TRACEFS_FIRST@
            } else {
                TRACEFS_SECOND@
            }),
            None => !first_populated && !second_populated,
        },
        first_populated ==> (r matches Some(p) && p@ == "/sys/kernel/tracing"@),
        !first_populated && second_populated ==> (r matches Some(p) && p@
            == "/sys/kernel/debug/tracing"@),
        r is None <==> !first_populated && !second_populated,
{
    if first_populated {
        Some(TRACEFS_FIRST)
    } else if second_populated {
        Some(TRACEFS_SECOND)
    } else {
        None
    }
}

/// Where the exec record has the filename, from what reading the format file
/// came to; `None` when there is no tracing filesystem.
pub fn exec_filename_offset(format: &Option<Result<String, String>>) -> (r: Result<
    Resolution,
    TracefsError,
>)
    ensures
        match *format {
            None => r == Err::<Resolution, TracefsError>(TracefsError::NotMounted),
            Some(Err(e)) => r matches Err(TracefsError::Unreadable(t)) && t@ == e@,
            Some(Ok(s)) => match r {
                Ok(v) => filename_from(lines(s@), 0) == Some(v),
                Err(e) => e is NoSuchField && filename_from(lines(s@), 0) is None,
            },
        },
{
    match format {
        None => Err(TracefsError::NotMounted),
        Some(Err(e)) => Err(TracefsError::Unreadable(text(e.as_str()))),
        Some(Ok(s)) => parse_exec_filename_offset(s.as_str()),
    }
}

/// Where the exit record says that the whole process is gone, from what reading
/// the format file came to; `None` when there is no tracing filesystem.
pub fn exit_group_dead_offset(format: &Option<Result<String, String>>) -> (r: Result<
    Option<u32>,
    TracefsError,
>)
    ensures
        match *format {
            None => r == Err::<Option<u32>, TracefsError>(TracefsError::NotMounted),
            Some(Err(e)) => r matches Err(TracefsError::Unreadable(t)) && t@ == e@,
            Some(Ok(s)) => r matches Ok(v) && (match v {
                Some(n) => group_dead_from(lines(s@), 0) == Some(n as nat),
                None => group_dead_from(lines(s@), 0) is None,
            }),
        },
{
    match format {
        None => Err(TracefsError::NotMounted),
        Some(Err(e)) => Err(TracefsError::Unreadable(text(e.as_str()))),
        Some(Ok(s)) => Ok(parse_exit_group_dead_offset(s.as_str())),
    }
}

/// A line of a format file as the kernel writes it: a declaration, the offset,
/// the size, and something more.
pub open spec fn format_line(decl: Seq<char>, off: nat, size: nat, more: Seq<char>) -> Seq<char> {
    seq!['\t'] + "field:"@ + decl + seq![';', '\t'] + "offset:"@ + decimal(off) + seq![';', '\t']
        + "size:"@ + decimal(size) + seq![';'] + more + seq![';']
}

/// Whether a text can be a declaration, or something more, on such a line: it
/// has no semicolon, and no whitespace around it.
pub open spec fn can_stand(t: Seq<char>) -> bool {
    &&& t.len() > 0
    &&& !t.contains(';')
    &&& !is_space(t[0]) && !is_space(t.last())
}

proof fn lemma_digits(n: nat)
    ensures
        decimal(n).len() > 0,
        forall|i: int| 0 <= i < decimal(n).len() ==> '0' <= #[trigger] decimal(n)[i] <= '9',
    decreases n,
{
    if n >= 10 {
        lemma_digits(n / 10);
        let d = decimal(n);
        assert forall|i: int| 0 <= i < d.len() implies '0' <= #[trigger] d[i] <= '9' by {
            if i < d.len() - 1 {
                assert(d[i] == decimal(n / 10)[i]);
            }
        }
    }
}

proof fn lemma_trimmed(t: Seq<char>)
    requires
        t.len() > 0,
        !is_space(t[0]) && !is_space(t.last()),
    ensures
        trim(t) == t,
        trim(seq!['\t'] + t) == t,
{
    let none = Seq::<char>::empty();
    trimming_takes_what_surrounds(none, t, none);
    assert(none + t + none =~= t);
    trimming_takes_what_surrounds(seq!['\t'], t, none);
    assert(seq!['\t'] + t + none =~= seq!['\t'] + t);
}

/// What stands behind a key with a number, as it is sent.
proof fn lemma_keyed(key: Seq<char>, n: nat)
    requires
        key.len() > 0,
        !key.contains(';'),
        !is_space(key[0]),
    ensures
        !(seq!['\t'] + key + decimal(n)).contains(';'),
        trim(seq!['\t'] + key + decimal(n)) == key + decimal(n),
        trim(decimal(n)) == decimal(n),
        after_prefix(key + decimal(n), key) == Some(decimal(n)),
        decimal_value(trim(decimal(n)), u32::MAX as nat) == (if n <= u32::MAX {
            Some(n)
        } else {
            None
        }),
{
    lemma_digits(n);
    let d = decimal(n);
    let p = seq!['\t'] + key + d;
    if p.contains(';') {
        let k = choose|k: int| 0 <= k < p.len() && p[k] == ';';
        if 1 <= k <= key.len() {
            assert(key[k - 1] == ';');
        } else if k > key.len() {
            assert(d[k - 1 - key.len()] == ';');
        }
    }
    let t = key + d;
    assert(t[0] == key[0]);
    assert(t.last() == d.last());
    assert(d.last() == d[d.len() - 1]);
    lemma_trimmed(t);
    assert(p =~= seq!['\t'] + t);
    assert(d[0] == d[0 as int]);
    lemma_trimmed(d);
    a_prefix_comes_off(t, key, d);
    decimal_numbers_read_back(n, u32::MAX as nat, d);
}

proof fn lemma_format_parts(decl: Seq<char>, off: nat, size: nat, more: Seq<char>)
    requires
        can_stand(decl),
        can_stand(more),
    ensures
        field_parts(format_line(decl, off, size, more)) == Some(
            seq![
                decl,
                "offset:"@ + decimal(off),
                "size:"@ + decimal(size),
                more,
                Seq::<char>::empty(),
            ],
        ),
{
    reveal_strlit("field:");
    reveal_strlit("offset:");
    reveal_strlit("size:");
    let none = Seq::<char>::empty();
    let a = seq!['\t'] + "offset:"@ + decimal(off);
    let b = seq!['\t'] + "size:"@ + decimal(size);
    lemma_keyed("offset:"@, off);
    lemma_keyed("size:"@, size);
    let line = format_line(decl, off, size, more);
    let rest = decl + seq![';'] + a + seq![';'] + b + seq![';'] + more + seq![';'] + none;
    let body = "field:"@ + rest;
    assert(line =~= seq!['\t'] + body);
    assert(body[0] == 'f');
    assert(body.last() == ';');
    lemma_trimmed(body);
    a_prefix_comes_off(body, "field:"@, rest);
    cutting_keeps_the_pieces(none, ';', decl);
    cutting_keeps_the_pieces(decl, ';', a);
    cutting_keeps_the_pieces(decl + seq![';'] + a, ';', b);
    cutting_keeps_the_pieces(decl + seq![';'] + a + seq![';'] + b, ';', more);
    cutting_keeps_the_pieces(
        decl + seq![';'] + a + seq![';'] + b + seq![';'] + more,
        ';',
        none,
    );
    let pieces = seq![decl].push(a).push(b).push(more).push(none);
    assert(split_on(rest, ';') == pieces);
    lemma_trimmed(decl);
    lemma_trimmed(more);
    trimming_takes_what_surrounds(none, none, none);
    assert(none + none + none =~= none);
    let parts = field_parts(line)->Some_0;
    assert(parts =~= seq![
        decl,
        "offset:"@ + decimal(off),
        "size:"@ + decimal(size),
        more,
        none,
    ]);
}

proof fn lemma_keys_differ(n: nat)
    ensures
        after_prefix("offset:"@ + decimal(n), "size:"@) is None,
        after_prefix("size:"@ + decimal(n), "offset:"@) is None,
        after_prefix("offset:"@ + decimal(n), "offset:"@) == Some(decimal(n)),
        after_prefix("size:"@ + decimal(n), "size:"@) == Some(decimal(n)),
        after_prefix(Seq::empty(), "size:"@) is None,
        after_prefix(Seq::empty(), "offset:"@) is None,
{
    reveal_strlit("offset:");
    reveal_strlit("size:");
    let a = "offset:"@ + decimal(n);
    let b = "size:"@ + decimal(n);
    a_prefix_comes_off(a, "offset:"@, decimal(n));
    a_prefix_comes_off(b, "size:"@, decimal(n));
    assert(a.take(5)[0] == 'o');
    assert("size:"@[0] == 's');
    if b.len() >= 7 {
        assert(b.take(7)[0] == 's');
        assert("offset:"@[0] == 'o');
    }
}

/// A line that declares `group_dead` says where it is, if it is one byte wide,
/// and that it cannot be used if it is not; a line that declares something else
/// says nothing of it.
pub proof fn the_exit_flag_is_read_off_its_line(
    decl: Seq<char>,
    off: nat,
    size: nat,
    more: Seq<char>,
)
    requires
        can_stand(decl),
        can_stand(more),
        off <= u32::MAX,
        size <= u32::MAX,
        after_prefix(decl, "offset:"@) is None,
        after_prefix(decl, "size:"@) is None,
        after_prefix(more, "offset:"@) is None,
        after_prefix(more, "size:"@) is None,
    ensures
        words(decl).len() > 0 && words(decl).last() == "group_dead"@ ==> group_dead_in(
            format_line(decl, off, size, more),
        ) == Some(
            if size == 1 {
                Some(off)
            } else {
                None
            },
        ),
        words(decl).len() == 0 || words(decl).last() != "group_dead"@ ==> group_dead_in(
            format_line(decl, off, size, more),
        ) is None,
{
    lemma_format_parts(decl, off, size, more);
    lemma_keys_differ(off);
    lemma_keys_differ(size);
    reveal_strlit("offset:");
    reveal_strlit("size:");
    lemma_keyed("offset:"@, off);
    lemma_keyed("size:"@, size);
    let parts = field_parts(format_line(decl, off, size, more))->Some_0;
    assert(parts[0] == decl && parts[1] == "offset:"@ + decimal(off) && parts[2] == "size:"@
        + decimal(size) && parts[3] == more && parts[4].len() == 0);
    reveal_with_fuel(declaration, 6);
    reveal_with_fuel(last_number, 6);
    assert(declaration(parts, 1) == Some(decl));
    assert(declaration(parts, 5) == Some(decl));
    assert(last_number(parts, "size:"@, 5) == Some(size));
    assert(last_number(parts, "offset:"@, 5) == Some(off));
}

/// A line that declares `filename` says where it is, if it is a location of
/// data in four bytes, and that it cannot be read if it is anything else; a line
/// that declares something else says nothing of it.
pub proof fn the_filename_is_read_off_its_line(
    decl: Seq<char>,
    off: nat,
    size: nat,
    more: Seq<char>,
)
    requires
        can_stand(decl),
        can_stand(more),
        off <= u32::MAX,
        size <= u32::MAX,
    ensures
        words(decl).len() > 0 && (words(decl).last() == "filename"@ || words(decl).last()
            == "filename"@ + seq!['[', ']']) ==> filename_in(format_line(decl, off, size, more))
            == Some(
            if size == 4 && contains(decl, "__data_loc"@) {
                Resolution::Parsed(off as u32)
            } else {
                Resolution::Unsupported
            },
        ),
        words(decl).len() == 0 ==> filename_in(format_line(decl, off, size, more)) is None,
        words(decl).len() > 0 && words(decl).last() != "filename"@ && (words(decl).last().len() == 0
            || words(decl).last().last() != ']') ==> filename_in(
            format_line(decl, off, size, more),
        ) is None,
{
    lemma_format_parts(decl, off, size, more);
    lemma_keys_differ(off);
    lemma_keys_differ(size);
    reveal_strlit("offset:");
    reveal_strlit("size:");
    reveal_strlit("filename");
    lemma_keyed("offset:"@, off);
    lemma_keyed("size:"@, size);
    let parts = field_parts(format_line(decl, off, size, more))->Some_0;
    assert(parts[0] == decl && parts[1] == "offset:"@ + decimal(off) && parts[2] == "size:"@
        + decimal(size));
    reveal_with_fuel(first_after, 3);
    assert(first_after(parts, "offset:"@, 1) == Some(decimal(off)));
    assert(first_after(parts, "size:"@, 1) == Some(decimal(size)));
    let f = "filename"@ + seq!['[', ']'];
    assert(f.take(f.len() - 2) =~= "filename"@);
    reveal_with_fuel(unbracketed, 3);
    assert(unbracketed("filename"@) == "filename"@);
    assert(unbracketed(f) == "filename"@);
}

/// The first line that speaks of a field is the one that counts, and a line that
/// declares no field speaks of none.
pub proof fn the_first_declaration_counts(ls: Seq<Seq<char>>, k: int, t: Seq<char>)
    ensures
        0 <= k < ls.len() && group_dead_in(ls[k]) is Some && (forall|j: int|
            0 <= j < k ==> group_dead_in(#[trigger] ls[j]) is None) ==> group_dead_from(ls, 0)
            == group_dead_in(ls[k])->Some_0,
        (forall|j: int| 0 <= j < ls.len() ==> group_dead_in(#[trigger] ls[j]) is None)
            ==> group_dead_from(ls, 0) is None,
        0 <= k < ls.len() && filename_in(ls[k]) is Some && (forall|j: int|
            0 <= j < k ==> filename_in(#[trigger] ls[j]) is None) ==> filename_from(ls, 0)
            == filename_in(ls[k]),
        (forall|j: int| 0 <= j < ls.len() ==> filename_in(#[trigger] ls[j]) is None)
            ==> filename_from(ls, 0) is None,
        after_prefix(trim(t), "field:"@) is None ==> group_dead_in(t) is None && filename_in(
            t,
        ) is None,
{
    if 0 <= k < ls.len() && group_dead_in(ls[k]) is Some && (forall|j: int|
        0 <= j < k ==> group_dead_in(#[trigger] ls[j]) is None) {
        lemma_flag_at(ls, 0, k);
    }
    if forall|j: int| 0 <= j < ls.len() ==> group_dead_in(#[trigger] ls[j]) is None {
        lemma_no_flag(ls, 0);
    }
    if 0 <= k < ls.len() && filename_in(ls[k]) is Some && (forall|j: int|
        0 <= j < k ==> filename_in(#[trigger] ls[j]) is None) {
        lemma_filename_at(ls, 0, k);
    }
    if forall|j: int| 0 <= j < ls.len() ==> filename_in(#[trigger] ls[j]) is None {
        lemma_no_filename(ls, 0);
    }
}

proof fn lemma_flag_at(ls: Seq<Seq<char>>, from: int, k: int)
    requires
        0 <= from <= k < ls.len(),
        group_dead_in(ls[k]) is Some,
        forall|j: int| from <= j < k ==> group_dead_in(#[trigger] ls[j]) is None,
    ensures
        group_dead_from(ls, from) == group_dead_in(ls[k])->Some_0,
    decreases k - from,
{
    if from < k {
        assert(group_dead_in(ls[from]) is None);
        lemma_flag_at(ls, from + 1, k);
    }
}

proof fn lemma_no_flag(ls: Seq<Seq<char>>, from: int)
    requires
        0 <= from <= ls.len(),
        forall|j: int| from <= j < ls.len() ==> group_dead_in(#[trigger] ls[j]) is None,
    ensures
        group_dead_from(ls, from) is None,
    decreases ls.len() - from,
{
    if from < ls.len() {
        assert(group_dead_in(ls[from]) is None);
        lemma_no_flag(ls, from + 1);
    }
}

proof fn lemma_filename_at(ls: Seq<Seq<char>>, from: int, k: int)
    requires
        0 <= from <= k < ls.len(),
        filename_in(ls[k]) is Some,
        forall|j: int| from <= j < k ==> filename_in(#[trigger] ls[j]) is None,
    ensures
        filename_from(ls, from) == filename_in(ls[k]),
    decreases k - from,
{
    if from < k {
        assert(filename_in(ls[from]) is None);
        lemma_filename_at(ls, from + 1, k);
    }
}

proof fn lemma_no_filename(ls: Seq<Seq<char>>, from: int)
    requires
        0 <= from <= ls.len(),
        forall|j: int| from <= j < ls.len() ==> filename_in(#[trigger] ls[j]) is None,
    ensures
        filename_from(ls, from) is None,
    decreases ls.len() - from,
{
    if from < ls.len() {
        assert(filename_in(ls[from]) is None);
        lemma_no_filename(ls, from + 1);
    }
}

/// Of the parts of a line that carry a key the last one counts, whether or not
/// it gives a number; a line none of whose parts carries it gives none.
pub proof fn the_last_part_with_the_key_counts(
    parts: Seq<Seq<char>>,
    key: Seq<char>,
    p: Seq<char>,
)
    ensures
        after_prefix(p, key) is Some ==> last_number(parts.push(p), key, 1int + parts.len())
            == number_after(p, key),
        after_prefix(p, key) is None ==> last_number(parts.push(p), key, 1int + parts.len())
            == last_number(parts, key, parts.len() as int),
        (forall|k: int| 0 <= k < parts.len() ==> after_prefix(#[trigger] parts[k], key) is None)
            ==> last_number(parts, key, parts.len() as int) is None,
{
    lemma_last_number_push(parts, key, p, parts.len() as int);
    lemma_no_last_number(parts, key, parts.len() as int);
}

proof fn lemma_last_number_push(parts: Seq<Seq<char>>, key: Seq<char>, p: Seq<char>, n: int)
    requires
        0 <= n <= parts.len(),
    ensures
        last_number(parts.push(p), key, n) == last_number(parts, key, n),
    decreases n,
{
    if n > 0 {
        lemma_last_number_push(parts, key, p, n - 1);
    }
}

proof fn lemma_no_last_number(parts: Seq<Seq<char>>, key: Seq<char>, n: int)
    requires
        0 <= n <= parts.len(),
    ensures
        (forall|k: int| 0 <= k < parts.len() ==> after_prefix(#[trigger] parts[k], key) is None)
            ==> last_number(parts, key, n) is None,
    decreases n,
{
    if n > 0 {
        lemma_no_last_number(parts, key, n - 1);
    }
}

} // verus!
