//! Finding the cgroup v2 (unified) hierarchy root.
//!
//! The DNS observer attaches to the v2 *root*, which is what makes it
//! system-wide. On a modern systemd host that root is `/sys/fs/cgroup`, but a
//! hybrid or containerised host can put it elsewhere, so the path is read out
//! of the mount table rather than hard-coded.

use crate::text::{
    chars_eq, chars_of, lines, rows, split_chars, split_lines, split_on, split_words,
    string_of, words,
};
use vstd::prelude::*;

verus! {

/// Where the unified hierarchy lives on a systemd host. Preferred when it is
/// one of the mounts, because a hybrid host lists both it and the v1 mounts.
pub const PREFERRED: &'static str = "/sys/fs/cgroup";

/// The components of an absolute path: neither empty ones nor `.` count.
pub open spec fn components(pieces: Seq<Seq<char>>) -> Seq<Seq<char>>
    decreases pieces.len(),
{
    if pieces.len() == 0 {
        Seq::empty()
    } else {
        let c = components(pieces.drop_last());
        if pieces.last().len() == 0 || pieces.last() == "."@ {
            c
        } else {
            c.push(pieces.last())
        }
    }
}

/// Whether a path names the same place as the preferred root: absolute, with
/// the same components.
pub open spec fn is_preferred(path: Seq<char>) -> bool {
    &&& path.len() > 0
    &&& path[0] == '/'
    &&& components(split_on(path, '/')) == components(split_on(PREFERRED@, '/'))
}

/// Whether a character is an octal digit.
pub open spec fn is_octal(c: char) -> bool {
    '0' <= c <= '7'
}

/// The value of three octal digits.
pub open spec fn octal_value(a: char, b: char, c: char) -> int {
    64 * (a as u8 - '0' as u8) + 8 * (b as u8 - '0' as u8) + (c as u8 - '0' as u8)
}

/// The character that an escape's three octal digits write, when their value
/// fits a byte.
pub open spec fn octal_char(a: char, b: char, c: char) -> Option<char> {
    if is_octal(a) && is_octal(b) && is_octal(c) && octal_value(a, b, c) <= 255 {
        Some(octal_value(a, b, c) as u8 as char)
    } else {
        None
    }
}

/// The characters of a mount table field from `i` on with their octal escapes
/// decoded. A backslash that begins no escape stays, and so does every other
/// character.
pub open spec fn unescape_from(s: Seq<char>, i: int) -> Seq<char>
    decreases s.len() - i,
{
    if i < 0 || i >= s.len() {
        Seq::empty()
    } else if s[i] == '\\' && i + 3 < s.len() && octal_char(s[i + 1], s[i + 2], s[i + 3]) is Some {
        seq![octal_char(s[i + 1], s[i + 2], s[i + 3])->Some_0] + unescape_from(s, i + 4)
    } else {
        seq![s[i]] + unescape_from(s, i + 1)
    }
}

/// A mount table field with its octal escapes decoded.
pub open spec fn unescaped(s: Seq<char>) -> Seq<char> {
    unescape_from(s, 0)
}

/// Decodes the octal escapes the kernel writes into the mount table for
/// characters that would otherwise break the column layout (space, tab,
/// newline, backslash).
pub fn unescape(raw: &[char]) -> (r: Vec<char>)
    ensures
        r@ == unescaped(raw@),
{
    let ghost s = raw@;
    let mut out: Vec<char> = Vec::new();
    let mut i: usize = 0;
    while i < raw.len()
        invariant
            raw@ == s,
            i <= s.len(),
            out@ + unescape_from(s, i as int) == unescape_from(s, 0),
        decreases s.len() - i,
    {
        let ghost o0 = out@;
        if raw[i] == '\\' && raw.len() - i > 3 {
            if let Some(code) = octal(raw[i + 1], raw[i + 2], raw[i + 3]) {
                out.push(code);
                proof {
                    assert(out@ + unescape_from(s, i + 4) =~= o0 + unescape_from(s, i as int));
                }
                i += 4;
                continue ;
            }
        }
        out.push(raw[i]);
        proof {
            assert(out@ + unescape_from(s, i + 1) =~= o0 + unescape_from(s, i as int));
        }
        i += 1;
    }
    proof {
        assert(out@ =~= unescape_from(s, 0));
    }
    out
}

fn octal(a: char, b: char, c: char) -> (r: Option<char>)
    ensures
        r == octal_char(a, b, c),
{
    if '0' <= a && a <= '3' && '0' <= b && b <= '7' && '0' <= c && c <= '7' {
        let v: u8 = 64 * (a as u8 - 0x30) + 8 * (b as u8 - 0x30) + (c as u8 - 0x30);
        Some(v as char)
    } else {
        None
    }
}

/// What the kernel writes for a character of a mount point.
pub open spec fn kernel_escape(c: char) -> Seq<char> {
    if c == ' ' {
        seq!['\\', '0', '4', '0']
    } else if c == '\t' {
        seq!['\\', '0', '1', '1']
    } else if c == '\n' {
        seq!['\\', '0', '1', '2']
    } else if c == '\\' {
        seq!['\\', '1', '3', '4']
    } else {
        seq![c]
    }
}

/// What the kernel writes for a mount point.
pub open spec fn kernel_escaped(s: Seq<char>) -> Seq<char>
    decreases s.len(),
{
    if s.len() == 0 {
        Seq::empty()
    } else {
        kernel_escape(s[0]) + kernel_escaped(s.skip(1))
    }
}

/// A path escaped as the kernel escapes it reads back as itself.
pub proof fn an_escaped_path_reads_back(s: Seq<char>)
    ensures
        unescaped(kernel_escaped(s)) == s,
{
    let e = kernel_escaped(s);
    assert(e.skip(0) =~= e);
    lemma_reads_back(s, e, 0);
}

/// A path that holds no backslash is returned unchanged.
pub proof fn a_plain_path_stays(s: Seq<char>)
    requires
        !s.contains('\\'),
    ensures
        unescaped(s) == s,
{
    assert(s.skip(0) =~= s);
    lemma_plain(s, 0);
}

proof fn lemma_plain(s: Seq<char>, i: int)
    requires
        0 <= i <= s.len(),
        !s.contains('\\'),
    ensures
        unescape_from(s, i) == s.skip(i),
    decreases s.len() - i,
{
    if i < s.len() {
        lemma_plain(s, i + 1);
        assert(s.contains(s[i]));
        assert(seq![s[i]] + s.skip(i + 1) =~= s.skip(i));
    } else {
        assert(s.skip(i) =~= Seq::<char>::empty());
    }
}

proof fn lemma_reads_back(s: Seq<char>, e: Seq<char>, i: int)
    requires
        0 <= i <= e.len(),
        e.skip(i) == kernel_escaped(s),
    ensures
        unescape_from(e, i) == s,
    decreases s.len(),
{
    if s.len() == 0 {
        assert(e.skip(i).len() == 0);
        assert(unescape_from(e, i) =~= s);
    } else {
        let w = kernel_escape(s[0]);
        let rest = kernel_escaped(s.skip(1));
        let n = w.len() as int;
        assert(e.skip(i).len() == n + rest.len());
        assert forall|k: int| 0 <= k < n implies #[trigger] e[i + k] == w[k] by {
            assert(e.skip(i)[k] == w[k]);
        }
        assert(e.skip(i + n) =~= rest) by {
            assert forall|k: int| 0 <= k < rest.len() implies e.skip(i + n)[k] == rest[k] by {
                assert(e.skip(i)[n + k] == rest[k]);
            }
        }
        lemma_reads_back(s.skip(1), e, i + n);
        assert(e[i + 0] == w[0]);
        if n == 4 {
            assert(e[i + 1] == w[1]);
            assert(e[i + 2] == w[2]);
            assert(e[i + 3] == w[3]);
            assert(octal_char(w[1], w[2], w[3]) == Some(s[0]));
        }
        assert(unescape_from(e, i) =~= seq![s[0]] + s.skip(1));
        assert(seq![s[0]] + s.skip(1) =~= s);
    }
}

/// The mount point of a mount table line that mounts cgroup v2.
pub open spec fn cgroup2_mount(line: Seq<char>) -> Option<Seq<char>> {
    let w = words(line);
    if w.len() >= 3 && w[2] == "cgroup2"@ {
        Some(unescaped(w[1]))
    } else {
        None
    }
}

/// The first cgroup v2 mount point from line `i` on.
pub open spec fn first_mount(ls: Seq<Seq<char>>, i: int) -> Option<Seq<char>>
    decreases ls.len() - i,
{
    if i < 0 || i >= ls.len() {
        None
    } else if cgroup2_mount(ls[i]) is Some {
        cgroup2_mount(ls[i])
    } else {
        first_mount(ls, i + 1)
    }
}

/// The first cgroup v2 mount point from line `i` on that is the preferred one.
pub open spec fn preferred_mount(ls: Seq<Seq<char>>, i: int) -> Option<Seq<char>>
    decreases ls.len() - i,
{
    if i < 0 || i >= ls.len() {
        None
    } else if cgroup2_mount(ls[i]) is Some && is_preferred(cgroup2_mount(ls[i])->Some_0) {
        cgroup2_mount(ls[i])
    } else {
        preferred_mount(ls, i + 1)
    }
}

/// The cgroup v2 root of a mount table: the preferred place when it is
/// mounted, else the first cgroup v2 mount.
pub open spec fn root_of(mounts: Seq<char>) -> Option<Seq<char>> {
    let ls = lines(mounts);
    if preferred_mount(ls, 0) is Some {
        preferred_mount(ls, 0)
    } else {
        first_mount(ls, 0)
    }
}

fn keep_components(pieces: &Vec<Vec<char>>) -> (r: Vec<Vec<char>>)
    ensures
        rows(r@) == components(rows(pieces@)),
{
    let dot = chars_of(".");
    let mut out: Vec<Vec<char>> = Vec::new();
    let mut i: usize = 0;
    let ghost all = rows(pieces@);
    proof {
        assert(all.take(0) =~= Seq::<Seq<char>>::empty());
        assert(rows(out@) =~= Seq::<Seq<char>>::empty());
    }
    while i < pieces.len()
        invariant
            i <= pieces@.len(),
            all == rows(pieces@),
            dot@ == "."@,
            rows(out@) == components(all.take(i as int)),
        decreases pieces@.len() - i,
    {
        proof {
            assert(all.take(i + 1).drop_last() =~= all.take(i as int));
            assert(all.take(i + 1).last() == pieces@[i as int]@);
        }
        if pieces[i].len() > 0 && !chars_eq(pieces[i].as_slice(), dot.as_slice()) {
            let piece = pieces[i].clone();
            proof {
                assert(piece@ =~= pieces@[i as int]@);
            }
            let ghost o0 = out@;
            let ghost p0 = piece@;
            out.push(piece);
            proof {
                assert(rows(out@) =~= rows(o0).push(p0));
            }
        }
        i += 1;
    }
    proof {
        assert(all.take(all.len() as int) =~= all);
    }
    out
}

fn rows_eq(a: &Vec<Vec<char>>, b: &Vec<Vec<char>>) -> (r: bool)
    ensures
        r == (rows(a@) == rows(b@)),
{
    if a.len() != b.len() {
        proof {
            assert(rows(a@).len() == a@.len());
            assert(rows(b@).len() == b@.len());
        }
        return false;
    }
    let mut i: usize = 0;
    while i < a.len()
        invariant
            a@.len() == b@.len(),
            i <= a@.len(),
            forall|k: int| 0 <= k < i ==> rows(a@)[k] == rows(b@)[k],
        decreases a@.len() - i,
    {
        proof {
            assert(rows(a@)[i as int] == a@[i as int]@);
            assert(rows(b@)[i as int] == b@[i as int]@);
        }
        if !chars_eq(a[i].as_slice(), b[i].as_slice()) {
            return false;
        }
        i += 1;
    }
    proof {
        assert(rows(a@) =~= rows(b@));
    }
    true
}

fn preferred(path: &Vec<char>) -> (r: bool)
    ensures
        r == is_preferred(path@),
{
    if path.len() == 0 || path[0] != '/' {
        return false;
    }
    let goal = chars_of(PREFERRED);
    let a = keep_components(&split_chars(path.as_slice(), '/'));
    let b = keep_components(&split_chars(goal.as_slice(), '/'));
    rows_eq(&a, &b)
}

fn mount_of(line: &Vec<char>) -> (r: Option<Vec<char>>)
    ensures
        r matches Some(v) ==> cgroup2_mount(line@) == Some(v@),
        r is None ==> cgroup2_mount(line@) is None,
{
    let w = split_words(line.as_slice());
    proof {
        assert(rows(w@).len() == w@.len());
    }
    if w.len() < 3 {
        return None;
    }
    let kind = chars_of("cgroup2");
    proof {
        assert(rows(w@)[2] == w@[2]@);
        assert(rows(w@)[1] == w@[1]@);
    }
    if !chars_eq(w[2].as_slice(), kind.as_slice()) {
        return None;
    }
    Some(unescape(w[1].as_slice()))
}

/// Locates the cgroup v2 root in the text of a mount table.
///
/// The columns are `device mountpoint fstype options dump pass`, with octal
/// escapes (`\040` for a space) in the device and mountpoint fields. Only
/// `cgroup2` rows are considered; `cgroup` (v1) rows cannot carry the
/// observer.
pub fn v2_root_from_mounts(mounts: &str) -> (r: Option<String>)
    ensures
        r matches Some(p) ==> root_of(mounts@) == Some(p@),
        r is None ==> root_of(mounts@) is None,
{
    let all = split_lines(chars_of(mounts).as_slice());
    let ghost ls = lines(mounts@);
    let mut first: Option<Vec<char>> = None;
    let mut i: usize = 0;
    proof {
        assert(rows(all@).len() == all@.len());
    }
    while i < all.len()
        invariant
            i <= all@.len(),
            rows(all@) == ls,
            ls == lines(mounts@),
            ls.len() == all@.len(),
            preferred_mount(ls, 0) == preferred_mount(ls, i as int),
            first matches Some(f) ==> first_mount(ls, 0) == Some(f@),
            first is None ==> first_mount(ls, 0) == first_mount(ls, i as int),
        decreases all@.len() - i,
    {
        proof {
            assert(ls[i as int] == all@[i as int]@);
        }
        if let Some(path) = mount_of(&all[i]) {
            if preferred(&path) {
                return Some(string_of(path.as_slice()));
            }
            if first.is_none() {
                first = Some(path);
            }
        }
        i += 1;
    }
    match first {
        Some(f) => Some(string_of(f.as_slice())),
        None => None,
    }
}

/// The usual place is taken wherever in the table it is mounted.
pub proof fn the_usual_root_is_preferred(mounts: Seq<char>, i: int)
    requires
        0 <= i < lines(mounts).len(),
        cgroup2_mount(lines(mounts)[i]) matches Some(p) && is_preferred(p),
    ensures
        root_of(mounts) matches Some(q) && is_preferred(q),
{
    lemma_preferred(lines(mounts), 0, i);
}

proof fn lemma_preferred(ls: Seq<Seq<char>>, from: int, i: int)
    requires
        0 <= from <= i < ls.len(),
        cgroup2_mount(ls[i]) matches Some(p) && is_preferred(p),
    ensures
        preferred_mount(ls, from) matches Some(q) && is_preferred(q),
    decreases i - from,
{
    if from < i {
        lemma_preferred(ls, from + 1, i);
    }
}

/// A table in which nothing mounts cgroup v2 has no root.
pub proof fn without_a_mount_there_is_no_root(mounts: Seq<char>)
    requires
        forall|i: int|
            0 <= i < lines(mounts).len() ==> cgroup2_mount(#[trigger] lines(mounts)[i]) is None,
    ensures
        root_of(mounts) is None,
{
    lemma_no_mount(lines(mounts), 0);
}

proof fn lemma_no_mount(ls: Seq<Seq<char>>, from: int)
    requires
        0 <= from,
        forall|i: int| 0 <= i < ls.len() ==> cgroup2_mount(#[trigger] ls[i]) is None,
    ensures
        preferred_mount(ls, from) is None,
        first_mount(ls, from) is None,
    decreases ls.len() - from,
{
    if from < ls.len() {
        lemma_no_mount(ls, from + 1);
    }
}

/// A line mounts the unified hierarchy if its third word says so, at the place
/// that its second word is the kernel's spelling of.
pub proof fn a_mount_is_read_off_its_line(line: Seq<char>, place: Seq<char>)
    ensures
        words(line).len() < 3 ==> cgroup2_mount(line) is None,
        words(line).len() >= 3 && words(line)[2] != "cgroup2"@ ==> cgroup2_mount(line) is None,
        words(line).len() >= 3 && words(line)[2] == "cgroup2"@ && words(line)[1]
            == kernel_escaped(place) ==> cgroup2_mount(line) == Some(place),
{
    an_escaped_path_reads_back(place);
}

/// Where the usual place is not mounted the root is the first mount.
pub proof fn without_the_usual_place_the_first_mount_counts(mounts: Seq<char>, i: int)
    requires
        0 <= i < lines(mounts).len(),
        cgroup2_mount(lines(mounts)[i]) is Some,
        forall|k: int|
            0 <= k < i ==> cgroup2_mount(#[trigger] lines(mounts)[k]) is None,
        forall|k: int|
            0 <= k < lines(mounts).len() && cgroup2_mount(#[trigger] lines(mounts)[k]) is Some
                ==> !is_preferred(cgroup2_mount(lines(mounts)[k])->Some_0),
    ensures
        root_of(mounts) == cgroup2_mount(lines(mounts)[i]),
{
    lemma_first_mount(lines(mounts), 0, i);
    lemma_none_preferred(lines(mounts), 0);
}

proof fn lemma_first_mount(ls: Seq<Seq<char>>, from: int, i: int)
    requires
        0 <= from <= i < ls.len(),
        cgroup2_mount(ls[i]) is Some,
        forall|k: int| from <= k < i ==> cgroup2_mount(#[trigger] ls[k]) is None,
    ensures
        first_mount(ls, from) == cgroup2_mount(ls[i]),
    decreases i - from,
{
    if from < i {
        assert(cgroup2_mount(ls[from]) is None);
        lemma_first_mount(ls, from + 1, i);
    }
}

proof fn lemma_none_preferred(ls: Seq<Seq<char>>, from: int)
    requires
        0 <= from <= ls.len(),
        forall|k: int|
            from <= k < ls.len() && cgroup2_mount(#[trigger] ls[k]) is Some ==> !is_preferred(
                cgroup2_mount(ls[k])->Some_0,
            ),
    ensures
        preferred_mount(ls, from) is None,
    decreases ls.len() - from,
{
    if from < ls.len() {
        lemma_none_preferred(ls, from + 1);
    }
}

/// A root is a mount of the table.
pub proof fn a_root_is_mounted(mounts: Seq<char>)
    requires
        root_of(mounts) is Some,
    ensures
        exists|k: int|
            0 <= k < lines(mounts).len() && cgroup2_mount(#[trigger] lines(mounts)[k]) == root_of(
                mounts,
            ),
{
    lemma_mounts_are_lines(lines(mounts), 0);
}

proof fn lemma_mounts_are_lines(ls: Seq<Seq<char>>, from: int)
    requires
        0 <= from <= ls.len(),
    ensures
        preferred_mount(ls, from) is Some ==> exists|k: int|
            from <= k < ls.len() && cgroup2_mount(#[trigger] ls[k]) == preferred_mount(ls, from),
        first_mount(ls, from) is Some ==> exists|k: int|
            from <= k < ls.len() && cgroup2_mount(#[trigger] ls[k]) == first_mount(ls, from),
    decreases ls.len() - from,
{
    if from < ls.len() {
        lemma_mounts_are_lines(ls, from + 1);
        assert(cgroup2_mount(ls[from]) == cgroup2_mount(ls[from]));
    }
}

/// The usual place is `/sys/fs/cgroup`, with a slash at its end or without; a
/// path that is not absolute is not it.
pub proof fn the_usual_place(path: Seq<char>)
    ensures
        is_preferred("/sys/fs/cgroup"@),
        is_preferred("/sys/fs/cgroup"@ + seq!['/']),
        path.len() == 0 || path[0] != '/' ==> !is_preferred(path),
{
    reveal_strlit("/sys/fs/cgroup");
    let p = "/sys/fs/cgroup"@;
    let none = Seq::<char>::empty();
    crate::text::cutting_keeps_the_pieces(p, '/', none);
    assert(p + seq!['/'] + none =~= p + seq!['/']);
    let pieces = split_on(p, '/');
    assert(pieces.push(none).drop_last() =~= pieces);
    assert(pieces.push(none).last() == none);
    assert(components(pieces.push(none)) == components(pieces));
}

/// A backslash and three octal digits that fit a byte are one character;
/// everything else stands for itself.
pub proof fn an_octal_escape_is_one_character(a: char, b: char, c: char, rest: Seq<char>)
    ensures
        '0' <= a <= '3' && '0' <= b <= '7' && '0' <= c <= '7' ==> ({
            let u = unescaped(seq!['\\', a, b, c] + rest);
            &&& u.len() == 1 + unescaped(rest).len()
            &&& u[0] as int == 64 * (a as int - '0' as int) + 8 * (b as int - '0' as int) + (c as int
                - '0' as int)
            &&& u.skip(1) == unescaped(rest)
        }),
        a != '\\' ==> unescaped(seq![a] + rest) == seq![a] + unescaped(rest),
        !('0' <= a <= '3' && '0' <= b <= '7' && '0' <= c <= '7') ==> unescaped(
            seq!['\\', a, b, c] + rest,
        ) == seq!['\\'] + unescaped(seq![a, b, c] + rest),
{
    let s = seq!['\\', a, b, c] + rest;
    lemma_shift(s, rest, 4);
    lemma_shift(s, seq![a, b, c] + rest, 1);
    if '0' <= a <= '3' && '0' <= b <= '7' && '0' <= c <= '7' {
        assert(octal_char(s[1], s[2], s[3]) is Some);
        let u = unescaped(s);
        assert(u.skip(1) =~= unescaped(rest));
    }
    let t = seq![a] + rest;
    lemma_shift(t, rest, 1);
    assert(unescape_from(t, 1) == unescaped(rest));
}

proof fn lemma_shift(s: Seq<char>, t: Seq<char>, n: int)
    requires
        0 <= n <= s.len(),
        s.skip(n) =~= t,
    ensures
        unescape_from(s, n) == unescaped(t),
{
    lemma_shift_at(s, t, n, 0);
}

proof fn lemma_shift_at(s: Seq<char>, t: Seq<char>, n: int, i: int)
    requires
        0 <= n <= s.len(),
        0 <= i <= t.len(),
        s.skip(n) =~= t,
    ensures
        unescape_from(s, n + i) == unescape_from(t, i),
    decreases t.len() - i,
{
    if i < t.len() {
        assert(s[n + i] == s.skip(n)[i]);
        lemma_shift_at(s, t, n, i + 1);
        if i + 3 < t.len() {
            assert(s[n + i + 1] == s.skip(n)[i + 1]);
            assert(s[n + i + 2] == s.skip(n)[i + 2]);
            assert(s[n + i + 3] == s.skip(n)[i + 3]);
            lemma_shift_at(s, t, n, i + 4);
        }
    }
}

/// A slash or a dot at the end of a path leads nowhere else; a name does.
pub proof fn a_place_is_its_components(path: Seq<char>, name: Seq<char>)
    requires
        path.len() > 0 && path[0] == '/',
        name.len() > 0,
        !name.contains('/'),
        name != "."@,
    ensures
        is_preferred(path + seq!['/']) <==> is_preferred(path),
        is_preferred(path + seq!['/'] + "."@) <==> is_preferred(path),
        is_preferred(path) ==> !is_preferred(path + seq!['/'] + name),
{
    reveal_strlit(".");
    let none = Seq::<char>::empty();
    let dot = "."@;
    assert(!dot.contains('/'));
    crate::text::cutting_keeps_the_pieces(path, '/', none);
    assert(path + seq!['/'] + none =~= path + seq!['/']);
    crate::text::cutting_keeps_the_pieces(path, '/', dot);
    crate::text::cutting_keeps_the_pieces(path, '/', name);
    let p = split_on(path, '/');
    assert(p.push(none).drop_last() =~= p);
    assert(p.push(dot).drop_last() =~= p);
    assert(p.push(name).drop_last() =~= p);
    assert(components(p.push(name)) == components(p).push(name));
    assert(components(p.push(name)).len() == components(p).len() + 1);
}

} // verus!
