//! Character-level text handling for the line-oriented formats this daemon
//! reads: splitting, trimming, and number parsing, each stated over
//! `Seq<char>`.

use vstd::prelude::*;
use vstd::string::StringExecFns;

verus! {

/// `String::push` appends one character.
pub assume_specification[ String::push ](s: &mut String, ch: char)
    ensures
        final(s)@ == old(s)@.push(ch),
;

/// The contents of a list of character vectors.
pub open spec fn rows(v: Seq<Vec<char>>) -> Seq<Seq<char>> {
    v.map_values(|x: Vec<char>| x@)
}

/// The characters of `s`, in order.
pub fn chars_of(s: &str) -> (r: Vec<char>)
    ensures
        r@ == s@,
{
    let mut out: Vec<char> = Vec::new();
    for c in it: s.chars()
        invariant
            it.seq() == s@,
            out@ == s@.take(it.index()),
    {
        proof {
            assert(s@.take(it.index() + 1) =~= s@.take(it.index()).push(s@[it.index()]));
        }
        out.push(c);
    }
    proof {
        assert(s@.take(s@.len() as int) =~= s@);
    }
    out
}

/// The string made of the given characters.
pub fn string_of(v: &[char]) -> (r: String)
    ensures
        r@ == v@,
{
    let mut out: String = String::new();
    let mut i: usize = 0;
    while i < v.len()
        invariant
            i <= v@.len(),
            out@ == v@.take(i as int),
        decreases v@.len() - i,
    {
        proof {
            assert(v@.take(i + 1) =~= v@.take(i as int).push(v@[i as int]));
        }
        out.push(v[i]);
        i += 1;
    }
    proof {
        assert(v@.take(v@.len() as int) =~= v@);
    }
    out
}

/// Whether two character runs are the same.
pub fn chars_eq(a: &[char], b: &[char]) -> (r: bool)
    ensures
        r == (a@ == b@),
{
    if a.len() != b.len() {
        return false;
    }
    let mut i: usize = 0;
    while i < a.len()
        invariant
            a@.len() == b@.len(),
            i <= a@.len(),
            forall|k: int| 0 <= k < i ==> a@[k] == b@[k],
        decreases a@.len() - i,
    {
        if a[i] != b[i] {
            return false;
        }
        i += 1;
    }
    proof {
        assert(a@ =~= b@);
    }
    true
}

/// Whether two byte runs are the same.
pub fn bytes_eq(a: &[u8], b: &[u8]) -> (r: bool)
    ensures
        r == (a@ == b@),
{
    if a.len() != b.len() {
        return false;
    }
    let mut i: usize = 0;
    while i < a.len()
        invariant
            a@.len() == b@.len(),
            i <= a@.len(),
            forall|k: int| 0 <= k < i ==> a@[k] == b@[k],
        decreases a@.len() - i,
    {
        if a[i] != b[i] {
            return false;
        }
        i += 1;
    }
    proof {
        assert(a@ =~= b@);
    }
    true
}

/// Whether two strings hold the same text.
pub fn same_text(a: &str, b: &str) -> (r: bool)
    ensures
        r == (a@ == b@),
{
    let x = chars_of(a);
    let y = chars_of(b);
    chars_eq(x.as_slice(), y.as_slice())
}

/// The Unicode `White_Space` property.
pub open spec fn is_space(c: char) -> bool {
    ||| 0x9 <= c as u32 <= 0xd
    ||| c as u32 == 0x20
    ||| c as u32 == 0x85
    ||| c as u32 == 0xa0
    ||| c as u32 == 0x1680
    ||| 0x2000 <= c as u32 <= 0x200a
    ||| c as u32 == 0x2028
    ||| c as u32 == 0x2029
    ||| c as u32 == 0x202f
    ||| c as u32 == 0x205f
    ||| c as u32 == 0x3000
}

fn space(c: char) -> (r: bool)
    ensures
        r == is_space(c),
{
    let u: u32 = c as u32;
    (0x9 <= u && u <= 0xd) || u == 0x20 || u == 0x85 || u == 0xa0 || u == 0x1680 || (0x2000 <= u
        && u <= 0x200a) || u == 0x2028 || u == 0x2029 || u == 0x202f || u == 0x205f || u == 0x3000
}

/// `s` cut at every `c`; always at least one piece.
pub open spec fn split_on(s: Seq<char>, c: char) -> Seq<Seq<char>>
    decreases s.len(),
{
    if s.len() == 0 {
        seq![Seq::<char>::empty()]
    } else {
        let p = split_on(s.drop_last(), c);
        if s.last() == c {
            p.push(Seq::empty())
        } else {
            p.drop_last().push(p.last().push(s.last()))
        }
    }
}

proof fn lemma_split_on_some(s: Seq<char>, c: char)
    ensures
        split_on(s, c).len() > 0,
    decreases s.len(),
{
    if s.len() > 0 {
        lemma_split_on_some(s.drop_last(), c);
    }
}

/// The pieces of `s` between occurrences of `c`.
pub fn split_chars(s: &[char], c: char) -> (r: Vec<Vec<char>>)
    ensures
        rows(r@) == split_on(s@, c),
{
    let mut done: Vec<Vec<char>> = Vec::new();
    let mut cur: Vec<char> = Vec::new();
    let mut i: usize = 0;
    proof {
        assert(s@.take(0) =~= Seq::<char>::empty());
        assert(rows(done@).push(cur@) =~= split_on(s@.take(0), c));
    }
    while i < s.len()
        invariant
            i <= s@.len(),
            rows(done@).push(cur@) == split_on(s@.take(i as int), c),
        decreases s@.len() - i,
    {
        let ghost next = s@.take(i + 1);
        proof {
            assert(next.drop_last() =~= s@.take(i as int));
            assert(next.last() == s@[i as int]);
            let p = split_on(s@.take(i as int), c);
            assert(p.last() == cur@);
            assert(p.drop_last() =~= rows(done@));
        }
        if s[i] == c {
            let ghost before = rows(done@).push(cur@);
            let ghost fin = cur@;
            let mut piece: Vec<char> = Vec::new();
            std::mem::swap(&mut piece, &mut cur);
            let ghost d0 = done@;
            done.push(piece);
            proof {
                assert(rows(done@) =~= rows(d0).push(fin));
                assert(cur@ =~= Seq::<char>::empty());
                assert(rows(done@).push(cur@) =~= split_on(next, c));
            }
        } else {
            let ghost c0 = cur@;
            cur.push(s[i]);
            proof {
                assert(rows(done@).push(cur@) =~= split_on(next, c));
            }
        }
        i += 1;
    }
    proof {
        assert(s@.take(s@.len() as int) =~= s@);
    }
    let ghost d0 = done@;
    let ghost c0 = cur@;
    done.push(cur);
    proof {
        assert(rows(done@) =~= rows(d0).push(c0));
    }
    done
}

/// A line without its carriage return.
pub open spec fn strip_cr(s: Seq<char>) -> Seq<char> {
    if s.len() > 0 && s.last() == '\r' {
        s.drop_last()
    } else {
        s
    }
}

/// The lines of `s`. A line ends at `\n` or `\r\n`; the last one may lack its
/// ending, and then keeps whatever it holds.
pub open spec fn lines(s: Seq<char>) -> Seq<Seq<char>> {
    let p = split_on(s, '\n');
    let ended = p.drop_last().map_values(|l: Seq<char>| strip_cr(l));
    if p.last().len() == 0 {
        ended
    } else {
        ended.push(p.last())
    }
}

/// The lines of `s`.
pub fn split_lines(s: &[char]) -> (r: Vec<Vec<char>>)
    ensures
        rows(r@) == lines(s@),
{
    let mut pieces = split_chars(s, '\n');
    proof {
        lemma_split_on_some(s@, '\n');
        assert(rows(pieces@).len() == pieces@.len());
    }
    let ghost p = split_on(s@, '\n');
    let mut out: Vec<Vec<char>> = Vec::new();
    let mut i: usize = 0;
    let n: usize = pieces.len() - 1;
    let ghost ended = p.drop_last().map_values(|l: Seq<char>| strip_cr(l));
    proof {
        assert(rows(out@) =~= ended.take(0));
    }
    while i < n
        invariant
            i <= n,
            n + 1 == pieces@.len(),
            rows(pieces@) == p,
            ended == p.drop_last().map_values(|l: Seq<char>| strip_cr(l)),
            rows(out@) == ended.take(i as int),
        decreases n - i,
    {
        let mut line = pieces[i].clone();
        proof {
            assert(line@ =~= pieces@[i as int]@);
            assert(rows(pieces@)[i as int] == p[i as int]);
            assert(ended[i as int] == strip_cr(p[i as int]));
        }
        let len: usize = line.len();
        if len > 0 && line[len - 1] == '\r' {
            let _ = line.pop();
            proof {
                assert(line@ =~= p[i as int].drop_last());
            }
        }
        let ghost o0 = out@;
        let ghost l0 = line@;
        out.push(line);
        proof {
            assert(l0 == strip_cr(p[i as int]));
            assert(rows(out@) =~= rows(o0).push(l0));
            assert(ended.take(i + 1) =~= ended.take(i as int).push(ended[i as int]));
        }
        i += 1;
    }
    proof {
        assert(ended.take(n as int) =~= ended);
        assert(rows(pieces@)[n as int] == p[n as int]);
        assert(p.last() == pieces@[n as int]@);
    }
    if pieces[n].len() > 0 {
        let last = pieces[n].clone();
        proof {
            assert(last@ =~= pieces@[n as int]@);
        }
        let ghost o0 = out@;
        let ghost l0 = last@;
        out.push(last);
        proof {
            assert(rows(out@) =~= rows(o0).push(l0));
        }
    }
    out
}

/// The whitespace-separated words of `s`, none of them empty.
pub open spec fn words(s: Seq<char>) -> Seq<Seq<char>>
    decreases s.len(),
{
    let st = word_state(s);
    if st.1.len() == 0 {
        st.0
    } else {
        st.0.push(st.1)
    }
}

/// The words that have ended within `s`, and the one still open at its end.
pub open spec fn word_state(s: Seq<char>) -> (Seq<Seq<char>>, Seq<char>)
    decreases s.len(),
{
    if s.len() == 0 {
        (Seq::empty(), Seq::empty())
    } else {
        let st = word_state(s.drop_last());
        if !is_space(s.last()) {
            (st.0, st.1.push(s.last()))
        } else if st.1.len() == 0 {
            st
        } else {
            (st.0.push(st.1), Seq::empty())
        }
    }
}

/// The whitespace-separated words of `s`.
pub fn split_words(s: &[char]) -> (r: Vec<Vec<char>>)
    ensures
        rows(r@) == words(s@),
{
    let mut done: Vec<Vec<char>> = Vec::new();
    let mut cur: Vec<char> = Vec::new();
    let mut i: usize = 0;
    proof {
        assert(s@.take(0) =~= Seq::<char>::empty());
        assert(rows(done@) =~= Seq::<Seq<char>>::empty());
        assert(cur@ =~= Seq::<char>::empty());
    }
    while i < s.len()
        invariant
            i <= s@.len(),
            rows(done@) == word_state(s@.take(i as int)).0,
            cur@ == word_state(s@.take(i as int)).1,
        decreases s@.len() - i,
    {
        let ghost next = s@.take(i + 1);
        proof {
            assert(next.drop_last() =~= s@.take(i as int));
            assert(next.last() == s@[i as int]);
        }
        if !space(s[i]) {
            cur.push(s[i]);
        } else if cur.len() > 0 {
            let mut piece: Vec<char> = Vec::new();
            std::mem::swap(&mut piece, &mut cur);
            let ghost d0 = done@;
            let ghost p0 = piece@;
            done.push(piece);
            proof {
                assert(rows(done@) =~= rows(d0).push(p0));
                assert(cur@ =~= Seq::<char>::empty());
            }
        }
        i += 1;
    }
    proof {
        assert(s@.take(s@.len() as int) =~= s@);
    }
    if cur.len() > 0 {
        let ghost d0 = done@;
        let ghost p0 = cur@;
        done.push(cur);
        proof {
            assert(rows(done@) =~= rows(d0).push(p0));
        }
    }
    done
}

/// `s` without leading whitespace.
pub open spec fn trim_start(s: Seq<char>) -> Seq<char>
    decreases s.len(),
{
    if s.len() > 0 && is_space(s[0]) {
        trim_start(s.skip(1))
    } else {
        s
    }
}

/// `s` without trailing whitespace.
pub open spec fn trim_end(s: Seq<char>) -> Seq<char>
    decreases s.len(),
{
    if s.len() > 0 && is_space(s.last()) {
        trim_end(s.drop_last())
    } else {
        s
    }
}

/// `s` without surrounding whitespace.
pub open spec fn trim(s: Seq<char>) -> Seq<char> {
    trim_end(trim_start(s))
}

/// A copy of `s[from..to]`.
pub fn copy_range(s: &[char], from: usize, to: usize) -> (r: Vec<char>)
    requires
        from <= to <= s@.len(),
    ensures
        r@ == s@.subrange(from as int, to as int),
{
    let mut out: Vec<char> = Vec::new();
    let mut i: usize = from;
    while i < to
        invariant
            from <= i <= to <= s@.len(),
            out@ == s@.subrange(from as int, i as int),
        decreases to - i,
    {
        proof {
            assert(s@.subrange(from as int, i + 1) =~= s@.subrange(from as int, i as int).push(
                s@[i as int],
            ));
        }
        out.push(s[i]);
        i += 1;
    }
    out
}

/// `s` without surrounding whitespace.
pub fn trim_chars(s: &[char]) -> (r: Vec<char>)
    ensures
        r@ == trim(s@),
{
    let mut i: usize = 0;
    proof {
        assert(s@.skip(0) =~= s@);
    }
    while i < s.len() && space(s[i])
        invariant
            i <= s@.len(),
            trim_start(s@.skip(i as int)) == trim_start(s@),
        decreases s@.len() - i,
    {
        proof {
            assert(s@.skip(i as int).skip(1) =~= s@.skip(i + 1));
            assert(s@.skip(i as int)[0] == s@[i as int]);
        }
        i += 1;
    }
    let ghost mid = s@.skip(i as int);
    proof {
        if i < s@.len() {
            assert(mid[0] == s@[i as int]);
        }
        assert(trim_start(s@) == mid);
    }
    let mut j: usize = s.len();
    proof {
        assert(s@.subrange(i as int, j as int) =~= mid);
    }
    while j > i && space(s[j - 1])
        invariant
            i <= j <= s@.len(),
            trim_end(s@.subrange(i as int, j as int)) == trim_end(mid),
        decreases j,
    {
        proof {
            let cut = s@.subrange(i as int, j as int);
            assert(cut.last() == s@[j - 1]);
            assert(cut.drop_last() =~= s@.subrange(i as int, j - 1));
        }
        j -= 1;
    }
    proof {
        let cut = s@.subrange(i as int, j as int);
        if j > i {
            assert(cut.last() == s@[j - 1]);
        }
        assert(trim_end(cut) == cut);
    }
    copy_range(s, i, j)
}

/// Whether `s` begins with `p`.
pub open spec fn starts_with(s: Seq<char>, p: Seq<char>) -> bool {
    s.len() >= p.len() && s.take(p.len() as int) == p
}

/// What follows the prefix `p` in `s`, or `None` when `s` does not begin with it.
pub open spec fn after_prefix(s: Seq<char>, p: Seq<char>) -> Option<Seq<char>> {
    if starts_with(s, p) {
        Some(s.skip(p.len() as int))
    } else {
        None
    }
}

/// What follows the prefix `p` in `s`.
pub fn strip_prefix_chars(s: &[char], p: &str) -> (r: Option<Vec<char>>)
    ensures
        r matches Some(v) ==> after_prefix(s@, p@) == Some(v@),
        r is None ==> after_prefix(s@, p@) is None,
{
    let p = chars_of(p);
    if s.len() < p.len() {
        return None;
    }
    let head = copy_range(s, 0, p.len());
    proof {
        assert(head@ =~= s@.take(p@.len() as int));
    }
    if !chars_eq(head.as_slice(), p.as_slice()) {
        return None;
    }
    let tail = copy_range(s, p.len(), s.len());
    proof {
        assert(tail@ =~= s@.skip(p@.len() as int));
    }
    Some(tail)
}

/// Whether `p` occurs in `s`.
pub open spec fn contains(s: Seq<char>, p: Seq<char>) -> bool {
    exists|i: int| 0 <= i <= s.len() - p.len() && #[trigger] s.subrange(i, i + p.len()) == p
}

/// Whether `p` occurs in `s`.
pub fn contains_chars(s: &[char], p: &str) -> (r: bool)
    ensures
        r == contains(s@, p@),
{
    let needle = chars_of(p);
    if s.len() < needle.len() {
        return false;
    }
    let n: usize = s.len();
    let last: usize = n - needle.len();
    let mut i: usize = 0;
    loop
        invariant
            i <= last,
            n == s@.len(),
            needle@ == p@,
            last == s@.len() - p@.len(),
            forall|k: int| 0 <= k < i ==> #[trigger] s@.subrange(k, k + p@.len()) != p@,
        decreases last - i,
    {
        assert(i + needle@.len() <= n);
        let cut = copy_range(s, i, i + needle.len());
        if chars_eq(cut.as_slice(), needle.as_slice()) {
            return true;
        }
        if i == last {
            return false;
        }
        i += 1;
    }
}

/// Whether `c` is one of `0` to `9`.
pub open spec fn is_digit(c: char) -> bool {
    '0' <= c <= '9'
}

/// The number written by a run of digits.
pub open spec fn digits_value(s: Seq<char>) -> nat
    decreases s.len(),
{
    if s.len() == 0 {
        0
    } else {
        10 * digits_value(s.drop_last()) + (s.last() as nat - '0' as nat) as nat
    }
}

/// The digits of a decimal number, which may carry a plus sign.
pub open spec fn unsigned_digits(s: Seq<char>) -> Seq<char> {
    if s.len() > 0 && s[0] == '+' {
        s.skip(1)
    } else {
        s
    }
}

/// The decimal number that `s` writes, when it is one and is at most `max`.
pub open spec fn decimal_value(s: Seq<char>, max: nat) -> Option<nat> {
    let d = unsigned_digits(s);
    if d.len() > 0 && (forall|i: int| 0 <= i < d.len() ==> is_digit(#[trigger] d[i]))
        && digits_value(d) <= max {
        Some(digits_value(d))
    } else {
        None
    }
}

proof fn lemma_digits_grow(s: Seq<char>, n: int)
    requires
        0 <= n <= s.len(),
        forall|i: int| 0 <= i < s.len() ==> is_digit(#[trigger] s[i]),
    ensures
        digits_value(s.take(n)) <= digits_value(s),
    decreases s.len(),
{
    if n == s.len() {
        assert(s.take(n) =~= s);
    } else {
        let d = s.drop_last();
        assert forall|i: int| 0 <= i < d.len() implies is_digit(#[trigger] d[i]) by {
            assert(d[i] == s[i]);
        }
        lemma_digits_grow(d, n);
        assert(d.take(n) =~= s.take(n));
        assert(is_digit(s[s.len() - 1]));
    }
}

/// Reads an unsigned decimal number of at most `max`.
pub fn parse_decimal(s: &[char], max: u64) -> (r: Option<u64>)
    ensures
        r matches Some(v) ==> decimal_value(s@, max as nat) == Some(v as nat),
        r is None ==> decimal_value(s@, max as nat) is None,
{
    let mut from: usize = 0;
    if s.len() > 0 && s[0] == '+' {
        from = 1;
    }
    let ghost d = unsigned_digits(s@);
    proof {
        assert(d =~= s@.skip(from as int));
    }
    if from == s.len() {
        return None;
    }
    let mut v: u64 = 0;
    let mut i: usize = from;
    let ghost n = s@.len();
    proof {
        assert(d.take(0) =~= Seq::<char>::empty());
    }
    while i < s.len()
        invariant
            from <= i <= s@.len(),
            d == s@.skip(from as int),
            d == unsigned_digits(s@),
            v as nat == digits_value(d.take(i - from)),
            v <= max,
            forall|k: int| 0 <= k < i - from ==> is_digit(#[trigger] d[k]),
        decreases s@.len() - i,
    {
        let c: char = s[i];
        proof {
            assert(d[i - from] == s@[i as int]);
        }
        if c < '0' || c > '9' {
            proof {
                assert(!is_digit(d[i - from]));
            }
            return None;
        }
        let digit: u64 = (c as u64) - ('0' as u64);
        proof {
            assert(d.take(i - from + 1).drop_last() =~= d.take(i - from));
            assert(d.take(i - from + 1).last() == c);
            assert(digits_value(d.take(i - from + 1)) == 10 * v + digit);
            if decimal_value(s@, max as nat) is Some {
                lemma_digits_grow(d, i - from + 1);
            }
        }
        if v > max / 10 {
            return None;
        }
        let ten: u64 = v * 10;
        if digit > max - ten {
            return None;
        }
        v = ten + digit;
        i += 1;
    }
    proof {
        assert(d.take(d.len() as int) =~= d);
    }
    Some(v)
}

/// An ASCII letter in lower case; any other character as it is.
pub open spec fn lower(c: char) -> char {
    if 'A' <= c <= 'Z' {
        ((c as u8) + 32) as u8 as char
    } else {
        c
    }
}

/// `s` with its ASCII letters in lower case.
pub open spec fn lowercase(s: Seq<char>) -> Seq<char> {
    s.map_values(|c: char| lower(c))
}

/// `s` with its ASCII letters in lower case.
pub fn lowercase_chars(s: &[char]) -> (r: Vec<char>)
    ensures
        r@ == lowercase(s@),
{
    let mut out: Vec<char> = Vec::new();
    let mut i: usize = 0;
    while i < s.len()
        invariant
            i <= s@.len(),
            out@ =~= lowercase(s@).take(i as int),
        decreases s@.len() - i,
    {
        let c: char = s[i];
        let l: char = if 'A' <= c && c <= 'Z' {
            (c as u8 + 32) as char
        } else {
            c
        };
        out.push(l);
        i += 1;
    }
    proof {
        assert(out@ =~= lowercase(s@));
    }
    out
}

/// The character for one decimal or hexadecimal digit.
pub open spec fn digit_char(d: nat) -> char {
    if d < 10 {
        (48 + d) as u8 as char
    } else {
        (87 + d) as u8 as char
    }
}

fn digit(d: u8) -> (r: char)
    requires
        d < 16,
    ensures
        r == digit_char(d as nat),
{
    if d < 10 {
        (48 + d) as char
    } else {
        (87 + d) as char
    }
}

/// `n` written in decimal.
pub open spec fn decimal(n: nat) -> Seq<char>
    decreases n,
{
    if n < 10 {
        seq![digit_char(n)]
    } else {
        decimal(n / 10).push(digit_char(n % 10))
    }
}

/// Appends `n` in decimal.
pub fn push_decimal(s: &mut String, n: u64)
    ensures
        final(s)@ == old(s)@ + decimal(n as nat),
    decreases n,
{
    if n < 10 {
        s.push(digit(n as u8));
        proof {
            assert(s@ =~= old(s)@ + decimal(n as nat));
        }
    } else {
        push_decimal(s, n / 10);
        s.push(digit((n % 10) as u8));
        proof {
            assert(s@ =~= old(s)@ + decimal(n as nat));
        }
    }
}

/// `n` written in decimal, with its sign when it is negative.
pub open spec fn signed(n: int) -> Seq<char> {
    if n < 0 {
        "-"@ + decimal((-n) as nat)
    } else {
        decimal(n as nat)
    }
}

/// Appends `n` in decimal, with its sign when it is negative.
pub fn push_signed(s: &mut String, n: i32)
    ensures
        final(s)@ == old(s)@ + signed(n as int),
{
    if n < 0 {
        s.append("-");
        push_decimal(s, (-(n as i64)) as u64);
        proof {
            assert(s@ =~= old(s)@ + signed(n as int));
        }
    } else {
        push_decimal(s, n as u64);
    }
}

/// The low `width` hexadecimal digits of `n`.
pub open spec fn hex(n: nat, width: nat) -> Seq<char>
    decreases width,
{
    if width == 0 {
        Seq::empty()
    } else {
        hex(n / 16, (width - 1) as nat).push(digit_char(n % 16))
    }
}

/// Appends the low `width` hexadecimal digits of `n`.
pub fn push_hex(s: &mut String, n: u64, width: u8)
    ensures
        final(s)@ == old(s)@ + hex(n as nat, width as nat),
    decreases width,
{
    if width > 0 {
        push_hex(s, n / 16, width - 1);
        s.push(digit((n % 16) as u8));
    }
    proof {
        assert(s@ =~= old(s)@ + hex(n as nat, width as nat));
    }
}

/// `n` written in octal, without leading zeroes.
pub open spec fn octal(n: nat) -> Seq<char>
    decreases n,
{
    if n < 8 {
        seq![digit_char(n)]
    } else {
        octal(n / 8).push(digit_char(n % 8))
    }
}

/// Appends `n` in octal.
pub fn push_octal(s: &mut String, n: u32)
    ensures
        final(s)@ == old(s)@ + octal(n as nat),
    decreases n,
{
    if n >= 8 {
        push_octal(s, n / 8);
    }
    s.push(digit((n % 8) as u8));
    proof {
        assert(s@ =~= old(s)@ + octal(n as nat));
    }
}

/// Two texts joined.
pub fn joined(a: &str, b: &str) -> (r: String)
    ensures
        r@ == a@ + b@,
{
    let mut s = text(a);
    s.append(b);
    s
}

/// Three texts joined.
pub fn joined3(a: &str, b: &str, c: &str) -> (r: String)
    ensures
        r@ == a@ + b@ + c@,
{
    let mut s = text(a);
    s.append(b);
    s.append(c);
    s
}

/// A fresh copy of a literal.
pub fn text(s: &str) -> (r: String)
    ensures
        r@ == s@,
{
    let mut out: String = String::new();
    out.append(s);
    proof {
        assert(out@ =~= s@);
    }
    out
}

/// The contents of a list of strings.
pub open spec fn texts(v: Seq<String>) -> Seq<Seq<char>> {
    v.map_values(|s: String| s@)
}

/// Lower case changes the capital letters of ASCII, each to its small one, and
/// nothing else.
pub proof fn lower_case_touches_capitals_only(s: Seq<char>, i: int)
    requires
        0 <= i < s.len(),
    ensures
        lowercase(s).len() == s.len(),
        'A' <= s[i] <= 'Z' ==> lowercase(s)[i] as int == s[i] as int - 'A' as int + 'a' as int,
        !('A' <= s[i] <= 'Z') ==> lowercase(s)[i] == s[i],
{
}

/// Of ASCII, the blank and the five control characters from the tab to the
/// carriage return are whitespace, and nothing else is.
pub proof fn ascii_whitespace(c: char)
    ensures
        c as int <= 127 ==> (is_space(c) <==> (c == ' ' || 9 <= c as int <= 13)),
        is_space(' ') && is_space('\t') && is_space('\n') && is_space('\r'),
{
}

/// Whether every character is whitespace.
pub open spec fn all_space(s: Seq<char>) -> bool {
    forall|i: int| 0 <= i < s.len() ==> is_space(#[trigger] s[i])
}

/// Trimming takes the whitespace around a text, all of it and nothing else.
pub proof fn trimming_takes_what_surrounds(a: Seq<char>, t: Seq<char>, b: Seq<char>)
    requires
        all_space(a),
        all_space(b),
        t.len() > 0 ==> !is_space(t[0]) && !is_space(t.last()),
    ensures
        trim(a + t + b) == t,
{
    lemma_trim_start(a, t + b);
    assert(a + t + b =~= a + (t + b));
    if t.len() > 0 {
        assert((t + b)[0] == t[0]);
        assert(trim_start(t + b) == t + b);
        lemma_trim_end(t, b);
        assert(trim_end(t) == t);
    } else {
        assert(t + b =~= b);
        lemma_trim_start(b, t);
        assert(b + t =~= b);
        assert(trim_start(t) == t);
        assert(trim_end(t) == t);
    }
}

proof fn lemma_trim_start(a: Seq<char>, s: Seq<char>)
    requires
        all_space(a),
    ensures
        trim_start(a + s) == trim_start(s),
    decreases a.len(),
{
    if a.len() == 0 {
        assert(a + s =~= s);
    } else {
        assert((a + s)[0] == a[0]);
        assert((a + s).skip(1) =~= a.skip(1) + s);
        lemma_trim_start(a.skip(1), s);
    }
}

proof fn lemma_trim_end(s: Seq<char>, b: Seq<char>)
    requires
        all_space(b),
    ensures
        trim_end(s + b) == trim_end(s),
    decreases b.len(),
{
    if b.len() == 0 {
        assert(s + b =~= s);
    } else {
        assert((s + b).last() == b.last());
        assert((s + b).drop_last() =~= s + b.drop_last());
        lemma_trim_end(s, b.drop_last());
    }
}

/// A number is written with its last decimal digit last, and before it the
/// number that is left; a single digit is the character that many places after
/// `0`. What is written so is read back, with a plus sign or without; what has
/// anything but digits, or none, is no number.
pub proof fn decimal_numbers_read_back(n: nat, max: nat, s: Seq<char>)
    ensures
        n < 10 ==> decimal(n).len() == 1 && decimal(n)[0] as int == '0' as int + n,
        n >= 10 ==> decimal(n) == decimal(n / 10) + decimal(n % 10),
        decimal_value(decimal(n), max) == (if n <= max {
            Some(n)
        } else {
            None
        }),
        decimal_value("+"@ + decimal(n), max) == (if n <= max {
            Some(n)
        } else {
            None
        }),
        decimal_value(s, max) is Some ==> s.len() > 0 && (forall|i: int|
            1 <= i < s.len() ==> '0' <= #[trigger] s[i] <= '9') && ('0' <= s[0] <= '9' || (s[0]
            == '+' && s.len() > 1)),
    decreases n,
{
    reveal_strlit("+");
    lemma_decimal(n);
    let d = decimal(n);
    assert(unsigned_digits(d) == d);
    let e = "+"@ + d;
    assert(e[0] == '+');
    assert(e.skip(1) =~= d);
    if n >= 10 {
        assert(decimal(n) =~= decimal(n / 10) + decimal(n % 10));
    }
    if decimal_value(s, max) is Some {
        let u = unsigned_digits(s);
        assert forall|i: int| 1 <= i < s.len() implies '0' <= #[trigger] s[i] <= '9' by {
            if s[0] == '+' {
                assert(is_digit(u[i - 1]));
            } else {
                assert(is_digit(u[i]));
            }
        }
        assert(is_digit(u[0]));
    }
}

proof fn lemma_decimal(n: nat)
    ensures
        decimal(n).len() > 0,
        forall|i: int| 0 <= i < decimal(n).len() ==> is_digit(#[trigger] decimal(n)[i]),
        digits_value(decimal(n)) == n,
        decimal(n)[0] != '+',
    decreases n,
{
    if n >= 10 {
        lemma_decimal(n / 10);
        let d = decimal(n);
        assert(d.drop_last() =~= decimal(n / 10));
        assert(d.last() == digit_char(n % 10));
        assert forall|i: int| 0 <= i < d.len() implies is_digit(#[trigger] d[i]) by {
            if i < d.len() - 1 {
                assert(d[i] == decimal(n / 10)[i]);
            }
        }
        assert(is_digit(d[0]));
    } else {
        let d = decimal(n);
        assert(d.drop_last() =~= Seq::<char>::empty());
        assert(digits_value(Seq::<char>::empty()) == 0);
        assert(d.last() == digit_char(n));
    }
}

/// Digits are worth ten times what stands before them, and themselves.
pub proof fn digits_are_worth_their_places(s: Seq<char>, c: char)
    requires
        '0' <= c <= '9',
    ensures
        digits_value(Seq::<char>::empty()) == 0,
        digits_value(s.push(c)) == 10 * digits_value(s) + (c as int - '0' as int),
{
    assert(s.push(c).drop_last() =~= s);
}

/// Hexadecimal digits are written to the width asked for, the last one last,
/// ten to fifteen as `a` to `f`.
pub proof fn hexadecimal_is_written_to_its_width(n: nat, width: nat, d: nat)
    requires
        d < 16,
    ensures
        hex(n, width).len() == width,
        hex(16 * n + d, width + 1) == hex(n, width).push(hex(d, 1)[0]),
        d < 10 ==> hex(d, 1)[0] as int == '0' as int + d,
        d >= 10 ==> hex(d, 1)[0] as int == 'a' as int + (d - 10),
    decreases width,
{
    if width > 0 {
        hexadecimal_is_written_to_its_width(n / 16, (width - 1) as nat, d);
    }
    reveal_with_fuel(hex, 2);
    assert((16 * n + d) / 16 == n);
    assert((16 * n + d) % 16 == d);
    assert(d % 16 == d);
}

/// Octal digits are written without leading zeroes, the last one last.
pub proof fn octal_is_written_in_full(n: nat, d: nat)
    requires
        d < 8,
    ensures
        octal(d).len() == 1,
        octal(d)[0] as int == '0' as int + d,
        n > 0 ==> octal(8 * n + d) == octal(n) + octal(d),
{
    if n > 0 {
        assert((8 * n + d) / 8 == n);
        assert((8 * n + d) % 8 == d);
        assert(octal(8 * n + d) =~= octal(n) + octal(d));
    }
}

/// A negative number is a minus sign and what it is without.
pub proof fn a_minus_sign_says_negative(n: nat)
    requires
        n > 0,
    ensures
        signed(-(n as int)) == "-"@ + decimal(n),
        signed(n as int) == decimal(n),
{
}

/// A text that is cut at a character is put together again by it: each piece
/// between two of them is one, empty or not.
pub proof fn cutting_keeps_the_pieces(s: Seq<char>, c: char, t: Seq<char>)
    requires
        !t.contains(c),
    ensures
        split_on(t, c) == seq![t],
        split_on(s + seq![c] + t, c) == split_on(s, c).push(t),
    decreases t.len(),
{
    if t.len() == 0 {
        assert(t =~= Seq::<char>::empty());
        let e = s + seq![c] + t;
        assert(e.drop_last() =~= s);
        assert(e.last() == c);
        assert(split_on(t, c) =~= seq![t]);
    } else {
        let u = t.drop_last();
        assert(!u.contains(c)) by {
            if u.contains(c) {
                let k = choose|k: int| 0 <= k < u.len() && u[k] == c;
                assert(t[k] == c);
            }
        }
        cutting_keeps_the_pieces(s, c, u);
        let e = s + seq![c] + t;
        assert(e.drop_last() =~= s + seq![c] + u);
        assert(e.last() == t.last());
        assert(t.contains(t.last()));
        assert(u.push(t.last()) =~= t);
        assert(split_on(t, c) =~= seq![t]);
        let p = split_on(s, c).push(u);
        assert(split_on(e, c) =~= split_on(s, c).push(t));
    }
}

/// Lines that were ended, each by `\n` or `\r\n`, are read back one by one, and
/// so is a last one that was not.
pub proof fn lines_read_back(s: Seq<char>, l: Seq<char>)
    requires
        !l.contains('\n'),
        l.len() > 0 ==> l.last() != '\r',
        s.len() == 0 || s.last() == '\n',
    ensures
        lines(Seq::<char>::empty()).len() == 0,
        lines(s + l + seq!['\n']) == lines(s).push(l),
        lines(s + l + seq!['\r', '\n']) == lines(s).push(l),
        l.len() > 0 ==> lines(s + l) == lines(s).push(l),
{
    let none = Seq::<char>::empty();
    assert(split_on(none, '\n') =~= seq![none]);
    assert(lines(none) =~= Seq::<Seq<char>>::empty());
    lemma_pieces(s, l);
    let r = l.push('\r');
    assert(!r.contains('\n')) by {
        if r.contains('\n') {
            let k = choose|k: int| 0 <= k < r.len() && r[k] == '\n';
            assert(l[k] == '\n');
        }
    }
    lemma_pieces(s, r);
    let p = split_on(s, '\n');
    assert(s + l + seq!['\r', '\n'] =~= s + r + seq!['\n']);
    cutting_keeps_the_pieces(s + l, '\n', none);
    assert(s + l + seq!['\n'] + none =~= s + l + seq!['\n']);
    cutting_keeps_the_pieces(s + r, '\n', none);
    assert(s + r + seq!['\n'] + none =~= s + r + seq!['\n']);
    let a = p.drop_last().push(l).push(none);
    let b = p.drop_last().push(r).push(none);
    assert(split_on(s + l + seq!['\n'], '\n') == a);
    assert(split_on(s + r + seq!['\n'], '\n') == b);
    assert(a.drop_last() =~= p.drop_last().push(l));
    assert(b.drop_last() =~= p.drop_last().push(r));
    assert(r.drop_last() =~= l);
    assert(strip_cr(r) == l);
    assert(strip_cr(l) == l);
    assert(p.last().len() == 0);
    assert(lines(s + l + seq!['\n']) =~= lines(s).push(l));
    assert(lines(s + r + seq!['\n']) =~= lines(s).push(l));
    if l.len() > 0 {
        let q = p.drop_last().push(l);
        assert(q.drop_last() =~= p.drop_last());
        assert(lines(s + l) =~= lines(s).push(l));
    }
}

proof fn lemma_pieces(s: Seq<char>, l: Seq<char>)
    requires
        !l.contains('\n'),
        s.len() == 0 || s.last() == '\n',
    ensures
        split_on(s, '\n').len() > 0,
        split_on(s, '\n').last().len() == 0,
        split_on(s + l, '\n') == split_on(s, '\n').drop_last().push(l),
{
    let none = Seq::<char>::empty();
    if s.len() == 0 {
        assert(s =~= none);
        assert(s + l =~= l);
        cutting_keeps_the_pieces(none, '\n', l);
        assert(split_on(s, '\n') =~= seq![none]);
        assert(seq![none].drop_last().push(l) =~= seq![l]);
    } else {
        let t = s.drop_last();
        assert(t + seq!['\n'] =~= s);
        cutting_keeps_the_pieces(t, '\n', l);
        cutting_keeps_the_pieces(t, '\n', none);
        assert(t + seq!['\n'] + l =~= s + l);
        assert(t + seq!['\n'] + none =~= s);
        assert(split_on(t, '\n').push(none).drop_last() =~= split_on(t, '\n'));
    }
}

/// A run of characters without whitespace is one word, set off from what stands
/// before it by whitespace; whitespace alone is no word.
pub proof fn words_read_back(s: Seq<char>, gap: char, w: Seq<char>)
    requires
        is_space(gap),
        w.len() > 0,
        forall|i: int| 0 <= i < w.len() ==> !is_space(#[trigger] w[i]),
    ensures
        words(Seq::<char>::empty()).len() == 0,
        words(w) == seq![w],
        words(s + seq![gap]) == words(s),
        words(s + seq![gap] + w) == words(s).push(w),
{
    let none = Seq::<char>::empty();
    assert(words(none) =~= Seq::<Seq<char>>::empty());
    let g = s + seq![gap];
    assert(g.drop_last() =~= s);
    assert(g.last() == gap);
    let st = word_state(s);
    assert(word_state(g) == (words(s), none));
    assert(words(g) =~= words(s));
    lemma_word(g, w);
    lemma_word(none, w);
    assert(none + w =~= w);
    assert(words(w) =~= seq![w]);
}

proof fn lemma_word(g: Seq<char>, w: Seq<char>)
    requires
        word_state(g).1.len() == 0,
        forall|i: int| 0 <= i < w.len() ==> !is_space(#[trigger] w[i]),
    ensures
        word_state(g + w) == (word_state(g).0, w),
    decreases w.len(),
{
    if w.len() == 0 {
        assert(g + w =~= g);
        assert(word_state(g).1 =~= w);
    } else {
        let u = w.drop_last();
        lemma_word(g, u);
        assert((g + w).drop_last() =~= g + u);
        assert((g + w).last() == w.last());
        assert(u.push(w.last()) =~= w);
    }
}

/// What follows a prefix is what was put behind it, and only a text that begins
/// with the prefix has it.
pub proof fn a_prefix_comes_off(s: Seq<char>, p: Seq<char>, t: Seq<char>)
    ensures
        after_prefix(p + t, p) == Some(t),
        after_prefix(s, p) is Some ==> s == p + after_prefix(s, p)->Some_0,
        after_prefix(s, p) is None ==> s != p + t,
{
    assert((p + t).take(p.len() as int) =~= p);
    assert((p + t).skip(p.len() as int) =~= t);
    if starts_with(s, p) {
        assert(s =~= s.take(p.len() as int) + s.skip(p.len() as int));
    }
}

/// A text occurs in another if and only if that is some text, it, and some
/// text.
pub proof fn an_occurrence_has_two_sides(s: Seq<char>, p: Seq<char>, a: Seq<char>, b: Seq<char>)
    ensures
        contains(a + p + b, p),
        contains(s, p) ==> exists|x: Seq<char>, y: Seq<char>| s == #[trigger] (x + p + y),
{
    let e = a + p + b;
    assert(e.subrange(a.len() as int, (a.len() + p.len()) as int) =~= p);
    if contains(s, p) {
        let i = choose|i: int|
            0 <= i <= s.len() - p.len() && #[trigger] s.subrange(i, i + p.len()) == p;
        let x = s.take(i);
        let y = s.skip(i + p.len());
        assert(s =~= x + s.subrange(i, i + p.len()) + y);
    }
}

/// Whitespace parts a text in two whose words are those of the one and then
/// those of the other.
pub proof fn whitespace_parts_words(a: Seq<char>, gap: char, b: Seq<char>)
    requires
        is_space(gap),
    ensures
        words(a + seq![gap] + b) == words(a) + words(b),
    decreases b.len(),
{
    let g = a + seq![gap];
    assert(g.drop_last() =~= a);
    assert(g.last() == gap);
    assert(word_state(g) == (words(a), Seq::<char>::empty()));
    lemma_word_states(g, b);
    let st = word_state(b);
    if st.1.len() == 0 {
        assert(words(g + b) =~= words(a) + words(b));
    } else {
        assert((words(a) + st.0).push(st.1) =~= words(a) + st.0.push(st.1));
    }
}

proof fn lemma_word_states(g: Seq<char>, b: Seq<char>)
    requires
        word_state(g).1.len() == 0,
    ensures
        word_state(g + b) == (word_state(g).0 + word_state(b).0, word_state(b).1),
    decreases b.len(),
{
    if b.len() == 0 {
        assert(g + b =~= g);
        assert(word_state(g).0 + word_state(b).0 =~= word_state(g).0);
        assert(word_state(g).1 =~= word_state(b).1);
    } else {
        let u = b.drop_last();
        lemma_word_states(g, u);
        assert((g + b).drop_last() =~= g + u);
        assert((g + b).last() == b.last());
        let st = word_state(u);
        if is_space(b.last()) && st.1.len() > 0 {
            assert((word_state(g).0 + st.0).push(st.1) =~= word_state(g).0 + st.0.push(st.1));
        }
    }
}

/// A list of texts is read item by item.
pub proof fn lists_are_read_item_by_item(v: Seq<String>, w: Seq<Vec<char>>, i: int)
    ensures
        texts(v).len() == v.len(),
        0 <= i < v.len() ==> texts(v)[i] == v[i]@,
        rows(w).len() == w.len(),
        0 <= i < w.len() ==> rows(w)[i] == w[i]@,
{
}

} // verus!
