//! A minimal read-only BTF parser, used for exactly one job: resolving the
//! byte offsets of `task_struct::real_parent` and `task_struct::tgid` from the
//! running kernel's type information.
//!
//! ```text
//! struct btf_header {            struct btf_type {
//!     u16 magic;   // 0xeB9F         u32 name_off;
//!     u8  version;                   u32 info;   // vlen:16 kind:5 kind_flag:1
//!     u8  flags;                     union { u32 size; u32 type; };
//!     u32 hdr_len;               };
//!     u32 type_off;              struct btf_member {   // vlen of these follow
//!     u32 type_len;                  u32 name_off;     // a STRUCT/UNION
//!     u32 str_off;                   u32 type;
//!     u32 str_len;                   u32 offset;       // bits, or
//! };                             };                    // bitfield when kind_flag
//! ```
//!
//! `type_off` and `str_off` are relative to the *end* of the header
//! (`hdr_len`), not to the start of the file. Every read is checked, so a
//! truncated or hostile blob produces an error rather than a panic.

use crate::packet::{be, big_endian, numbers_read_back};
use crate::text::{bytes_eq, decimal, hex, push_decimal, push_hex, text};
use vstd::prelude::*;
use vstd::slice::slice_subrange;
use vstd::string::{StringExecFns, StringSliceAdditionalSpecFns};

verus! {

/// Where the running kernel publishes its own BTF.
pub const VMLINUX_BTF: &'static str = "/sys/kernel/btf/vmlinux";

/// Little-endian BTF magic. A big-endian blob stores the same value with the
/// bytes swapped, which is how endianness is detected.
pub const BTF_MAGIC: u16 = 0xEB9F;

/// `struct btf_header` is 24 bytes; anything shorter cannot be BTF.
pub const HEADER_LEN: u64 = 24;

/// `struct btf_type` without its kind-specific tail.
pub const TYPE_LEN: u64 = 12;

/// `struct btf_member`.
pub const MEMBER_LEN: u64 = 12;

pub const KIND_INT: u32 = 1;

pub const KIND_ARRAY: u32 = 3;

pub const KIND_STRUCT: u32 = 4;

pub const KIND_UNION: u32 = 5;

pub const KIND_ENUM: u32 = 6;

pub const KIND_FUNC_PROTO: u32 = 13;

pub const KIND_VAR: u32 = 14;

pub const KIND_DATASEC: u32 = 15;

pub const KIND_DECL_TAG: u32 = 17;

pub const KIND_ENUM64: u32 = 19;

/// Everything that can go wrong reading a BTF blob. All of these are
/// non-fatal for the daemon: the programs are then told that the offsets are
/// unresolved.
#[derive(Debug)]
pub enum BtfError {
    Truncated { offset: u64, need: u64, have: u64 },
    BadMagic { magic: u16 },
    BadVersion { version: u8 },
    ShortHeader { hdr_len: u32 },
    BadStringOffset { offset: u64, len: u64 },
    NoSuchStruct { name: String },
}

/// What a [`BtfError`] says, with its text as a sequence.
pub ghost enum BtfFault {
    Truncated { offset: int, need: int, have: int },
    BadMagic { magic: u16 },
    BadVersion { version: u8 },
    ShortHeader { hdr_len: u32 },
    BadStringOffset { offset: int, len: int },
    NoSuchStruct { name: Seq<char> },
}

impl View for BtfError {
    type V = BtfFault;

    open spec fn view(&self) -> BtfFault {
        match *self {
            BtfError::Truncated { offset, need, have } => BtfFault::Truncated {
                offset: offset as int,
                need: need as int,
                have: have as int,
            },
            BtfError::BadMagic { magic } => BtfFault::BadMagic { magic },
            BtfError::BadVersion { version } => BtfFault::BadVersion { version },
            BtfError::ShortHeader { hdr_len } => BtfFault::ShortHeader { hdr_len },
            BtfError::BadStringOffset { offset, len } => BtfFault::BadStringOffset {
                offset: offset as int,
                len: len as int,
            },
            BtfError::NoSuchStruct { name } => BtfFault::NoSuchStruct { name: name@ },
        }
    }
}

/// The sentence for a fault.
pub open spec fn fault_text(f: BtfFault) -> Seq<char> {
    match f {
        BtfFault::Truncated { offset, need, have } => "BTF blob is truncated at byte "@ + decimal(
            offset as nat,
        ) + " (need "@ + decimal(need as nat) + " bytes, have "@ + decimal(have as nat) + ")"@,
        BtfFault::BadMagic { magic } => "not a BTF blob: bad magic 0x"@ + hex(magic as nat, 4),
        BtfFault::BadVersion { version } => "unsupported BTF version "@ + decimal(version as nat),
        BtfFault::ShortHeader { hdr_len } => "BTF header declares hdr_len "@ + decimal(
            hdr_len as nat,
        ) + ", which is shorter than the 24-byte header"@,
        BtfFault::BadStringOffset { offset, len } => "BTF string offset "@ + decimal(offset as nat)
            + " is outside the "@ + decimal(len as nat) + "-byte string section"@,
        BtfFault::NoSuchStruct { name } => "no struct named `"@ + name + "` in this BTF blob"@,
    }
}

impl BtfError {
    /// The error as one sentence.
    pub fn message(&self) -> (r: String)
        ensures
            r@ == fault_text(self@),
    {
        let mut s: String = String::new();
        match self {
            BtfError::Truncated { offset, need, have } => {
                s.append("BTF blob is truncated at byte ");
                push_decimal(&mut s, *offset);
                s.append(" (need ");
                push_decimal(&mut s, *need);
                s.append(" bytes, have ");
                push_decimal(&mut s, *have);
                s.append(")");
            },
            BtfError::BadMagic { magic } => {
                s.append("not a BTF blob: bad magic 0x");
                push_hex(&mut s, *magic as u64, 4);
            },
            BtfError::BadVersion { version } => {
                s.append("unsupported BTF version ");
                push_decimal(&mut s, *version as u64);
            },
            BtfError::ShortHeader { hdr_len } => {
                s.append("BTF header declares hdr_len ");
                push_decimal(&mut s, *hdr_len as u64);
                s.append(", which is shorter than the 24-byte header");
            },
            BtfError::BadStringOffset { offset, len } => {
                s.append("BTF string offset ");
                push_decimal(&mut s, *offset);
                s.append(" is outside the ");
                push_decimal(&mut s, *len);
                s.append("-byte string section");
            },
            BtfError::NoSuchStruct { name } => {
                s.append("no struct named `");
                s.append(name.as_str());
                s.append("` in this BTF blob");
            },
        }
        proof {
            assert(s@ =~= fault_text(self@));
        }
        s
    }
}

/// The two `task_struct` member offsets the kernel-side programs need.
///
/// Both are byte offsets from the start of `task_struct`. `0` is the
/// kernel-side sentinel for "unresolved".
#[derive(Debug, Clone, Copy, PartialEq, Eq, Structural)]
pub struct TaskStructOffsets {
    pub real_parent: u32,
    pub tgid: u32,
}

impl Default for TaskStructOffsets {
    fn default() -> (r: Self)
        ensures
            r.real_parent == 0,
            r.tgid == 0,
    {
        TaskStructOffsets { real_parent: 0, tgid: 0 }
    }
}

impl TaskStructOffsets {
    /// True when both offsets were found and are usable as globals.
    pub fn is_resolved(self) -> (r: bool)
        ensures
            r == (self.real_parent != 0 && self.tgid != 0),
    {
        self.real_parent != 0 && self.tgid != 0
    }
}

/// The 32-bit word at `at`, in the blob's byte order.
pub open spec fn word_at(buf: Seq<u8>, at: int, little: bool) -> u32 {
    if little {
        (buf[at] + 0x100 * buf[at + 1] + 0x1_0000 * buf[at + 2] + 0x100_0000 * buf[at + 3]) as u32
    } else {
        (buf[at + 3] + 0x100 * buf[at + 2] + 0x1_0000 * buf[at + 1] + 0x100_0000 * buf[at]) as u32
    }
}

/// How many bytes a buffer of `len` bytes holds from `at` on.
pub open spec fn left_from(len: int, at: int) -> int {
    if len > at {
        len - at
    } else {
        0
    }
}

/// The word at `at`, or where the buffer ended instead.
pub open spec fn read_word(buf: Seq<u8>, at: int, little: bool) -> Result<u32, BtfFault> {
    if at + 4 <= buf.len() {
        Ok(word_at(buf, at, little))
    } else {
        Err(BtfFault::Truncated { offset: at, need: 4, have: left_from(buf.len() as int, at) })
    }
}

/// How many bytes `buf` holds from `at` on.
fn have_from(buf: &[u8], at: u64) -> (r: u64)
    ensures
        r == left_from(buf@.len() as int, at as int),
{
    let len: u64 = buf.len() as u64;
    if len > at {
        len - at
    } else {
        0
    }
}

fn read_u32(buf: &[u8], at: u64, little: bool) -> (r: Result<u32, BtfError>)
    requires
        at + 4 <= u64::MAX,
    ensures
        r matches Ok(v) ==> read_word(buf@, at as int, little) == Ok::<u32, BtfFault>(v),
        r matches Err(e) ==> read_word(buf@, at as int, little) == Err::<u32, BtfFault>(e@),
{
    if at + 4 > buf.len() as u64 {
        return Err(BtfError::Truncated { offset: at, need: 4, have: have_from(buf, at) });
    }
    let at: usize = at as usize;
    let a: u32 = buf[at] as u32;
    let b: u32 = buf[at + 1] as u32;
    let c: u32 = buf[at + 2] as u32;
    let d: u32 = buf[at + 3] as u32;
    if little {
        Ok(a + 0x100 * b + 0x1_0000 * c + 0x100_0000 * d)
    } else {
        Ok(d + 0x100 * c + 0x1_0000 * b + 0x100_0000 * a)
    }
}

/// The fields of the blob's header.
#[derive(Clone, Copy)]
pub struct Header {
    pub little: bool,
    pub hdr_len: u32,
    pub type_off: u32,
    pub type_len: u32,
    pub str_off: u32,
    pub str_len: u32,
}

/// What the header of `raw` says, checked in the order the checks are made.
pub open spec fn header_of(raw: Seq<u8>) -> Result<Header, BtfFault> {
    let little = raw[0] + 0x100 * raw[1] == BTF_MAGIC;
    if raw.len() < HEADER_LEN {
        Err(BtfFault::Truncated { offset: 0, need: HEADER_LEN as int, have: raw.len() as int })
    } else if !little && raw[1] + 0x100 * raw[0] != BTF_MAGIC {
        Err(BtfFault::BadMagic { magic: (raw[0] + 0x100 * raw[1]) as u16 })
    } else if raw[2] != 1 {
        Err(BtfFault::BadVersion { version: raw[2] })
    } else if word_at(raw, 4, little) < HEADER_LEN {
        Err(BtfFault::ShortHeader { hdr_len: word_at(raw, 4, little) })
    } else {
        Ok(
            Header {
                little,
                hdr_len: word_at(raw, 4, little),
                type_off: word_at(raw, 8, little),
                type_len: word_at(raw, 12, little),
                str_off: word_at(raw, 16, little),
                str_len: word_at(raw, 20, little),
            },
        )
    }
}

/// The section of `len` bytes that starts `off` bytes after the header.
pub open spec fn section_of(raw: Seq<u8>, hdr_len: u32, off: u32, len: u32) -> Result<
    Seq<u8>,
    BtfFault,
> {
    let start = hdr_len + off;
    if start + len <= raw.len() {
        Ok(raw.subrange(start, start + len))
    } else {
        Err(
            BtfFault::Truncated {
                offset: start,
                need: len as int,
                have: left_from(raw.len() as int, start),
            },
        )
    }
}

impl Header {
    fn parse(raw: &[u8]) -> (r: Result<Header, BtfError>)
        ensures
            r matches Ok(h) ==> header_of(raw@) == Ok::<Header, BtfFault>(h),
            r matches Err(e) ==> header_of(raw@) == Err::<Header, BtfFault>(e@),
    {
        if (raw.len() as u64) < HEADER_LEN {
            return Err(
                BtfError::Truncated { offset: 0, need: HEADER_LEN, have: raw.len() as u64 },
            );
        }
        let le: u16 = raw[0] as u16 + 0x100 * (raw[1] as u16);
        let be: u16 = raw[1] as u16 + 0x100 * (raw[0] as u16);
        let little: bool = le == BTF_MAGIC;
        if !little && be != BTF_MAGIC {
            return Err(BtfError::BadMagic { magic: le });
        }
        let version: u8 = raw[2];
        if version != 1 {
            return Err(BtfError::BadVersion { version });
        }
        let hdr_len: u32 = read_u32(raw, 4, little)?;
        if (hdr_len as u64) < HEADER_LEN {
            return Err(BtfError::ShortHeader { hdr_len });
        }
        let type_off: u32 = read_u32(raw, 8, little)?;
        let type_len: u32 = read_u32(raw, 12, little)?;
        let str_off: u32 = read_u32(raw, 16, little)?;
        let str_len: u32 = read_u32(raw, 20, little)?;
        Ok(Header { little, hdr_len, type_off, type_len, str_off, str_len })
    }

    /// A section slice, with both its start (`hdr_len + off`) and its end
    /// bounds-checked against the blob.
    fn section<'a>(&self, raw: &'a [u8], off: u32, len: u32) -> (r: Result<&'a [u8], BtfError>)
        ensures
            r matches Ok(s) ==> section_of(raw@, self.hdr_len, off, len) == Ok::<
                Seq<u8>,
                BtfFault,
            >(s@),
            r matches Err(e) ==> section_of(raw@, self.hdr_len, off, len) == Err::<
                Seq<u8>,
                BtfFault,
            >(e@),
    {
        let start: u64 = self.hdr_len as u64 + off as u64;
        let end: u64 = start + len as u64;
        if end <= raw.len() as u64 {
            Ok(slice_subrange(raw, start as usize, end as usize))
        } else {
            Err(
                BtfError::Truncated {
                    offset: start,
                    need: len as u64,
                    have: have_from(raw, start),
                },
            )
        }
    }
}

/// The fixed part of one type record.
#[derive(Clone, Copy)]
pub struct TypeHeader {
    pub name_off: u32,
    pub kind: u32,
    pub vlen: u32,
    pub kind_flag: bool,
}

/// What a type's `info` word says.
pub open spec fn type_header(name_off: u32, info: u32) -> TypeHeader {
    TypeHeader {
        name_off,
        kind: (info >> 24) & 0x1f,
        vlen: info & 0xffff,
        kind_flag: (info >> 31) == 1,
    }
}

/// The type record at `at`.
pub open spec fn type_at(types: Seq<u8>, at: int, little: bool) -> Result<TypeHeader, BtfFault> {
    match read_word(types, at, little) {
        Err(e) => Err(e),
        Ok(name_off) => match read_word(types, at + 4, little) {
            Err(e) => Err(e),
            Ok(info) => Ok(type_header(name_off, info)),
        },
    }
}

/// The length of the data that follows a type record of this kind.
pub open spec fn tail_of(t: TypeHeader) -> int {
    if t.kind == KIND_INT || t.kind == KIND_VAR || t.kind == KIND_DECL_TAG {
        4
    } else if t.kind == KIND_ARRAY {
        12
    } else if t.kind == KIND_STRUCT || t.kind == KIND_UNION {
        MEMBER_LEN * t.vlen
    } else if t.kind == KIND_ENUM || t.kind == KIND_FUNC_PROTO {
        8 * t.vlen
    } else if t.kind == KIND_DATASEC || t.kind == KIND_ENUM64 {
        12 * t.vlen
    } else {
        0
    }
}

impl TypeHeader {
    /// `little` is the blob's endianness, taken from its header: the `info`
    /// bit layout is only well-defined once the word itself has been decoded
    /// the right way round.
    fn parse(types: &[u8], at: u64, little: bool) -> (r: Result<TypeHeader, BtfError>)
        requires
            at < types@.len(),
            types@.len() < 0x1_0000_0000,
        ensures
            r matches Ok(t) ==> type_at(types@, at as int, little) == Ok::<TypeHeader, BtfFault>(t)
                && t.vlen <= 0xffff,
            r matches Err(e) ==> type_at(types@, at as int, little) == Err::<TypeHeader, BtfFault>(
                e@,
            ),
    {
        let name_off: u32 = read_u32(types, at, little)?;
        let info: u32 = read_u32(types, at + 4, little)?;
        proof {
            assert(info & 0xffff <= 0xffff) by (bit_vector);
        }
        Ok(
            TypeHeader {
                name_off,
                kind: (info >> 24) & 0x1f,
                vlen: info & 0xffff,
                kind_flag: (info >> 31) == 1,
            },
        )
    }

    /// Size of the kind-specific data that follows `struct btf_type`.
    fn tail_len(&self) -> (r: u64)
        requires
            self.vlen <= 0xffff,
        ensures
            r == tail_of(*self),
    {
        let n: u64 = self.vlen as u64;
        if self.kind == KIND_INT || self.kind == KIND_VAR || self.kind == KIND_DECL_TAG {
            4
        } else if self.kind == KIND_ARRAY {
            12
        } else if self.kind == KIND_STRUCT || self.kind == KIND_UNION {
            MEMBER_LEN * n
        } else if self.kind == KIND_ENUM || self.kind == KIND_FUNC_PROTO {
            8 * n
        } else if self.kind == KIND_DATASEC || self.kind == KIND_ENUM64 {
            12 * n
        } else {
            0
        }
    }
}

/// The bytes from the start of `s` up to its first NUL, or all of them.
pub open spec fn until_nul(s: Seq<u8>) -> Seq<u8>
    decreases s.len(),
{
    if s.len() == 0 || s[0] == 0 {
        Seq::empty()
    } else {
        seq![s[0]] + until_nul(s.skip(1))
    }
}

/// The NUL-terminated bytes at `offset` in the string section.
pub open spec fn name_at(strings: Seq<u8>, offset: u32) -> Result<Seq<u8>, BtfFault> {
    if offset <= strings.len() {
        Ok(until_nul(strings.skip(offset as int)))
    } else {
        Err(BtfFault::BadStringOffset { offset: offset as int, len: strings.len() as int })
    }
}

/// Whether a name read from the blob is `wanted`. One that is not UTF-8 is not
/// the name of anything.
pub open spec fn is_name(bytes: Seq<u8>, wanted: &str) -> bool {
    bytes == wanted.spec_bytes()
}

proof fn lemma_until_nul(s: Seq<u8>, n: int)
    requires
        0 <= n <= s.len(),
        forall|k: int| 0 <= k < n ==> s[k] != 0,
        n < s.len() ==> s[n] == 0,
    ensures
        until_nul(s) == s.take(n),
    decreases s.len(),
{
    if n == 0 {
        assert(s.take(0) =~= Seq::<u8>::empty());
    } else {
        lemma_until_nul(s.skip(1), n - 1);
        assert(seq![s[0]] + s.skip(1).take(n - 1) =~= s.take(n));
    }
}

/// The NUL-terminated name at `offset` in the string section.
fn string_at<'a>(strings: &'a [u8], offset: u32) -> (r: Result<&'a [u8], BtfError>)
    ensures
        r matches Ok(s) ==> name_at(strings@, offset) == Ok::<Seq<u8>, BtfFault>(s@),
        r matches Err(e) ==> name_at(strings@, offset) == Err::<Seq<u8>, BtfFault>(e@),
{
    let from: usize = offset as usize;
    if from > strings.len() {
        return Err(
            BtfError::BadStringOffset { offset: offset as u64, len: strings.len() as u64 },
        );
    }
    let ghost rest = strings@.skip(from as int);
    let mut end: usize = from;
    while end < strings.len() && strings[end] != 0
        invariant
            from <= end <= strings@.len(),
            rest == strings@.skip(from as int),
            forall|k: int| 0 <= k < end - from ==> rest[k] != 0,
        decreases strings@.len() - end,
    {
        assert(rest[end - from] == strings@[end as int]);
        end += 1;
    }
    proof {
        if end < strings@.len() {
            assert(rest[end - from] == strings@[end as int]);
        }
        lemma_until_nul(rest, end - from);
        assert(rest.take(end - from) =~= strings@.subrange(from as int, end as int));
    }
    Ok(slice_subrange(strings, from, end))
}

/// Whether the name bytes are `wanted`.
fn name_is(bytes: &[u8], wanted: &str) -> (r: bool)
    ensures
        r == is_name(bytes@, wanted),
{
    bytes_eq(bytes, wanted.as_bytes())
}

/// The first struct named `name` at or after `cursor`: where its members
/// start, and its header.
pub open spec fn find_struct(
    types: Seq<u8>,
    strings: Seq<u8>,
    little: bool,
    name: &str,
    cursor: int,
) -> Result<(int, TypeHeader), BtfFault>
    decreases types.len() - cursor,
{
    if cursor < 0 || cursor >= types.len() {
        Err(BtfFault::NoSuchStruct { name: name@ })
    } else {
        match type_at(types, cursor, little) {
            Err(e) => Err(e),
            Ok(t) => {
                let body = cursor + TYPE_LEN;
                if body + tail_of(t) > types.len() {
                    Err(
                        BtfFault::Truncated {
                            offset: body,
                            need: tail_of(t),
                            have: left_from(types.len() as int, body),
                        },
                    )
                } else if t.kind != KIND_STRUCT {
                    find_struct(types, strings, little, name, body + tail_of(t))
                } else {
                    match name_at(strings, t.name_off) {
                        Err(e) => Err(e),
                        Ok(n) => if is_name(n, name) {
                            Ok((body, t))
                        } else {
                            find_struct(types, strings, little, name, body + tail_of(t))
                        },
                    }
                }
            },
        }
    }
}

/// The byte offset of the `i`-th member of the struct whose members start at
/// `body`. With `kind_flag` set the low 24 bits of its word are the bit
/// offset and the top 8 the bitfield width.
pub open spec fn member_offset(types: Seq<u8>, little: bool, body: int, t: TypeHeader, i: int) -> u32 {
    let raw = word_at(types, body + MEMBER_LEN * i + 8, little);
    if t.kind_flag {
        (raw & 0x00ff_ffff) / 8
    } else {
        raw / 8
    }
}

/// The name of the `i`-th member.
pub open spec fn member_name(
    types: Seq<u8>,
    strings: Seq<u8>,
    little: bool,
    body: int,
    i: int,
) -> Result<Seq<u8>, BtfFault> {
    name_at(strings, word_at(types, body + MEMBER_LEN * i, little))
}

/// The offset of the first of the first `n` members that is called `want`.
pub open spec fn first_member(
    types: Seq<u8>,
    strings: Seq<u8>,
    little: bool,
    body: int,
    t: TypeHeader,
    want: &str,
    n: int,
) -> Option<u32>
    decreases n,
{
    if n <= 0 {
        None
    } else {
        match first_member(types, strings, little, body, t, want, n - 1) {
            Some(off) => Some(off),
            None => match member_name(types, strings, little, body, n - 1) {
                Ok(name) => if is_name(name, want) {
                    Some(member_offset(types, little, body, t, n - 1))
                } else {
                    None
                },
                Err(_) => None,
            },
        }
    }
}

/// The first fault in the names of the first `n` members.
pub open spec fn member_fault(
    types: Seq<u8>,
    strings: Seq<u8>,
    little: bool,
    body: int,
    n: int,
) -> Option<BtfFault>
    decreases n,
{
    if n <= 0 {
        None
    } else {
        match member_fault(types, strings, little, body, n - 1) {
            Some(f) => Some(f),
            None => match member_name(types, strings, little, body, n - 1) {
                Ok(_) => None,
                Err(f) => Some(f),
            },
        }
    }
}

/// The offsets of the members `wanted` of the struct `struct_name` in `raw`.
pub open spec fn members_of(raw: Seq<u8>, struct_name: &str, wanted: Seq<&str>) -> Result<
    Seq<Option<u32>>,
    BtfFault,
> {
    match header_of(raw) {
        Err(e) => Err(e),
        Ok(h) => match section_of(raw, h.hdr_len, h.type_off, h.type_len) {
            Err(e) => Err(e),
            Ok(types) => match section_of(raw, h.hdr_len, h.str_off, h.str_len) {
                Err(e) => Err(e),
                Ok(strings) => match find_struct(types, strings, h.little, struct_name, 0) {
                    Err(e) => Err(e),
                    Ok((body, t)) => match member_fault(
                        types,
                        strings,
                        h.little,
                        body,
                        t.vlen as int,
                    ) {
                        Some(e) => Err(e),
                        None => Ok(
                            wanted.map_values(
                                |w: &str|
                                    first_member(
                                        types,
                                        strings,
                                        h.little,
                                        body,
                                        t,
                                        w,
                                        t.vlen as int,
                                    ),
                            ),
                        ),
                    },
                },
            },
        },
    }
}

proof fn lemma_fault_stays(
    types: Seq<u8>,
    strings: Seq<u8>,
    little: bool,
    body: int,
    i: int,
    n: int,
)
    requires
        0 <= i <= n,
        member_fault(types, strings, little, body, i) is Some,
    ensures
        member_fault(types, strings, little, body, n) == member_fault(
            types,
            strings,
            little,
            body,
            i,
        ),
    decreases n - i,
{
    if i < n {
        lemma_fault_stays(types, strings, little, body, i, n - 1);
    }
}

/// The offsets of `wanted` among the members that start at `body`.
fn scan_members(
    types: &[u8],
    strings: &[u8],
    little: bool,
    body: u64,
    t: TypeHeader,
    wanted: &[&str],
) -> (r: Result<Vec<Option<u32>>, BtfError>)
    requires
        t.vlen <= 0xffff,
        body + MEMBER_LEN * t.vlen <= types@.len() < 0x1_0000_0000,
    ensures
        r matches Ok(v) ==> {
            &&& member_fault(types@, strings@, little, body as int, t.vlen as int) is None
            &&& v@ == wanted@.map_values(
                |w: &str|
                    first_member(types@, strings@, little, body as int, t, w, t.vlen as int),
            )
        },
        r matches Err(e) ==> member_fault(
            types@,
            strings@,
            little,
            body as int,
            t.vlen as int,
        ) == Some(e@),
{
    let mut out: Vec<Option<u32>> = Vec::new();
    let mut j: usize = 0;
    while j < wanted.len()
        invariant
            j <= wanted@.len(),
            out@.len() == j,
            forall|k: int| 0 <= k < j ==> out@[k] is None,
        decreases wanted@.len() - j,
    {
        out.push(None);
        j += 1;
    }
    let mut i: u64 = 0;
    while i < t.vlen as u64
        invariant
            i <= t.vlen <= 0xffff,
            body + MEMBER_LEN * t.vlen <= types@.len() < 0x1_0000_0000,
            out@.len() == wanted@.len(),
            member_fault(types@, strings@, little, body as int, i as int) is None,
            forall|k: int|
                0 <= k < out@.len() ==> #[trigger] out@[k] == first_member(
                    types@,
                    strings@,
                    little,
                    body as int,
                    t,
                    wanted@[k],
                    i as int,
                ),
        decreases t.vlen - i,
    {
        let at: u64 = body + i * MEMBER_LEN;
        let name_off: u32 = read_u32(types, at, little)?;
        let raw_offset: u32 = read_u32(types, at + 8, little)?;
        let bit_offset: u32 = if t.kind_flag {
            raw_offset & 0x00ff_ffff
        } else {
            raw_offset
        };
        let name = match string_at(strings, name_off) {
            Ok(n) => n,
            Err(e) => {
                proof {
                    lemma_fault_stays(
                        types@,
                        strings@,
                        little,
                        body as int,
                        i + 1,
                        t.vlen as int,
                    );
                }
                return Err(e);
            },
        };
        let mut k: usize = 0;
        let ghost before = out@;
        while k < wanted.len()
            invariant
                k <= wanted@.len(),
                out@.len() == wanted@.len(),
                before.len() == wanted@.len(),
                0 <= i < t.vlen,
                member_name(types@, strings@, little, body as int, i as int) == Ok::<
                    Seq<u8>,
                    BtfFault,
                >(name@),
                bit_offset / 8 == member_offset(types@, little, body as int, t, i as int),
                forall|m: int|
                    0 <= m < before.len() ==> #[trigger] before[m] == first_member(
                        types@,
                        strings@,
                        little,
                        body as int,
                        t,
                        wanted@[m],
                        i as int,
                    ),
                forall|m: int|
                    0 <= m < k ==> #[trigger] out@[m] == first_member(
                        types@,
                        strings@,
                        little,
                        body as int,
                        t,
                        wanted@[m],
                        i + 1,
                    ),
                forall|m: int| k <= m < out@.len() ==> out@[m] == before[m],
            decreases wanted@.len() - k,
        {
            let taken: bool = out[k].is_some();
            let want: &str = wanted[k];
            proof {
                assert(out@[k as int] == before[k as int]);
                assert(before[k as int] == first_member(
                    types@,
                    strings@,
                    little,
                    body as int,
                    t,
                    want,
                    i as int,
                ));
                reveal_with_fuel(first_member, 2);
            }
            if !taken && name_is(name, want) {
                out.set(k, Some(bit_offset / 8));
            }
            k += 1;
        }
        i += 1;
    }
    proof {
        assert(out@ =~= wanted@.map_values(
            |w: &str| first_member(types@, strings@, little, body as int, t, w, t.vlen as int),
        ));
    }
    Ok(out)
}

/// Byte offsets of `wanted` members inside the BTF struct named `struct_name`.
///
/// Returns one entry per requested name, in the same order; `None` means the
/// struct exists but has no such member. Bitfields report the byte offset of
/// the bit they start at.
pub fn member_offsets(raw: &[u8], struct_name: &str, wanted: &[&str]) -> (r: Result<
    Vec<Option<u32>>,
    BtfError,
>)
    ensures
        r matches Ok(v) ==> members_of(raw@, struct_name, wanted@) == Ok::<
            Seq<Option<u32>>,
            BtfFault,
        >(v@),
        r matches Err(e) ==> members_of(raw@, struct_name, wanted@) == Err::<
            Seq<Option<u32>>,
            BtfFault,
        >(e@),
{
    let hdr = Header::parse(raw)?;
    let types = hdr.section(raw, hdr.type_off, hdr.type_len)?;
    let strings = hdr.section(raw, hdr.str_off, hdr.str_len)?;
    let mut cursor: u64 = 0;
    while cursor < types.len() as u64
        invariant
            types@.len() < 0x1_0000_0000,
            header_of(raw@) == Ok::<Header, BtfFault>(hdr),
            section_of(raw@, hdr.hdr_len, hdr.type_off, hdr.type_len) == Ok::<Seq<u8>, BtfFault>(
                types@,
            ),
            section_of(raw@, hdr.hdr_len, hdr.str_off, hdr.str_len) == Ok::<Seq<u8>, BtfFault>(
                strings@,
            ),
            find_struct(types@, strings@, hdr.little, struct_name, 0) == find_struct(
                types@,
                strings@,
                hdr.little,
                struct_name,
                cursor as int,
            ),
        decreases types@.len() - cursor,
    {
        let ty = TypeHeader::parse(types, cursor, hdr.little)?;
        let body: u64 = cursor + TYPE_LEN;
        let tail: u64 = ty.tail_len();
        if body + tail > types.len() as u64 {
            return Err(
                BtfError::Truncated { offset: body, need: tail, have: have_from(types, body) },
            );
        }
        if ty.kind == KIND_STRUCT {
            let name = string_at(strings, ty.name_off)?;
            if name_is(name, struct_name) {
                return scan_members(types, strings, hdr.little, body, ty, wanted);
            }
        }
        cursor = body + tail;
    }
    Err(BtfError::NoSuchStruct { name: text(struct_name) })
}

/// Resolves the two offsets from a kernel's BTF blob.
pub fn task_struct_offsets(raw: &[u8]) -> (r: Result<TaskStructOffsets, BtfError>)
    ensures
        ({
            let found = members_of(raw@, "task_struct", seq!["real_parent", "tgid"]);
            match r {
                Ok(o) => {
                    &&& found matches Ok(v)
                    &&& o.real_parent == (match v[0] {
                        Some(off) => off,
                        None => 0u32,
                    })
                    &&& o.tgid == (match v[1] {
                        Some(off) => off,
                        None => 0u32,
                    })
                },
                Err(e) => found == Err::<Seq<Option<u32>>, BtfFault>(e@),
            }
        }),
{
    let wanted = ["real_parent", "tgid"];
    let found = member_offsets(raw, "task_struct", &wanted);
    proof {
        assert(wanted@ =~= seq!["real_parent", "tgid"]);
    }
    match found {
        Err(e) => Err(e),
        Ok(v) => {
            let real_parent: u32 = v[0].unwrap_or(0);
            let tgid: u32 = v[1].unwrap_or(0);
            Ok(TaskStructOffsets { real_parent, tgid })
        },
    }
}

/// A word is read in the order of bytes that the blob has: a word that was
/// written with its most significant byte first in the one, last in the other.
pub proof fn words_are_read_in_the_blobs_order(buf: Seq<u8>, at: int, v: u32)
    requires
        0 <= at,
        at + 4 <= buf.len(),
    ensures
        buf.subrange(at, at + 4) == big_endian(v as nat, 4) ==> word_at(buf, at, false) == v,
        buf.subrange(at, at + 4).reverse() == big_endian(v as nat, 4) ==> word_at(buf, at, true)
            == v,
        read_word(buf, at, true) == Ok::<u32, BtfFault>(word_at(buf, at, true)),
        read_word(buf, at, false) == Ok::<u32, BtfFault>(word_at(buf, at, false)),
{
    let w = buf.subrange(at, at + 4);
    reveal_with_fuel(be, 5);
    if w == big_endian(v as nat, 4) {
        numbers_read_back(buf, at, v as nat, 4);
        assert(be(buf, at, 4) == word_at(buf, at, false));
    }
    if w.reverse() == big_endian(v as nat, 4) {
        let r = w.reverse();
        assert(r.subrange(0, 4) =~= r);
        numbers_read_back(r, 0, v as nat, 4);
        assert(r[0] == buf[at + 3] && r[1] == buf[at + 2] && r[2] == buf[at + 1] && r[3] == buf[at]);
        assert(be(r, 0, 4) == word_at(buf, at, true));
    }
}

/// A word that is not all there is said to be missing where it should stand.
pub proof fn a_word_that_is_cut_off_is_truncated(buf: Seq<u8>, at: int, little: bool)
    requires
        0 <= at,
        at + 4 > buf.len(),
    ensures
        read_word(buf, at, little) is Err,
        read_word(buf, at, little)->Err_0 is Truncated,
        read_word(buf, at, little)->Err_0->Truncated_offset == at,
        read_word(buf, at, little)->Err_0->need == 4,
        read_word(buf, at, little)->Err_0->have == (if buf.len() > at {
            buf.len() - at
        } else {
            0
        }),
{
}

/// A blob is known by its magic, in either order of bytes, and by its version;
/// what its header says of the sections is read in that order. Anything else is
/// refused, for the first reason that there is.
pub proof fn a_blob_is_known_by_its_header(raw: Seq<u8>)
    ensures
        raw.len() < 24 ==> header_of(raw) is Err && header_of(raw)->Err_0 is Truncated,
        raw.len() >= 24 ==> ({
            let little = raw[0] == 0x9f && raw[1] == 0xeb;
            let big = raw[0] == 0xeb && raw[1] == 0x9f;
            &&& !little && !big ==> header_of(raw) is Err && header_of(raw)->Err_0 is BadMagic
            &&& (little || big) && raw[2] != 1 ==> header_of(raw) is Err
                && header_of(raw)->Err_0 is BadVersion && header_of(raw)->Err_0->version == raw[2]
            &&& (little || big) && raw[2] == 1 && word_at(raw, 4, little) < 24 ==> header_of(
                raw,
            ) is Err && header_of(raw)->Err_0 is ShortHeader
            &&& (little || big) && raw[2] == 1 && word_at(raw, 4, little) >= 24 ==> {
                &&& header_of(raw) is Ok
                &&& header_of(raw)->Ok_0.little == little
                &&& header_of(raw)->Ok_0.hdr_len == word_at(raw, 4, little)
                &&& header_of(raw)->Ok_0.type_off == word_at(raw, 8, little)
                &&& header_of(raw)->Ok_0.type_len == word_at(raw, 12, little)
                &&& header_of(raw)->Ok_0.str_off == word_at(raw, 16, little)
                &&& header_of(raw)->Ok_0.str_len == word_at(raw, 20, little)
            }
        }),
{
}

/// A section stands so far behind the header, and is all there or truncated.
pub proof fn a_section_stands_behind_the_header(
    raw: Seq<u8>,
    hdr_len: u32,
    off: u32,
    section: Seq<u8>,
)
    requires
        section.len() <= u32::MAX,
    ensures
        hdr_len + off + section.len() <= raw.len() && raw.subrange(
            hdr_len + off,
            hdr_len + off + section.len(),
        ) == section ==> section_of(raw, hdr_len, off, section.len() as u32) == Ok::<
            Seq<u8>,
            BtfFault,
        >(section),
        hdr_len + off + section.len() > raw.len() ==> section_of(
            raw,
            hdr_len,
            off,
            section.len() as u32,
        ) is Err && section_of(raw, hdr_len, off, section.len() as u32)->Err_0 is Truncated,
{
}

/// A type's word holds the count in its low sixteen bits, the kind in five bits
/// from the twenty-fourth, and the flag in the highest.
pub proof fn a_types_word_is_taken_apart(name_off: u32, info: u32)
    ensures
        type_header(name_off, info).name_off == name_off,
        type_header(name_off, info).vlen == info % 0x1_0000,
        type_header(name_off, info).kind == (info / 0x100_0000) % 32,
        type_header(name_off, info).kind_flag == (info >= 0x8000_0000),
{
    assert(info & 0xffff == info % 0x1_0000) by (bit_vector);
    assert((info >> 24) & 0x1f == (info / 0x100_0000) % 32) by (bit_vector);
    assert(((info >> 31) == 1) == (info >= 0x8000_0000)) by (bit_vector);
}

/// What follows a type takes the room that its kind has: a struct's members and
/// a union's three words each, and so on for the kinds that have anything
/// behind them; the others have nothing.
pub proof fn what_follows_a_type_takes_its_room(t: TypeHeader)
    ensures
        t.kind == 1 || t.kind == 14 || t.kind == 17 ==> tail_of(t) == 4,
        t.kind == 3 ==> tail_of(t) == 12,
        t.kind == 4 || t.kind == 5 ==> tail_of(t) == 12 * t.vlen,
        t.kind == 6 || t.kind == 13 ==> tail_of(t) == 8 * t.vlen,
        t.kind == 15 || t.kind == 19 ==> tail_of(t) == 12 * t.vlen,
        t.kind != 1 && t.kind != 14 && t.kind != 17 && t.kind != 3 && t.kind != 4 && t.kind != 5
            && t.kind != 6 && t.kind != 13 && t.kind != 15 && t.kind != 19 ==> tail_of(t) == 0,
{
}

/// A name is what stands at its offset up to the next zero, or to the end of the
/// strings where there is none; an offset past the strings has none.
pub proof fn a_name_ends_at_its_zero(
    strings: Seq<u8>,
    offset: u32,
    name: Seq<u8>,
    rest: Seq<u8>,
)
    ensures
        offset <= strings.len() && strings.skip(offset as int) == name + seq![0u8] + rest
            && !name.contains(0) ==> name_at(strings, offset) == Ok::<Seq<u8>, BtfFault>(name),
        offset <= strings.len() && strings.skip(offset as int) == name && !name.contains(0)
            ==> name_at(strings, offset) == Ok::<Seq<u8>, BtfFault>(name),
        offset > strings.len() ==> name_at(strings, offset) is Err && name_at(
            strings,
            offset,
        )->Err_0 is BadStringOffset,
{
    if offset <= strings.len() && strings.skip(offset as int) == name && !name.contains(0) {
        assert forall|k: int| 0 <= k < name.len() implies name[k] != 0 by {
            assert(name.contains(name[k]));
        }
        lemma_until_nul(name, name.len() as int);
        assert(name.take(name.len() as int) =~= name);
    }
    if offset <= strings.len() && strings.skip(offset as int) == name + seq![0u8] + rest
        && !name.contains(0) {
        let s = strings.skip(offset as int);
        assert forall|k: int| 0 <= k < name.len() implies s[k] != 0 by {
            assert(name.contains(name[k]));
        }
        lemma_until_nul(s, name.len() as int);
        assert(s.take(name.len() as int) =~= name);
    }
}

/// A struct is looked for type by type: one that is no struct, or has another
/// name, is passed over with what follows it; the first that has the name is
/// the one; and where the types end there is none.
pub proof fn a_struct_is_found_by_its_name(
    types: Seq<u8>,
    strings: Seq<u8>,
    little: bool,
    name: &str,
    at: int,
)
    requires
        0 <= at,
    ensures
        at >= types.len() ==> find_struct(types, strings, little, name, at) is Err && find_struct(
            types,
            strings,
            little,
            name,
            at,
        )->Err_0 is NoSuchStruct,
        at < types.len() && type_at(types, at, little) is Ok ==> ({
            let t = type_at(types, at, little)->Ok_0;
            let next = at + 12 + tail_of(t);
            let here = find_struct(types, strings, little, name, at);
            &&& next > types.len() ==> here is Err && here->Err_0 is Truncated
            &&& next <= types.len() && t.kind != 4 ==> here == find_struct(
                types,
                strings,
                little,
                name,
                next,
            )
            &&& next <= types.len() && t.kind == 4 && name_at(strings, t.name_off) == Ok::<
                Seq<u8>,
                BtfFault,
            >(name.spec_bytes()) ==> here == Ok::<(int, TypeHeader), BtfFault>((at + 12, t))
            &&& next <= types.len() && t.kind == 4 && name_at(strings, t.name_off) is Ok && name_at(
                strings,
                t.name_off,
            )->Ok_0 != name.spec_bytes() ==> here == find_struct(types, strings, little, name, next)
        }),
        type_at(types, at, little) is Ok ==> type_at(types, at, little)->Ok_0 == type_header(
            word_at(types, at, little),
            word_at(types, at + 4, little),
        ),
{
}

/// A member stands at the byte that its word says in bits; with the flag set,
/// the highest eight bits are not part of that.
pub proof fn a_members_word_says_where_it_stands(
    types: Seq<u8>,
    little: bool,
    body: int,
    t: TypeHeader,
    i: int,
)
    ensures
        !t.kind_flag ==> member_offset(types, little, body, t, i) == word_at(
            types,
            body + 12 * i + 8,
            little,
        ) / 8,
        t.kind_flag ==> member_offset(types, little, body, t, i) == (word_at(
            types,
            body + 12 * i + 8,
            little,
        ) % 0x100_0000) / 8,
{
    let w = word_at(types, body + 12 * i + 8, little);
    assert(w & 0x00ff_ffff == w % 0x100_0000) by (bit_vector);
}

/// A member is the first that has the name, and is not there if none has.
pub proof fn a_member_is_found_by_its_name(
    types: Seq<u8>,
    strings: Seq<u8>,
    little: bool,
    body: int,
    t: TypeHeader,
    want: &str,
    n: int,
    k: int,
)
    ensures
        0 <= k < n && member_name(types, strings, little, body, k) == Ok::<Seq<u8>, BtfFault>(
            want.spec_bytes(),
        ) && (forall|j: int|
            0 <= j < k ==> #[trigger] member_name(types, strings, little, body, j) != Ok::<
                Seq<u8>,
                BtfFault,
            >(want.spec_bytes())) ==> first_member(types, strings, little, body, t, want, n)
            == Some(member_offset(types, little, body, t, k)),
        (forall|j: int|
            0 <= j < n ==> #[trigger] member_name(types, strings, little, body, j) != Ok::<
                Seq<u8>,
                BtfFault,
            >(want.spec_bytes())) ==> first_member(
            types,
            strings,
            little,
            body,
            t,
            want,
            n,
        ) is None,
        member_name(types, strings, little, body, k) == name_at(
            strings,
            word_at(types, body + 12 * k, little),
        ),
    decreases n,
{
    if n > 0 {
        a_member_is_found_by_its_name(types, strings, little, body, t, want, n - 1, k);
    }
}

/// The offsets are those of the members asked for, in the order they were asked
/// for, in the sections that the header names.
pub proof fn members_are_looked_for_in_the_blobs_sections(
    raw: Seq<u8>,
    name: &str,
    wanted: Seq<&str>,
    i: int,
)
    requires
        members_of(raw, name, wanted) is Ok,
        0 <= i < wanted.len(),
    ensures
        members_of(raw, name, wanted)->Ok_0.len() == wanted.len(),
        ({
            let h = header_of(raw)->Ok_0;
            let types = section_of(raw, h.hdr_len, h.type_off, h.type_len)->Ok_0;
            let strings = section_of(raw, h.hdr_len, h.str_off, h.str_len)->Ok_0;
            let found = find_struct(types, strings, h.little, name, 0);
            &&& header_of(raw) is Ok && found is Ok
            &&& members_of(raw, name, wanted)->Ok_0[i] == first_member(
                types,
                strings,
                h.little,
                found->Ok_0.0,
                found->Ok_0.1,
                wanted[i],
                found->Ok_0.1.vlen as int,
            )
        }),
{
}

/// A fault says what it is and where.
pub proof fn a_fault_says_what_and_where(offset: nat, need: nat, have: nat, name: Seq<char>)
    ensures
        fault_text(
            BtfFault::Truncated { offset: offset as int, need: need as int, have: have as int },
        ) == "BTF blob is truncated at byte "@ + decimal(offset) + " (need "@ + decimal(need)
            + " bytes, have "@ + decimal(have) + ")"@,
        fault_text(BtfFault::NoSuchStruct { name }) == "no struct named `"@ + name
            + "` in this BTF blob"@,
        fault_text(BtfFault::BadStringOffset { offset: offset as int, len: have as int })
            == "BTF string offset "@ + decimal(offset) + " is outside the "@ + decimal(have)
            + "-byte string section"@,
{
}

/// A blob is refused for the first member whose name cannot be read.
pub proof fn a_member_without_a_name_is_a_fault(
    types: Seq<u8>,
    strings: Seq<u8>,
    little: bool,
    body: int,
    n: int,
    k: int,
)
    ensures
        (forall|j: int| 0 <= j < n ==> #[trigger] member_name(types, strings, little, body, j) is Ok)
            ==> member_fault(types, strings, little, body, n) is None,
        0 <= k < n && member_name(types, strings, little, body, k) is Err && (forall|j: int|
            0 <= j < k ==> #[trigger] member_name(types, strings, little, body, j) is Ok)
            ==> member_fault(types, strings, little, body, n) == Some(
            member_name(types, strings, little, body, k)->Err_0,
        ),
    decreases n,
{
    if n > 0 {
        a_member_without_a_name_is_a_fault(types, strings, little, body, n - 1, k);
    }
}

} // verus!
