//! Names for addresses, from two sources of unequal worth.
//!
//! A name *observed* in a DNS response was published by the name's own zone
//! before the connection happened. A *reverse* (PTR) name was published by
//! whoever owns the address. Both feed one cache: a reverse name never
//! displaces a live observed one, and an observed name always displaces a
//! reverse one.
//!
//! Times are nanoseconds on a clock that does not go back.

use crate::model::{canonical_ip, copy_text, text_of, IpAddr};
use crate::text::{chars_of, copy_range, lowercase, lowercase_chars, same_text, string_of};
use vstd::prelude::*;

verus! {

pub const NANOS_PER_SEC: u64 = 1_000_000_000;

pub const CACHE_TTL_SECS: u64 = 300;

pub const NEGATIVE_TTL_SECS: u64 = 60;

pub const CACHE_MAX_ENTRIES: usize = 4096;

/// Floor and ceiling applied to the TTL of an observed answer. The floor keeps
/// a tiny TTL from making the entry useless for the connection it was about to
/// explain; the ceiling keeps an absurd one from pinning a name forever.
pub const OBSERVED_MIN_TTL_SECS: u64 = 60;

pub const OBSERVED_MAX_TTL_SECS: u64 = 3600;

/// Where a cached name came from.
#[derive(Debug, Clone, Copy, PartialEq, Eq, Structural)]
pub enum Trust {
    /// Reverse lookup of the destination address, forward-confirmed.
    Ptr,
    /// Lifted from a DNS response this host actually received.
    Observed,
}

/// Whether `a` is worth at least as much as `b`.
pub open spec fn at_least(a: Trust, b: Trust) -> bool {
    a == Trust::Observed || b == Trust::Ptr
}

struct Entry {
    hostname: Option<String>,
    inserted: u64,
    in_flight: bool,
    trust: Trust,
    ttl_secs: u64,
}

/// What the cache knows of an address.
pub ghost struct Known {
    pub hostname: Option<Seq<char>>,
    pub inserted: u64,
    pub in_flight: bool,
    pub trust: Trust,
    pub ttl_secs: u64,
}

impl Known {
    /// Whether the entry holds a finished answer whose time has not run out.
    pub open spec fn fresh(self, now: u64) -> bool {
        !self.in_flight && now - self.inserted <= self.ttl_secs * NANOS_PER_SEC
    }

    /// Whether a new entry at `trust` may take this one's place.
    pub open spec fn gives_way(self, trust: Trust, now: u64) -> bool {
        at_least(trust, self.trust) || !self.fresh(now)
    }
}

impl View for Entry {
    type V = Known;

    closed spec fn view(&self) -> Known {
        Known {
            hostname: text_of(self.hostname),
            inserted: self.inserted,
            in_flight: self.in_flight,
            trust: self.trust,
            ttl_secs: self.ttl_secs,
        }
    }
}

impl Entry {
    fn is_fresh(&self, now: u64) -> (r: bool)
        ensures
            r == self@.fresh(now),
    {
        if self.in_flight {
            return false;
        }
        let age: u64 = if now > self.inserted {
            now - self.inserted
        } else {
            0
        };
        age as u128 <= self.ttl_secs as u128 * NANOS_PER_SEC as u128
    }

    /// Whether a new entry at `trust` may replace this one. A fresh observed
    /// answer outranks everything; an unfinished lookup protects nothing.
    fn supersedes(&self, trust: Trust, now: u64) -> (r: bool)
        ensures
            r == self@.gives_way(trust, now),
    {
        trust == Trust::Observed || self.trust == Trust::Ptr || !self.is_fresh(now)
    }
}

struct Slot {
    ip: IpAddr,
    entry: Entry,
}

spec fn contents(slots: Seq<Slot>) -> Map<IpAddr, Known>
    decreases slots.len(),
{
    if slots.len() == 0 {
        Map::empty()
    } else {
        contents(slots.drop_last()).insert(slots.last().ip, slots.last().entry@)
    }
}

spec fn keys_distinct(slots: Seq<Slot>) -> bool {
    forall|i: int, j: int|
        0 <= i < j < slots.len() ==> (#[trigger] slots[i]).ip != (#[trigger] slots[j]).ip
}

proof fn lemma_contents_keys(slots: Seq<Slot>, k: IpAddr)
    ensures
        contents(slots).contains_key(k) <==> exists|i: int|
            0 <= i < slots.len() && (#[trigger] slots[i]).ip == k,
    decreases slots.len(),
{
    if slots.len() > 0 {
        let head = slots.drop_last();
        lemma_contents_keys(head, k);
        if contents(head).contains_key(k) {
            let i = choose|i: int| 0 <= i < head.len() && (#[trigger] head[i]).ip == k;
            assert(slots[i].ip == k);
        }
        if exists|i: int| 0 <= i < slots.len() && (#[trigger] slots[i]).ip == k {
            let i = choose|i: int| 0 <= i < slots.len() && (#[trigger] slots[i]).ip == k;
            if i < head.len() {
                assert(head[i].ip == k);
            }
        }
        if slots.last().ip == k {
            assert(slots[slots.len() - 1].ip == k);
        }
    }
}

proof fn lemma_contents_value(slots: Seq<Slot>, i: int)
    requires
        keys_distinct(slots),
        0 <= i < slots.len(),
    ensures
        contents(slots).contains_key(slots[i].ip),
        contents(slots)[slots[i].ip] == slots[i].entry@,
    decreases slots.len(),
{
    let head = slots.drop_last();
    if i < head.len() {
        assert forall|a: int, b: int| 0 <= a < b < head.len() implies (#[trigger] head[a]).ip != (
        #[trigger] head[b]).ip by {
            assert(slots[a].ip != slots[b].ip);
        }
        lemma_contents_value(head, i);
        assert(slots[i].ip != slots[slots.len() - 1].ip);
    }
}

proof fn lemma_contents_len(slots: Seq<Slot>)
    requires
        keys_distinct(slots),
    ensures
        contents(slots).dom().finite(),
        contents(slots).dom().len() == slots.len(),
    decreases slots.len(),
{
    if slots.len() > 0 {
        let head = slots.drop_last();
        assert forall|a: int, b: int| 0 <= a < b < head.len() implies (#[trigger] head[a]).ip != (
        #[trigger] head[b]).ip by {
            assert(slots[a].ip != slots[b].ip);
        }
        lemma_contents_len(head);
        lemma_contents_keys(head, slots.last().ip);
        assert(!contents(head).contains_key(slots.last().ip)) by {
            if contents(head).contains_key(slots.last().ip) {
                let i = choose|i: int|
                    0 <= i < head.len() && (#[trigger] head[i]).ip == slots.last().ip;
                assert(slots[i].ip != slots[slots.len() - 1].ip);
            }
        }
        assert(contents(slots).dom() =~= contents(head).dom().insert(slots.last().ip));
    } else {
        assert(contents(slots).dom() =~= Set::empty());
    }
}

proof fn lemma_contents_remove(slots: Seq<Slot>, i: int)
    requires
        keys_distinct(slots),
        0 <= i < slots.len(),
    ensures
        keys_distinct(slots.remove(i)),
        contents(slots.remove(i)) == contents(slots).remove(slots[i].ip),
{
    let rest = slots.remove(i);
    assert forall|a: int, b: int| 0 <= a < b < rest.len() implies (#[trigger] rest[a]).ip != (
    #[trigger] rest[b]).ip by {
        let x = if a < i {
            a
        } else {
            a + 1
        };
        let y = if b < i {
            b
        } else {
            b + 1
        };
        assert(rest[a] == slots[x] && rest[b] == slots[y]);
        assert(slots[x].ip != slots[y].ip);
    }
    let goal = contents(slots).remove(slots[i].ip);
    assert forall|k: IpAddr| #![auto] contents(rest).contains_key(k) <==> goal.contains_key(k) by {
        lemma_contents_keys(rest, k);
        lemma_contents_keys(slots, k);
        if contents(rest).contains_key(k) {
            let a = choose|a: int| 0 <= a < rest.len() && (#[trigger] rest[a]).ip == k;
            let x = if a < i {
                a
            } else {
                a + 1
            };
            assert(slots[x].ip == k);
            if x < i {
                assert(slots[x].ip != slots[i].ip);
            } else {
                assert(slots[i].ip != slots[x].ip);
            }
        }
        if goal.contains_key(k) {
            let x = choose|x: int| 0 <= x < slots.len() && (#[trigger] slots[x]).ip == k;
            let a = if x < i {
                x
            } else {
                x - 1
            };
            assert(rest[a].ip == k);
        }
    }
    assert forall|k: IpAddr| #![auto] contents(rest).contains_key(k) implies contents(rest)[k]
        == goal[k] by {
        lemma_contents_keys(rest, k);
        let a = choose|a: int| 0 <= a < rest.len() && (#[trigger] rest[a]).ip == k;
        let x = if a < i {
            a
        } else {
            a + 1
        };
        assert(rest[a] == slots[x]);
        lemma_contents_value(rest, a);
        lemma_contents_value(slots, x);
    }
    assert(contents(rest) =~= goal);
}

/// Whether `gone` is what leaves `m` to make room for `ip`: nothing where `ip`
/// has its place already or there is room for it, else an entry none is older
/// than.
pub open spec fn makes_room(m: Map<IpAddr, Known>, ip: IpAddr, gone: Option<IpAddr>) -> bool {
    match gone {
        None => m.contains_key(ip) || m.dom().len() < CACHE_MAX_ENTRIES,
        Some(k) => {
            &&& !m.contains_key(ip)
            &&& m.dom().len() >= CACHE_MAX_ENTRIES
            &&& m.contains_key(k)
            &&& forall|o: IpAddr| #[trigger]
                m.contains_key(o) ==> m[k].inserted <= m[o].inserted
        },
    }
}

/// `m` without `gone`.
pub open spec fn less(m: Map<IpAddr, Known>, gone: Option<IpAddr>) -> Map<IpAddr, Known> {
    match gone {
        None => m,
        Some(k) => m.remove(k),
    }
}

/// `s` without the dots at its end.
pub open spec fn undotted(s: Seq<char>) -> Seq<char>
    decreases s.len(),
{
    if s.len() > 0 && s.last() == '.' {
        undotted(s.drop_last())
    } else {
        s
    }
}

/// A name as rules compare it: bare and in lower case.
pub open spec fn normal_name(s: Seq<char>) -> Seq<char> {
    lowercase(undotted(s))
}

/// The TTL kept for an observed record.
pub open spec fn observed_ttl(ttl: u32) -> u64 {
    if ttl < OBSERVED_MIN_TTL_SECS {
        OBSERVED_MIN_TTL_SECS
    } else if ttl > OBSERVED_MAX_TTL_SECS {
        OBSERVED_MAX_TTL_SECS
    } else {
        ttl as u64
    }
}

/// What an observed record leaves in the cache.
pub open spec fn observation(name: Seq<char>, ttl: u32, now: u64) -> Known {
    Known {
        hostname: Some(normal_name(name)),
        inserted: now,
        in_flight: false,
        trust: Trust::Observed,
        ttl_secs: observed_ttl(ttl),
    }
}

/// What a lookup under way leaves in the cache.
pub open spec fn placeholder(now: u64) -> Known {
    Known {
        hostname: None,
        inserted: now,
        in_flight: true,
        trust: Trust::Ptr,
        ttl_secs: NEGATIVE_TTL_SECS,
    }
}

/// What a finished reverse lookup leaves in the cache.
pub open spec fn reverse_answer(hostname: Option<Seq<char>>, now: u64) -> Known {
    Known {
        hostname,
        inserted: now,
        in_flight: false,
        trust: Trust::Ptr,
        ttl_secs: if hostname is Some {
            CACHE_TTL_SECS
        } else {
            NEGATIVE_TTL_SECS
        },
    }
}

/// The cache after `ip` was given the entry `e`: another may have left to make
/// room, and `e` is there.
pub open spec fn entered_into(
    before: Map<IpAddr, Known>,
    after: Map<IpAddr, Known>,
    ip: IpAddr,
    e: Known,
) -> bool {
    exists|gone: Option<IpAddr>|
        #![trigger makes_room(before, ip, gone)]
        makes_room(before, ip, gone) && after == less(before, gone).insert(ip, e)
}

/// The cache after an answer that names `ip` was seen.
pub open spec fn seen_into(
    before: Map<IpAddr, Known>,
    after: Map<IpAddr, Known>,
    ip: IpAddr,
    name: Seq<char>,
    ttl: u32,
    now: u64,
) -> bool {
    if normal_name(name).len() == 0 {
        after == before
    } else {
        entered_into(before, after, ip, observation(name, ttl, now))
    }
}

/// The cache after a finished reverse lookup was filed.
pub open spec fn filed(
    before: Map<IpAddr, Known>,
    after: Map<IpAddr, Known>,
    ip: IpAddr,
    hostname: Option<Seq<char>>,
    now: u64,
) -> bool {
    if before.contains_key(ip) && !before[ip].gives_way(Trust::Ptr, now) {
        after == before
    } else {
        entered_into(before, after, ip, reverse_answer(hostname, now))
    }
}

/// The cache after a reverse lookup was asked for, and whether one is started.
pub open spec fn looked_up(
    before: Map<IpAddr, Known>,
    after: Map<IpAddr, Known>,
    ip: IpAddr,
    now: u64,
    started: bool,
) -> bool {
    if before.contains_key(ip) && (before[ip].in_flight || before[ip].fresh(now)) {
        !started && after == before
    } else {
        started && entered_into(before, after, ip, placeholder(now))
    }
}

/// The name the cache gives for an address.
pub open spec fn name_for(m: Map<IpAddr, Known>, ip: IpAddr, now: u64) -> Option<Seq<char>> {
    if m.contains_key(ip) && m[ip].fresh(now) {
        m[ip].hostname
    } else {
        None
    }
}

/// Names by address, and which process this daemon is.
pub struct DnsCache {
    slots: Vec<Slot>,
    daemon_pid: u32,
}

impl View for DnsCache {
    type V = Map<IpAddr, Known>;

    closed spec fn view(&self) -> Map<IpAddr, Known> {
        contents(self.slots@)
    }
}

impl DnsCache {
    /// Each address has one entry, and there are no more than the bound.
    pub closed spec fn wf(&self) -> bool {
        keys_distinct(self.slots@) && self.slots@.len() <= CACHE_MAX_ENTRIES
    }

    /// The daemon's own process.
    pub closed spec fn own_pid(&self) -> u32 {
        self.daemon_pid
    }

    pub fn new(daemon_pid: u32) -> (r: DnsCache)
        ensures
            r.wf(),
            r@ == Map::<IpAddr, Known>::empty(),
            r.own_pid() == daemon_pid,
    {
        DnsCache { slots: Vec::new(), daemon_pid }
    }

    /// True when a pid refers to the daemon itself. Used to skip the daemon's
    /// own DNS queries.
    pub fn is_self(&self, pid: u32) -> (r: bool)
        ensures
            r == (pid == self.own_pid()),
    {
        pid == self.daemon_pid
    }

    /// How many addresses have an entry.
    pub fn len(&self) -> (r: usize)
        requires
            self.wf(),
        ensures
            r == self@.dom().len(),
            r <= CACHE_MAX_ENTRIES,
    {
        proof {
            lemma_contents_len(self.slots@);
        }
        self.slots.len()
    }

    fn find(&self, ip: IpAddr) -> (r: Option<usize>)
        requires
            self.wf(),
        ensures
            r matches Some(i) ==> i < self.slots@.len() && self.slots@[i as int].ip == ip
                && self@.contains_key(ip) && self@[ip] == self.slots@[i as int].entry@,
            r is None ==> !self@.contains_key(ip),
    {
        let mut i: usize = 0;
        while i < self.slots.len()
            invariant
                i <= self.slots@.len(),
                self.wf(),
                forall|k: int| 0 <= k < i ==> (#[trigger] self.slots@[k]).ip != ip,
            decreases self.slots@.len() - i,
        {
            if self.slots[i].ip == ip {
                proof {
                    lemma_contents_value(self.slots@, i as int);
                }
                return Some(i);
            }
            i += 1;
        }
        proof {
            lemma_contents_keys(self.slots@, ip);
        }
        None
    }

    /// The name known for `ip` at `now`.
    pub fn lookup_cached(&self, ip: IpAddr, now: u64) -> (r: Option<String>)
        requires
            self.wf(),
        ensures
            text_of(r) == name_for(self@, ip, now),
    {
        match self.find(ip) {
            Some(i) => if self.slots[i].entry.is_fresh(now) {
                copy_text(&self.slots[i].entry.hostname)
            } else {
                None
            },
            None => None,
        }
    }

    /// How far the name known for `ip` can be trusted, where there is one.
    pub fn cached_trust(&self, ip: IpAddr, now: u64) -> (r: Option<Trust>)
        requires
            self.wf(),
        ensures
            r == (if name_for(self@, ip, now) is Some {
                Some(self@[ip].trust)
            } else {
                None
            }),
    {
        match self.find(ip) {
            Some(i) => if self.slots[i].entry.is_fresh(now)
                && self.slots[i].entry.hostname.is_some() {
                Some(self.slots[i].entry.trust)
            } else {
                None
            },
            None => None,
        }
    }

    /// Drops the oldest entry when an entry for `ip` would be one too many.
    fn evict_if_full(&mut self, ip: IpAddr) -> (gone: Ghost<Option<IpAddr>>)
        requires
            old(self).wf(),
        ensures
            final(self).wf(),
            final(self).own_pid() == old(self).own_pid(),
            makes_room(old(self)@, ip, gone@),
            final(self)@ == less(old(self)@, gone@),
            final(self)@.contains_key(ip) || final(self).slots@.len() < CACHE_MAX_ENTRIES,
    {
        proof {
            lemma_contents_len(self.slots@);
        }
        if self.find(ip).is_some() || self.slots.len() < CACHE_MAX_ENTRIES {
            return Ghost(None);
        }
        let mut oldest: usize = 0;
        let mut i: usize = 1;
        while i < self.slots.len()
            invariant
                1 <= i <= self.slots@.len(),
                oldest < i,
                *self == *old(self),
                forall|k: int|
                    0 <= k < i ==> self.slots@[oldest as int].entry@.inserted <= (
                    #[trigger] self.slots@[k]).entry@.inserted,
            decreases self.slots@.len() - i,
        {
            if self.slots[i].entry.inserted < self.slots[oldest].entry.inserted {
                oldest = i;
            }
            i += 1;
        }
        let ghost all = self.slots@;
        let ghost gone = Some(all[oldest as int].ip);
        proof {
            lemma_contents_value(all, oldest as int);
            assert forall|o: IpAddr| #[trigger]
                contents(all).contains_key(o) implies contents(all)[all[oldest as int].ip].inserted
                <= contents(all)[o].inserted by {
                lemma_contents_keys(all, o);
                let k = choose|k: int| 0 <= k < all.len() && (#[trigger] all[k]).ip == o;
                lemma_contents_value(all, k);
            }
            lemma_contents_remove(all, oldest as int);
        }
        let _ = self.slots.remove(oldest);
        Ghost(gone)
    }

    /// Puts an entry in, in the place of the one `ip` had.
    fn put(&mut self, ip: IpAddr, entry: Entry)
        requires
            old(self).wf(),
            old(self)@.contains_key(ip) || old(self).slots@.len() < CACHE_MAX_ENTRIES,
        ensures
            final(self).wf(),
            final(self).own_pid() == old(self).own_pid(),
            final(self)@ == old(self)@.insert(ip, entry@),
    {
        let ghost before = self@;
        if let Some(i) = self.find(ip) {
            proof {
                lemma_contents_remove(self.slots@, i as int);
            }
            let _ = self.slots.remove(i);
        }
        let ghost rest = self.slots@;
        proof {
            lemma_contents_keys(rest, ip);
        }
        let ghost new = Slot { ip, entry };
        self.slots.push(Slot { ip, entry });
        proof {
            assert(self.slots@ =~= rest.push(new));
            assert(rest.push(new).drop_last() =~= rest);
            assert forall|a: int, b: int| 0 <= a < b < self.slots@.len() implies (
            #[trigger] self.slots@[a]).ip != (#[trigger] self.slots@[b]).ip by {
                if b < rest.len() {
                    assert(rest[a].ip != rest[b].ip);
                } else {
                    assert(rest[a].ip != ip);
                }
            }
            assert(self@ =~= before.insert(ip, entry@));
        }
    }

    /// Records an address record lifted out of a DNS response this host
    /// received, with `ttl` in seconds as the record carried it. First-hand
    /// evidence, which outranks any reverse name for the same address.
    pub fn observe_answer(&mut self, ip: IpAddr, name: &str, ttl: u32, now: u64)
        requires
            old(self).wf(),
        ensures
            final(self).wf(),
            final(self).own_pid() == old(self).own_pid(),
            normal_name(name@).len() == 0 ==> final(self)@ == old(self)@,
            normal_name(name@).len() > 0 ==> entered_into(
                old(self)@,
                final(self)@,
                ip,
                observation(name@, ttl, now),
            ),
            seen_into(old(self)@, final(self)@, ip, name@, ttl, now),
    {
        let v = chars_of(name);
        let mut n: usize = v.len();
        proof {
            assert(v@.take(n as int) =~= v@);
        }
        while n > 0 && v[n - 1] == '.'
            invariant
                n <= v@.len(),
                undotted(v@.take(n as int)) == undotted(v@),
            decreases n,
        {
            proof {
                assert(v@.take(n as int).drop_last() =~= v@.take(n - 1));
                assert(v@.take(n as int).last() == v@[n - 1]);
            }
            n -= 1;
        }
        proof {
            if n > 0 {
                assert(v@.take(n as int).last() == v@[n - 1]);
            }
            assert(undotted(v@) == v@.take(n as int));
            assert(normal_name(name@).len() == n);
        }
        if n == 0 {
            return;
        }
        let bare = copy_range(v.as_slice(), 0, n);
        proof {
            assert(bare@ =~= v@.take(n as int));
        }
        let hostname = string_of(lowercase_chars(bare.as_slice()).as_slice());
        let ttl_secs: u64 = if (ttl as u64) < OBSERVED_MIN_TTL_SECS {
            OBSERVED_MIN_TTL_SECS
        } else if ttl as u64 > OBSERVED_MAX_TTL_SECS {
            OBSERVED_MAX_TTL_SECS
        } else {
            ttl as u64
        };
        let gone = self.evict_if_full(ip);
        let entry = Entry {
            hostname: Some(hostname),
            inserted: now,
            in_flight: false,
            trust: Trust::Observed,
            ttl_secs,
        };
        proof {
            assert(entry@ == observation(name@, ttl, now));
        }
        self.put(ip, entry);
        proof {
            assert(makes_room(old(self)@, ip, gone@));
        }
    }

    /// Whether a reverse lookup of `ip` is to be started; if so its place is
    /// taken, so that none is started twice. None is started while one is
    /// under way or a fresh answer is there.
    pub fn enqueue_lookup(&mut self, ip: IpAddr, now: u64) -> (r: bool)
        requires
            old(self).wf(),
        ensures
            final(self).wf(),
            final(self).own_pid() == old(self).own_pid(),
            r == !(old(self)@.contains_key(ip) && (old(self)@[ip].in_flight || old(
                self,
            )@[ip].fresh(now))),
            !r ==> final(self)@ == old(self)@,
            r ==> entered_into(old(self)@, final(self)@, ip, placeholder(now)),
            looked_up(old(self)@, final(self)@, ip, now, r),
    {
        if let Some(i) = self.find(ip) {
            if self.slots[i].entry.in_flight || self.slots[i].entry.is_fresh(now) {
                return false;
            }
        }
        let gone = self.evict_if_full(ip);
        let entry = Entry {
            hostname: None,
            inserted: now,
            in_flight: true,
            trust: Trust::Ptr,
            ttl_secs: NEGATIVE_TTL_SECS,
        };
        proof {
            assert(entry@ == placeholder(now));
        }
        self.put(ip, entry);
        proof {
            assert(makes_room(old(self)@, ip, gone@));
        }
        true
    }

    /// Files a finished reverse lookup. `hostname` is `None` for "no reverse
    /// name, or it failed confirmation", which is remembered too, so the
    /// lookup is not repeated on every packet.
    pub fn record_ptr_result(&mut self, ip: IpAddr, hostname: Option<String>, now: u64)
        requires
            old(self).wf(),
        ensures
            final(self).wf(),
            final(self).own_pid() == old(self).own_pid(),
            if old(self)@.contains_key(ip) && !old(self)@[ip].gives_way(Trust::Ptr, now) {
                final(self)@ == old(self)@
            } else {
                entered_into(
                    old(self)@,
                    final(self)@,
                    ip,
                    reverse_answer(text_of(hostname), now),
                )
            },
            filed(old(self)@, final(self)@, ip, text_of(hostname), now),
    {
        if let Some(i) = self.find(ip) {
            if !self.slots[i].entry.supersedes(Trust::Ptr, now) {
                return;
            }
        }
        let ttl_secs: u64 = if hostname.is_some() {
            CACHE_TTL_SECS
        } else {
            NEGATIVE_TTL_SECS
        };
        let ghost name = text_of(hostname);
        let entry = Entry { hostname, inserted: now, in_flight: false, trust: Trust::Ptr, ttl_secs };
        proof {
            assert(entry@ == reverse_answer(name, now));
        }
        let gone = self.evict_if_full(ip);
        self.put(ip, entry);
        proof {
            assert(makes_room(old(self)@, ip, gone@));
        }
    }
}

/// Whether `ip` is among `addrs`, an IPv4-mapped address counting as the IPv4
/// address it carries.
pub open spec fn among(addrs: Seq<IpAddr>, ip: IpAddr) -> bool {
    exists|i: int| 0 <= i < addrs.len() && canonical_ip(#[trigger] addrs[i]) == canonical_ip(ip)
}

/// Whether the addresses that a name was found to have confirm it for `ip`.
pub open spec fn confirms(resolved: Option<Vec<IpAddr>>, ip: IpAddr) -> bool {
    resolved matches Some(addrs) && among(addrs@, ip)
}

/// Whether a forward-lookup result set covers `ip`.
pub fn addrs_contain(addrs: &[IpAddr], ip: IpAddr) -> (r: bool)
    ensures
        r == among(addrs@, ip),
{
    let want = ip.to_canonical();
    let mut i: usize = 0;
    while i < addrs.len()
        invariant
            i <= addrs@.len(),
            want == canonical_ip(ip),
            forall|k: int| 0 <= k < i ==> canonical_ip(#[trigger] addrs@[k]) != want,
        decreases addrs@.len() - i,
    {
        if addrs[i].to_canonical() == want {
            return true;
        }
        i += 1;
    }
    false
}

/// Whether the reverse name a lookup returned is to be confirmed at all: an
/// address written out is the resolver's way of saying that there is no name.
pub fn worth_confirming(name: &str, ip_text: &str) -> (r: bool)
    ensures
        r == (name@ != ip_text@),
{
    !same_text(name, ip_text)
}

/// Whether a reverse name stands: resolving it has to lead back to the address
/// it is claimed for. A forward lookup that failed confirms nothing.
pub fn forward_confirm(resolved: &Option<Vec<IpAddr>>, ip: IpAddr) -> (r: bool)
    ensures
        r == (resolved matches Some(addrs) && among(addrs@, ip)),
        r == confirms(*resolved, ip),
{
    match resolved {
        Some(addrs) => addrs_contain(addrs.as_slice(), ip),
        None => false,
    }
}

/// A reverse answer never displaces a fresh observed name.
pub proof fn a_reverse_name_never_displaces_an_observation(e: Known, now: u64)
    requires
        e.trust == Trust::Observed,
        e.fresh(now),
    ensures
        !e.gives_way(Trust::Ptr, now),
{
}

/// An observation takes the place of whatever was there, and is what the cache
/// then answers with.
pub proof fn an_observation_always_takes_its_place(
    before: Map<IpAddr, Known>,
    after: Map<IpAddr, Known>,
    ip: IpAddr,
    name: Seq<char>,
    ttl: u32,
    now: u64,
)
    requires
        entered_into(before, after, ip, observation(name, ttl, now)),
    ensures
        name_for(after, ip, now) == Some(normal_name(name)),
        after[ip].trust == Trust::Observed,
{
}

/// An observed name is answered for as long as its clamped TTL and no longer.
pub proof fn observed_names_last_their_ttl(
    m: Map<IpAddr, Known>,
    ip: IpAddr,
    name: Seq<char>,
    ttl: u32,
    at: u64,
    now: u64,
)
    requires
        m.contains_key(ip),
        m[ip] == observation(name, ttl, at),
        at <= now,
    ensures
        name_for(m, ip, now) is Some <==> now - at <= observed_ttl(ttl) * NANOS_PER_SEC,
        OBSERVED_MIN_TTL_SECS <= observed_ttl(ttl) <= OBSERVED_MAX_TTL_SECS,
{
}

/// Neither an observation, nor the start of a lookup, nor its end takes the
/// cache past its bound.
pub proof fn the_cache_stays_bounded(
    before: Map<IpAddr, Known>,
    after: Map<IpAddr, Known>,
    ip: IpAddr,
    e: Known,
)
    requires
        before.dom().finite(),
        before.dom().len() <= CACHE_MAX_ENTRIES,
        entered_into(before, after, ip, e),
    ensures
        after.dom().finite(),
        after.dom().len() <= CACHE_MAX_ENTRIES,
{
    let gone = choose|gone: Option<IpAddr>|
        #![trigger makes_room(before, ip, gone)]
        makes_room(before, ip, gone) && after == less(before, gone).insert(ip, e);
    let rest = less(before, gone);
    match gone {
        Some(k) => {
            assert(rest.dom() =~= before.dom().remove(k));
        },
        None => {},
    }
    if before.contains_key(ip) {
        assert(after.dom() =~= before.dom());
    }
    assert(after.dom() =~= rest.dom().insert(ip));
}

/// Making room for one address costs no other address its name unless the
/// address is new and the cache is full, and then only an oldest one.
pub proof fn room_is_made_at_the_oldest_entrys_expense(
    before: Map<IpAddr, Known>,
    after: Map<IpAddr, Known>,
    ip: IpAddr,
    e: Known,
    other: IpAddr,
)
    requires
        entered_into(before, after, ip, e),
        other != ip,
        before.contains_key(other),
    ensures
        after.contains_key(other) ==> after[other] == before[other],
        !after.contains_key(other) ==> {
            &&& !before.contains_key(ip)
            &&& before.dom().len() >= CACHE_MAX_ENTRIES
            &&& forall|o: IpAddr| #[trigger]
                before.contains_key(o) ==> before[other].inserted <= before[o].inserted
        },
{
}

/// An entry answers while its time to live has not passed since it was made, and
/// never while its lookup is under way.
pub proof fn an_entry_answers_for_its_time(e: Known, now: u64)
    ensures
        e.in_flight ==> !e.fresh(now),
        !e.in_flight && now <= e.inserted ==> e.fresh(now),
        !e.in_flight && now > e.inserted ==> (e.fresh(now) <==> now - e.inserted <= e.ttl_secs
            * 1_000_000_000),
{
}

/// What is cached gives way to anything once it does not answer any more, and to
/// an observation in any case; a fresh name gives way to a reverse name only if
/// it is one itself.
pub proof fn trust_decides_what_gives_way(e: Known, now: u64)
    ensures
        e.gives_way(Trust::Observed, now),
        !e.fresh(now) ==> e.gives_way(Trust::Ptr, now),
        e.fresh(now) ==> (e.gives_way(Trust::Ptr, now) <==> e.trust == Trust::Ptr),
{
}

/// A name is kept in lower case and without the dots at its end, and only those.
pub proof fn a_name_is_kept_bare(t: Seq<char>)
    requires
        t.len() > 0 ==> t.last() != '.',
    ensures
        normal_name(t) == lowercase(t),
        normal_name(t + seq!['.']) == lowercase(t),
        normal_name(t + seq!['.', '.']) == lowercase(t),
{
    let a = t + seq!['.'];
    let b = t + seq!['.', '.'];
    assert(a.drop_last() =~= t);
    assert(b.drop_last() =~= a);
    assert(a.last() == '.' && b.last() == '.');
    reveal_with_fuel(undotted, 4);
}

/// An observed record is kept as what was seen now, with its own time to live
/// but at least a minute and at most an hour.
pub proof fn an_observation_keeps_its_own_time(name: Seq<char>, ttl: u32, now: u64)
    ensures
        ({
            let e = observation(name, ttl, now);
            &&& e.hostname is Some && e.hostname->Some_0 == normal_name(name)
            &&& e.inserted == now
            &&& !e.in_flight
            &&& e.trust == Trust::Observed
            &&& 60 <= ttl <= 3600 ==> e.ttl_secs == ttl
            &&& ttl < 60 ==> e.ttl_secs == 60
            &&& ttl > 3600 ==> e.ttl_secs == 3600
        }),
{
}

/// A reverse name is kept for five minutes, the lack of one for a minute, and a
/// lookup under way knows nothing yet; none of them counts as observed.
pub proof fn a_reverse_name_is_worth_less(name: Seq<char>, now: u64)
    ensures
        ({
            let e = reverse_answer(Some(name), now);
            &&& e.hostname is Some && e.hostname->Some_0 == name
            &&& e.inserted == now && !e.in_flight && e.trust == Trust::Ptr && e.ttl_secs == 300
        }),
        ({
            let e = reverse_answer(None, now);
            &&& e.hostname is None
            &&& e.inserted == now && !e.in_flight && e.trust == Trust::Ptr && e.ttl_secs == 60
        }),
        ({
            let e = placeholder(now);
            &&& e.hostname is None
            &&& e.inserted == now && e.in_flight && e.trust == Trust::Ptr
        }),
{
}

/// The cache names an address by its own entry, if there is one and it is fresh,
/// and by nothing else.
pub proof fn an_address_is_named_by_its_entry(m: Map<IpAddr, Known>, ip: IpAddr, now: u64)
    ensures
        !m.contains_key(ip) ==> name_for(m, ip, now) is None,
        m.contains_key(ip) && !m[ip].fresh(now) ==> name_for(m, ip, now) is None,
        m.contains_key(ip) && m[ip].fresh(now) ==> name_for(m, ip, now) == m[ip].hostname,
{
}

/// What enters the cache stands under its address as it was given, and of the
/// others at most one left.
pub proof fn what_enters_stands_under_its_address(
    before: Map<IpAddr, Known>,
    after: Map<IpAddr, Known>,
    ip: IpAddr,
    e: Known,
    other: IpAddr,
    third: IpAddr,
)
    requires
        entered_into(before, after, ip, e),
        other != ip && third != ip && other != third,
        before.contains_key(other) && before.contains_key(third),
    ensures
        after.contains_key(ip) && after[ip] == e,
        after.contains_key(other) || after.contains_key(third),
        after.contains_key(other) ==> after[other] == before[other],
        before.contains_key(ip) || before.dom().len() < 4096 ==> after.contains_key(other),
{
}

/// An address is among others if it is one of them; an IPv4 address also if its
/// IPv4-mapped form is, and the other way round.
pub proof fn mapped_addresses_count_as_what_they_carry(addrs: Seq<IpAddr>, a: u32, ip: IpAddr)
    ensures
        addrs.contains(ip) ==> among(addrs, ip),
        addrs.contains(IpAddr::V6((0xffff_0000_0000 + a) as u128)) ==> among(addrs, IpAddr::V4(a)),
        addrs.contains(IpAddr::V4(a)) ==> among(
            addrs,
            IpAddr::V6((0xffff_0000_0000 + a) as u128),
        ),
        among(addrs, IpAddr::V4(a)) ==> addrs.contains(IpAddr::V4(a)) || addrs.contains(
            IpAddr::V6((0xffff_0000_0000 + a) as u128),
        ),
{
    if addrs.contains(ip) {
        let i = choose|i: int| 0 <= i < addrs.len() && addrs[i] == ip;
        assert(canonical_ip(addrs[i]) == canonical_ip(ip));
    }
    let mapped = IpAddr::V6((0xffff_0000_0000 + a) as u128);
    if addrs.contains(mapped) {
        let i = choose|i: int| 0 <= i < addrs.len() && addrs[i] == mapped;
        assert(canonical_ip(addrs[i]) == IpAddr::V4(a));
    }
    if addrs.contains(IpAddr::V4(a)) {
        let i = choose|i: int| 0 <= i < addrs.len() && addrs[i] == IpAddr::V4(a);
        assert(canonical_ip(addrs[i]) == canonical_ip(mapped));
    }
    if among(addrs, IpAddr::V4(a)) {
        let i = choose|i: int|
            0 <= i < addrs.len() && canonical_ip(#[trigger] addrs[i]) == canonical_ip(
                IpAddr::V4(a),
            );
        assert(addrs.contains(addrs[i]));
        crate::model::a_mapped_address_is_the_one_it_carries(a, 0);
    }
}

/// A name is confirmed for an address if it was found to have that address, and
/// not otherwise: a name that was not found is not confirmed.
pub proof fn a_name_is_confirmed_by_its_address(
    addrs: Vec<IpAddr>,
    ip: IpAddr,
    k: int,
)
    ensures
        !confirms(None, ip),
        0 <= k < addrs@.len() && addrs@[k] == ip ==> confirms(Some(addrs), ip),
        (forall|i: int| 0 <= i < addrs@.len() ==> canonical_ip(#[trigger] addrs@[i]) != canonical_ip(ip))
            ==> !confirms(Some(addrs), ip),
        addrs@.len() == 0 ==> !confirms(Some(addrs), ip),
{
    if 0 <= k < addrs@.len() && addrs@[k] == ip {
        assert(canonical_ip(addrs@[k]) == canonical_ip(ip));
    }
}

/// No lookup is started twice: the address whose lookup was just started is not
/// asked about again, and has no name meanwhile; and a name that is still good
/// needs no lookup.
pub proof fn no_lookup_is_started_twice(
    m: Map<IpAddr, Known>,
    once: Map<IpAddr, Known>,
    twice: Map<IpAddr, Known>,
    ip: IpAddr,
    now: u64,
    then: u64,
    again: bool,
)
    requires
        looked_up(m, once, ip, now, true),
        looked_up(once, twice, ip, then, again),
    ensures
        !again,
        twice == once,
        name_for(once, ip, then) is None,
        name_for(m, ip, now) is None,
{
}

/// Whatever is not known is looked up, and what was found is the address's name
/// for five minutes; that nothing was found is remembered too, for one.
pub proof fn a_lookup_is_answered(
    m: Map<IpAddr, Known>,
    asked: Map<IpAddr, Known>,
    after: Map<IpAddr, Known>,
    ip: IpAddr,
    now: u64,
    then: u64,
    started: bool,
    name: Option<Seq<char>>,
    later: u64,
)
    requires
        later >= then,
        !m.contains_key(ip),
        looked_up(m, asked, ip, now, started),
        filed(asked, after, ip, name, then),
    ensures
        started,
        after.contains_key(ip),
        after[ip].hostname == name,
        after[ip].inserted == then,
        after[ip].trust == Trust::Ptr,
        !after[ip].in_flight,
        name_for(after, ip, then) == name,
        name is Some ==> (name_for(after, ip, later) == name <==> later - then <= 300_000_000_000),
        name is None ==> (after[ip].fresh(later) <==> later - then <= 60_000_000_000),
{
}

/// A reverse name never takes the place of one that was seen in an answer and is
/// still good.
pub proof fn a_filed_name_respects_what_was_seen(
    m: Map<IpAddr, Known>,
    after: Map<IpAddr, Known>,
    ip: IpAddr,
    name: Option<Seq<char>>,
    now: u64,
)
    requires
        m.contains_key(ip),
        m[ip].trust == Trust::Observed,
        m[ip].fresh(now),
        filed(m, after, ip, name, now),
    ensures
        after == m,
        name_for(after, ip, now) == m[ip].hostname,
{
}

/// A name that was seen in an answer is the address's name from then on, whatever
/// was known of the address before, and no reverse lookup of it is started while
/// it is good.
pub proof fn a_seen_name_is_the_addresses_name(
    m: Map<IpAddr, Known>,
    after: Map<IpAddr, Known>,
    ip: IpAddr,
    name: Seq<char>,
    ttl: u32,
    now: u64,
    then: Map<IpAddr, Known>,
    started: bool,
)
    requires
        seen_into(m, after, ip, name, ttl, now),
        looked_up(after, then, ip, now, started),
    ensures
        normal_name(name).len() > 0 ==> name_for(after, ip, now) == Some(normal_name(name)),
        normal_name(name).len() > 0 ==> after[ip].trust == Trust::Observed,
        normal_name(name).len() > 0 ==> !started,
        normal_name(name).len() == 0 ==> after == m,
{
}

} // verus!
