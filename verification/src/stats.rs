//! The daemon's counters and the pause switch.

use vstd::prelude::*;

verus! {

/// Counters since the start. Each wraps.
#[derive(Debug, Clone, Copy, PartialEq, Eq, Structural)]
pub struct Stats {
    pub allowed: u64,
    pub denied: u64,
    pub prompts_pending: u64,
    /// Filtering is switched off for a while.
    pub paused: bool,
    /// How often the switch was set; tells one pause from the next.
    pub generation: u64,
}

/// The next value of a counter that wraps.
pub open spec fn next(n: u64) -> u64 {
    if n == u64::MAX {
        0
    } else {
        (n + 1) as u64
    }
}

impl Stats {
    /// All counters at zero, not paused.
    pub fn new() -> (r: Stats)
        ensures
            r == (Stats {
                allowed: 0,
                denied: 0,
                prompts_pending: 0,
                paused: false,
                generation: 0,
            }),
    {
        Stats { allowed: 0, denied: 0, prompts_pending: 0, paused: false, generation: 0 }
    }

    /// Counts a flow that was let through.
    pub fn record_allow(&mut self)
        ensures
            *final(self) == (Stats { allowed: next(old(self).allowed), ..*old(self) }),
    {
        self.allowed = self.allowed.wrapping_add(1);
    }

    /// Counts a flow that was stopped.
    pub fn record_deny(&mut self)
        ensures
            *final(self) == (Stats { denied: next(old(self).denied), ..*old(self) }),
    {
        self.denied = self.denied.wrapping_add(1);
    }

    pub fn connections_allowed(&self) -> (r: u64)
        ensures
            r == self.allowed,
    {
        self.allowed
    }

    pub fn connections_denied(&self) -> (r: u64)
        ensures
            r == self.denied,
    {
        self.denied
    }

    /// Every flow that was decided.
    pub fn connections_total(&self) -> (r: u64)
        ensures
            r as int == (self.allowed + self.denied) % 0x1_0000_0000_0000_0000,
    {
        self.allowed.wrapping_add(self.denied)
    }

    pub fn is_paused(&self) -> (r: bool)
        ensures
            r == self.paused,
    {
        self.paused
    }

    /// The generation of the pause switch.
    pub fn pause_generation(&self) -> (r: u64)
        ensures
            r == self.generation,
    {
        self.generation
    }

    /// Sets the pause switch and returns its new generation.
    pub fn set_paused(&mut self, paused: bool) -> (r: u64)
        ensures
            *final(self) == switched(*old(self), paused),
            r == final(self).generation,
    {
        self.paused = paused;
        self.generation = self.generation.wrapping_add(1);
        self.generation
    }
}

/// The counters after the pause switch was set.
pub open spec fn switched(s: Stats, paused: bool) -> Stats {
    Stats { paused, generation: next(s.generation), ..s }
}

/// A counter goes up by one, and starts over at its end.
pub proof fn counters_go_up_by_one(n: u64)
    ensures
        n < u64::MAX ==> next(n) == n + 1,
        n == u64::MAX ==> next(n) == 0,
{
}

/// The switch is as it was set, its generation is a new one, and no counter is
/// touched.
pub proof fn the_switch_is_as_it_was_set(s: Stats, paused: bool)
    ensures
        switched(s, paused).paused == paused,
        switched(s, paused).generation != s.generation,
        switched(s, paused).generation == next(s.generation),
        switched(s, paused).allowed == s.allowed,
        switched(s, paused).denied == s.denied,
        switched(s, paused).prompts_pending == s.prompts_pending,
{
}

} // verus!
