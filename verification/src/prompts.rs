//! The prompts that are out, from asking to an answer.
//!
//! A prompt is answered once: by somebody, by the clock, or at once where nobody
//! could be asked. Times are nanoseconds on a clock that does not go back.

use crate::config::DefaultPolicy;
use crate::dns::NANOS_PER_SEC;
use crate::ipc::{entitled, parse_prompt_id, prompt_number, should_deliver};
use crate::model::{Verdict, VerdictSource};
use crate::nfqueue::PromptVerdict;
use crate::text::decimal;
use vstd::prelude::*;

verus! {

/// Whether some subscriber may see a prompt about a process of `owner`.
pub open spec fn somebody_sees(subscribers: Seq<u32>, owner: Option<u32>) -> bool {
    exists|i: int| 0 <= i < subscribers.len() && entitled(owner, #[trigger] subscribers[i])
}

fn anybody_there(subscribers: &Vec<u32>, owner: Option<u32>) -> (r: bool)
    ensures
        r == somebody_sees(subscribers@, owner),
{
    let mut i: usize = 0;
    while i < subscribers.len()
        invariant
            i <= subscribers@.len(),
            forall|k: int| 0 <= k < i ==> !entitled(owner, #[trigger] subscribers@[k]),
        decreases subscribers@.len() - i,
    {
        if should_deliver(owner, subscribers[i]) {
            return true;
        }
        i += 1;
    }
    false
}

/// When a prompt that is opened now runs out.
pub open spec fn deadline(now: u64, timeout_secs: u32) -> u64 {
    if now + timeout_secs * NANOS_PER_SEC <= u64::MAX {
        (now + timeout_secs * NANOS_PER_SEC) as u64
    } else {
        u64::MAX
    }
}

/// The prompts that are out, oldest first, each with the time it runs out.
pub struct PromptRouter {
    pending: Vec<(u64, u64)>,
}

impl View for PromptRouter {
    type V = Seq<(u64, u64)>;

    closed spec fn view(&self) -> Seq<(u64, u64)> {
        self.pending@
    }
}

/// Where a prompt stands.
pub open spec fn place(p: Seq<(u64, u64)>, id: u64, i: int) -> Option<int>
    decreases p.len() - i,
{
    if i < 0 || i >= p.len() {
        None
    } else if p[i].0 == id {
        Some(i)
    } else {
        place(p, id, i + 1)
    }
}

/// The prompts that have time left.
pub open spec fn in_time(p: Seq<(u64, u64)>, now: u64) -> Seq<(u64, u64)>
    decreases p.len(),
{
    if p.len() == 0 {
        p
    } else if p.last().1 <= now {
        in_time(p.drop_last(), now)
    } else {
        in_time(p.drop_last(), now).push(p.last())
    }
}

/// The answers for the prompts that ran out, oldest first.
pub open spec fn run_out(p: Seq<(u64, u64)>, now: u64, verdict: Verdict) -> Seq<PromptVerdict>
    decreases p.len(),
{
    if p.len() == 0 {
        Seq::empty()
    } else if p.last().1 <= now {
        run_out(p.drop_last(), now, verdict).push(
            PromptVerdict { prompt_id: p.last().0, verdict },
        )
    } else {
        run_out(p.drop_last(), now, verdict)
    }
}

/// The answer when nobody is there to ask.
pub open spec fn nobody_asked(policy: DefaultPolicy) -> Verdict {
    Verdict { action: policy.no_ui_action, source: VerdictSource::DefaultPolicy }
}

/// The answer when nobody answered.
pub open spec fn nobody_answered(policy: DefaultPolicy) -> Verdict {
    Verdict { action: policy.timeout_action, source: VerdictSource::Timeout }
}

/// Whether a prompt that was put to the subscribers leaves `after` of those that
/// are out and is answered with `r` at once.
pub open spec fn put(
    before: Seq<(u64, u64)>,
    id: u64,
    owner: Option<u32>,
    subscribers: Seq<u32>,
    policy: DefaultPolicy,
    now: u64,
    r: Option<PromptVerdict>,
    after: Seq<(u64, u64)>,
) -> bool {
    if somebody_sees(subscribers, owner) {
        r is None && after == before.push((id, deadline(now, policy.prompt_timeout_secs)))
    } else {
        r == Some(PromptVerdict { prompt_id: id, verdict: nobody_asked(policy) }) && after == before
    }
}

/// Whether an answer to the prompt that clients call `name` leaves `after` of
/// those that are out and is passed on as `r`.
pub open spec fn settled(
    before: Seq<(u64, u64)>,
    name: Seq<char>,
    verdict: Verdict,
    r: Option<PromptVerdict>,
    after: Seq<(u64, u64)>,
) -> bool {
    match prompt_number(name) {
        Some(id) => match place(before, id, 0) {
            Some(i) => {
                &&& r == Some(PromptVerdict { prompt_id: id, verdict })
                &&& after == before.remove(i)
            },
            None => r is None && after == before,
        },
        None => r is None && after == before,
    }
}

impl PromptRouter {
    /// No prompt is out.
    pub fn new() -> (r: PromptRouter)
        ensures
            r@ == Seq::<(u64, u64)>::empty(),
    {
        PromptRouter { pending: Vec::new() }
    }

    /// How many prompts are out.
    pub fn len(&self) -> (r: usize)
        ensures
            r == self@.len(),
    {
        self.pending.len()
    }

    /// Puts a prompt out, if some subscriber may see it; otherwise the answer
    /// is there at once.
    pub fn open(
        &mut self,
        prompt_id: u64,
        owner: Option<u32>,
        subscribers: &Vec<u32>,
        policy: &DefaultPolicy,
        now: u64,
    ) -> (r: Option<PromptVerdict>)
        ensures
            if somebody_sees(subscribers@, owner) {
                &&& r is None
                &&& final(self)@ == old(self)@.push(
                    (prompt_id, deadline(now, policy.prompt_timeout_secs)),
                )
            } else {
                &&& r == Some(PromptVerdict { prompt_id, verdict: nobody_asked(*policy) })
                &&& final(self)@ == old(self)@
            },
            put(old(self)@, prompt_id, owner, subscribers@, *policy, now, r, final(self)@),
    {
        if !anybody_there(subscribers, owner) {
            return Some(
                PromptVerdict { prompt_id, verdict: Verdict::from_policy(policy.no_ui_action) },
            );
        }
        let span: u64 = policy.prompt_timeout_secs as u64 * NANOS_PER_SEC;
        let until: u64 = if now <= u64::MAX - span {
            now + span
        } else {
            u64::MAX
        };
        self.pending.push((prompt_id, until));
        None
    }

    /// Takes somebody's answer. There is nothing to answer if the prompt is not
    /// out, or not any more.
    pub fn submit(&mut self, prompt_id: &str, verdict: Verdict) -> (r: Option<PromptVerdict>)
        ensures
            match prompt_number(prompt_id@) {
                Some(id) => match place(old(self)@, id, 0) {
                    Some(i) => {
                        &&& r == Some(PromptVerdict { prompt_id: id, verdict })
                        &&& final(self)@ == old(self)@.remove(i)
                    },
                    None => r is None && final(self)@ == old(self)@,
                },
                None => r is None && final(self)@ == old(self)@,
            },
            settled(old(self)@, prompt_id@, verdict, r, final(self)@),
    {
        let id: u64 = match parse_prompt_id(prompt_id) {
            Some(id) => id,
            None => {
                return None;
            },
        };
        let mut i: usize = 0;
        while i < self.pending.len()
            invariant
                i <= self.pending@.len(),
                *self == *old(self),
                place(self.pending@, id, 0) == place(self.pending@, id, i as int),
                prompt_number(prompt_id@) == Some(id),
            decreases self.pending@.len() - i,
        {
            if self.pending[i].0 == id {
                self.pending.remove(i);
                return Some(PromptVerdict { prompt_id: id, verdict });
            }
            i += 1;
        }
        None
    }

    /// Answers the prompts whose time has run out.
    pub fn expire(&mut self, policy: &DefaultPolicy, now: u64) -> (r: Vec<PromptVerdict>)
        ensures
            r@ == run_out(old(self)@, now, nobody_answered(*policy)),
            final(self)@ == in_time(old(self)@, now),
    {
        let verdict = Verdict { action: policy.timeout_action, source: VerdictSource::Timeout };
        let mut out: Vec<PromptVerdict> = Vec::new();
        let mut kept: Vec<(u64, u64)> = Vec::new();
        let mut i: usize = 0;
        proof {
            assert(self.pending@.take(0) =~= Seq::<(u64, u64)>::empty());
        }
        while i < self.pending.len()
            invariant
                i <= self.pending@.len(),
                *self == *old(self),
                verdict == nobody_answered(*policy),
                out@ == run_out(self.pending@.take(i as int), now, verdict),
                kept@ == in_time(self.pending@.take(i as int), now),
            decreases self.pending@.len() - i,
        {
            proof {
                assert(self.pending@.take(i + 1).drop_last() =~= self.pending@.take(i as int));
            }
            let p: (u64, u64) = self.pending[i];
            if p.1 <= now {
                out.push(PromptVerdict { prompt_id: p.0, verdict });
            } else {
                kept.push(p);
            }
            i += 1;
        }
        proof {
            assert(self.pending@.take(i as int) =~= self.pending@);
        }
        self.pending = kept;
        out
    }
}

/// A prompt that has time left when the clock is looked at is not answered by
/// it, and one that has none left is not out any more.
pub proof fn the_clock_answers_exactly_what_ran_out(
    p: Seq<(u64, u64)>,
    now: u64,
    verdict: Verdict,
    i: int,
)
    requires
        0 <= i < p.len(),
    ensures
        p[i].1 <= now ==> run_out(p, now, verdict).contains(
            PromptVerdict { prompt_id: p[i].0, verdict },
        ),
        p[i].1 > now ==> in_time(p, now).contains(p[i]),
        in_time(p, now).len() + run_out(p, now, verdict).len() == p.len(),
    decreases p.len(),
{
    lemma_counts(p, now, verdict);
    let front = p.drop_last();
    let a = run_out(front, now, verdict);
    let b = in_time(front, now);
    if i < front.len() {
        the_clock_answers_exactly_what_ran_out(front, now, verdict, i);
        if p[i].1 <= now {
            let x = PromptVerdict { prompt_id: p[i].0, verdict };
            let k = choose|k: int| 0 <= k < a.len() && a[k] == x;
            assert(run_out(p, now, verdict)[k] == x);
        } else {
            let k = choose|k: int| 0 <= k < b.len() && b[k] == p[i];
            assert(in_time(p, now)[k] == p[i]);
        }
    } else if p[i].1 <= now {
        assert(run_out(p, now, verdict)[a.len() as int] == (PromptVerdict {
            prompt_id: p[i].0,
            verdict,
        }));
    } else {
        assert(in_time(p, now)[b.len() as int] == p[i]);
    }
}

proof fn lemma_counts(p: Seq<(u64, u64)>, now: u64, verdict: Verdict)
    ensures
        in_time(p, now).len() + run_out(p, now, verdict).len() == p.len(),
    decreases p.len(),
{
    if p.len() > 0 {
        lemma_counts(p.drop_last(), now, verdict);
    }
}

/// A prompt is answered once: where each is out once, the one that was answered
/// is not out any more.
pub proof fn a_prompt_is_answered_once(p: Seq<(u64, u64)>, i: int)
    requires
        0 <= i < p.len(),
        forall|a: int, b: int| 0 <= a < b < p.len() ==> (#[trigger] p[a]).0 != (#[trigger] p[b]).0,
    ensures
        place(p.remove(i), p[i].0, 0) is None,
{
    let q = p.remove(i);
    assert forall|k: int| 0 <= k < q.len() implies (#[trigger] q[k]).0 != p[i].0 by {
        if k < i {
            assert(p[k].0 != p[i].0);
        } else {
            assert(p[i].0 != p[k + 1].0);
        }
    }
    lemma_no_place(q, p[i].0, 0);
}

proof fn lemma_no_place(p: Seq<(u64, u64)>, id: u64, i: int)
    requires
        0 <= i,
        forall|k: int| 0 <= k < p.len() ==> (#[trigger] p[k]).0 != id,
    ensures
        place(p, id, i) is None,
    decreases p.len() - i,
{
    if i < p.len() {
        lemma_no_place(p, id, i + 1);
    }
}

/// A prompt goes out if a subscriber is root or the user whose process it is
/// about, or if there is a subscriber and that user is not known.
pub proof fn a_prompt_needs_somebody_to_see_it(subscribers: Seq<u32>, owner: u32)
    ensures
        somebody_sees(subscribers, Some(owner)) <==> subscribers.contains(0)
            || subscribers.contains(owner),
        somebody_sees(subscribers, None) <==> subscribers.len() > 0,
{
    if somebody_sees(subscribers, Some(owner)) {
        let i = choose|i: int|
            0 <= i < subscribers.len() && entitled(Some(owner), #[trigger] subscribers[i]);
        assert(subscribers.contains(subscribers[i]));
    }
    if subscribers.contains(0) {
        let i = choose|i: int| 0 <= i < subscribers.len() && subscribers[i] == 0;
        assert(entitled(Some(owner), subscribers[i]));
    }
    if subscribers.contains(owner) {
        let i = choose|i: int| 0 <= i < subscribers.len() && subscribers[i] == owner;
        assert(entitled(Some(owner), subscribers[i]));
    }
    if subscribers.len() > 0 {
        assert(entitled(None, subscribers[0]));
    }
}

/// A prompt runs out so many seconds after it went out, or at the end of the
/// clock.
pub proof fn a_prompt_runs_out_in_time(now: u64, timeout: u32)
    ensures
        now + timeout * 1_000_000_000 <= u64::MAX ==> deadline(now, timeout) == now + timeout
            * 1_000_000_000,
        now + timeout * 1_000_000_000 > u64::MAX ==> deadline(now, timeout) == u64::MAX,
{
}

/// Where nobody could be asked the policy for that decides, and where nobody
/// answered the one for that, each in its own name.
pub proof fn silence_is_decided_by_policy(policy: DefaultPolicy)
    ensures
        nobody_asked(policy).action == policy.no_ui_action,
        nobody_asked(policy).source == VerdictSource::DefaultPolicy,
        nobody_answered(policy).action == policy.timeout_action,
        nobody_answered(policy).source == VerdictSource::Timeout,
{
}

/// The clock answers the prompts whose time has come, in their order, and leaves
/// the others out, in theirs.
pub proof fn the_clock_parts_the_prompts(p: Seq<(u64, u64)>, id: u64, at: u64, now: u64, v: Verdict)
    ensures
        in_time(Seq::empty(), now).len() == 0,
        run_out(Seq::empty(), now, v).len() == 0,
        at <= now ==> in_time(p.push((id, at)), now) == in_time(p, now) && run_out(
            p.push((id, at)),
            now,
            v,
        ) == run_out(p, now, v).push(PromptVerdict { prompt_id: id, verdict: v }),
        at > now ==> in_time(p.push((id, at)), now) == in_time(p, now).push((id, at)) && run_out(
            p.push((id, at)),
            now,
            v,
        ) == run_out(p, now, v),
{
    assert(p.push((id, at)).drop_last() =~= p);
}

/// A prompt is found by its id, where it first stands.
pub proof fn a_prompt_is_found_by_its_id(p: Seq<(u64, u64)>, id: u64, i: int)
    ensures
        0 <= i < p.len() && p[i].0 == id && (forall|k: int|
            0 <= k < i ==> (#[trigger] p[k]).0 != id) ==> place(p, id, 0) == Some(i),
        (forall|k: int| 0 <= k < p.len() ==> (#[trigger] p[k]).0 != id) ==> place(p, id, 0) is None,
{
    if 0 <= i < p.len() && p[i].0 == id && (forall|k: int|
        0 <= k < i ==> (#[trigger] p[k]).0 != id) {
        lemma_place(p, id, 0, i);
    }
    if forall|k: int| 0 <= k < p.len() ==> (#[trigger] p[k]).0 != id {
        lemma_no_place(p, id, 0);
    }
}

proof fn lemma_place(p: Seq<(u64, u64)>, id: u64, from: int, i: int)
    requires
        0 <= from <= i < p.len(),
        p[i].0 == id,
        forall|k: int| 0 <= k < i ==> (#[trigger] p[k]).0 != id,
    ensures
        place(p, id, from) == Some(i),
    decreases i - from,
{
    if from < i {
        assert(p[from].0 != id);
        lemma_place(p, id, from + 1, i);
    }
}

/// A prompt that somebody sees waits for its answer and gets the first one that
/// comes under its number; a second one finds nothing. The prompts that were out
/// before are out still.
pub proof fn the_first_answer_settles_a_prompt(
    before: Seq<(u64, u64)>,
    id: u64,
    owner: Option<u32>,
    subscribers: Seq<u32>,
    policy: DefaultPolicy,
    now: u64,
    r: Option<PromptVerdict>,
    out: Seq<(u64, u64)>,
    first: Verdict,
    r1: Option<PromptVerdict>,
    once: Seq<(u64, u64)>,
    second: Verdict,
    r2: Option<PromptVerdict>,
    twice: Seq<(u64, u64)>,
)
    requires
        forall|k: int| 0 <= k < before.len() ==> (#[trigger] before[k]).0 != id,
        somebody_sees(subscribers, owner),
        put(before, id, owner, subscribers, policy, now, r, out),
        settled(out, decimal(id as nat), first, r1, once),
        settled(once, decimal(id as nat), second, r2, twice),
    ensures
        r is None,
        out.last().0 == id,
        now + policy.prompt_timeout_secs * 1_000_000_000 <= u64::MAX ==> out.last().1 == now
            + policy.prompt_timeout_secs * 1_000_000_000,
        r1 matches Some(a) && a.prompt_id == id && a.verdict == first,
        once == before,
        r2 is None,
        twice == before,
{
    crate::ipc::prompts_go_by_their_numbers(id);
    a_prompt_is_found_by_its_id(out, id, before.len() as int);
    assert(once =~= before);
    lemma_no_place(before, id, 0);
}

/// A prompt that nobody sees is not put to anybody: the policy answers it at
/// once, as by default, and nothing waits.
pub proof fn an_unseen_prompt_is_answered_by_policy(
    before: Seq<(u64, u64)>,
    id: u64,
    owner: Option<u32>,
    policy: DefaultPolicy,
    now: u64,
    r: Option<PromptVerdict>,
    after: Seq<(u64, u64)>,
)
    requires
        put(before, id, owner, Seq::empty(), policy, now, r, after),
    ensures
        r matches Some(a) && a.prompt_id == id && a.verdict.action == policy.no_ui_action
            && a.verdict.source is DefaultPolicy,
        after == before,
{
}

} // verus!
