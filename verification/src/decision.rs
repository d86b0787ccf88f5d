//! Decision engine: maps a flow and a process to a verdict.
//!
//! Rules stand in precedence order - most specific first, refusing before
//! permitting on ties - so the first one that matches decides.

use crate::config::DefaultPolicy;
use crate::model::{Action, Connection, Direction, Duration, Process, Rule, Verdict, VerdictSource};
use crate::text::same_text;
use std::collections::HashMap;
use vstd::multiset::Multiset;
use vstd::prelude::*;

verus! {

broadcast use vstd::std_specs::hash::group_hash_axioms;

/// What the engine says of a flow.
#[derive(Debug, Clone, Copy, PartialEq, Eq, Structural)]
pub enum Decision {
    /// A rule matched.
    Resolved(Verdict),
    /// No rule matched: the user is to be asked, and `fallback` applies where
    /// that is impossible.
    NeedsPrompt { fallback: Verdict },
}

/// Where an action stands among rules of equal specificity: refusals first.
pub open spec fn rank(a: Action) -> int {
    match a {
        Action::Deny => 0,
        Action::Reject => 1,
        Action::Allow => 2,
    }
}

/// Whether `a` may stand before `b`: more constraints first, then refusing
/// before permitting, then enabled before disabled, then by id.
pub open spec fn precedes(a: Rule, b: Rule) -> bool {
    let x = a.scope.spec_specificity();
    let y = b.scope.spec_specificity();
    if x != y {
        x > y
    } else if rank(a.action) != rank(b.action) {
        rank(a.action) < rank(b.action)
    } else if a.enabled != b.enabled {
        a.enabled
    } else {
        a.id <= b.id
    }
}

/// Whether the rules stand in precedence order.
pub open spec fn in_order(rules: Seq<Rule>) -> bool {
    forall|i: int, j: int| 0 <= i < j < rules.len() ==> precedes(rules[i], rules[j])
}

/// Whether no two rules share an id.
pub open spec fn ids_distinct(rules: Seq<Rule>) -> bool {
    forall|i: int, j: int|
        0 <= i < j < rules.len() ==> (#[trigger] rules[i]).id != (#[trigger] rules[j]).id
}

/// Whether a rule in force matches the flow and the process.
pub open spec fn hits(r: Rule, c: &Connection, p: &Process, now: i64) -> bool {
    r.live(now) && r.scope.fits_connection(c) && r.scope.fits_process(p)
}

/// The first rule from `i` on that hits.
pub open spec fn first_hit(rules: Seq<Rule>, c: &Connection, p: &Process, now: i64, i: int) -> Option<
    int,
>
    decreases rules.len() - i,
{
    if i < 0 || i >= rules.len() {
        None
    } else if hits(rules[i], c, p, now) {
        Some(i)
    } else {
        first_hit(rules, c, p, now, i + 1)
    }
}

/// The verdict of the first rule that hits.
pub open spec fn rule_verdict(rules: Seq<Rule>, c: &Connection, p: &Process, now: i64) -> Option<
    Verdict,
> {
    match first_hit(rules, c, p, now, 0) {
        Some(i) => Some(
            Verdict { action: rules[i].action, source: VerdictSource::Rule(rules[i].id) },
        ),
        None => None,
    }
}

/// The answer that holds for a process no matter where it connects.
#[derive(Debug, Clone, Copy, PartialEq, Eq, Structural)]
pub struct ProcessVerdict {
    pub rule_id: u128,
    pub action: Action,
    pub duration: Duration,
}

impl ProcessVerdict {
    /// Whether the answer permits, and for as long as the daemon runs.
    pub open spec fn lasting_allow(&self) -> bool {
        self.action == Action::Allow && (self.duration == Duration::Always || self.duration
            == Duration::UntilRestart)
    }

    /// Whether the answer may be granted ahead of the packet path: an allow
    /// from a rule that lasts.
    pub fn fast_allow_eligible(&self) -> (r: bool)
        ensures
            r == self.lasting_allow(),
    {
        self.action == Action::Allow && (self.duration == Duration::Always || self.duration
            == Duration::UntilRestart)
    }
}

/// The process-wide answer of the rules from `i` on.
///
/// Inbound rules cannot apply to a `connect()` and are passed over. The walk
/// ends at the first other rule in force that applies to the process, or might:
/// one that cannot be decided, or that depends on a destination, leaves no
/// answer.
pub open spec fn wide_from(rules: Seq<Rule>, p: &Process, now: i64, i: int) -> Option<ProcessVerdict>
    decreases rules.len() - i,
{
    if i < 0 || i >= rules.len() {
        None
    } else {
        let r = rules[i];
        if !r.live(now) || r.scope.direction == Some(Direction::Inbound) {
            wide_from(rules, p, now, i + 1)
        } else if r.scope.open_for(p) {
            None
        } else if !r.scope.fits_process(p) {
            wide_from(rules, p, now, i + 1)
        } else if r.scope.names_destination() {
            None
        } else {
            Some(ProcessVerdict { rule_id: r.id, action: r.action, duration: r.duration })
        }
    }
}

/// Whether an action refuses.
pub open spec fn refuses(a: Action) -> bool {
    a == Action::Deny || a == Action::Reject
}

/// Whether some refusing rule in force could still turn out to apply to `p`.
pub open spec fn refusal_open(rules: Seq<Rule>, p: &Process, now: i64) -> bool {
    exists|i: int|
        0 <= i < rules.len() && (#[trigger] rules[i]).live(now) && rules[i].scope.direction != Some(
            Direction::Inbound,
        ) && refuses(rules[i].action) && rules[i].scope.open_for(p)
}

/// How many hits of a rule have not been folded into it.
pub open spec fn pending(hits: Map<u128, u64>, id: u128) -> u64 {
    if hits.contains_key(id) {
        hits[id]
    } else {
        0
    }
}

/// The sum of two counts, or the largest count.
pub open spec fn plus(a: u64, b: u64) -> u64 {
    if a + b <= u64::MAX {
        (a + b) as u64
    } else {
        u64::MAX
    }
}

/// A rule as callers should see it: its stored count plus what is pending.
pub open spec fn with_pending(r: Rule, hits: Map<u128, u64>) -> Rule {
    Rule { hit_count: plus(r.hit_count, pending(hits, r.id)), ..r }
}

/// The rules as callers should see them.
pub open spec fn reported(rules: Seq<Rule>, hits: Map<u128, u64>) -> Seq<Rule> {
    rules.map_values(|r: Rule| with_pending(r, hits))
}

/// The first rule with this id.
pub open spec fn position(rules: Seq<Rule>, id: u128, i: int) -> Option<int>
    decreases rules.len() - i,
{
    if i < 0 || i >= rules.len() {
        None
    } else if rules[i].id == id {
        Some(i)
    } else {
        position(rules, id, i + 1)
    }
}

/// The rules with `rule` in the place of the one that has its id, or added.
pub open spec fn upserted(rules: Seq<Rule>, rule: Rule) -> Seq<Rule> {
    match position(rules, rule.id, 0) {
        Some(i) => rules.update(i, rule),
        None => rules.push(rule),
    }
}

/// The rules whose id is not `id`.
pub open spec fn without(rules: Seq<Rule>, id: u128) -> Seq<Rule>
    decreases rules.len(),
{
    if rules.len() == 0 {
        rules
    } else if rules.last().id == id {
        without(rules.drop_last(), id)
    } else {
        without(rules.drop_last(), id).push(rules.last())
    }
}

/// Whether a text is among `v`.
pub open spec fn holds_text(v: Seq<String>, e: Seq<char>) -> bool {
    exists|k: int| 0 <= k < v.len() && (#[trigger] v[k])@ == e
}

/// Whether a rule in force names the executable `e`.
pub open spec fn is_for_exe(r: Rule, now: i64, e: Seq<char>) -> bool {
    r.live(now) && (r.scope.exe_path matches Some(p) && p@ == e)
}

/// Whether some rule in force names the executable `e`.
pub open spec fn names_exe(rules: Seq<Rule>, now: i64, e: Seq<char>) -> bool {
    exists|k: int| 0 <= k < rules.len() && is_for_exe(#[trigger] rules[k], now, e)
}

/// Whether some rule in force that is scoped to a user names `e`.
pub open spec fn user_rule_names(rules: Seq<Rule>, now: i64, e: Seq<char>) -> bool {
    exists|k: int|
        0 <= k < rules.len() && is_for_exe(#[trigger] rules[k], now, e)
            && rules[k].scope.uid is Some
}

/// Whether some rule in force is scoped to a user and names no executable.
pub open spec fn user_rule_for_all(rules: Seq<Rule>, now: i64) -> bool {
    exists|k: int|
        0 <= k < rules.len() && (#[trigger] rules[k]).live(now) && rules[k].scope.uid is Some
            && rules[k].scope.exe_path is None
}

proof fn lemma_holds_push(v: Seq<String>, s: String)
    ensures
        forall|e: Seq<char>| #[trigger]
            holds_text(v.push(s), e) <==> (holds_text(v, e) || s@ == e),
{
    assert forall|e: Seq<char>| #[trigger]
        holds_text(v.push(s), e) <==> (holds_text(v, e) || s@ == e) by {
        if holds_text(v, e) {
            let k = choose|k: int| 0 <= k < v.len() && (#[trigger] v[k])@ == e;
            assert(v.push(s)[k]@ == e);
        }
        if s@ == e {
            assert(v.push(s)[v.len() as int]@ == e);
        }
        if holds_text(v.push(s), e) && s@ != e {
            let k = choose|k: int| 0 <= k < v.push(s).len() && (#[trigger] v.push(s)[k])@ == e;
            assert(v[k]@ == e);
        }
    }
}

proof fn lemma_position(rules: Seq<Rule>, id: u128, i: int)
    requires
        0 <= i <= rules.len(),
    ensures
        position(rules, id, i) matches Some(k) ==> i <= k < rules.len() && rules[k].id == id,
        position(rules, id, i) is None ==> forall|k: int|
            i <= k < rules.len() ==> (#[trigger] rules[k]).id != id,
    decreases rules.len() - i,
{
    if i < rules.len() && rules[i].id != id {
        lemma_position(rules, id, i + 1);
    }
}

proof fn lemma_upserted_distinct(rules: Seq<Rule>, rule: Rule)
    requires
        ids_distinct(rules),
    ensures
        ids_distinct(upserted(rules, rule)),
{
    lemma_position(rules, rule.id, 0);
    let u = upserted(rules, rule);
    assert forall|i: int, j: int| 0 <= i < j < u.len() implies (#[trigger] u[i]).id != (
    #[trigger] u[j]).id by {
        match position(rules, rule.id, 0) {
            Some(k) => {
                if i != k && j != k {
                    assert(rules[i].id != rules[j].id);
                } else if i == k {
                    assert(rules[k].id != rules[j].id);
                } else {
                    assert(rules[i].id != rules[k].id);
                }
            },
            None => {
                if j < rules.len() {
                    assert(rules[i].id != rules[j].id);
                } else {
                    assert(rules[i].id != rule.id);
                }
            },
        }
    }
}

proof fn lemma_distinct_by_contents(a: Seq<Rule>, b: Seq<Rule>)
    requires
        ids_distinct(a),
        a.to_multiset() == b.to_multiset(),
    ensures
        ids_distinct(b),
{
    assert(a.no_duplicates()) by {
        assert forall|i: int, j: int| 0 <= i < a.len() && 0 <= j < a.len() && i != j implies a[i]
            != a[j] by {
            if i < j {
                assert(a[i].id != a[j].id);
            } else {
                assert(a[j].id != a[i].id);
            }
        }
    }
    a.lemma_multiset_has_no_duplicates();
    b.lemma_multiset_has_no_duplicates_conv();
    assert forall|i: int, j: int| 0 <= i < j < b.len() implies (#[trigger] b[i]).id != (
    #[trigger] b[j]).id by {
        vstd::seq_lib::to_multiset_contains(b, b[i]);
        vstd::seq_lib::to_multiset_contains(b, b[j]);
        vstd::seq_lib::to_multiset_contains(a, b[i]);
        vstd::seq_lib::to_multiset_contains(a, b[j]);
        let x = choose|x: int| 0 <= x < a.len() && a[x] == b[i];
        let y = choose|y: int| 0 <= y < a.len() && a[y] == b[j];
        assert(b[i] != b[j]);
        if x < y {
            assert(a[x].id != a[y].id);
        } else {
            assert(a[y].id != a[x].id);
        }
    }
}

fn rank_of(a: Action) -> (r: u8)
    ensures
        r == rank(a),
{
    match a {
        Action::Deny => 0,
        Action::Reject => 1,
        Action::Allow => 2,
    }
}

fn stands_before(a: &Rule, b: &Rule) -> (r: bool)
    ensures
        r == precedes(*a, *b),
{
    let x: u32 = a.scope.specificity();
    let y: u32 = b.scope.specificity();
    if x != y {
        return x > y;
    }
    let m: u8 = rank_of(a.action);
    let n: u8 = rank_of(b.action);
    if m != n {
        return m < n;
    }
    if a.enabled != b.enabled {
        return a.enabled;
    }
    a.id <= b.id
}

proof fn lemma_precedes_order(a: Rule, b: Rule, c: Rule)
    ensures
        precedes(a, b) || precedes(b, a),
        precedes(a, b) && precedes(b, c) ==> precedes(a, c),
{
}

/// Puts `rule` in its place.
fn insert_rule(rules: &mut Vec<Rule>, rule: Rule)
    requires
        in_order(old(rules)@),
    ensures
        in_order(final(rules)@),
        final(rules)@.to_multiset() == old(rules)@.to_multiset().insert(rule),
        final(rules)@.len() == old(rules)@.len() + 1,
{
    let mut i: usize = 0;
    while i < rules.len() && stands_before(&rules[i], &rule)
        invariant
            i <= rules@.len(),
            rules@ == old(rules)@,
            forall|k: int| 0 <= k < i ==> precedes(#[trigger] rules@[k], rule),
        decreases rules@.len() - i,
    {
        i += 1;
    }
    let ghost before = rules@;
    let ghost new = rule;
    proof {
        assert forall|k: int| i <= k < before.len() implies precedes(
            new,
            #[trigger] before[k],
        ) by {
            lemma_precedes_order(before[i as int], new, before[k]);
            if k > i {
                assert(precedes(before[i as int], before[k]));
                lemma_precedes_order(new, before[i as int], before[k]);
            }
        }
        vstd::seq_lib::to_multiset_insert(before, i as int, new);
    }
    rules.insert(i, rule);
    proof {
        assert forall|a: int, b: int| 0 <= a < b < rules@.len() implies precedes(
            rules@[a],
            rules@[b],
        ) by {
            if a < i && b == i {
                assert(rules@[a] == before[a]);
            } else if a == i {
                assert(rules@[b] == before[b - 1]);
            } else {
                let x = if a < i {
                    a
                } else {
                    a - 1
                };
                let y = if b < i {
                    b
                } else {
                    b - 1
                };
                assert(rules@[a] == before[x]);
                assert(rules@[b] == before[y]);
            }
        }
    }
}

/// The same rules in precedence order.
pub fn sort_deterministic(rules: Vec<Rule>) -> (r: Vec<Rule>)
    ensures
        in_order(r@),
        r@.to_multiset() == rules@.to_multiset(),
{
    let mut rest = rules;
    let mut out: Vec<Rule> = Vec::new();
    proof {
        vstd::seq_lib::to_multiset_len(out@);
        assert(out@.to_multiset() =~= Multiset::empty());
        assert(rules@.to_multiset() =~= rest@.to_multiset().add(out@.to_multiset()));
    }
    while rest.len() > 0
        invariant
            in_order(out@),
            rules@.to_multiset() == rest@.to_multiset().add(out@.to_multiset()),
        decreases rest@.len(),
    {
        let ghost before = rest@;
        let ghost had = out@.to_multiset();
        if let Some(rule) = rest.pop() {
            proof {
                assert(before =~= rest@.push(rule));
                vstd::seq_lib::to_multiset_build(rest@, rule);
            }
            insert_rule(&mut out, rule);
            proof {
                assert(rest@.to_multiset().insert(rule).add(had) =~= rest@.to_multiset().add(
                    had.insert(rule),
                ));
            }
        }
    }
    proof {
        vstd::seq_lib::to_multiset_len(rest@);
        assert(rest@.to_multiset() =~= Multiset::empty());
        assert(rest@.to_multiset().add(out@.to_multiset()) =~= out@.to_multiset());
    }
    out
}

fn add_counts(a: u64, b: u64) -> (r: u64)
    ensures
        r == plus(a, b),
{
    if b <= u64::MAX - a {
        a + b
    } else {
        u64::MAX
    }
}

/// One notice more; the count starts over at its end.
pub open spec fn one_more(n: u64) -> u64 {
    if n == u64::MAX {
        0
    } else {
        (n + 1) as u64
    }
}

/// The rules, the policy for what they do not decide, and the hits not yet
/// folded into them.
///
/// What is derived from the rules, such as the kernel's refusals, is stale the
/// moment a rule is added or removed. Each such change gives one notice, which
/// counts up once the changed rules are in place; whoever changes the rules
/// passes the notice on after letting go of the engine.
pub struct Engine {
    rules: Vec<Rule>,
    policy: DefaultPolicy,
    hits: HashMap<u128, u64>,
    notices: u64,
}

impl Engine {
    /// The rules, in the order they are tried.
    pub closed spec fn rules(&self) -> Seq<Rule> {
        self.rules@
    }

    /// The policy for flows no rule decides.
    pub closed spec fn policy(&self) -> DefaultPolicy {
        self.policy
    }

    /// The hits not yet folded into the rules, by rule id.
    pub closed spec fn hits(&self) -> Map<u128, u64> {
        self.hits@
    }

    /// How many notices of a change the engine gave.
    pub closed spec fn notices(&self) -> u64 {
        self.notices
    }

    /// Rules stand in precedence order.
    pub open spec fn wf(&self) -> bool {
        in_order(self.rules())
    }

    /// An engine over these rules, which may come in any order.
    pub fn new(rules: Vec<Rule>, policy: DefaultPolicy) -> (r: Engine)
        ensures
            r.wf(),
            r.rules().to_multiset() == rules@.to_multiset(),
            r.policy() == policy,
            r.hits() == Map::<u128, u64>::empty(),
            r.notices() == 0,
    {
        let rules = sort_deterministic(rules);
        Engine { rules, policy, hits: HashMap::new(), notices: 0 }
    }

    /// How many notices of a change the engine gave.
    pub fn notices_given(&self) -> (r: u64)
        ensures
            r == self.notices(),
    {
        self.notices
    }

    /// Gives notice that rules ran out. That is no edit, so nothing else would
    /// tell.
    pub fn notify_rules_expired(&mut self)
        ensures
            final(self).rules() == old(self).rules(),
            final(self).policy() == old(self).policy(),
            final(self).hits() == old(self).hits(),
            final(self).notices() == one_more(old(self).notices()),
    {
        self.notify_changed();
    }

    /// Gives notice that the rules changed.
    fn notify_changed(&mut self)
        ensures
            final(self).rules() == old(self).rules(),
            final(self).policy() == old(self).policy(),
            final(self).hits() == old(self).hits(),
            final(self).notices() == one_more(old(self).notices()),
    {
        self.notices = if self.notices == u64::MAX {
            0
        } else {
            self.notices + 1
        };
    }

    /// Swaps the default policy; the rules and the counts stay.
    pub fn set_policy(&mut self, policy: DefaultPolicy)
        ensures
            final(self).rules() == old(self).rules(),
            final(self).hits() == old(self).hits(),
            final(self).policy() == policy,
            final(self).notices() == old(self).notices(),
    {
        self.policy = policy;
    }

    /// Decides a flow. A hit is counted against the rule that decided.
    pub fn evaluate(&mut self, conn: &Connection, proc: &Process, now_unix_ms: i64) -> (r: Decision)
        ensures
            final(self).rules() == old(self).rules(),
            final(self).policy() == old(self).policy(),
            final(self).notices() == old(self).notices(),
            match rule_verdict(old(self).rules(), conn, proc, now_unix_ms) {
                Some(v) => {
                    &&& r == Decision::Resolved(v)
                    &&& v.source matches VerdictSource::Rule(id)
                    &&& final(self).hits() == old(self).hits().insert(
                        id,
                        plus(pending(old(self).hits(), id), 1),
                    )
                },
                None => {
                    &&& r == (Decision::NeedsPrompt {
                        fallback: Verdict {
                            action: old(self).policy().no_ui_action,
                            source: VerdictSource::DefaultPolicy,
                        },
                    })
                    &&& final(self).hits() == old(self).hits()
                },
            },
    {
        let mut i: usize = 0;
        while i < self.rules.len()
            invariant
                i <= self.rules@.len(),
                *self == *old(self),
                first_hit(self.rules@, conn, proc, now_unix_ms, 0) == first_hit(
                    self.rules@,
                    conn,
                    proc,
                    now_unix_ms,
                    i as int,
                ),
            decreases self.rules@.len() - i,
        {
            let rule = &self.rules[i];
            if rule.enabled && !rule.is_expired(now_unix_ms) && rule.scope.matches(conn, proc) {
                let id: u128 = rule.id;
                let action = rule.action;
                let seen: u64 = match self.hits.get(&id) {
                    Some(n) => *n,
                    None => 0,
                };
                let _ = self.hits.insert(id, add_counts(seen, 1));
                return Decision::Resolved(Verdict::from_rule(action, id));
            }
            i += 1;
        }
        Decision::NeedsPrompt { fallback: self.fallback_verdict() }
    }

    /// The answer that holds for this process no matter where it connects, if
    /// the rules say one does.
    pub fn process_wide_verdict(&self, proc: &Process, now_unix_ms: i64) -> (r: Option<
        ProcessVerdict,
    >)
        ensures
            r == wide_from(self.rules(), proc, now_unix_ms, 0),
    {
        let mut i: usize = 0;
        while i < self.rules.len()
            invariant
                i <= self.rules@.len(),
                wide_from(self.rules@, proc, now_unix_ms, 0) == wide_from(
                    self.rules@,
                    proc,
                    now_unix_ms,
                    i as int,
                ),
            decreases self.rules@.len() - i,
        {
            let rule = &self.rules[i];
            let inbound: bool = match rule.scope.direction {
                Some(Direction::Inbound) => true,
                _ => false,
            };
            if rule.enabled && !rule.is_expired(now_unix_ms) && !inbound {
                if rule.scope.undecidable_for(proc) {
                    return None;
                }
                if rule.scope.matches_process(proc) {
                    if rule.scope.constrains_destination() {
                        return None;
                    }
                    return Some(
                        ProcessVerdict {
                            rule_id: rule.id,
                            action: rule.action,
                            duration: rule.duration,
                        },
                    );
                }
            }
            i += 1;
        }
        None
    }

    /// The action that holds for this process no matter where it connects.
    /// `None` means "ask the packet path", which is always a safe answer.
    pub fn process_wide_action(&self, proc: &Process, now_unix_ms: i64) -> (r: Option<Action>)
        ensures
            r == (match wide_from(self.rules(), proc, now_unix_ms, 0) {
                Some(v) => Some(v.action),
                None => None,
            }),
    {
        match self.process_wide_verdict(proc, now_unix_ms) {
            Some(v) => Some(v.action),
            None => None,
        }
    }

    /// Whether some refusing rule could still turn out to apply to a process
    /// for which there is no process-wide answer.
    pub fn deny_still_possible_for(&self, proc: &Process, now_unix_ms: i64) -> (r: bool)
        ensures
            r == refusal_open(self.rules(), proc, now_unix_ms),
    {
        let mut i: usize = 0;
        while i < self.rules.len()
            invariant
                i <= self.rules@.len(),
                forall|k: int|
                    0 <= k < i ==> !((#[trigger] self.rules@[k]).live(now_unix_ms)
                        && self.rules@[k].scope.direction != Some(Direction::Inbound) && refuses(
                        self.rules@[k].action,
                    ) && self.rules@[k].scope.open_for(proc)),
            decreases self.rules@.len() - i,
        {
            let rule = &self.rules[i];
            let inbound: bool = match rule.scope.direction {
                Some(Direction::Inbound) => true,
                _ => false,
            };
            if rule.enabled && !rule.is_expired(now_unix_ms) && !inbound && rule.action
                != Action::Allow && rule.scope.undecidable_for(proc) {
                return true;
            }
            i += 1;
        }
        false
    }

    /// Whether the time of some rule has run out.
    pub fn any_expired(&self, now_unix_ms: i64) -> (r: bool)
        ensures
            r == exists|i: int|
                0 <= i < self.rules().len() && (#[trigger] self.rules()[i]).over(now_unix_ms),
    {
        let mut i: usize = 0;
        while i < self.rules.len()
            invariant
                i <= self.rules@.len(),
                forall|k: int| 0 <= k < i ==> !(#[trigger] self.rules@[k]).over(now_unix_ms),
            decreases self.rules@.len() - i,
        {
            if self.rules[i].is_expired(now_unix_ms) {
                proof {
                    assert(self.rules()[i as int].over(now_unix_ms));
                }
                return true;
            }
            i += 1;
        }
        false
    }

    /// How many rules are loaded.
    pub fn rule_count(&self) -> (r: usize)
        ensures
            r == self.rules().len(),
    {
        self.rules.len()
    }

    /// What an inbound flow gets when no rule matches.
    pub fn inbound_default(&self) -> (r: Action)
        ensures
            r == self.policy().inbound_action,
    {
        self.policy.inbound_action
    }

    /// The verdict applied when no rule matches and prompting is impossible.
    pub fn fallback_verdict(&self) -> (r: Verdict)
        ensures
            r.action == self.policy().no_ui_action,
            r.source == VerdictSource::DefaultPolicy,
    {
        Verdict::from_policy(self.policy.no_ui_action)
    }

    /// Where the first rule with this id stands.
    fn find(&self, id: u128) -> (r: Option<usize>)
        ensures
            r matches Some(i) ==> position(self.rules@, id, 0) == Some(i as int) && i
                < self.rules@.len() && self.rules@[i as int].id == id,
            r is None ==> position(self.rules@, id, 0) is None,
    {
        let mut i: usize = 0;
        while i < self.rules.len()
            invariant
                i <= self.rules@.len(),
                position(self.rules@, id, 0) == position(self.rules@, id, i as int),
            decreases self.rules@.len() - i,
        {
            if self.rules[i].id == id {
                return Some(i);
            }
            i += 1;
        }
        None
    }

    /// Restores the fields the daemon owns onto an incoming rule: the count
    /// and the creation time of the rule it replaces. A rule that replaces none
    /// is left alone.
    pub fn preserve_server_owned(&self, rule: &mut Rule)
        ensures
            *final(rule) == (match position(self.rules(), old(rule).id, 0) {
                Some(i) => Rule {
                    hit_count: self.rules()[i].hit_count,
                    created_at_unix_ms: self.rules()[i].created_at_unix_ms,
                    ..*old(rule)
                },
                None => *old(rule),
            }),
    {
        if let Some(i) = self.find(rule.id) {
            rule.hit_count = self.rules[i].hit_count;
            rule.created_at_unix_ms = self.rules[i].created_at_unix_ms;
        }
    }

    /// Replaces the rule with this rule's id, or adds it, restores the
    /// precedence order and gives notice.
    pub fn upsert_rule(&mut self, rule: Rule)
        ensures
            final(self).wf(),
            final(self).rules().to_multiset() == upserted(old(self).rules(), rule).to_multiset(),
            ids_distinct(old(self).rules()) ==> ids_distinct(final(self).rules()),
            final(self).policy() == old(self).policy(),
            final(self).hits() == old(self).hits(),
            final(self).notices() == one_more(old(self).notices()),
    {
        let ghost before = self.rules@;
        let at = self.find(rule.id);
        match at {
            Some(i) => {
                self.rules.set(i, rule);
            },
            None => {
                self.rules.push(rule);
            },
        }
        let mut all: Vec<Rule> = Vec::new();
        std::mem::swap(&mut all, &mut self.rules);
        self.rules = sort_deterministic(all);
        proof {
            assert(all@ =~= upserted(before, rule));
            if ids_distinct(before) {
                lemma_upserted_distinct(before, rule);
                lemma_distinct_by_contents(all@, self.rules@);
            }
        }
        self.notify_changed();
    }

    /// The executables whose process-wide answer follows from their path
    /// alone: those some rule in force names and none scoped to a user names.
    /// `None` when a rule in force is scoped to a user and names no executable,
    /// because it could then apply to any.
    pub fn compilable_exe_paths(&self, now_unix_ms: i64) -> (r: Option<Vec<String>>)
        ensures
            r is None <==> user_rule_for_all(self.rules(), now_unix_ms),
            r matches Some(v) ==> forall|e: Seq<char>| #[trigger]
                holds_text(v@, e) <==> (names_exe(self.rules(), now_unix_ms, e)
                    && !user_rule_names(self.rules(), now_unix_ms, e)),
    {
        let mut i: usize = 0;
        while i < self.rules.len()
            invariant
                i <= self.rules@.len(),
                forall|k: int|
                    0 <= k < i ==> !((#[trigger] self.rules@[k]).live(now_unix_ms)
                        && self.rules@[k].scope.uid is Some && self.rules@[k].scope.exe_path is None),
            decreases self.rules@.len() - i,
        {
            let rule = &self.rules[i];
            if rule.enabled && !rule.is_expired(now_unix_ms) && rule.scope.uid.is_some()
                && rule.scope.exe_path.is_none() {
                return None;
            }
            i += 1;
        }
        let mut out: Vec<String> = Vec::new();
        let mut i: usize = 0;
        while i < self.rules.len()
            invariant
                i <= self.rules@.len(),
                forall|e: Seq<char>| #[trigger]
                    holds_text(out@, e) <==> (names_exe(self.rules@.take(i as int), now_unix_ms, e)
                        && !user_rule_names(self.rules@, now_unix_ms, e)),
            decreases self.rules@.len() - i,
        {
            let rule = &self.rules[i];
            let ghost head = self.rules@.take(i as int);
            let ghost next = self.rules@.take(i + 1);
            let ghost had = out@;
            proof {
                assert forall|e: Seq<char>| #[trigger]
                    names_exe(next, now_unix_ms, e) <==> (names_exe(head, now_unix_ms, e)
                        || is_for_exe(*rule, now_unix_ms, e)) by {
                    if names_exe(head, now_unix_ms, e) {
                        let k = choose|k: int|
                            0 <= k < head.len() && is_for_exe(#[trigger] head[k], now_unix_ms, e);
                        assert(next[k] == head[k]);
                    }
                    if is_for_exe(*rule, now_unix_ms, e) {
                        assert(next[i as int] == *rule);
                    }
                    if names_exe(next, now_unix_ms, e) && !is_for_exe(*rule, now_unix_ms, e) {
                        let k = choose|k: int|
                            0 <= k < next.len() && is_for_exe(#[trigger] next[k], now_unix_ms, e);
                        assert(head[k] == next[k]);
                    }
                }
            }
            if rule.enabled && !rule.is_expired(now_unix_ms) {
                if let Some(exe) = &rule.scope.exe_path {
                    if !self.user_rule_for(exe, now_unix_ms) {
                        let copy = exe.clone();
                        out.push(copy);
                        proof {
                            lemma_holds_push(had, copy);
                        }
                    }
                }
            }
            i += 1;
        }
        proof {
            assert(self.rules@.take(self.rules@.len() as int) =~= self.rules@);
        }
        Some(out)
    }

    /// Whether a rule in force that is scoped to a user names `exe`.
    fn user_rule_for(&self, exe: &String, now_unix_ms: i64) -> (r: bool)
        ensures
            r == user_rule_names(self.rules@, now_unix_ms, exe@),
    {
        let mut i: usize = 0;
        while i < self.rules.len()
            invariant
                i <= self.rules@.len(),
                forall|k: int|
                    0 <= k < i ==> !(is_for_exe(#[trigger] self.rules@[k], now_unix_ms, exe@)
                        && self.rules@[k].scope.uid is Some),
            decreases self.rules@.len() - i,
        {
            let rule = &self.rules[i];
            if rule.enabled && !rule.is_expired(now_unix_ms) && rule.scope.uid.is_some() {
                if let Some(e) = &rule.scope.exe_path {
                    if same_text(e.as_str(), exe.as_str()) {
                        assert(is_for_exe(self.rules@[i as int], now_unix_ms, exe@));
                        return true;
                    }
                }
            }
            i += 1;
        }
        false
    }

    /// Removes every rule with this id and gives notice.
    pub fn remove_rule(&mut self, id: u128)
        ensures
            final(self).rules() == without(old(self).rules(), id),
            old(self).wf() ==> final(self).wf(),
            final(self).policy() == old(self).policy(),
            final(self).hits() == old(self).hits(),
            final(self).notices() == one_more(old(self).notices()),
    {
        let ghost all = self.rules@;
        let mut i: usize = 0;
        let ghost mut k: int = 0;
        proof {
            assert(all.take(0) =~= Seq::<Rule>::empty());
            assert(without(all.take(0), id) + all.skip(0) =~= all);
        }
        while i < self.rules.len()
            invariant
                0 <= k <= all.len(),
                self.rules@ == without(all.take(k), id) + all.skip(k),
                i == without(all.take(k), id).len(),
                self.policy == old(self).policy,
                self.hits == old(self).hits,
                self.notices == old(self).notices,
            decreases self.rules@.len() - i,
        {
            proof {
                assert(self.rules@[i as int] == all[k]);
                assert(all.take(k + 1).drop_last() =~= all.take(k));
                assert(all.take(k + 1).last() == all[k]);
            }
            if self.rules[i].id == id {
                let _ = self.rules.remove(i);
                proof {
                    assert(self.rules@ =~= without(all.take(k + 1), id) + all.skip(k + 1));
                }
            } else {
                proof {
                    assert(self.rules@ =~= without(all.take(k + 1), id) + all.skip(k + 1));
                }
                i += 1;
            }
            proof {
                k = k + 1;
            }
        }
        proof {
            assert(k == all.len());
            assert(all.take(k) =~= all);
            assert(self.rules@ =~= without(all, id));
            if in_order(all) {
                lemma_without_keeps_order(all, id);
            }
        }
        self.notify_changed();
    }

    /// The rules as callers should see them: stored counts plus what has not
    /// been folded in yet.
    pub fn snapshot(&self) -> (r: Vec<Rule>)
        ensures
            r@ == reported(self.rules(), self.hits()),
    {
        fold(&self.rules, &self.hits)
    }

    /// Hands out the hits counted since the last time and starts over. They
    /// are folded into the rules on the way out, so what callers see does not
    /// drop.
    pub fn drain_hits(&mut self) -> (r: HashMap<u128, u64>)
        ensures
            r@ == old(self).hits(),
            final(self).hits() == Map::<u128, u64>::empty(),
            final(self).rules() == reported(old(self).rules(), old(self).hits()),
            old(self).wf() ==> final(self).wf(),
            final(self).policy() == old(self).policy(),
            final(self).notices() == old(self).notices(),
    {
        let mut deltas: HashMap<u128, u64> = HashMap::new();
        std::mem::swap(&mut deltas, &mut self.hits);
        let folded = fold(&self.rules, &deltas);
        let ghost before = self.rules@;
        self.rules = folded;
        proof {
            if in_order(before) {
                assert forall|i: int, j: int| 0 <= i < j < self.rules@.len() implies precedes(
                    self.rules@[i],
                    self.rules@[j],
                ) by {
                    assert(precedes(before[i], before[j]));
                }
            }
        }
        deltas
    }
}

fn fold(rules: &Vec<Rule>, deltas: &HashMap<u128, u64>) -> (r: Vec<Rule>)
    ensures
        r@ == reported(rules@, deltas@),
{
    let mut out: Vec<Rule> = Vec::new();
    let mut i: usize = 0;
    while i < rules.len()
        invariant
            i <= rules@.len(),
            out@ =~= reported(rules@, deltas@).take(i as int),
        decreases rules@.len() - i,
    {
        let mut rule = rules[i].clone();
        if let Some(extra) = deltas.get(&rule.id) {
            rule.hit_count = add_counts(rule.hit_count, *extra);
        }
        proof {
            assert(rule == with_pending(rules@[i as int], deltas@));
        }
        out.push(rule);
        i += 1;
    }
    proof {
        assert(out@ =~= reported(rules@, deltas@));
    }
    out
}

proof fn lemma_without_subset(rules: Seq<Rule>, id: u128, i: int)
    requires
        0 <= i < without(rules, id).len(),
    ensures
        exists|k: int| 0 <= k < rules.len() && rules[k] == without(rules, id)[i],
    decreases rules.len(),
{
    if rules.len() > 0 {
        let head = rules.drop_last();
        if i < without(head, id).len() {
            lemma_without_subset(head, id, i);
            let k = choose|k: int| 0 <= k < head.len() && head[k] == without(head, id)[i];
            assert(rules[k] == without(rules, id)[i]);
        } else {
            assert(rules[rules.len() - 1] == without(rules, id)[i]);
        }
    }
}

proof fn lemma_without_keeps_order(rules: Seq<Rule>, id: u128)
    requires
        in_order(rules),
    ensures
        in_order(without(rules, id)),
    decreases rules.len(),
{
    if rules.len() > 0 {
        let head = rules.drop_last();
        assert forall|i: int, j: int| 0 <= i < j < head.len() implies precedes(
            head[i],
            head[j],
        ) by {
            assert(precedes(rules[i], rules[j]));
        }
        lemma_without_keeps_order(head, id);
        let w = without(rules, id);
        assert forall|i: int, j: int| 0 <= i < j < w.len() implies precedes(w[i], w[j]) by {
            if j == without(head, id).len() {
                lemma_without_subset(head, id, i);
                let k = choose|k: int| 0 <= k < head.len() && head[k] == without(head, id)[i];
                assert(precedes(rules[k], rules[rules.len() - 1]));
            } else {
                assert(precedes(without(head, id)[i], without(head, id)[j]));
            }
        }
    }
}

/// The precedence order does not depend on the order in which the rules
/// arrived: two orderings of the same rules are the same.
pub proof fn order_is_independent_of_arrival(a: Seq<Rule>, b: Seq<Rule>)
    requires
        in_order(a),
        in_order(b),
        ids_distinct(a),
        a.to_multiset() == b.to_multiset(),
    ensures
        a == b,
    decreases a.len(),
{
    vstd::seq_lib::to_multiset_len(a);
    vstd::seq_lib::to_multiset_len(b);
    if a.len() == 0 {
        assert(a =~= b);
    } else {
        vstd::seq_lib::to_multiset_contains(a, a[0]);
        vstd::seq_lib::to_multiset_contains(b, a[0]);
        vstd::seq_lib::to_multiset_contains(a, b[0]);
        vstd::seq_lib::to_multiset_contains(b, b[0]);
        assert(a.contains(a[0]));
        assert(b.contains(b[0]));
        let i = choose|i: int| 0 <= i < a.len() && a[i] == b[0];
        let j = choose|j: int| 0 <= j < b.len() && b[j] == a[0];
        assert(i == 0 || precedes(a[0], a[i]));
        assert(j == 0 || precedes(b[0], b[j]));
        if i != 0 {
            assert(a[0].id != a[i].id);
            assert(false);
        }
        assert(a[0] == b[0]);
        vstd::seq_lib::to_multiset_remove(a, 0);
        vstd::seq_lib::to_multiset_remove(b, 0);
        let x = a.remove(0);
        let y = b.remove(0);
        assert forall|m: int, n: int| 0 <= m < n < x.len() implies precedes(x[m], x[n]) by {
            assert(precedes(a[m + 1], a[n + 1]));
        }
        assert forall|m: int, n: int| 0 <= m < n < y.len() implies precedes(y[m], y[n]) by {
            assert(precedes(b[m + 1], b[n + 1]));
        }
        assert forall|m: int, n: int| 0 <= m < n < x.len() implies (#[trigger] x[m]).id != (
        #[trigger] x[n]).id by {
            assert(a[m + 1].id != a[n + 1].id);
        }
        order_is_independent_of_arrival(x, y);
        assert(a =~= seq![a[0]] + x);
        assert(b =~= seq![b[0]] + y);
    }
}

proof fn lemma_first_hit(rules: Seq<Rule>, c: &Connection, p: &Process, now: i64, i: int, j: int)
    requires
        0 <= i <= j < rules.len(),
        hits(rules[j], c, p, now),
    ensures
        first_hit(rules, c, p, now, i) matches Some(k) && i <= k <= j && hits(
            rules[k],
            c,
            p,
            now,
        ),
    decreases j - i,
{
    if !hits(rules[i], c, p, now) {
        lemma_first_hit(rules, c, p, now, i + 1, j);
    }
}

/// Whenever some rule hits, the one that decides is at least as specific as
/// it; and a refusal is overridden only by a rule that is more specific.
pub proof fn the_most_specific_refusal_decides(
    rules: Seq<Rule>,
    c: &Connection,
    p: &Process,
    now: i64,
    j: int,
)
    requires
        in_order(rules),
        0 <= j < rules.len(),
        hits(rules[j], c, p, now),
    ensures
        first_hit(rules, c, p, now, 0) matches Some(i) && 0 <= i <= j && {
            &&& rules[i].scope.spec_specificity() >= rules[j].scope.spec_specificity()
            &&& refuses(rules[j].action) && rules[i].action == Action::Allow
                ==> rules[i].scope.spec_specificity() > rules[j].scope.spec_specificity()
        },
{
    lemma_first_hit(rules, c, p, now, 0, j);
    let i = first_hit(rules, c, p, now, 0)->Some_0;
    if i < j {
        assert(precedes(rules[i], rules[j]));
    }
}

/// Whether `full` is `known` with nothing taken back: the same executable and
/// user, and the digest and the parent the same where they were known.
pub open spec fn refines(full: &Process, known: &Process) -> bool {
    &&& full.exe@ == known.exe@
    &&& full.uid == known.uid
    &&& (known.sha256 is Some ==> full.sha256 == known.sha256)
    &&& (known.parent_exe is Some ==> full.parent_exe == known.parent_exe)
}

/// A process-wide answer is what the packet path would say: for every outbound
/// flow of the process, and whatever else becomes known of it, the rule behind
/// the answer is the one that decides.
pub proof fn process_wide_answers_agree_with_the_packet_path(
    rules: Seq<Rule>,
    known: &Process,
    full: &Process,
    c: &Connection,
    now: i64,
    i: int,
)
    requires
        refines(full, known),
        c.direction == Direction::Outbound,
        0 <= i <= rules.len(),
        wide_from(rules, known, now, i) is Some,
    ensures
        first_hit(rules, c, full, now, i) matches Some(k) && {
            &&& i <= k < rules.len()
            &&& wide_from(rules, known, now, i) == Some(
                ProcessVerdict {
                    rule_id: rules[k].id,
                    action: rules[k].action,
                    duration: rules[k].duration,
                },
            )
        },
    decreases rules.len() - i,
{
    if i < rules.len() {
        let r = rules[i];
        if r.live(now) && r.scope.direction != Some(Direction::Inbound) && r.scope.fits_process(
            known,
        ) && !r.scope.open_for(known) {
            assert(hits(r, c, full, now));
        } else {
            assert(!hits(r, c, full, now));
            process_wide_answers_agree_with_the_packet_path(rules, known, full, c, now, i + 1);
        }
    }
}

/// An inbound rule never makes or unmakes a process-wide answer.
pub proof fn inbound_rules_do_not_touch_process_wide_answers(
    rules: Seq<Rule>,
    rule: Rule,
    p: &Process,
    now: i64,
    at: int,
    i: int,
)
    requires
        rule.scope.direction == Some(Direction::Inbound),
        0 <= i <= at <= rules.len(),
    ensures
        wide_from(rules.insert(at, rule), p, now, i) == wide_from(rules, p, now, i),
        wide_from(rules.insert(at, rule), p, now, at + 1) == wide_from(rules, p, now, at),
    decreases rules.len() - i,
{
    let more = rules.insert(at, rule);
    if i < at {
        assert(more[i] == rules[i]);
        inbound_rules_do_not_touch_process_wide_answers(rules, rule, p, now, at, i + 1);
    } else {
        lemma_wide_shift(rules, more, p, now, at);
        assert(more[at] == rule);
    }
}

proof fn lemma_wide_shift(a: Seq<Rule>, b: Seq<Rule>, p: &Process, now: i64, i: int)
    requires
        0 <= i <= a.len(),
        b.len() == a.len() + 1,
        forall|k: int| i <= k < a.len() ==> #[trigger] a[k] == b[k + 1],
    ensures
        wide_from(b, p, now, i + 1) == wide_from(a, p, now, i),
    decreases a.len() - i,
{
    if i < a.len() {
        assert(a[i] == b[i + 1]);
        lemma_wide_shift(a, b, p, now, i + 1);
    }
}

/// Draining the counts does not change what callers see of them.
pub proof fn draining_keeps_the_reported_counts(rules: Seq<Rule>, hits: Map<u128, u64>)
    ensures
        reported(reported(rules, hits), Map::empty()) == reported(rules, hits),
{
    let none = Map::<u128, u64>::empty();
    assert forall|i: int| 0 <= i < rules.len() implies with_pending(
        with_pending(rules[i], hits),
        none,
    ) == with_pending(rules[i], hits) by {}
    assert(reported(reported(rules, hits), none) =~= reported(rules, hits));
}

/// A hit raises what callers see of the rule that decided by one, and of no
/// other rule.
pub proof fn a_hit_counts_once(rules: Seq<Rule>, hits: Map<u128, u64>, id: u128, i: int)
    requires
        0 <= i < rules.len(),
        rules[i].hit_count + pending(hits, id) < u64::MAX,
    ensures
        reported(rules, hits.insert(id, plus(pending(hits, id), 1)))[i].hit_count == if rules[i].id
            == id {
            reported(rules, hits)[i].hit_count + 1
        } else {
            reported(rules, hits)[i].hit_count as int
        },
{
}

proof fn lemma_without(rules: Seq<Rule>, id: u128, r: Rule)
    ensures
        without(rules, id).contains(r) <==> (rules.contains(r) && r.id != id),
    decreases rules.len(),
{
    if rules.len() > 0 {
        let head = rules.drop_last();
        lemma_without(head, id, r);
        let w = without(rules, id);
        if rules.contains(r) && r.id != id {
            let k = choose|k: int| 0 <= k < rules.len() && rules[k] == r;
            if k < head.len() {
                assert(head[k] == r);
                let m = choose|m: int| 0 <= m < without(head, id).len() && without(head, id)[m] == r;
                assert(w[m] == r);
            } else {
                assert(w[w.len() - 1] == r);
            }
        }
        if w.contains(r) {
            let m = choose|m: int| 0 <= m < w.len() && w[m] == r;
            if m < without(head, id).len() {
                assert(without(head, id)[m] == r);
                let k = choose|k: int| 0 <= k < head.len() && head[k] == r;
                assert(rules[k] == r);
            } else {
                assert(rules[rules.len() - 1] == r);
            }
        }
    }
}

/// Removing an id removes the rules that have it and nothing else.
pub proof fn removal_is_exact(rules: Seq<Rule>, id: u128, r: Rule)
    ensures
        without(rules, id).contains(r) <==> (rules.contains(r) && r.id != id),
{
    lemma_without(rules, id, r);
}

/// After an upsert the rule is there, under an id nothing else has; every rule
/// with another id stays, ids stay distinct, and there is one rule more if and
/// only if the id was new.
pub proof fn an_upserted_rule_stands_alone(before: Seq<Rule>, after: Seq<Rule>, rule: Rule, r: Rule)
    requires
        ids_distinct(before),
        after.to_multiset() == upserted(before, rule).to_multiset(),
    ensures
        after.contains(rule),
        r.id == rule.id ==> (after.contains(r) <==> r == rule),
        r.id != rule.id ==> (after.contains(r) <==> before.contains(r)),
        ids_distinct(after),
        after.len() == before.len() + (if exists|k: int|
            0 <= k < before.len() && (#[trigger] before[k]).id == rule.id {
            0int
        } else {
            1int
        }),
{
    let u = upserted(before, rule);
    lemma_position(before, rule.id, 0);
    lemma_upserted_distinct(before, rule);
    lemma_distinct_by_contents(u, after);
    u.to_multiset_ensures();
    after.to_multiset_ensures();
    vstd::seq_lib::to_multiset_contains(u, rule);
    vstd::seq_lib::to_multiset_contains(after, rule);
    vstd::seq_lib::to_multiset_contains(u, r);
    vstd::seq_lib::to_multiset_contains(after, r);
    let at = match position(before, rule.id, 0) {
        Some(k) => k,
        None => before.len() as int,
    };
    assert(u[at] == rule);
    assert(u.contains(rule));
    if u.contains(r) {
        let k = choose|k: int| 0 <= k < u.len() && u[k] == r;
        if r.id == rule.id && k != at {
            if k < at {
                assert(u[k].id != u[at].id);
            } else {
                assert(u[at].id != u[k].id);
            }
        }
        if k != at {
            assert(before[k] == r);
        }
    }
    if before.contains(r) && r.id != rule.id {
        let k = choose|k: int| 0 <= k < before.len() && before[k] == r;
        assert(u[k] == r);
    }
}

/// An upsert that keeps the count it replaces, as the daemon stores it, leaves
/// what callers see of that count unchanged.
pub proof fn a_preserved_upsert_does_not_inflate(
    rules: Seq<Rule>,
    hits: Map<u128, u64>,
    i: int,
    incoming: Rule,
)
    requires
        position(rules, incoming.id, 0) == Some(i),
        incoming.hit_count == rules[i].hit_count,
    ensures
        with_pending(incoming, hits).hit_count == with_pending(rules[i], hits).hit_count,
{
    lemma_position(rules, incoming.id, 0);
}

/// Whether a rule has a say in a flow: it is enabled, its time has not run out,
/// and its scope matches.
spec fn has_a_say(r: Rule, c: &Connection, p: &Process, now: i64) -> bool {
    r.enabled && !r.over(now) && r.scope.fits_connection(c) && r.scope.fits_process(p)
}

/// The first rule that is enabled, whose time has not run out and whose scope
/// matches the flow and the process gives the verdict, its action and its id;
/// where there is none, no rule gives one.
pub proof fn the_first_rule_that_matches_decides(
    rules: Seq<Rule>,
    c: &Connection,
    p: &Process,
    now: i64,
    k: int,
)
    ensures
        0 <= k < rules.len() && rules[k].enabled && !rules[k].over(now)
            && rules[k].scope.fits_connection(c) && rules[k].scope.fits_process(p) && (forall|j: int|
            0 <= j < k ==> !((#[trigger] rules[j]).enabled && !rules[j].over(now)
                && rules[j].scope.fits_connection(c) && rules[j].scope.fits_process(p)))
            ==> rule_verdict(rules, c, p, now) == Some(
            Verdict { action: rules[k].action, source: VerdictSource::Rule(rules[k].id) },
        ) && first_hit(rules, c, p, now, 0) == Some(k),
        (forall|j: int|
            0 <= j < rules.len() ==> !((#[trigger] rules[j]).enabled && !rules[j].over(now)
                && rules[j].scope.fits_connection(c) && rules[j].scope.fits_process(p)))
            ==> rule_verdict(rules, c, p, now) is None && first_hit(rules, c, p, now, 0) is None,
{
    if 0 <= k < rules.len() && has_a_say(rules[k], c, p, now) && (forall|j: int|
        0 <= j < k ==> !((#[trigger] rules[j]).enabled && !rules[j].over(now)
            && rules[j].scope.fits_connection(c) && rules[j].scope.fits_process(p))) {
        lemma_found_first(rules, c, p, now, 0, k);
    }
    if forall|j: int|
        0 <= j < rules.len() ==> !((#[trigger] rules[j]).enabled && !rules[j].over(now)
            && rules[j].scope.fits_connection(c) && rules[j].scope.fits_process(p)) {
        lemma_found_none(rules, c, p, now, 0);
    }
}

proof fn lemma_found_first(rules: Seq<Rule>, c: &Connection, p: &Process, now: i64, i: int, k: int)
    requires
        0 <= i <= k < rules.len(),
        has_a_say(rules[k], c, p, now),
        forall|j: int|
            i <= j < k ==> !((#[trigger] rules[j]).enabled && !rules[j].over(now)
                && rules[j].scope.fits_connection(c) && rules[j].scope.fits_process(p)),
    ensures
        first_hit(rules, c, p, now, i) == Some(k),
    decreases k - i,
{
    if i < k {
        assert(!hits(rules[i], c, p, now));
        lemma_found_first(rules, c, p, now, i + 1, k);
    }
}

proof fn lemma_found_none(rules: Seq<Rule>, c: &Connection, p: &Process, now: i64, i: int)
    requires
        0 <= i <= rules.len(),
        forall|j: int|
            i <= j < rules.len() ==> !((#[trigger] rules[j]).enabled && !rules[j].over(now)
                && rules[j].scope.fits_connection(c) && rules[j].scope.fits_process(p)),
    ensures
        first_hit(rules, c, p, now, i) is None,
    decreases rules.len() - i,
{
    if i < rules.len() {
        assert(!hits(rules[i], c, p, now));
        lemma_found_none(rules, c, p, now, i + 1);
    }
}

/// In precedence order no rule is less specific than one behind it. Among those
/// that are equally specific the silent refusals come first, then the others,
/// then what permits; among these the enabled ones; and then the smaller ids.
pub proof fn precedence_goes_by_specificity_then_refusal(rules: Seq<Rule>, i: int, j: int)
    requires
        in_order(rules),
        0 <= i < j < rules.len(),
    ensures
        rules[i].scope.spec_specificity() >= rules[j].scope.spec_specificity(),
        rules[i].scope.spec_specificity() == rules[j].scope.spec_specificity() ==> {
            &&& rules[i].action == Action::Allow ==> rules[j].action == Action::Allow
            &&& rules[i].action == Action::Reject ==> rules[j].action != Action::Deny
            &&& rules[i].action == rules[j].action ==> {
                &&& rules[j].enabled ==> rules[i].enabled
                &&& rules[i].enabled == rules[j].enabled ==> rules[i].id <= rules[j].id
            }
        },
{
    assert(precedes(rules[i], rules[j]));
}

/// Whether a rule is passed over in looking for a process-wide answer: it is not
/// in force, it is about what comes in, or it cannot apply to the process.
spec fn passed_over(r: Rule, p: &Process, now: i64) -> bool {
    ||| !r.enabled
    ||| r.over(now)
    ||| r.scope.direction == Some(Direction::Inbound)
    ||| (!r.scope.fits_process(p) && !r.scope.open_for(p))
}

/// The answer for a process is that of the first outbound rule in force that
/// applies to it, or could: it is that rule's action if the rule does apply and
/// depends on no destination, and there is none otherwise. Where no rule
/// applies or could, there is none either.
pub proof fn the_first_rule_that_could_apply_answers_for_the_process(
    rules: Seq<Rule>,
    p: &Process,
    now: i64,
    k: int,
)
    ensures
        0 <= k < rules.len() && rules[k].enabled && !rules[k].over(now) && rules[k].scope.direction
            != Some(Direction::Inbound) && (rules[k].scope.fits_process(p)
            || rules[k].scope.open_for(p)) && (forall|j: int|
            0 <= j < k ==> (!(#[trigger] rules[j]).enabled || rules[j].over(now)
                || rules[j].scope.direction == Some(Direction::Inbound) || (
            !rules[j].scope.fits_process(p) && !rules[j].scope.open_for(p)))) ==> wide_from(
            rules,
            p,
            now,
            0,
        ) == (if rules[k].scope.fits_process(p) && !(rules[k].scope.src_net is Some
            || rules[k].scope.src_port is Some || rules[k].scope.dst_host is Some
            || rules[k].scope.dst_net is Some || rules[k].scope.dst_port is Some
            || rules[k].scope.protocol is Some) {
            Some(
                ProcessVerdict {
                    rule_id: rules[k].id,
                    action: rules[k].action,
                    duration: rules[k].duration,
                },
            )
        } else {
            None
        }),
        (forall|j: int|
            0 <= j < rules.len() ==> (!(#[trigger] rules[j]).enabled || rules[j].over(now)
                || rules[j].scope.direction == Some(Direction::Inbound) || (
            !rules[j].scope.fits_process(p) && !rules[j].scope.open_for(p)))) ==> wide_from(
            rules,
            p,
            now,
            0,
        ) is None,
{
    if 0 <= k < rules.len() && !passed_over(rules[k], p, now) && (forall|j: int|
        0 <= j < k ==> (!(#[trigger] rules[j]).enabled || rules[j].over(now)
            || rules[j].scope.direction == Some(Direction::Inbound) || (
        !rules[j].scope.fits_process(p) && !rules[j].scope.open_for(p)))) {
        lemma_wide_at(rules, p, now, 0, k);
        crate::model::undecidable_means_that_knowing_more_could_tell(&rules[k].scope, *p, *p);
    }
    if forall|j: int|
        0 <= j < rules.len() ==> (!(#[trigger] rules[j]).enabled || rules[j].over(now)
            || rules[j].scope.direction == Some(Direction::Inbound) || (
        !rules[j].scope.fits_process(p) && !rules[j].scope.open_for(p))) {
        lemma_wide_none(rules, p, now, 0);
    }
}

proof fn lemma_wide_at(rules: Seq<Rule>, p: &Process, now: i64, i: int, k: int)
    requires
        0 <= i <= k < rules.len(),
        forall|j: int|
            i <= j < k ==> (!(#[trigger] rules[j]).enabled || rules[j].over(now)
                || rules[j].scope.direction == Some(Direction::Inbound) || (
            !rules[j].scope.fits_process(p) && !rules[j].scope.open_for(p))),
    ensures
        wide_from(rules, p, now, i) == wide_from(rules, p, now, k),
    decreases k - i,
{
    if i < k {
        assert(passed_over(rules[i], p, now));
        lemma_wide_at(rules, p, now, i + 1, k);
    }
}

proof fn lemma_wide_none(rules: Seq<Rule>, p: &Process, now: i64, i: int)
    requires
        0 <= i <= rules.len(),
        forall|j: int|
            i <= j < rules.len() ==> (!(#[trigger] rules[j]).enabled || rules[j].over(now)
                || rules[j].scope.direction == Some(Direction::Inbound) || (
            !rules[j].scope.fits_process(p) && !rules[j].scope.open_for(p))),
    ensures
        wide_from(rules, p, now, i) is None,
    decreases rules.len() - i,
{
    if i < rules.len() {
        assert(passed_over(rules[i], p, now));
        lemma_wide_none(rules, p, now, i + 1);
    }
}

/// Everything but an allow refuses, and a refusal is still open exactly where an
/// outbound rule in force that does not allow could still turn out to apply.
pub proof fn every_action_but_allow_refuses(a: Action, rules: Seq<Rule>, p: &Process, now: i64)
    ensures
        refuses(a) <==> a != Action::Allow,
        refusal_open(rules, p, now) <==> exists|i: int|
            0 <= i < rules.len() && (#[trigger] rules[i]).enabled && !rules[i].over(now)
                && rules[i].scope.direction != Some(Direction::Inbound) && rules[i].action
                != Action::Allow && rules[i].scope.open_for(p),
{
    if refusal_open(rules, p, now) {
        let i = choose|i: int|
            0 <= i < rules.len() && (#[trigger] rules[i]).live(now) && rules[i].scope.direction
                != Some(Direction::Inbound) && refuses(rules[i].action)
                && rules[i].scope.open_for(p);
        assert(rules[i].enabled);
    }
    if exists|i: int|
        0 <= i < rules.len() && (#[trigger] rules[i]).enabled && !rules[i].over(now)
            && rules[i].scope.direction != Some(Direction::Inbound) && rules[i].action
            != Action::Allow && rules[i].scope.open_for(p) {
        let i = choose|i: int|
            0 <= i < rules.len() && (#[trigger] rules[i]).enabled && !rules[i].over(now)
                && rules[i].scope.direction != Some(Direction::Inbound) && rules[i].action
                != Action::Allow && rules[i].scope.open_for(p);
        assert(rules[i].live(now));
    }
}

/// An answer may go ahead of the packet path only if it allows, and neither
/// once nor for a time.
pub proof fn only_an_allow_that_lasts_goes_ahead(v: ProcessVerdict)
    ensures
        v.action != Action::Allow ==> !v.lasting_allow(),
        v.duration is Seconds || v.duration == Duration::Once ==> !v.lasting_allow(),
        v.action == Action::Allow && (v.duration == Duration::Always || v.duration
            == Duration::UntilRestart) ==> v.lasting_allow(),
{
}

/// What callers see of a rule is the rule, its count raised by the hits that are
/// pending for its id - as far as a count goes - and nothing else changed.
pub proof fn callers_see_every_hit(rules: Seq<Rule>, hits: Map<u128, u64>, i: int)
    requires
        0 <= i < rules.len(),
    ensures
        reported(rules, hits).len() == rules.len(),
        reported(rules, hits)[i] == (Rule {
            hit_count: reported(rules, hits)[i].hit_count,
            ..rules[i]
        }),
        !hits.contains_key(rules[i].id) ==> reported(rules, hits)[i].hit_count == rules[i].hit_count,
        hits.contains_key(rules[i].id) ==> reported(rules, hits)[i].hit_count == (if rules[i].hit_count
            + hits[rules[i].id] > u64::MAX {
            u64::MAX as int
        } else {
            rules[i].hit_count + hits[rules[i].id]
        }),
{
}

/// Removing an id leaves the other rules, in their order.
pub proof fn removal_keeps_the_order(rules: Seq<Rule>, id: u128)
    ensures
        without(rules, id) == rules.filter(|r: Rule| r.id != id),
    decreases rules.len(),
{
    reveal(Seq::filter);
    if rules.len() > 0 {
        removal_keeps_the_order(rules.drop_last(), id);
    }
}

/// An upsert changes the rule that has the id where it stands, and adds one at
/// the end where none has it; no other place changes.
pub proof fn an_upsert_touches_one_place(rules: Seq<Rule>, rule: Rule, i: int)
    ensures
        0 <= i < rules.len() && rules[i].id == rule.id && (forall|k: int|
            0 <= k < i ==> (#[trigger] rules[k]).id != rule.id) ==> upserted(rules, rule)
            == rules.update(i, rule) && position(rules, rule.id, 0) == Some(i),
        (forall|k: int| 0 <= k < rules.len() ==> (#[trigger] rules[k]).id != rule.id) ==> upserted(
            rules,
            rule,
        ) == rules.push(rule) && position(rules, rule.id, 0) is None,
{
    lemma_position(rules, rule.id, 0);
    if let Some(k) = position(rules, rule.id, 0) {
        lemma_position_first(rules, rule.id, 0, k);
    }
}

proof fn lemma_position_first(rules: Seq<Rule>, id: u128, i: int, k: int)
    requires
        0 <= i <= rules.len(),
        position(rules, id, i) == Some(k),
    ensures
        i <= k < rules.len(),
        forall|j: int| i <= j < k ==> (#[trigger] rules[j]).id != id,
    decreases rules.len() - i,
{
    if i < rules.len() && rules[i].id != id {
        lemma_position_first(rules, id, i + 1, k);
    }
}

/// A rule is for an executable when it is in force and names that path; a rule
/// that names a user as well, or a user and no executable, is told apart.
pub proof fn executables_are_named_by_rules_in_force(rules: Seq<Rule>, now: i64, e: Seq<char>)
    ensures
        names_exe(rules, now, e) <==> exists|k: int|
            0 <= k < rules.len() && (#[trigger] rules[k]).enabled && !rules[k].over(now)
                && rules[k].scope.exe_path is Some && rules[k].scope.exe_path->Some_0@ == e,
        user_rule_names(rules, now, e) <==> exists|k: int|
            0 <= k < rules.len() && (#[trigger] rules[k]).enabled && !rules[k].over(now)
                && rules[k].scope.exe_path is Some && rules[k].scope.exe_path->Some_0@ == e
                && rules[k].scope.uid is Some,
        user_rule_for_all(rules, now) <==> exists|k: int|
            0 <= k < rules.len() && (#[trigger] rules[k]).enabled && !rules[k].over(now)
                && rules[k].scope.exe_path is None && rules[k].scope.uid is Some,
{
    if names_exe(rules, now, e) {
        let k = choose|k: int| 0 <= k < rules.len() && is_for_exe(#[trigger] rules[k], now, e);
        assert(rules[k].enabled);
    }
    if user_rule_names(rules, now, e) {
        let k = choose|k: int|
            0 <= k < rules.len() && is_for_exe(#[trigger] rules[k], now, e)
                && rules[k].scope.uid is Some;
        assert(rules[k].enabled);
    }
    if user_rule_for_all(rules, now) {
        let k = choose|k: int|
            0 <= k < rules.len() && (#[trigger] rules[k]).live(now) && rules[k].scope.uid is Some
                && rules[k].scope.exe_path is None;
        assert(rules[k].enabled);
    }
    assert forall|k: int|
        0 <= k < rules.len() && (#[trigger] rules[k]).enabled && !rules[k].over(
            now,
        ) implies rules[k].live(now) by {}
}

/// Each notice is told from the one before it.
pub proof fn notices_count_up(n: u64)
    ensures
        one_more(n) != n,
        n < u64::MAX ==> one_more(n) == n + 1,
{
}

/// A text is in a list if some item of it reads so.
pub proof fn a_text_is_listed_by_an_item(v: Seq<String>, s: String, e: Seq<char>)
    ensures
        !holds_text(Seq::empty(), e),
        holds_text(v.push(s), e) <==> holds_text(v, e) || s@ == e,
{
    lemma_holds_push(v, s);
}

/// What was upserted is among the rules.
pub proof fn lemma_upserted_holds(rules: Seq<Rule>, rule: Rule)
    ensures
        upserted(rules, rule).contains(rule),
{
    lemma_position(rules, rule.id, 0);
    match position(rules, rule.id, 0) {
        Some(i) => {
            assert(upserted(rules, rule)[i] == rule);
        },
        None => {
            assert(upserted(rules, rule)[rules.len() as int] == rule);
        },
    }
}

} // verus!
