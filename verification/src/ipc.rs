//! The control service behind the Unix socket: who may call what, and what each
//! call does.
//!
//! # Trust model
//!
//! The daemon controls the machine's packet filter, so access to its control
//! socket is gated in two layers:
//!
//! 1. **The socket file.** After bind, the socket is given to `root:<group>`
//!    with mode `0660`, so the kernel refuses anyone outside that group. If the
//!    group cannot be resolved the socket stays `0600`, and a root client still
//!    works.
//! 2. **Per-call peer credentials.** A call that changes something requires
//!    either uid 0 or a socket that is genuinely group-gated. A configuration
//!    with `require_group = false` opts out of that second check. A call that
//!    only reads is open to any peer that got through the first layer.
//!
//! # Prompt ownership
//!
//! A prompt goes to the session that owns the process it is about, to root, and,
//! when the process could not be attributed, to everyone. Who was told of a
//! prompt is recorded as the prompt is handed over, and only they, and root, may
//! answer it.

use crate::config::{DefaultPolicy, IpcConfig};
use crate::convert::{
    self, action_word, none_if_empty, read_action, read_duration, read_scope, written,
    ONCE_RULE,
};
use crate::decision::{one_more, Engine};
use crate::model::{
    text_of, Action, Connection, Duration, Process, Rule, Verdict, VerdictSource,
};
use crate::outside::{fresh_uuid, is_random_id, parse_uuid, parsed_uuid, uuid_string, uuid_text};
use crate::proto as pb;
use crate::stats::{switched, Stats};
use crate::storage::{EventFilter, EventRow};
use crate::text::{chars_of, decimal_value, parse_decimal, text};
use std::collections::{HashMap, HashSet, VecDeque};
use vstd::prelude::*;
use vstd::string::StringExecFns;

verus! {

/// Hard ceiling on a pause, regardless of what a client asks for. A pause is
/// "stop filtering", so it must always end by itself.
pub const MAX_PAUSE_SECS: u64 = 86_400;

/// How long the daemon may see no packet before it stops claiming to enforce.
pub const ENFORCING_GRACE_SECS: u64 = 60;

/// Page size used when a client asks for none.
pub const DEFAULT_EVENT_PAGE: u32 = 100;

/// The most rows a client may ask for.
pub const MAX_EVENT_PAGE: u32 = 1000;

/// Bound on remembered prompt audiences.
pub const AUDIENCE_CAP: usize = 4096;

/// Credentials of the process on the other end of the connection, as the kernel
/// reports them.
#[derive(Debug, Clone, Copy, PartialEq, Eq, Structural)]
pub struct PeerId {
    pub uid: u32,
    pub pid: Option<i32>,
}

/// What the service is started with.
#[derive(Debug)]
pub struct IpcOptions {
    pub socket_path: String,
    pub ipc: IpcConfig,
    /// The length of a pause for which a client names none.
    pub pause_default_secs: u64,
    pub dry_run: bool,
}

/// Privilege a call requires.
#[derive(Debug, Clone, Copy, PartialEq, Eq, Structural)]
pub enum Access {
    /// Observing daemon state.
    ReadOnly,
    /// Changing the firewall's behaviour.
    Mutate,
}

/// Outcome of securing the socket file, and the policy knobs that decide what
/// it implies for callers.
#[derive(Debug)]
pub struct SocketAuth {
    pub group: String,
    /// True only when the socket really is `root:<group>` mode 0660, so that
    /// the kernel enforces group membership.
    pub group_gated: bool,
    pub require_group: bool,
}

/// Why a call fails.
#[derive(Debug, Clone, Copy, PartialEq, Eq, Structural)]
pub enum Code {
    PermissionDenied,
    InvalidArgument,
    Internal,
}

/// What a failed call is answered with.
#[derive(Debug)]
pub struct Status {
    pub code: Code,
    pub message: String,
}

impl Status {
    /// The code and the text.
    pub open spec fn says(&self) -> (Code, Seq<char>) {
        (self.code, self.message@)
    }

    fn of(code: Code, message: String) -> (r: Status)
        ensures
            r.says() == (code, message@),
    {
        Status { code, message }
    }
}

/// Whether a peer with this uid may make a call of this level.
pub open spec fn permitted(uid: u32, level: Access, group_gated: bool, require_group: bool) -> bool {
    level == Access::ReadOnly || uid == 0 || !require_group || group_gated
}

/// The authorization policy.
pub fn authorize_uid(uid: u32, level: Access, group_gated: bool, require_group: bool) -> (r: bool)
    ensures
        r == permitted(uid, level, group_gated, require_group),
{
    match level {
        // The socket's mode already decided who may connect at all.
        Access::ReadOnly => true,
        Access::Mutate => uid == 0 || !require_group || group_gated,
    }
}

/// What a connection tells of its peer: nothing at all, that the credentials
/// were not to be had, or the credentials.
pub type Credentials = Option<Option<PeerId>>;

pub const NO_CREDENTIALS: &'static str = "connection carries no peer credentials";

pub const CREDENTIALS_UNAVAILABLE: &'static str = "peer credentials unavailable";

/// The peer of a connection, or the refusal.
pub open spec fn peer(creds: Credentials) -> Result<PeerId, (Code, Seq<char>)> {
    match creds {
        None => Err((Code::PermissionDenied, NO_CREDENTIALS@)),
        Some(None) => Err((Code::PermissionDenied, CREDENTIALS_UNAVAILABLE@)),
        Some(Some(p)) => Ok(p),
    }
}

/// Whether a result is the one a specification gives, its refusal compared by
/// code and text.
pub open spec fn answers<T>(r: Result<T, Status>, s: Result<T, (Code, Seq<char>)>) -> bool {
    match (r, s) {
        (Ok(a), Ok(b)) => a == b,
        (Err(e), Err(f)) => e.says() == f,
        _ => false,
    }
}

/// The peer of a connection, or the refusal.
pub fn peer_of(creds: Credentials) -> (r: Result<PeerId, Status>)
    ensures
        answers(r, peer(creds)),
{
    match creds {
        None => Err(Status::of(Code::PermissionDenied, text(NO_CREDENTIALS))),
        Some(None) => Err(Status::of(Code::PermissionDenied, text(CREDENTIALS_UNAVAILABLE))),
        Some(Some(p)) => Ok(p),
    }
}

/// The caller, or the refusal.
pub open spec fn authorized(auth: SocketAuth, creds: Credentials, level: Access) -> Result<
    PeerId,
    (Code, Seq<char>),
> {
    match peer(creds) {
        Err(e) => Err(e),
        Ok(p) => if permitted(p.uid, level, auth.group_gated, auth.require_group) {
            Ok(p)
        } else {
            Err(
                (
                    Code::PermissionDenied,
                    "mutating RPCs require uid 0 or a socket owned by group '"@ + auth.group@
                        + "'"@,
                ),
            )
        },
    }
}

impl SocketAuth {
    /// Resolves the caller and checks it may make a call of `level`.
    pub fn authorize(&self, creds: Credentials, level: Access) -> (r: Result<PeerId, Status>)
        ensures
            answers(r, authorized(*self, creds, level)),
    {
        let p = match peer_of(creds) {
            Ok(p) => p,
            Err(e) => {
                return Err(e);
            },
        };
        if authorize_uid(p.uid, level, self.group_gated, self.require_group) {
            return Ok(p);
        }
        let mut m = text("mutating RPCs require uid 0 or a socket owned by group '");
        m.append(self.group.as_str());
        m.append("'");
        Err(Status::of(Code::PermissionDenied, m))
    }
}

/// Whether a prompt about a process of `owner` goes to a subscriber.
pub open spec fn entitled(owner: Option<u32>, uid: u32) -> bool {
    uid == 0 || owner is None || owner == Some(uid)
}

/// A prompt goes to the session that owns its process and to root; one about an
/// unattributed process goes to everyone.
pub fn should_deliver(owner_uid: Option<u32>, subscriber_uid: u32) -> (r: bool)
    ensures
        r == entitled(owner_uid, subscriber_uid),
{
    match owner_uid {
        None => true,
        Some(o) => subscriber_uid == 0 || o == subscriber_uid,
    }
}

/// The remembered prompts, oldest first, and the uids each was handed to.
pub ghost struct Audience {
    pub order: Seq<u64>,
    pub told: Map<u64, Set<u32>>,
}

/// Which peers actually received a given prompt.
pub struct PromptAudience {
    by_prompt: HashMap<u64, HashSet<u32>>,
    /// Insertion order, so that the oldest prompt can be dropped.
    order: VecDeque<u64>,
}

impl View for PromptAudience {
    type V = Audience;

    closed spec fn view(&self) -> Audience {
        Audience {
            order: self.order@,
            told: Map::new(|id: u64| self.by_prompt@.contains_key(id), |id: u64| self.by_prompt@[id]@),
        }
    }
}

/// Who a prompt was handed to.
pub open spec fn audience_of(a: Audience, id: u64) -> Set<u32> {
    if a.told.contains_key(id) {
        a.told[id]
    } else {
        Set::empty()
    }
}

/// Every remembered prompt stands once in the order, and there are not too many.
pub open spec fn audience_wf(a: Audience) -> bool {
    &&& a.order.no_duplicates()
    &&& a.order.to_set() == a.told.dom()
    &&& a.order.len() <= AUDIENCE_CAP
}

/// The audiences after `uid` was handed `id`; the oldest prompt is dropped when
/// there would be too many.
pub open spec fn handed(a: Audience, id: u64, uid: u32) -> Audience {
    let told = a.told.insert(id, audience_of(a, id).insert(uid));
    if a.told.contains_key(id) {
        Audience { order: a.order, told }
    } else if a.order.len() < AUDIENCE_CAP {
        Audience { order: a.order.push(id), told }
    } else {
        Audience { order: a.order.push(id).skip(1), told: told.remove(a.order[0]) }
    }
}

/// Every prompt but this one.
pub open spec fn others(id: u64) -> spec_fn(u64) -> bool {
    |x: u64| x != id
}

/// The audiences without a prompt.
pub open spec fn forgotten(a: Audience, id: u64) -> Audience {
    Audience { order: a.order.filter(others(id)), told: a.told.remove(id) }
}

impl PromptAudience {
    /// Nobody was told of anything.
    pub fn new() -> (r: PromptAudience)
        ensures
            audience_wf(r@),
            r@.order == Seq::<u64>::empty(),
            r@.told == Map::<u64, Set<u32>>::empty(),
    {
        broadcast use vstd::std_specs::hash::group_hash_axioms;

        let r = PromptAudience { by_prompt: HashMap::new(), order: VecDeque::new() };
        proof {
            assert(r@.told =~= Map::<u64, Set<u32>>::empty());
            assert(r@.order =~= Seq::<u64>::empty());
            assert(r@.order.to_set() =~= r@.told.dom());
        }
        r
    }

    /// How many prompts are remembered.
    pub fn len(&self) -> (r: usize)
        ensures
            r == self@.order.len(),
    {
        self.order.len()
    }

    /// Notes that `uid` was handed `prompt_id`.
    pub fn record(&mut self, prompt_id: u64, uid: u32)
        requires
            audience_wf(old(self)@),
        ensures
            audience_wf(final(self)@),
            final(self)@ == handed(old(self)@, prompt_id, uid),
    {
        broadcast use vstd::std_specs::hash::group_hash_axioms;

        let ghost before = self@;
        let removed = self.by_prompt.remove(&prompt_id);
        let first_sighting = removed.is_none();
        let mut uids: HashSet<u32> = match removed {
            Some(s) => s,
            None => HashSet::new(),
        };
        uids.insert(uid);
        self.by_prompt.insert(prompt_id, uids);
        proof {
            assert(uids@ =~= audience_of(before, prompt_id).insert(uid));
            assert(self@.told =~= before.told.insert(prompt_id, uids@));
        }
        if !first_sighting {
            proof {
                assert(before.told.dom() =~= self@.told.dom());
            }
            return;
        }
        self.order.push_back(prompt_id);
        proof {
            lemma_pushed(before, prompt_id, uids@);
        }
        if self.order.len() > AUDIENCE_CAP {
            let ghost mid = self@;
            if let Some(first) = self.order.pop_front() {
                self.by_prompt.remove(&first);
                proof {
                    assert(mid.order =~= before.order.push(prompt_id));
                    assert(first == before.order[0]);
                    assert(self@.order =~= mid.order.skip(1));
                    assert(self@.told =~= mid.told.remove(first));
                    lemma_popped(mid);
                }
            }
        }
        proof {
            assert(self@ == handed(before, prompt_id, uid));
        }
    }

    /// True when `uid` is entitled to answer `prompt_id`.
    pub fn allows(&self, prompt_id: u64, uid: u32) -> (r: bool)
        ensures
            r == audience_of(self@, prompt_id).contains(uid),
    {
        broadcast use vstd::std_specs::hash::group_hash_axioms;

        match self.by_prompt.get(&prompt_id) {
            Some(s) => s.contains(&uid),
            None => false,
        }
    }

    /// Drops the bookkeeping for a resolved prompt.
    pub fn forget(&mut self, prompt_id: u64)
        requires
            audience_wf(old(self)@),
        ensures
            audience_wf(final(self)@),
            final(self)@ == forgotten(old(self)@, prompt_id),
    {
        broadcast use vstd::std_specs::hash::group_hash_axioms;

        let ghost before = self@;
        let was_there = self.by_prompt.remove(&prompt_id).is_some();
        proof {
            assert(self@.told =~= before.told.remove(prompt_id));
        }
        if !was_there {
            proof {
                assert(!before.order.to_set().contains(prompt_id));
                lemma_filter_absent(before.order, prompt_id);
                assert(before.told.remove(prompt_id) =~= before.told);
            }
            return;
        }
        let mut i: usize = 0;
        let n: usize = self.order.len();
        while i < n && self.order[i] != prompt_id
            invariant
                i <= n,
                n == self.order@.len(),
                self.order@ == before.order,
                self@.told == before.told.remove(prompt_id),
                forall|k: int| 0 <= k < i ==> before.order[k] != prompt_id,
            decreases n - i,
        {
            i += 1;
        }
        if i < n {
            self.order.remove(i);
        }
        proof {
            assert(before.order.to_set().contains(prompt_id));
            assert(before.order.contains(prompt_id));
            assert(i < n);
            lemma_without(before, i as int);
        }
    }
}

proof fn lemma_pushed(a: Audience, id: u64, uids: Set<u32>)
    requires
        audience_wf(a),
        !a.told.contains_key(id),
    ensures
        a.order.push(id).no_duplicates(),
        a.order.push(id).to_set() == a.told.insert(id, uids).dom(),
{
    let o = a.order.push(id);
    assert(!a.order.to_set().contains(id));
    assert(!a.order.contains(id));
    assert forall|x: u64| #[trigger] o.to_set().contains(x) <==> a.told.insert(
        id,
        uids,
    ).dom().contains(x) by {
        if a.told.contains_key(x) {
            assert(a.order.to_set().contains(x));
            let k = choose|k: int| 0 <= k < a.order.len() && a.order[k] == x;
            assert(o[k] == x);
        }
        if x == id {
            assert(o[a.order.len() as int] == x);
        }
        if o.to_set().contains(x) {
            let k = choose|k: int| 0 <= k < o.len() && o[k] == x;
            if k < a.order.len() {
                assert(a.order[k] == x);
                assert(a.order.to_set().contains(x));
            }
        }
    }
    assert(o.to_set() =~= a.told.insert(id, uids).dom());
}

proof fn lemma_popped(a: Audience)
    requires
        a.order.no_duplicates(),
        a.order.to_set() == a.told.dom(),
        a.order.len() > 0,
    ensures
        a.order.skip(1).no_duplicates(),
        a.order.skip(1).to_set() == a.told.remove(a.order[0]).dom(),
{
    let rest = a.order.skip(1);
    assert forall|x: u64| #[trigger] rest.to_set().contains(x) <==> a.told.remove(
        a.order[0],
    ).dom().contains(x) by {
        if rest.to_set().contains(x) {
            let k = choose|k: int| 0 <= k < rest.len() && rest[k] == x;
            assert(a.order[k + 1] == x);
            assert(a.order.to_set().contains(x));
        }
        if a.told.contains_key(x) && x != a.order[0] {
            assert(a.order.to_set().contains(x));
            let k = choose|k: int| 0 <= k < a.order.len() && a.order[k] == x;
            assert(rest[k - 1] == x);
        }
    }
    assert(rest.to_set() =~= a.told.remove(a.order[0]).dom());
}

proof fn lemma_filter_absent(s: Seq<u64>, id: u64)
    requires
        !s.contains(id),
    ensures
        s.filter(others(id)) == s,
    decreases s.len(),
{
    reveal(Seq::filter);
    if s.len() > 0 {
        assert(s.last() != id);
        assert forall|k: int| 0 <= k < s.drop_last().len() implies s.drop_last()[k] != id by {
            assert(s[k] != id);
        }
        lemma_filter_absent(s.drop_last(), id);
        assert(s.drop_last().push(s.last()) =~= s);
    }
}

proof fn lemma_filter_one(s: Seq<u64>, i: int, id: u64)
    requires
        0 <= i < s.len(),
        s[i] == id,
        s.no_duplicates(),
    ensures
        s.filter(others(id)) == s.remove(i),
    decreases s.len(),
{
    reveal(Seq::filter);
    let front = s.drop_last();
    if i == s.len() - 1 {
        assert forall|k: int| 0 <= k < front.len() implies front[k] != id by {
            assert(s[k] != s[i]);
        }
        lemma_filter_absent(front, id);
        assert(s.remove(i) =~= front);
    } else {
        lemma_filter_one(front, i, id);
        assert(s.last() != id);
        assert(front.remove(i).push(s.last()) =~= s.remove(i));
    }
}

proof fn lemma_without(a: Audience, i: int)
    requires
        audience_wf(a),
        0 <= i < a.order.len(),
    ensures
        audience_wf(forgotten(a, a.order[i])),
        forgotten(a, a.order[i]).order == a.order.remove(i),
{
    let id = a.order[i];
    lemma_filter_one(a.order, i, id);
    let o = a.order.remove(i);
    assert forall|x: u64| #[trigger] o.to_set().contains(x) <==> a.told.remove(id).dom().contains(
        x,
    ) by {
        if o.to_set().contains(x) {
            let k = choose|k: int| 0 <= k < o.len() && o[k] == x;
            let m = if k < i {
                k
            } else {
                k + 1
            };
            assert(a.order[m] == x);
            assert(a.order.to_set().contains(x));
        }
        if a.told.remove(id).contains_key(x) {
            assert(a.order.to_set().contains(x));
            let k = choose|k: int| 0 <= k < a.order.len() && a.order[k] == x;
            let m = if k < i {
                k
            } else {
                k - 1
            };
            assert(o[m] == x);
        }
    }
    assert(o.to_set() =~= a.told.remove(id).dom());
}

/// The number of a prompt, as clients write it.
pub open spec fn prompt_number(s: Seq<char>) -> Option<u64> {
    match decimal_value(s, u64::MAX as nat) {
        Some(n) => Some(n as u64),
        None => None,
    }
}

pub(crate) fn parse_prompt_id(s: &str) -> (r: Option<u64>)
    ensures
        r == prompt_number(s@),
{
    let c: Vec<char> = chars_of(s);
    parse_decimal(c.as_slice(), u64::MAX)
}

/// The audiences after one event of the shared feed reached the stream of `uid`.
pub open spec fn offered(a: Audience, id: Seq<char>, owner: Option<u32>, uid: u32) -> Audience {
    match prompt_number(id) {
        Some(n) if entitled(owner, uid) => handed(a, n, uid),
        _ => a,
    }
}

impl PromptAudience {
    /// What the stream of `uid` does with one event of the shared feed: whether
    /// it hands the event over. It is recorded before that, so that the peer is
    /// entitled to answer by the time it can.
    pub fn deliver(&mut self, prompt_id: &str, owner_uid: Option<u32>, uid: u32) -> (r: bool)
        requires
            audience_wf(old(self)@),
        ensures
            audience_wf(final(self)@),
            r == entitled(owner_uid, uid),
            final(self)@ == offered(old(self)@, prompt_id@, owner_uid, uid),
    {
        if !should_deliver(owner_uid, uid) {
            return false;
        }
        if let Some(id) = parse_prompt_id(prompt_id) {
            self.record(id, uid);
        }
        true
    }
}

/// The state of the service that no other part of the daemon shares.
pub struct FirewallService {
    pub auth: SocketAuth,
    pub audience: PromptAudience,
    /// Wall-clock deadline of the current pause, 0 when not paused.
    pub resume_at_ms: i64,
    /// The length of a pause for which a client names none.
    pub pause_default_secs: u64,
    pub dry_run: bool,
}

/// A prompt's answer that passed every check, on its way to the flow.
#[derive(Debug)]
pub struct Submission {
    pub prompt_id: String,
    pub number: Option<u64>,
    pub verdict: Verdict,
    /// The rule to persist.
    pub rule: Option<Rule>,
}

pub const NOT_YOURS: &'static str = "this prompt was not delivered to you";

/// Whether this peer may answer this prompt.
pub open spec fn may_answer(a: Audience, p: PeerId, id: Seq<char>) -> bool {
    p.uid == 0 || (prompt_number(id) matches Some(n) && audience_of(a, n).contains(p.uid))
}

/// The rule that an answer asks for.
pub open spec fn prompt_rule(
    id: Seq<char>,
    scope: pb::WireScope,
    action: Action,
    duration: i32,
    fresh: u128,
    now: i64,
) -> Result<convert::Whole, Seq<char>> {
    match read_scope(scope) {
        Err(e) => Err(e),
        Ok(scope) => match read_duration(duration) {
            Err(e) => Err(e),
            Ok(Duration::Once) => Err(ONCE_RULE@),
            Ok(duration) => Ok(
                convert::Whole {
                    id: fresh,
                    created_at_unix_ms: now,
                    body: convert::RuleBody {
                        name: "user prompt "@ + id,
                        enabled: true,
                        action,
                        duration,
                        scope,
                        hit_count: 0,
                    },
                },
            ),
        },
    }
}

/// What a submission says.
pub ghost struct Answer {
    pub prompt_id: Seq<char>,
    pub number: Option<u64>,
    pub verdict: Verdict,
    pub rule: Option<convert::Whole>,
}

/// The engine once storage has kept a rule, or has failed to.
pub open spec fn taken_in(before: Engine, after: Engine, rule: Rule, stored: bool) -> bool {
    if stored {
        &&& after.wf()
        &&& after.rules().to_multiset() == crate::decision::upserted(
            before.rules(),
            rule,
        ).to_multiset()
        &&& after.policy() == before.policy()
        &&& after.hits() == before.hits()
        &&& after.notices() == one_more(before.notices())
    } else {
        after == before
    }
}

/// The engine once storage has dropped a rule, or has not.
pub open spec fn taken_out(before: Engine, after: Engine, id: u128, deleted: bool) -> bool {
    if deleted {
        &&& after.rules() == crate::decision::without(before.rules(), id)
        &&& after.policy() == before.policy()
        &&& after.hits() == before.hits()
        &&& after.notices() == one_more(before.notices())
    } else {
        &&& after.rules() == before.rules()
        &&& after.policy() == before.policy()
        &&& after.hits() == before.hits()
        &&& after.notices() == before.notices()
    }
}

/// Whether `v` shows how the daemon stands.
pub open spec fn shows_status(
    s: FirewallService,
    policy: DefaultPolicy,
    stats: Stats,
    v: pb::StatusResponse,
) -> bool {
    &&& v.prompts_pending == stats.prompts_pending
    &&& v.connections_seen as int == (stats.allowed + stats.denied) % 0x1_0000_0000_0000_0000
    &&& v.connections_allowed == stats.allowed
    &&& v.connections_denied == stats.denied
    &&& v.paused == stats.paused
    &&& v.resume_at_unix_ms == (if stats.paused {
        s.resume_at_ms
    } else {
        0
    })
    &&& v.timeout_action == convert::wire_action(policy.timeout_action).spec_number()
    &&& v.no_ui_action == convert::wire_action(policy.no_ui_action).spec_number()
    &&& v.prompt_timeout_secs == policy.prompt_timeout_secs
    &&& v.enforcing == claims_enforcing(s.dry_run, v.connections_seen, v.uptime_seconds)
}

impl Submission {
    /// What it says.
    pub open spec fn says(&self) -> Answer {
        Answer {
            prompt_id: self.prompt_id@,
            number: self.number,
            verdict: self.verdict,
            rule: match self.rule {
                Some(r) => Some(convert::whole(r)),
                None => None,
            },
        }
    }
}

/// What an answer to a prompt comes to, or the refusal. Who may answer is
/// settled before anything else in the request is looked at.
pub open spec fn answer(
    auth: SocketAuth,
    a: Audience,
    creds: Credentials,
    req: &pb::VerdictRequest,
    fresh: u128,
    now: i64,
) -> Result<Answer, (Code, Seq<char>)> {
    match authorized(auth, creds, Access::Mutate) {
        Err(e) => Err(e),
        Ok(p) => if !may_answer(a, p, req.prompt_id@) {
            Err((Code::PermissionDenied, NOT_YOURS@))
        } else {
            match read_action(req.action) {
                Err(e) => Err((Code::InvalidArgument, e)),
                Ok(action) => {
                    let verdict = Verdict { action, source: VerdictSource::UserPrompt };
                    let number = prompt_number(req.prompt_id@);
                    match req.persist_scope {
                        None => Ok(
                            Answer { prompt_id: req.prompt_id@, number, verdict, rule: None },
                        ),
                        Some(s) => match prompt_rule(
                            req.prompt_id@,
                            s@,
                            action,
                            req.duration,
                            fresh,
                            now,
                        ) {
                            Err(e) => Err((Code::InvalidArgument, e)),
                            Ok(r) => Ok(
                                Answer {
                                    prompt_id: req.prompt_id@,
                                    number,
                                    verdict,
                                    rule: Some(r),
                                },
                            ),
                        },
                    }
                },
            }
        },
    }
}

/// Whether a submission is the answer a specification gives.
pub open spec fn submits(
    r: Result<Submission, Status>,
    s: Result<Answer, (Code, Seq<char>)>,
) -> bool {
    match (r, s) {
        (Ok(a), Ok(b)) => a.says() == b,
        (Err(e), Err(f)) => e.says() == f,
        _ => false,
    }
}

fn rule_for_prompt(
    prompt_id: &String,
    scope: &pb::RuleScope,
    action: Action,
    duration: i32,
    fresh: u128,
    now_unix_ms: i64,
) -> (r: Result<Rule, String>)
    ensures
        match prompt_rule(prompt_id@, scope@, action, duration, fresh, now_unix_ms) {
            Err(e) => r matches Err(m) && m@ == e,
            Ok(w) => r matches Ok(v) && convert::whole(v) == w,
        },
{
    let scope = match convert::scope_from_pb(scope) {
        Ok(s) => s,
        Err(e) => {
            return Err(e);
        },
    };
    let duration = match convert::duration_from_pb(duration) {
        Ok(d) => d,
        Err(e) => {
            return Err(e);
        },
    };
    if let Err(e) = convert::reject_unpersistable_duration(duration) {
        return Err(e);
    }
    let mut name = text("user prompt ");
    name.append(prompt_id.as_str());
    Ok(
        Rule {
            id: fresh,
            name,
            enabled: true,
            action,
            duration,
            scope,
            created_at_unix_ms: now_unix_ms,
            hit_count: 0,
        },
    )
}

/// The message for an answer that came too late or to no prompt.
pub open spec fn no_such_prompt(id: Seq<char>) -> Seq<char> {
    "no pending prompt with id "@ + id
}

impl Submission {
    /// Takes the rule into the engine once it is stored; a rule that could not
    /// be stored is dropped. Returns the id of the rule that now stands.
    pub fn adopt(&mut self, engine: &mut Engine, stored: bool) -> (r: Option<u128>)
        ensures
            final(self).rule is None,
            final(self).prompt_id == old(self).prompt_id,
            final(self).number == old(self).number,
            final(self).verdict == old(self).verdict,
            match old(self).rule {
                Some(rule) if stored => {
                    &&& r == Some(rule.id)
                    &&& final(engine).wf()
                    &&& final(engine).rules().to_multiset() == crate::decision::upserted(
                        old(engine).rules(),
                        rule,
                    ).to_multiset()
                    &&& final(engine).policy() == old(engine).policy()
                    &&& final(engine).hits() == old(engine).hits()
                    &&& final(engine).notices() == one_more(old(engine).notices())
                },
                _ => r is None && *final(engine) == *old(engine),
            },
            old(self).rule matches Some(rule) ==> taken_in(*old(engine), *final(engine), rule, stored),
    {
        let rule = self.rule.take();
        match rule {
            Some(rule) => {
                if stored {
                    let id: u128 = rule.id;
                    engine.upsert_rule(rule);
                    Some(id)
                } else {
                    None
                }
            },
            None => None,
        }
    }
}

impl FirewallService {
    /// A service on a socket that was secured to this extent.
    pub fn new(opts: &IpcOptions, auth: SocketAuth) -> (r: FirewallService)
        ensures
            r.auth == auth,
            audience_wf(r.audience@),
            r.audience@.order.len() == 0,
            r.resume_at_ms == 0,
            r.pause_default_secs == opts.pause_default_secs,
            r.dry_run == opts.dry_run,
    {
        FirewallService {
            auth,
            audience: PromptAudience::new(),
            resume_at_ms: 0,
            pause_default_secs: opts.pause_default_secs,
            dry_run: opts.dry_run,
        }
    }

    /// Checks an answer to a prompt and says what it comes to, with an id and
    /// a time for the rule it may ask for.
    pub fn submit_verdict_at(
        &self,
        creds: Credentials,
        req: &pb::VerdictRequest,
        fresh: u128,
        now_unix_ms: i64,
    ) -> (r: Result<Submission, Status>)
        ensures
            submits(r, answer(self.auth, self.audience@, creds, req, fresh, now_unix_ms)),
    {
        let p = match self.auth.authorize(creds, Access::Mutate) {
            Ok(p) => p,
            Err(e) => {
                return Err(e);
            },
        };
        let number: Option<u64> = parse_prompt_id(req.prompt_id.as_str());
        if p.uid != 0 {
            let owned = match number {
                Some(id) => self.audience.allows(id, p.uid),
                None => false,
            };
            if !owned {
                return Err(Status::of(Code::PermissionDenied, text(NOT_YOURS)));
            }
        }
        let action = match convert::action_from_pb(req.action) {
            Ok(a) => a,
            Err(e) => {
                return Err(Status::of(Code::InvalidArgument, e));
            },
        };
        let rule = match &req.persist_scope {
            None => None,
            Some(scope) => match rule_for_prompt(
                &req.prompt_id,
                scope,
                action,
                req.duration,
                fresh,
                now_unix_ms,
            ) {
                Ok(r) => Some(r),
                Err(e) => {
                    return Err(Status::of(Code::InvalidArgument, e));
                },
            },
        };
        Ok(
            Submission {
                prompt_id: req.prompt_id.clone(),
                number,
                verdict: Verdict { action, source: VerdictSource::UserPrompt },
                rule,
            },
        )
    }

    /// Checks an answer to a prompt and says what it comes to. A rule it asks
    /// for gets a random id.
    pub fn submit_verdict(
        &self,
        creds: Credentials,
        req: &pb::VerdictRequest,
        now_unix_ms: i64,
    ) -> (r: Result<Submission, Status>)
        ensures
            exists|fresh: u128|
                is_random_id(fresh) && submits(
                    r,
                    #[trigger] answer(
                        self.auth,
                        self.audience@,
                        creds,
                        req,
                        fresh,
                        now_unix_ms,
                    ),
                ),
    {
        self.submit_verdict_at(creds, req, fresh_uuid(), now_unix_ms)
    }

    /// Closes the books on a prompt after its verdict was handed on, and
    /// answers the client.
    pub fn finish_verdict(&mut self, sub: &Submission, accepted: bool) -> (r: pb::VerdictResponse)
        requires
            audience_wf(old(self).audience@),
        ensures
            audience_wf(final(self).audience@),
            final(self).audience@ == (match sub.number {
                Some(id) => forgotten(old(self).audience@, id),
                None => old(self).audience@,
            }),
            final(self).auth == old(self).auth,
            final(self).resume_at_ms == old(self).resume_at_ms,
            final(self).pause_default_secs == old(self).pause_default_secs,
            final(self).dry_run == old(self).dry_run,
            r.accepted == accepted,
            r.error@ == (if accepted {
                ""@
            } else {
                no_such_prompt(sub.prompt_id@)
            }),
    {
        if let Some(id) = sub.number {
            self.audience.forget(id);
        }
        let error = if accepted {
            text("")
        } else {
            let mut m = text("no pending prompt with id ");
            m.append(sub.prompt_id.as_str());
            m
        };
        pb::VerdictResponse { accepted, error }
    }
}

/// What the client effectively asked for, before clamping.
pub open spec fn requested_secs(duration_secs: u32, default_secs: u64) -> u64 {
    if duration_secs == 0 {
        default_secs
    } else {
        duration_secs as u64
    }
}

/// What the client effectively asked for, before clamping: an explicit
/// `duration_secs`, or the daemon default when it sent 0.
pub fn requested_pause_secs(duration_secs: u32, default_secs: u64) -> (r: u64)
    ensures
        r == requested_secs(duration_secs, default_secs),
{
    if duration_secs == 0 {
        default_secs
    } else {
        duration_secs as u64
    }
}

/// The effective length of a pause.
pub open spec fn pause_secs(duration_secs: u32, default_secs: u64) -> u64 {
    let n = requested_secs(duration_secs, default_secs);
    if n < 1 {
        1
    } else if n > MAX_PAUSE_SECS {
        MAX_PAUSE_SECS
    } else {
        n
    }
}

/// Effective pause length. 0 means "daemon default"; a zero or absurd default
/// is clamped into `1..=MAX_PAUSE_SECS` so a pause always ends.
pub fn resolve_pause_secs(duration_secs: u32, default_secs: u64) -> (r: u64)
    ensures
        r == pause_secs(duration_secs, default_secs),
{
    let n: u64 = requested_pause_secs(duration_secs, default_secs);
    if n < 1 {
        1
    } else if n > MAX_PAUSE_SECS {
        MAX_PAUSE_SECS
    } else {
        n
    }
}

/// Whether the daemon claims to be in the packet path.
pub open spec fn claims_enforcing(dry_run: bool, packets_seen: u64, uptime_secs: u64) -> bool {
    !dry_run && (packets_seen > 0 || uptime_secs <= ENFORCING_GRACE_SECS)
}

/// Best-effort "are we actually in the packet path?". A dry run never is.
/// Otherwise, seeing no packet at all after the grace period almost always
/// means that the rule that feeds the queue is not loaded.
pub fn enforcing_heuristic(dry_run: bool, packets_seen: u64, uptime_secs: u64) -> (r: bool)
    ensures
        r == claims_enforcing(dry_run, packets_seen, uptime_secs),
{
    if dry_run {
        return false;
    }
    packets_seen > 0 || uptime_secs <= ENFORCING_GRACE_SECS
}

/// What a query of the event log asks for.
pub ghost struct EventQuery {
    pub limit: u32,
    pub offset: u32,
    pub exe_contains: Option<Seq<char>>,
    pub action: Option<Seq<char>>,
    pub since_ts_unix_ms: Option<i64>,
}

/// What a query of the event log asks for.
pub open spec fn query_of(q: (u32, u32, EventFilter)) -> EventQuery {
    EventQuery {
        limit: q.0,
        offset: q.1,
        exe_contains: text_of(q.2.exe_contains),
        action: text_of(q.2.action),
        since_ts_unix_ms: q.2.since_ts_unix_ms,
    }
}

/// The page size a request gets.
pub open spec fn page(limit: u32) -> u32 {
    if limit == 0 {
        DEFAULT_EVENT_PAGE
    } else if limit > MAX_EVENT_PAGE {
        MAX_EVENT_PAGE
    } else {
        limit
    }
}

/// The query a request stands for, or what is wrong with it.
pub open spec fn read_query(req: &pb::ListEventsRequest) -> Result<EventQuery, Seq<char>> {
    if req.action_filter != 0 && read_action(req.action_filter) is Err {
        Err(read_action(req.action_filter)->Err_0)
    } else {
        Ok(
            EventQuery {
                limit: page(req.limit),
                offset: req.offset,
                exe_contains: none_if_empty(req.exe_contains@),
                action: if req.action_filter == 0 {
                    None
                } else {
                    Some(action_word(read_action(req.action_filter)->Ok_0))
                },
                since_ts_unix_ms: if req.since_unix_ms > 0 {
                    Some(req.since_unix_ms)
                } else {
                    None
                },
            },
        )
    }
}

/// Maps a request onto the storage query. Rejects an unrecognised action filter
/// rather than silently ignoring it.
pub fn event_query_from_pb(req: &pb::ListEventsRequest) -> (r: Result<
    (u32, u32, EventFilter),
    String,
>)
    ensures
        match read_query(req) {
            Ok(q) => r matches Ok(v) && query_of(v) == q,
            Err(e) => r matches Err(m) && m@ == e,
        },
{
    let limit: u32 = if req.limit == 0 {
        DEFAULT_EVENT_PAGE
    } else if req.limit > MAX_EVENT_PAGE {
        MAX_EVENT_PAGE
    } else {
        req.limit
    };
    let action = if req.action_filter == pb::Action::Unspecified.number() {
        None
    } else {
        match convert::action_from_pb(req.action_filter) {
            Ok(a) => Some(text(convert::action_db_str(a))),
            Err(e) => {
                return Err(e);
            },
        }
    };
    let exe_contains = if req.exe_contains.as_str().is_empty() {
        None
    } else {
        Some(req.exe_contains.clone())
    };
    let since_ts_unix_ms: Option<i64> = if req.since_unix_ms > 0 {
        Some(req.since_unix_ms)
    } else {
        None
    };
    Ok((limit, req.offset, EventFilter { exe_contains, action, since_ts_unix_ms }))
}

/// The timer that ends a pause.
#[derive(Debug, Clone, Copy, PartialEq, Eq, Structural)]
pub struct PauseTimer {
    pub secs: u64,
    /// The pause that the timer ends, and no other.
    pub generation: u64,
    /// The client asked for a longer pause than it got.
    pub clamped: bool,
}

/// The pause switch and its deadline.
pub ghost struct PauseState {
    pub stats: Stats,
    pub resume_at_ms: i64,
}

/// The pause state after a client set the switch at `now`.
pub open spec fn set_pause(s: PauseState, paused: bool, secs: u64, now: int) -> PauseState {
    PauseState {
        stats: switched(s.stats, paused),
        resume_at_ms: if paused {
            (now + secs * 1000) as i64
        } else {
            0
        },
    }
}

/// The pause state after the timer of a pause fired.
pub open spec fn timer_fired(s: PauseState, generation: u64) -> PauseState {
    if s.stats.generation == generation && s.stats.paused {
        PauseState { stats: switched(s.stats, false), resume_at_ms: 0 }
    } else {
        s
    }
}

impl FirewallService {
    /// Everything but the pause deadline is the same.
    pub open spec fn same_but_deadline(&self, o: &FirewallService) -> bool {
        &&& self.auth == o.auth
        &&& self.audience == o.audience
        &&& self.pause_default_secs == o.pause_default_secs
        &&& self.dry_run == o.dry_run
    }

    /// Pauses or resumes filtering. A pause comes with the timer that ends it.
    pub fn set_paused(
        &mut self,
        stats: &mut Stats,
        creds: Credentials,
        msg: &pb::SetPausedRequest,
        now_unix_ms: i64,
    ) -> (r: Result<(pb::SetPausedResponse, Option<PauseTimer>), Status>)
        requires
            now_unix_ms <= i64::MAX - MAX_PAUSE_SECS * 1000,
        ensures
            final(self).same_but_deadline(&*old(self)),
            match authorized(old(self).auth, creds, Access::Mutate) {
                Err(e) => {
                    &&& r matches Err(s) && s.says() == e
                    &&& *final(stats) == *old(stats)
                    &&& final(self).resume_at_ms == old(self).resume_at_ms
                },
                Ok(_) => {
                    let secs = pause_secs(msg.duration_secs, old(self).pause_default_secs);
                    &&& (PauseState { stats: *final(stats), resume_at_ms: final(self).resume_at_ms })
                        == set_pause(
                        PauseState { stats: *old(stats), resume_at_ms: old(self).resume_at_ms },
                        msg.paused,
                        secs,
                        now_unix_ms as int,
                    )
                    &&& r matches Ok((resp, timer)) && resp.paused == msg.paused
                        && resp.resume_at_unix_ms == final(self).resume_at_ms && timer == (
                    if msg.paused {
                        Some(
                            PauseTimer {
                                secs,
                                generation: final(stats).generation,
                                clamped: requested_secs(
                                    msg.duration_secs,
                                    old(self).pause_default_secs,
                                ) > secs,
                            },
                        )
                    } else {
                        None
                    })
                },
            },
    {
        if let Err(e) = self.auth.authorize(creds, Access::Mutate) {
            return Err(e);
        }
        if !msg.paused {
            stats.set_paused(false);
            self.resume_at_ms = 0;
            return Ok((pb::SetPausedResponse { paused: false, resume_at_unix_ms: 0 }, None));
        }
        let requested: u64 = requested_pause_secs(msg.duration_secs, self.pause_default_secs);
        let secs: u64 = resolve_pause_secs(msg.duration_secs, self.pause_default_secs);
        let resume_at: i64 = now_unix_ms + (secs as i64) * 1000;
        let generation: u64 = stats.set_paused(true);
        self.resume_at_ms = resume_at;
        Ok(
            (
                pb::SetPausedResponse { paused: true, resume_at_unix_ms: resume_at },
                Some(PauseTimer { secs, generation, clamped: requested > secs }),
            ),
        )
    }

    /// The timer of a pause fired: filtering resumes unless the switch was set
    /// again since. Returns whether it resumed.
    pub fn pause_expired(&mut self, stats: &mut Stats, generation: u64) -> (r: bool)
        ensures
            final(self).same_but_deadline(&*old(self)),
            (PauseState { stats: *final(stats), resume_at_ms: final(self).resume_at_ms })
                == timer_fired(
                PauseState { stats: *old(stats), resume_at_ms: old(self).resume_at_ms },
                generation,
            ),
            r == (old(stats).generation == generation && old(stats).paused),
    {
        if stats.pause_generation() == generation && stats.is_paused() {
            stats.set_paused(false);
            self.resume_at_ms = 0;
            true
        } else {
            false
        }
    }

    /// The rules, with their counts, as clients see them.
    pub fn list_rules(&self, creds: Credentials, engine: &Engine) -> (r: Result<
        Vec<pb::RuleInfo>,
        Status,
    >)
        ensures
            match authorized(self.auth, creds, Access::ReadOnly) {
                Err(e) => r matches Err(s) && s.says() == e,
                Ok(_) => r matches Ok(v) && lists(
                    v@,
                    crate::decision::reported(engine.rules(), engine.hits()),
                ),
            },
    {
        if let Err(e) = self.auth.authorize(creds, Access::ReadOnly) {
            return Err(e);
        }
        let rules = engine.snapshot();
        let mut out: Vec<pb::RuleInfo> = Vec::new();
        let mut i: usize = 0;
        while i < rules.len()
            invariant
                i <= rules@.len(),
                out@.len() == i,
                forall|k: int| 0 <= k < i ==> written(rules@[k], #[trigger] out@[k]),
            decreases rules@.len() - i,
        {
            out.push(convert::rule_to_pb(&rules[i]));
            i += 1;
        }
        Ok(out)
    }

    /// Checks a rule that a client wants to stand, with an id and a time for
    /// one that brings none. A rule that replaces another keeps the count and
    /// the creation time of that one.
    pub fn upsert_rule_at(
        &self,
        creds: Credentials,
        engine: &Engine,
        rule: &Option<pb::RuleInfo>,
        fresh: u128,
        now_unix_ms: i64,
    ) -> (r: Result<Rule, Status>)
        ensures
            upserts(r, candidate(self.auth, creds, engine.rules(), rule, fresh, now_unix_ms)),
    {
        if let Err(e) = self.auth.authorize(creds, Access::Mutate) {
            return Err(e);
        }
        let msg = match rule {
            Some(m) => m,
            None => {
                return Err(Status::of(Code::InvalidArgument, text(RULE_REQUIRED)));
            },
        };
        let mut rule = match convert::rule_from_pb_at(msg, fresh, now_unix_ms) {
            Ok(v) => v,
            Err(e) => {
                return Err(Status::of(Code::InvalidArgument, e));
            },
        };
        if let Err(e) = convert::reject_unpersistable_duration(rule.duration) {
            return Err(Status::of(Code::InvalidArgument, e));
        }
        engine.preserve_server_owned(&mut rule);
        Ok(rule)
    }

    /// Checks a rule that a client wants to stand. One without an id gets a
    /// random one.
    pub fn upsert_rule(
        &self,
        creds: Credentials,
        engine: &Engine,
        rule: &Option<pb::RuleInfo>,
        now_unix_ms: i64,
    ) -> (r: Result<Rule, Status>)
        ensures
            exists|fresh: u128|
                is_random_id(fresh) && upserts(
                    r,
                    #[trigger] candidate(
                        self.auth,
                        creds,
                        engine.rules(),
                        rule,
                        fresh,
                        now_unix_ms,
                    ),
                ),
    {
        self.upsert_rule_at(creds, engine, rule, fresh_uuid(), now_unix_ms)
    }

    /// The id a client wants deleted.
    pub fn delete_rule(&self, creds: Credentials, id: &str) -> (r: Result<u128, Status>)
        ensures
            match authorized(self.auth, creds, Access::Mutate) {
                Err(e) => r matches Err(s) && s.says() == e,
                Ok(_) => match parsed_uuid(id@) {
                    Ok(u) => r == Ok::<u128, Status>(u),
                    Err(e) => r matches Err(s) && s.says() == (
                        Code::InvalidArgument,
                        "bad uuid: "@ + e,
                    ),
                },
            },
    {
        if let Err(e) = self.auth.authorize(creds, Access::Mutate) {
            return Err(e);
        }
        match parse_uuid(id) {
            Ok(u) => Ok(u),
            Err(e) => {
                let mut m = text("bad uuid: ");
                m.append(e.as_str());
                Err(Status::of(Code::InvalidArgument, m))
            },
        }
    }

    /// How the daemon is doing.
    pub fn get_status(
        &self,
        creds: Credentials,
        engine: &Engine,
        policy: &DefaultPolicy,
        stats: &Stats,
        uptime_seconds: u64,
        skipped_rules: u64,
        version: &str,
    ) -> (r: Result<pb::StatusResponse, Status>)
        ensures
            match authorized(self.auth, creds, Access::ReadOnly) {
                Err(e) => r matches Err(s) && s.says() == e,
                Ok(_) => r matches Ok(v) && {
                    &&& v.version@ == version@
                    &&& v.uptime_seconds == uptime_seconds
                    &&& v.rules_count == engine.rules().len()
                    &&& v.prompts_pending == stats.prompts_pending
                    &&& v.connections_seen as int == (stats.allowed + stats.denied)
                        % 0x1_0000_0000_0000_0000
                    &&& v.connections_allowed == stats.allowed
                    &&& v.connections_denied == stats.denied
                    &&& v.paused == stats.paused
                    &&& v.resume_at_unix_ms == (if stats.paused {
                        self.resume_at_ms
                    } else {
                        0
                    })
                    &&& v.timeout_action == convert::wire_action(
                        policy.timeout_action,
                    ).spec_number()
                    &&& v.no_ui_action == convert::wire_action(policy.no_ui_action).spec_number()
                    &&& v.prompt_timeout_secs == policy.prompt_timeout_secs
                    &&& v.skipped_rules == skipped_rules
                    &&& v.enforcing == claims_enforcing(
                        self.dry_run,
                        v.connections_seen,
                        uptime_seconds,
                    )
                },
            },
            r matches Ok(v) ==> shows_status(*self, *policy, *stats, v),
    {
        if let Err(e) = self.auth.authorize(creds, Access::ReadOnly) {
            return Err(e);
        }
        let connections_seen: u64 = stats.connections_total();
        Ok(
            pb::StatusResponse {
                version: text(version),
                uptime_seconds,
                rules_count: engine.rule_count() as u64,
                prompts_pending: stats.prompts_pending,
                connections_seen,
                connections_allowed: stats.connections_allowed(),
                connections_denied: stats.connections_denied(),
                paused: stats.is_paused(),
                resume_at_unix_ms: if stats.is_paused() {
                    self.resume_at_ms
                } else {
                    0
                },
                timeout_action: convert::action_to_pb(policy.timeout_action).number(),
                no_ui_action: convert::action_to_pb(policy.no_ui_action).number(),
                prompt_timeout_secs: policy.prompt_timeout_secs,
                skipped_rules,
                enforcing: enforcing_heuristic(self.dry_run, connections_seen, uptime_seconds),
            },
        )
    }

    /// The storage query a client's request stands for.
    pub fn list_events(&self, creds: Credentials, req: &pb::ListEventsRequest) -> (r: Result<
        (u32, u32, EventFilter),
        Status,
    >)
        ensures
            match authorized(self.auth, creds, Access::ReadOnly) {
                Err(e) => r matches Err(s) && s.says() == e,
                Ok(_) => match read_query(req) {
                    Ok(q) => r matches Ok(v) && query_of(v) == q,
                    Err(e) => r matches Err(s) && s.says() == (Code::InvalidArgument, e),
                },
            },
    {
        if let Err(e) = self.auth.authorize(creds, Access::ReadOnly) {
            return Err(e);
        }
        match event_query_from_pb(req) {
            Ok(q) => Ok(q),
            Err(e) => Err(Status::of(Code::InvalidArgument, e)),
        }
    }
}

/// Whether messages are the ones these rules are written as.
pub open spec fn lists(v: Seq<pb::RuleInfo>, rules: Seq<Rule>) -> bool {
    v.len() == rules.len() && forall|k: int|
        0 <= k < rules.len() ==> written(rules[k], #[trigger] v[k])
}

pub const RULE_REQUIRED: &'static str = "rule required";

/// A rule with the fields the daemon owns taken from the rule it replaces.
pub open spec fn with_server_owned(rules: Seq<Rule>, w: convert::Whole) -> convert::Whole {
    match crate::decision::position(rules, w.id, 0) {
        Some(i) => convert::Whole {
            created_at_unix_ms: rules[i].created_at_unix_ms,
            body: convert::RuleBody { hit_count: rules[i].hit_count, ..w.body },
            ..w
        },
        None => w,
    }
}

/// The rule a request wants to stand, or the refusal.
pub open spec fn candidate(
    auth: SocketAuth,
    creds: Credentials,
    rules: Seq<Rule>,
    msg: &Option<pb::RuleInfo>,
    fresh: u128,
    now: i64,
) -> Result<convert::Whole, (Code, Seq<char>)> {
    match authorized(auth, creds, Access::Mutate) {
        Err(e) => Err(e),
        Ok(_) => match *msg {
            None => Err((Code::InvalidArgument, RULE_REQUIRED@)),
            Some(m) => match convert::read_rule(&m, fresh, now) {
                Err(e) => Err((Code::InvalidArgument, e)),
                Ok(w) => if w.body.duration == Duration::Once {
                    Err((Code::InvalidArgument, ONCE_RULE@))
                } else {
                    Ok(with_server_owned(rules, w))
                },
            },
        },
    }
}

/// Whether a rule is the candidate a specification gives.
pub open spec fn upserts(
    r: Result<Rule, Status>,
    s: Result<convert::Whole, (Code, Seq<char>)>,
) -> bool {
    match (r, s) {
        (Ok(a), Ok(b)) => convert::whole(a) == b,
        (Err(e), Err(f)) => e.says() == f,
        _ => false,
    }
}

/// What storage said, as a client sees it.
pub open spec fn storage_fault(e: Seq<char>) -> (Code, Seq<char>) {
    (Code::Internal, "storage: "@ + e)
}

/// The answer for a request that storage failed.
pub fn storage_error(e: &str) -> (r: Status)
    ensures
        r.says() == storage_fault(e@),
{
    let mut m = text("storage: ");
    m.append(e);
    Status::of(Code::Internal, m)
}

/// Takes a rule into the engine once it is stored, and answers with its id; a
/// rule that could not be stored does not take effect.
pub fn finish_upsert(engine: &mut Engine, rule: Rule, stored: &Result<(), String>) -> (r: Result<
    String,
    Status,
>)
    ensures
        match *stored {
            Ok(_) => {
                &&& r matches Ok(id) && id@ == uuid_text(rule.id)
                &&& final(engine).wf()
                &&& final(engine).rules().to_multiset() == crate::decision::upserted(
                    old(engine).rules(),
                    rule,
                ).to_multiset()
                &&& final(engine).policy() == old(engine).policy()
                &&& final(engine).hits() == old(engine).hits()
                &&& final(engine).notices() == one_more(old(engine).notices())
            },
            Err(e) => {
                &&& r matches Err(s) && s.says() == storage_fault(e@)
                &&& *final(engine) == *old(engine)
            },
        },
        taken_in(*old(engine), *final(engine), rule, *stored is Ok),
{
    if let Err(e) = stored {
        return Err(storage_error(e.as_str()));
    }
    let id = uuid_string(rule.id);
    engine.upsert_rule(rule);
    Ok(id)
}

/// Takes a rule out of the engine once storage has deleted it. Returns whether
/// there was one.
pub fn finish_delete(engine: &mut Engine, id: u128, deleted: &Result<bool, String>) -> (r: Result<
    bool,
    Status,
>)
    ensures
        match *deleted {
            Ok(d) => {
                &&& r == Ok::<bool, Status>(d)
                &&& final(engine).rules() == (if d {
                    crate::decision::without(old(engine).rules(), id)
                } else {
                    old(engine).rules()
                })
                &&& final(engine).policy() == old(engine).policy()
                &&& final(engine).hits() == old(engine).hits()
                &&& final(engine).notices() == (if d {
                    one_more(old(engine).notices())
                } else {
                    old(engine).notices()
                })
            },
            Err(e) => {
                &&& r matches Err(s) && s.says() == storage_fault(e@)
                &&& *final(engine) == *old(engine)
            },
        },
        old(engine).wf() ==> final(engine).wf(),
        taken_out(*old(engine), *final(engine), id, *deleted == Ok::<bool, String>(true)),
{
    match deleted {
        Ok(d) => {
            if *d {
                engine.remove_rule(id);
            }
            Ok(*d)
        },
        Err(e) => Err(storage_error(e.as_str())),
    }
}

/// One page of the event log as clients see it.
pub fn event_page(rows: &Vec<EventRow>) -> (r: pb::ListEventsResponse)
    ensures
        r.total_returned == rows@.len(),
        r.events@.len() == rows@.len(),
        forall|k: int|
            0 <= k < rows@.len() ==> convert::renders(rows@[k], #[trigger] r.events@[k]),
{
    let mut events: Vec<pb::Event> = Vec::new();
    let mut i: usize = 0;
    while i < rows.len()
        invariant
            i <= rows@.len(),
            events@.len() == i,
            forall|k: int| 0 <= k < i ==> convert::renders(rows@[k], #[trigger] events@[k]),
        decreases rows@.len() - i,
    {
        events.push(convert::event_row_to_pb(&rows[i]));
        i += 1;
    }
    let total_returned: u64 = events.len() as u64;
    pb::ListEventsResponse { events, total_returned }
}

/// Whether `r` shows a flow, the process that made it and what was decided.
pub open spec fn feeds(c: Connection, p: Process, v: Verdict, r: pb::ConnectionEvent) -> bool {
    &&& convert::shows_connection(c, r.connection)
    &&& convert::shows_process(p, r.process)
    &&& r.verdict == convert::wire_action(v.action).spec_number()
    &&& r.rule_id@ == convert::or_empty(convert::rule_text(v.source))
}

/// One decided flow on the live feed.
pub fn connection_event(conn: &Connection, proc: &Process, verdict: &Verdict) -> (r:
    pb::ConnectionEvent)
    ensures
        convert::shows_connection(*conn, r.connection),
        convert::shows_process(*proc, r.process),
        r.verdict == convert::wire_action(verdict.action).spec_number(),
        r.rule_id@ == convert::or_empty(convert::rule_text(verdict.source)),
        feeds(*conn, *proc, *verdict, r),
{
    let rule_id = match convert::rule_id_string(&verdict.source) {
        Some(s) => s,
        None => text(""),
    };
    proof {
        reveal_strlit("");
        assert(""@ =~= Seq::<char>::empty());
    }
    pb::ConnectionEvent {
        connection: convert::connection_to_pb(conn),
        process: convert::process_to_pb(proc),
        verdict: convert::verdict_to_pb_action(verdict).number(),
        rule_id,
    }
}

/// The mode of a socket that only its group may use.
pub const GROUP_MODE: u32 = 0o660;

/// The mode of a socket that only root may use.
pub const ROOT_MODE: u32 = 0o600;

/// The group that the socket is given to: the one that was found. A group that
/// does not exist, and a failed lookup, leave the socket to root.
pub fn socket_group(lookup: &Result<Option<u32>, String>) -> (r: Option<u32>)
    ensures
        r == (match *lookup {
            Ok(g) => g,
            Err(_) => None,
        }),
{
    match lookup {
        Ok(g) => *g,
        Err(_) => None,
    }
}

/// The mode of the socket, which is set after its owner so that the socket is
/// never open to the wrong group.
pub fn socket_mode(chowned: bool) -> (r: u32)
    ensures
        r == (if chowned {
            GROUP_MODE
        } else {
            ROOT_MODE
        }),
        chowned <==> r == 0o660,
        !chowned <==> r == 0o600,
{
    if chowned {
        GROUP_MODE
    } else {
        ROOT_MODE
    }
}

/// Whether `r` is what securing the socket came to.
pub open spec fn secured(ipc: IpcConfig, chowned: bool, chmodded: bool, r: SocketAuth) -> bool {
    &&& r.group@ == ipc.group@
    &&& r.require_group == ipc.require_group
    &&& r.group_gated == (chowned && chmodded)
}

/// What securing the socket came to. The kernel gates access only if both the
/// owner and the mode were set.
pub fn socket_auth(ipc: &IpcConfig, chowned: bool, chmodded: bool) -> (r: SocketAuth)
    ensures
        r.group@ == ipc.group@,
        r.require_group == ipc.require_group,
        r.group_gated == (chowned && chmodded),
        secured(*ipc, chowned, chmodded, r),
{
    SocketAuth {
        group: ipc.group.clone(),
        group_gated: chowned && chmodded,
        require_group: ipc.require_group,
    }
}

/// Rows per database transaction.
pub const EVENT_BATCH_ROWS: usize = 256;

/// How often a dropped event is worth a warning.
pub const EVENT_DROP_LOG_EVERY: u64 = 1000;

/// What reaches the task that writes the event log.
#[derive(Debug)]
pub enum WriterEvent {
    Row(EventRow),
    /// No row will come any more.
    Closed,
    FlushTick,
    PruneTick,
}

/// What the task that writes the event log does next.
#[derive(Debug)]
pub enum WriterAction {
    Wait,
    /// Write these rows in one transaction.
    Write(Vec<EventRow>),
    /// Write these rows and stop.
    Finish(Vec<EventRow>),
    /// Trim the table.
    Prune,
}

impl WriterAction {
    /// The rows to write now.
    pub open spec fn rows(&self) -> Seq<EventRow> {
        match *self {
            WriterAction::Write(v) => v@,
            WriterAction::Finish(v) => v@,
            _ => Seq::empty(),
        }
    }
}

/// Whether the writer does `r` on an event and is left with `after` of the rows
/// that waited.
pub open spec fn written_out(
    before: Seq<EventRow>,
    event: WriterEvent,
    r: WriterAction,
    after: Seq<EventRow>,
) -> bool {
    match event {
        WriterEvent::Row(row) => if before.len() + 1 >= EVENT_BATCH_ROWS {
            r is Write && r.rows() == before.push(row) && after.len() == 0
        } else {
            r is Wait && after == before.push(row)
        },
        WriterEvent::Closed => r is Finish && r.rows() == before && after.len() == 0,
        WriterEvent::FlushTick => {
            &&& r is Write <==> before.len() > 0
            &&& r is Write || r is Wait
            &&& r.rows() == before
            &&& after.len() == 0
        },
        WriterEvent::PruneTick => r is Prune && after == before,
    }
}

/// The rows that wait for the next transaction.
pub struct EventBatch {
    rows: Vec<EventRow>,
}

impl EventBatch {
    /// The waiting rows, oldest first.
    pub closed spec fn rows(&self) -> Seq<EventRow> {
        self.rows@
    }

    /// Fewer rows wait than make a transaction.
    pub open spec fn wf(&self) -> bool {
        self.rows().len() < EVENT_BATCH_ROWS
    }

    /// Nothing waits.
    pub fn new() -> (r: EventBatch)
        ensures
            r.wf(),
            r.rows() == Seq::<EventRow>::empty(),
    {
        EventBatch { rows: Vec::new() }
    }

    fn take(&mut self) -> (r: Vec<EventRow>)
        ensures
            r@ == old(self).rows(),
            final(self).rows() == Seq::<EventRow>::empty(),
    {
        let mut out: Vec<EventRow> = Vec::new();
        std::mem::swap(&mut out, &mut self.rows);
        out
    }

    /// What one event makes the writer do: rows are written when a transaction
    /// is full, when a tick comes and when no more rows will.
    pub fn step(&mut self, event: WriterEvent) -> (r: WriterAction)
        requires
            old(self).wf(),
        ensures
            final(self).wf(),
            match event {
                WriterEvent::Row(row) => {
                    let all = old(self).rows().push(row);
                    if all.len() >= EVENT_BATCH_ROWS {
                        &&& r is Write
                        &&& r.rows() == all
                        &&& final(self).rows() == Seq::<EventRow>::empty()
                    } else {
                        r is Wait && final(self).rows() == all
                    }
                },
                WriterEvent::Closed => {
                    &&& r is Finish
                    &&& r.rows() == old(self).rows()
                    &&& final(self).rows() == Seq::<EventRow>::empty()
                },
                WriterEvent::FlushTick => {
                    &&& r is Write <==> old(self).rows().len() > 0
                    &&& r is Write || r is Wait
                    &&& r.rows() == old(self).rows()
                    &&& final(self).rows() == Seq::<EventRow>::empty()
                },
                WriterEvent::PruneTick => r is Prune && final(self).rows() == old(self).rows(),
            },
            written_out(old(self).rows(), event, r, final(self).rows()),
    {
        match event {
            WriterEvent::Row(row) => {
                self.rows.push(row);
                if self.rows.len() >= EVENT_BATCH_ROWS {
                    WriterAction::Write(self.take())
                } else {
                    WriterAction::Wait
                }
            },
            WriterEvent::Closed => WriterAction::Finish(self.take()),
            WriterEvent::FlushTick => {
                if self.rows.len() == 0 {
                    proof {
                        assert(self.rows@ =~= Seq::<EventRow>::empty());
                    }
                    WriterAction::Wait
                } else {
                    WriterAction::Write(self.take())
                }
            },
            WriterEvent::PruneTick => WriterAction::Prune,
        }
    }
}

/// Counts one more dropped event; the first and every thousandth is worth a
/// warning.
pub fn note_drop(dropped: &mut u64) -> (r: bool)
    requires
        *old(dropped) < u64::MAX,
    ensures
        *final(dropped) == *old(dropped) + 1,
        r == (*final(dropped) == 1 || *final(dropped) as int % 1000 == 0),
{
    *dropped = *dropped + 1;
    *dropped == 1 || *dropped % EVENT_DROP_LOG_EVERY == 0
}

/// Whether a decided flow goes to the audit trail.
pub fn is_blocked(action: Action) -> (r: bool)
    ensures
        r == crate::decision::refuses(action),
{
    match action {
        Action::Allow => false,
        Action::Deny | Action::Reject => true,
    }
}

/// A peer that is not root changes nothing on a socket that the kernel does not
/// gate, unless the configuration opted out; without credentials nobody does
/// anything.
pub proof fn only_trusted_peers_mutate(auth: SocketAuth, creds: Credentials)
    ensures
        authorized(auth, creds, Access::Mutate) matches Ok(p) ==> creds == Some(Some(p)) && (p.uid
            == 0 || auth.group_gated || !auth.require_group),
        creds matches Some(Some(p)) ==> (authorized(auth, creds, Access::ReadOnly) == Ok::<
            PeerId,
            (Code, Seq<char>),
        >(p)),
        !(creds matches Some(Some(p))) ==> authorized(auth, creds, Access::ReadOnly) is Err,
{
}

/// Nobody enters a prompt's audience but a peer that is entitled to see the
/// prompt; and the audiences of other prompts never grow by it.
pub proof fn only_entitled_peers_enter_an_audience(
    a: Audience,
    id: Seq<char>,
    owner: Option<u32>,
    uid: u32,
    n: u64,
    other: u32,
)
    requires
        audience_wf(a),
        audience_of(offered(a, id, owner, uid), n).contains(other),
        !audience_of(a, n).contains(other),
    ensures
        other == uid,
        entitled(owner, uid),
        prompt_number(id) == Some(n),
{
}

/// A peer that was handed a prompt may answer it.
pub proof fn a_delivered_prompt_may_be_answered(
    a: Audience,
    id: Seq<char>,
    owner: Option<u32>,
    p: PeerId,
)
    requires
        audience_wf(a),
        entitled(owner, p.uid),
        prompt_number(id) is Some,
    ensures
        may_answer(offered(a, id, owner, p.uid), p, id),
{
    let n = prompt_number(id)->Some_0;
    if !a.told.contains_key(n) && a.order.len() >= AUDIENCE_CAP {
        assert(a.order.to_set().contains(a.order[0]));
        assert(a.order[0] != n);
    }
}

/// A peer that was not handed a prompt is refused whatever else it sends, and
/// so is everyone but root once the prompt is answered.
pub proof fn only_an_audience_answers(
    auth: SocketAuth,
    a: Audience,
    p: PeerId,
    req: &pb::VerdictRequest,
    fresh: u128,
    now: i64,
)
    requires
        p.uid != 0,
        permitted(p.uid, Access::Mutate, auth.group_gated, auth.require_group),
    ensures
        !may_answer(a, p, req.prompt_id@) ==> answer(auth, a, Some(Some(p)), req, fresh, now)
            == Err::<Answer, (Code, Seq<char>)>((Code::PermissionDenied, NOT_YOURS@)),
        prompt_number(req.prompt_id@) matches Some(n) ==> answer(
            auth,
            forgotten(a, n),
            Some(Some(p)),
            req,
            fresh,
            now,
        ) == Err::<Answer, (Code, Seq<char>)>((Code::PermissionDenied, NOT_YOURS@)),
{
}

/// The oldest prompt makes room for the newest, and no other prompt loses its
/// audience.
pub proof fn only_the_oldest_prompt_is_dropped(a: Audience, id: u64, uid: u32, other: u64)
    requires
        audience_wf(a),
        a.told.contains_key(other),
        other != id,
        a.order.len() < AUDIENCE_CAP || a.told.contains_key(id) || a.order[0] != other,
    ensures
        audience_of(handed(a, id, uid), other) == audience_of(a, other),
{
}

/// A pause always ends: it is at most a day long, and its timer resumes
/// filtering if nobody set the switch meanwhile.
pub proof fn a_pause_ends_by_itself(s: PauseState, duration: u32, default: u64, now: int)
    ensures
        1 <= pause_secs(duration, default) <= MAX_PAUSE_SECS,
        ({
            let paused = set_pause(s, true, pause_secs(duration, default), now);
            let after = timer_fired(paused, paused.stats.generation);
            !after.stats.paused && after.resume_at_ms == 0
        }),
{
}

/// The timer of one pause does not cut short a later one: once the switch was
/// set again, the timer of the pause before changes nothing.
pub proof fn an_old_timer_changes_nothing(
    s: PauseState,
    first: u64,
    now: int,
    paused: bool,
    second: u64,
    later: int,
)
    ensures
        ({
            let one = set_pause(s, true, first, now);
            let two = set_pause(one, paused, second, later);
            timer_fired(two, one.stats.generation) == two
        }),
{
}

/// What the event log stores is what its filter asks for: a filter on an action
/// selects the word that the rows of that action carry.
pub proof fn the_filter_speaks_the_stored_words(req: &pb::ListEventsRequest, a: Action)
    requires
        req.action_filter == convert::wire_action(a).spec_number(),
    ensures
        read_query(req) matches Ok(q) && q.action == Some(action_word(a)),
{
}

/// Whoever can connect may look; what changes anything takes root, a socket that
/// the kernel gates by its group, or a configuration that does not ask for that.
pub proof fn changing_takes_root_or_the_group(uid: u32, gated: bool, required: bool)
    ensures
        permitted(uid, Access::ReadOnly, gated, required),
        permitted(uid, Access::Mutate, gated, required) <==> uid == 0 || gated || !required,
{
}

/// A caller is the peer of the connection if it is known and permitted; every
/// other is denied, and told which of the two it lacks.
pub proof fn a_caller_is_its_connections_peer(auth: SocketAuth, p: PeerId, level: Access)
    ensures
        authorized(auth, Some(Some(p)), level) is Ok <==> level == Access::ReadOnly || p.uid == 0
            || auth.group_gated || !auth.require_group,
        authorized(auth, Some(Some(p)), level) is Ok ==> authorized(
            auth,
            Some(Some(p)),
            level,
        )->Ok_0 == p,
        authorized(auth, Some(Some(p)), level) is Err ==> authorized(
            auth,
            Some(Some(p)),
            level,
        )->Err_0.0 == Code::PermissionDenied,
        authorized(auth, None, level) == Err::<PeerId, (Code, Seq<char>)>(
            (Code::PermissionDenied, NO_CREDENTIALS@),
        ),
        authorized(auth, Some(None), level) == Err::<PeerId, (Code, Seq<char>)>(
            (Code::PermissionDenied, CREDENTIALS_UNAVAILABLE@),
        ),
{
}

/// A prompt is for root and for the user whose process it is about, and for
/// everyone if that is not known; for nobody else.
pub proof fn a_prompt_is_for_its_owner_and_root(owner: u32, uid: u32)
    ensures
        entitled(None, uid),
        entitled(Some(owner), 0),
        entitled(Some(owner), owner),
        uid != 0 && uid != owner ==> !entitled(Some(owner), uid),
{
}

/// Prompts go by their numbers, as they are written out in decimal.
pub proof fn prompts_go_by_their_numbers(n: u64)
    ensures
        prompt_number(crate::text::decimal(n as nat)) == Some(n),
        prompt_number(Seq::empty()) is None,
{
    crate::text::decimal_numbers_read_back(n as nat, u64::MAX as nat, Seq::empty());
}

/// A prompt that is handed over is remembered with whom it was handed to, beside
/// those it was handed to before; no other prompt's audience grows.
pub proof fn who_was_told_is_remembered(a: Audience, id: u64, uid: u32, other: u64, who: u32)
    requires
        audience_wf(a),
        other != id,
    ensures
        audience_of(handed(a, id, uid), id) == audience_of(a, id).insert(uid),
        audience_of(handed(a, id, uid), other).contains(who) ==> audience_of(a, other).contains(
            who,
        ),
        audience_of(forgotten(a, id), id) == Set::<u32>::empty(),
        audience_of(forgotten(a, id), other) == audience_of(a, other),
{
    if !a.told.contains_key(id) && a.order.len() >= AUDIENCE_CAP {
        assert(a.order.to_set().contains(a.order[0]));
        assert(a.order[0] != id);
    }
}

/// A prompt may be answered by root and by those it was handed to, and by nobody
/// else; one whose id is no number only by root.
pub proof fn root_and_the_audience_may_answer(a: Audience, p: PeerId, n: u64, id: Seq<char>)
    ensures
        p.uid == 0 ==> may_answer(a, p, id),
        p.uid != 0 ==> (may_answer(a, p, crate::text::decimal(n as nat)) <==> a.told.contains_key(n)
            && a.told[n].contains(p.uid)),
        p.uid != 0 && prompt_number(id) is None ==> !may_answer(a, p, id),
{
    prompts_go_by_their_numbers(n);
}

/// An answer is accepted if and only if the caller may change things and may
/// answer this prompt, its action has a number, and the rule it asks for, if it
/// asks for one, has a scope that reads and a duration that a rule can have. It
/// then says what the request says: the action as the user's own verdict, and
/// for how long and about what as the request has it.
pub proof fn an_answer_says_what_was_asked(
    auth: SocketAuth,
    a: Audience,
    p: PeerId,
    req: &pb::VerdictRequest,
    fresh: u128,
    now: i64,
)
    ensures
        ({
            let r = answer(auth, a, Some(Some(p)), req, fresh, now);
            &&& r is Ok <==> {
                &&& p.uid == 0 || auth.group_gated || !auth.require_group
                &&& may_answer(a, p, req.prompt_id@)
                &&& 1 <= req.action <= 3
                &&& req.persist_scope is Some ==> {
                    &&& read_scope(req.persist_scope->Some_0@) is Ok
                    &&& req.duration == 2 || req.duration == 3
                }
            }
            &&& r is Ok ==> {
                let s = r->Ok_0;
                &&& s.prompt_id == req.prompt_id@
                &&& s.number == prompt_number(req.prompt_id@)
                &&& s.verdict.source == VerdictSource::UserPrompt
                &&& s.verdict.action == Action::Allow <==> req.action == 1
                &&& s.verdict.action == Action::Deny <==> req.action == 2
                &&& s.verdict.action == Action::Reject <==> req.action == 3
                &&& s.rule is Some <==> req.persist_scope is Some
            }
            &&& r is Ok && req.persist_scope is Some ==> {
                let w = r->Ok_0.rule->Some_0;
                &&& w.id == fresh
                &&& w.created_at_unix_ms == now
                &&& w.body.name == "user prompt "@ + req.prompt_id@
                &&& w.body.enabled
                &&& w.body.hit_count == 0
                &&& w.body.action == r->Ok_0.verdict.action
                &&& req.duration == 2 ==> w.body.duration == Duration::UntilRestart
                &&& req.duration == 3 ==> w.body.duration == Duration::Always
                &&& Ok::<crate::model::Scope, Seq<char>>(w.body.scope) == read_scope(
                    req.persist_scope->Some_0@,
                )
            }
        }),
{
}

/// Who may not answer learns that and nothing else; who may is told what is
/// wrong with the request.
pub proof fn a_refused_answer_says_why(
    auth: SocketAuth,
    a: Audience,
    p: PeerId,
    req: &pb::VerdictRequest,
    fresh: u128,
    now: i64,
)
    ensures
        ({
            let r = answer(auth, a, Some(Some(p)), req, fresh, now);
            let changes = p.uid == 0 || auth.group_gated || !auth.require_group;
            &&& !changes ==> r is Err && r->Err_0.0 == Code::PermissionDenied
            &&& changes && !may_answer(a, p, req.prompt_id@) ==> r == Err::<
                Answer,
                (Code, Seq<char>),
            >((Code::PermissionDenied, NOT_YOURS@))
            &&& changes && may_answer(a, p, req.prompt_id@) && r is Err ==> r->Err_0.0
                == Code::InvalidArgument
            &&& changes && may_answer(a, p, req.prompt_id@) && 1 <= req.action <= 3
                && req.persist_scope is Some && read_scope(req.persist_scope->Some_0@) is Ok
                && req.duration == 1 ==> r == Err::<Answer, (Code, Seq<char>)>(
                (Code::InvalidArgument, ONCE_RULE@),
            )
        }),
        answer(auth, a, None, req, fresh, now) is Err,
        answer(auth, a, Some(None), req, fresh, now) is Err,
{
}

/// A submission says what its fields say.
pub proof fn a_submission_says_what_its_fields_say(s: Submission)
    ensures
        s.says().prompt_id == s.prompt_id@,
        s.says().number == s.number,
        s.says().verdict == s.verdict,
        s.says().rule is Some <==> s.rule is Some,
        s.rule is Some ==> s.says().rule->Some_0 == convert::whole(s.rule->Some_0),
{
}

/// A pause lasts as long as was asked for, or as the daemon's default where
/// nothing was; but at least a second and at most a day.
pub proof fn a_pause_lasts_as_asked(asked: u32, default: u64)
    ensures
        1 <= asked <= 86_400 ==> pause_secs(asked, default) == asked,
        asked > 86_400 ==> pause_secs(asked, default) == 86_400,
        asked == 0 && 1 <= default <= 86_400 ==> pause_secs(asked, default) == default,
        asked == 0 && default > 86_400 ==> pause_secs(asked, default) == 86_400,
        asked == 0 && default == 0 ==> pause_secs(asked, default) == 1,
        asked > 0 ==> requested_secs(asked, default) == asked,
        asked == 0 ==> requested_secs(asked, default) == default,
{
}

/// A pause sets the switch and a deadline so many seconds on; resuming clears
/// both. No counter changes.
pub proof fn a_pause_has_a_deadline(s: PauseState, secs: u64, now: i64)
    requires
        0 <= now,
        secs <= 86_400,
        now + 86_400_000 <= i64::MAX,
    ensures
        ({
            let on = set_pause(s, true, secs, now as int);
            &&& on.stats.paused
            &&& on.resume_at_ms == now + 1000 * secs
            &&& on.stats.allowed == s.stats.allowed && on.stats.denied == s.stats.denied
            &&& on.stats.prompts_pending == s.stats.prompts_pending
            &&& on.stats.generation != s.stats.generation
        }),
        ({
            let off = set_pause(s, false, secs, now as int);
            &&& !off.stats.paused
            &&& off.resume_at_ms == 0
            &&& off.stats.allowed == s.stats.allowed && off.stats.denied == s.stats.denied
            &&& off.stats.generation != s.stats.generation
        }),
{
}

/// A timer ends the pause it was started for, and changes nothing else.
pub proof fn a_timer_ends_its_own_pause(s: PauseState, generation: u64)
    ensures
        s.stats.paused && s.stats.generation == generation ==> !timer_fired(
            s,
            generation,
        ).stats.paused && timer_fired(s, generation).resume_at_ms == 0 && timer_fired(
            s,
            generation,
        ).stats.allowed == s.stats.allowed && timer_fired(s, generation).stats.denied
            == s.stats.denied,
        !s.stats.paused || s.stats.generation != generation ==> timer_fired(s, generation) == s,
{
}

/// A daemon claims to enforce if it saw a packet, or has not run for more than a
/// minute; a dry run never does.
pub proof fn enforcing_is_claimed_on_evidence(packets: u64, uptime: u64)
    ensures
        !claims_enforcing(true, packets, uptime),
        packets > 0 ==> claims_enforcing(false, packets, uptime),
        packets == 0 ==> (claims_enforcing(false, packets, uptime) <==> uptime <= 60),
{
}

/// A query asks for what the request says: so many rows, a hundred where it does
/// not say and no more than a thousand, from where it says, and each filter it
/// sets. It is refused if and only if its action has no number.
pub proof fn a_query_asks_what_was_asked(req: &pb::ListEventsRequest)
    ensures
        read_query(req) is Ok <==> 0 <= req.action_filter <= 3,
        read_query(req) is Ok ==> ({
            let q = read_query(req)->Ok_0;
            &&& req.limit == 0 ==> q.limit == 100
            &&& 1 <= req.limit <= 1000 ==> q.limit == req.limit
            &&& req.limit > 1000 ==> q.limit == 1000
            &&& q.offset == req.offset
            &&& q.exe_contains is Some <==> req.exe_contains@.len() > 0
            &&& q.exe_contains is Some ==> q.exe_contains->Some_0 == req.exe_contains@
            &&& q.action is Some <==> req.action_filter != 0
            &&& req.action_filter == 1 ==> q.action->Some_0 == "Allow"@
            &&& req.action_filter == 2 ==> q.action->Some_0 == "Deny"@
            &&& req.action_filter == 3 ==> q.action->Some_0 == "Reject"@
            &&& q.since_ts_unix_ms is Some <==> req.since_unix_ms > 0
            &&& q.since_ts_unix_ms is Some ==> q.since_ts_unix_ms->Some_0 == req.since_unix_ms
        }),
{
}

/// A query is what its parts are.
pub proof fn a_query_is_its_parts(limit: u32, offset: u32, f: EventFilter)
    ensures
        query_of((limit, offset, f)).limit == limit,
        query_of((limit, offset, f)).offset == offset,
        query_of((limit, offset, f)).since_ts_unix_ms == f.since_ts_unix_ms,
        f.exe_contains is Some ==> query_of((limit, offset, f)).exe_contains == Some(
            f.exe_contains->Some_0@,
        ),
        f.exe_contains is None ==> query_of((limit, offset, f)).exe_contains is None,
        f.action is Some ==> query_of((limit, offset, f)).action == Some(f.action->Some_0@),
        f.action is None ==> query_of((limit, offset, f)).action is None,
{
}

/// A rule that is asked to stand does so as the message has it, but for what the
/// daemon owns: the count and the time of the rule it replaces stay. It is
/// refused if and only if the caller may not change things, there is no rule in
/// the request, the rule does not read, or it would be for once.
pub proof fn a_candidate_keeps_what_the_daemon_owns(
    auth: SocketAuth,
    p: PeerId,
    rules: Seq<Rule>,
    msg: &Option<pb::RuleInfo>,
    fresh: u128,
    now: i64,
    i: int,
)
    ensures
        ({
            let r = candidate(auth, Some(Some(p)), rules, msg, fresh, now);
            let read = convert::read_rule(&msg->Some_0, fresh, now);
            &&& r is Ok <==> {
                &&& p.uid == 0 || auth.group_gated || !auth.require_group
                &&& *msg is Some
                &&& read is Ok
                &&& read->Ok_0.body.duration != Duration::Once
            }
            &&& r is Ok ==> {
                let w = r->Ok_0;
                &&& w.id == read->Ok_0.id
                &&& w.body.name == read->Ok_0.body.name
                &&& w.body.enabled == read->Ok_0.body.enabled
                &&& w.body.action == read->Ok_0.body.action
                &&& w.body.duration == read->Ok_0.body.duration
                &&& w.body.scope == read->Ok_0.body.scope
            }
            &&& r is Ok && 0 <= i < rules.len() && rules[i].id == read->Ok_0.id && (forall|k: int|
                0 <= k < i ==> (#[trigger] rules[k]).id != read->Ok_0.id) ==> {
                &&& r->Ok_0.body.hit_count == rules[i].hit_count
                &&& r->Ok_0.created_at_unix_ms == rules[i].created_at_unix_ms
            }
            &&& r is Ok && (forall|k: int|
                0 <= k < rules.len() ==> (#[trigger] rules[k]).id != read->Ok_0.id) ==> {
                &&& r->Ok_0.body.hit_count == read->Ok_0.body.hit_count
                &&& r->Ok_0.created_at_unix_ms == read->Ok_0.created_at_unix_ms
            }
        }),
{
    let read = convert::read_rule(&msg->Some_0, fresh, now);
    if read is Ok {
        let id = read->Ok_0.id;
        let probe = Rule { id, ..rules[0] };
        crate::decision::an_upsert_touches_one_place(rules, probe, i);
    }
}

/// What storage says reaches the client as the daemon's own failure.
pub proof fn a_storage_failure_is_internal(e: Seq<char>)
    ensures
        storage_fault(e).0 == Code::Internal,
        storage_fault(e).1 == "storage: "@ + e,
        no_such_prompt(e) == "no pending prompt with id "@ + e,
{
}

/// A submission is the answer that was due if it says the same, and a refusal if
/// it has the same code and words.
pub proof fn submissions_are_held_to_their_answers(
    a: Submission,
    b: Answer,
    e: Status,
    f: (Code, Seq<char>),
)
    ensures
        submits(Ok(a), Ok(b)) <==> a.says() == b,
        submits(Err(e), Err(f)) <==> e.code == f.0 && e.message@ == f.1,
        !submits(Ok(a), Err(f)) && !submits(Err(e), Ok(b)),
{
}

/// A rule is the candidate that was due if it says the same; a caller if it is
/// the same peer.
pub proof fn candidates_and_callers_are_held_to_what_is_due(
    a: Rule,
    b: convert::Whole,
    p: PeerId,
    q: PeerId,
    e: Status,
    f: (Code, Seq<char>),
)
    ensures
        upserts(Ok(a), Ok(b)) <==> convert::whole(a) == b,
        upserts(Err(e), Err(f)) <==> e.code == f.0 && e.message@ == f.1,
        !upserts(Ok(a), Err(f)) && !upserts(Err(e), Ok(b)),
        answers(Ok::<PeerId, Status>(p), Ok::<PeerId, (Code, Seq<char>)>(q)) <==> p == q,
        answers(Err::<PeerId, Status>(e), Err::<PeerId, (Code, Seq<char>)>(f)) <==> e.code == f.0
            && e.message@ == f.1,
        !answers(Ok::<PeerId, Status>(p), Err::<PeerId, (Code, Seq<char>)>(f)),
        !answers(Err::<PeerId, Status>(e), Ok::<PeerId, (Code, Seq<char>)>(q)),
{
}

/// A list of rules has a message for each, in their order.
pub proof fn each_rule_is_listed(v: Seq<pb::RuleInfo>, rules: Seq<Rule>, i: int)
    requires
        lists(v, rules),
        0 <= i < rules.len(),
    ensures
        v.len() == rules.len(),
        written(rules[i], v[i]),
        v[i].name@ == rules[i].name@ && v[i].enabled == rules[i].enabled && v[i].hit_count
            == rules[i].hit_count,
{
    assert(written(rules[i], v[i]));
}

/// A pause touches nothing of the service but its deadline.
pub proof fn a_pause_touches_only_the_deadline(a: FirewallService, b: FirewallService)
    requires
        a.same_but_deadline(&b),
    ensures
        a.auth == b.auth && a.audience == b.audience,
        a.pause_default_secs == b.pause_default_secs && a.dry_run == b.dry_run,
{
}

/// The log tells later what the feed told live: when the flow was, between which
/// ends, whose it was, what was decided and by which rule.
pub proof fn the_log_tells_what_the_feed_told(
    c: Connection,
    p: Process,
    v: Verdict,
    live: pb::ConnectionEvent,
    row: EventRow,
    later: pb::Event,
)
    requires
        feeds(c, p, v, live),
        convert::records(c, p, v, row),
        convert::renders(row, later),
    ensures
        later.ts_unix_ms == live.connection.timestamp_unix_ms,
        live.connection.timestamp_unix_ms == c.timestamp_unix_ms,
        later.src_ip@ == live.connection.src_ip@,
        live.connection.src_ip@ == crate::outside::ip_text(c.src_ip),
        later.dst_ip@ == live.connection.dst_ip@,
        live.connection.dst_ip@ == crate::outside::ip_text(c.dst_ip),
        later.src_port == live.connection.src_port,
        live.connection.src_port == c.src_port,
        later.dst_port == live.connection.dst_port,
        live.connection.dst_port == c.dst_port,
        later.dst_host@ == live.connection.dst_host@,
        c.dst_host is Some ==> later.dst_host@ == c.dst_host->Some_0@,
        later.exe@ == live.process.exe@,
        live.process.exe@ == p.exe@,
        later.pid == live.process.pid,
        live.process.pid == p.pid,
        later.uid == live.process.uid,
        live.process.uid == p.uid,
        later.action == live.verdict,
        later.action == (match v.action {
            Action::Allow => 1int,
            Action::Deny => 2int,
            Action::Reject => 3int,
        }),
        later.rule_id@ == live.rule_id@,
        v.source matches VerdictSource::Rule(id) ==> later.rule_id@ == uuid_text(id),
        !(v.source is Rule) ==> later.rule_id@.len() == 0,
        c.protocol == crate::model::Protocol::Tcp ==> later.proto@ == "tcp"@ && live.connection.protocol == 1,
        c.protocol == crate::model::Protocol::Udp ==> later.proto@ == "udp"@ && live.connection.protocol == 2,
{
    convert::stored_words(v.action, row.action@, v.source);
    convert::action_numbers(1, v.action);
    convert::stored_transports(c.protocol);
    convert::a_stored_event_is_rendered_as_it_is(row, later);
    assert(p.exe@.len() == 0 ==> p.exe@ =~= Seq::<char>::empty());
}

/// No row is lost or written twice, and none overtakes another: what is written
/// and what still waits are the rows that waited and the one that came. Rows are
/// written when 256 are there, at a tick and at the end.
pub proof fn no_row_is_lost(
    before: Seq<EventRow>,
    event: WriterEvent,
    r: WriterAction,
    after: Seq<EventRow>,
)
    requires
        written_out(before, event, r, after),
    ensures
        event matches WriterEvent::Row(row) ==> r.rows() + after == before.push(row),
        !(event is Row) ==> r.rows() + after == before,
        event is Row ==> (r is Write <==> before.len() >= 255),
        event is Row ==> (r is Wait <==> before.len() < 255),
        event is FlushTick || event is Closed ==> after.len() == 0,
        event is Closed <==> r is Finish,
        event is PruneTick <==> r is Prune,
{
    match event {
        WriterEvent::Row(row) => {
            assert(r.rows() + after =~= before.push(row));
        },
        _ => {
            assert(r.rows() + after =~= before);
        },
    }
}

/// The kernel keeps others out of a socket whose owner and mode were both set,
/// and of no other. Where it does not and the group is demanded, only root may
/// change anything.
pub proof fn a_socket_is_gated_by_owner_and_mode(
    ipc: IpcConfig,
    chowned: bool,
    chmodded: bool,
    auth: SocketAuth,
    creds: Credentials,
)
    requires
        secured(ipc, chowned, chmodded, auth),
    ensures
        auth.group_gated <==> chowned && chmodded,
        auth.group@ == ipc.group@,
        auth.require_group == ipc.require_group,
        ipc.require_group && !(chowned && chmodded) && authorized(auth, creds, Access::Mutate) is Ok
            ==> creds->Some_0->Some_0.uid == 0,
        creds matches Some(Some(p)) && chowned && chmodded ==> authorized(
            auth,
            creds,
            Access::Mutate,
        ) is Ok,
{
}

/// A status shows what was counted, each number under its own name, and the
/// policy in force. A deadline is shown while the daemon is paused and not
/// otherwise.
pub proof fn a_status_shows_how_the_daemon_stands(
    s: FirewallService,
    policy: DefaultPolicy,
    stats: Stats,
    v: pb::StatusResponse,
)
    requires
        shows_status(s, policy, stats, v),
    ensures
        v.connections_allowed == stats.allowed,
        v.connections_denied == stats.denied,
        v.prompts_pending == stats.prompts_pending,
        stats.allowed + stats.denied <= u64::MAX ==> v.connections_seen == v.connections_allowed
            + v.connections_denied,
        v.paused == stats.paused,
        !v.paused ==> v.resume_at_unix_ms == 0,
        v.paused ==> v.resume_at_unix_ms == s.resume_at_ms,
        v.prompt_timeout_secs == policy.prompt_timeout_secs,
        v.timeout_action == 1 <==> policy.timeout_action == Action::Allow,
        v.timeout_action == 2 <==> policy.timeout_action == Action::Deny,
        v.timeout_action == 3 <==> policy.timeout_action == Action::Reject,
        v.no_ui_action == 1 <==> policy.no_ui_action == Action::Allow,
        v.no_ui_action == 2 <==> policy.no_ui_action == Action::Deny,
        v.no_ui_action == 3 <==> policy.no_ui_action == Action::Reject,
        s.dry_run ==> !v.enforcing,
{
    convert::action_numbers(1, policy.timeout_action);
    convert::action_numbers(1, policy.no_ui_action);
}

/// A rule is in force once storage has kept it, with one notice of it, and what
/// storage failed to keep leaves the engine as it was.
pub proof fn a_rule_is_in_force_once_it_is_stored(before: Engine, after: Engine, rule: Rule, stored: bool)
    requires
        taken_in(before, after, rule, stored),
    ensures
        stored ==> after.rules().contains(rule),
        stored && before.notices() < u64::MAX ==> after.notices() == before.notices() + 1,
        after.policy() == before.policy(),
        after.hits() == before.hits(),
        !stored ==> after == before,
{
    if stored {
        let u = crate::decision::upserted(before.rules(), rule);
        crate::decision::lemma_upserted_holds(before.rules(), rule);
        u.to_multiset_ensures();
        after.rules().to_multiset_ensures();
        assert(u.to_multiset().count(rule) > 0);
    }
}

/// A rule is out of force once storage has dropped it, with one notice of it;
/// the others stay. What was not there to be dropped changes nothing.
pub proof fn a_rule_is_out_of_force_once_it_is_deleted(
    before: Engine,
    after: Engine,
    id: u128,
    deleted: bool,
)
    requires
        taken_out(before, after, id, deleted),
    ensures
        deleted ==> after.rules() == before.rules().filter(|x: Rule| x.id != id),
        !deleted ==> after.rules() == before.rules(),
        deleted && before.notices() < u64::MAX ==> after.notices() == before.notices() + 1,
        !deleted ==> after.notices() == before.notices(),
        after.policy() == before.policy(),
        after.hits() == before.hits(),
{
    crate::decision::removal_keeps_the_order(before.rules(), id);
}

} // verus!
