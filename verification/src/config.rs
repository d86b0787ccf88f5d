//! Daemon configuration: what each setting means once it has been read, and
//! how a profile and explicit values combine.

use crate::model::{Action};
use crate::text::{
    all_space, chars_eq, chars_of, is_space, lower_case_touches_capitals_only, lowercase,
    lowercase_chars, text, trim, trim_chars, trimming_takes_what_surrounds,
};
use vstd::prelude::*;

verus! {

/// What happens to a flow that no rule decides.
#[derive(Debug, Clone, Copy, PartialEq, Eq, Structural)]
pub struct DefaultPolicy {
    /// Nobody is there to ask.
    pub no_ui_action: Action,
    /// Somebody was asked and did not answer.
    pub timeout_action: Action,
    /// An inbound flow that no rule admits.
    pub inbound_action: Action,
    pub prompt_timeout_secs: u32,
}

/// The `[default_policy]` section: each value as far as it was written.
#[derive(Debug, Clone, Copy, PartialEq, Eq, Structural)]
pub struct DefaultPolicyToml {
    pub no_ui_action: Option<Action>,
    pub timeout_action: Option<Action>,
    pub inbound_action: Option<Action>,
    pub prompt_timeout_secs: Option<u32>,
}

impl Default for DefaultPolicyToml {
    fn default() -> (r: Self)
        ensures
            r.no_ui_action is None,
            r.timeout_action is None,
            r.inbound_action is None,
            r.prompt_timeout_secs is None,
    {
        DefaultPolicyToml {
            no_ui_action: None,
            timeout_action: None,
            inbound_action: None,
            prompt_timeout_secs: None,
        }
    }
}

/// The value that was written, or the base's.
pub open spec fn written_or<T>(written: Option<T>, base: T) -> T {
    match written {
        Some(v) => v,
        None => base,
    }
}

/// An inbound default. Allowing by default is not offered: it stands for Deny.
pub open spec fn refusing(a: Action) -> Action {
    if a == Action::Allow {
        Action::Deny
    } else {
        a
    }
}

/// Explicit values over a base, field by field.
pub open spec fn overlay(over: DefaultPolicyToml, base: DefaultPolicy) -> DefaultPolicy {
    DefaultPolicy {
        no_ui_action: written_or(over.no_ui_action, base.no_ui_action),
        timeout_action: written_or(over.timeout_action, base.timeout_action),
        inbound_action: refusing(written_or(over.inbound_action, base.inbound_action)),
        prompt_timeout_secs: written_or(over.prompt_timeout_secs, base.prompt_timeout_secs),
    }
}

impl DefaultPolicyToml {
    /// The policy these values make over `base`. An inbound `Allow` is taken
    /// for Deny rather than refused: a daemon that does not start over it would
    /// leave a machine without a network.
    pub fn resolve(self, base: DefaultPolicy) -> (r: DefaultPolicy)
        ensures
            r == overlay(self, base),
    {
        let inbound = match self.inbound_action.unwrap_or(base.inbound_action) {
            Action::Allow => Action::Deny,
            other => other,
        };
        DefaultPolicy {
            no_ui_action: self.no_ui_action.unwrap_or(base.no_ui_action),
            timeout_action: self.timeout_action.unwrap_or(base.timeout_action),
            inbound_action: inbound,
            prompt_timeout_secs: self.prompt_timeout_secs.unwrap_or(base.prompt_timeout_secs),
        }
    }
}

/// How patient the daemon is with an unanswered prompt.
#[derive(Debug, Clone, Copy, PartialEq, Eq, Structural)]
pub enum Profile {
    Relaxed,
    Balanced,
    Strict,
}

/// The profile a text names, whatever its case and surrounding whitespace.
pub open spec fn profile_named(s: Seq<char>) -> Option<Profile> {
    let t = lowercase(trim(s));
    if t == "relaxed"@ {
        Some(Profile::Relaxed)
    } else if t == "balanced"@ {
        Some(Profile::Balanced)
    } else if t == "strict"@ {
        Some(Profile::Strict)
    } else {
        None
    }
}

/// What a profile decides.
pub open spec fn profile_policy(p: Profile) -> DefaultPolicy {
    DefaultPolicy {
        no_ui_action: Action::Deny,
        timeout_action: Action::Deny,
        inbound_action: if p == Profile::Relaxed {
            Action::Reject
        } else {
            Action::Deny
        },
        prompt_timeout_secs: match p {
            Profile::Relaxed => 60,
            Profile::Balanced => 30,
            Profile::Strict => 15,
        },
    }
}

/// Whether `v` spells the word `w`.
fn is_word(v: &Vec<char>, w: &str) -> (r: bool)
    ensures
        r == (v@ == w@),
{
    let w = chars_of(w);
    chars_eq(v.as_slice(), w.as_slice())
}

impl Profile {
    /// The profile a text names.
    pub fn parse(s: &str) -> (r: Option<Profile>)
        ensures
            r == profile_named(s@),
    {
        let t = lowercase_chars(trim_chars(chars_of(s).as_slice()).as_slice());
        if is_word(&t, "relaxed") {
            Some(Profile::Relaxed)
        } else if is_word(&t, "balanced") {
            Some(Profile::Balanced)
        } else if is_word(&t, "strict") {
            Some(Profile::Strict)
        } else {
            None
        }
    }

    /// What the profile decides.
    pub fn policy(self) -> (r: DefaultPolicy)
        ensures
            r == profile_policy(self),
    {
        match self {
            Profile::Relaxed => DefaultPolicy {
                no_ui_action: Action::Deny,
                timeout_action: Action::Deny,
                inbound_action: Action::Reject,
                prompt_timeout_secs: 60,
            },
            Profile::Balanced => DefaultPolicy {
                no_ui_action: Action::Deny,
                timeout_action: Action::Deny,
                inbound_action: Action::Deny,
                prompt_timeout_secs: 30,
            },
            Profile::Strict => DefaultPolicy {
                no_ui_action: Action::Deny,
                timeout_action: Action::Deny,
                inbound_action: Action::Deny,
                prompt_timeout_secs: 15,
            },
        }
    }
}

impl Default for DefaultPolicy {
    fn default() -> (r: Self)
        ensures
            r == profile_policy(Profile::Balanced),
    {
        Profile::Balanced.policy()
    }
}

/// The `[nfqueue]` section.
#[derive(Debug, Clone, Copy, PartialEq, Eq, Structural)]
pub struct NfqConfig {
    pub queue_num: u16,
    pub queue_max_len: u32,
    pub fail_open: bool,
}

impl Default for NfqConfig {
    fn default() -> (r: Self)
        ensures
            r == (NfqConfig { queue_num: 0, queue_max_len: 4096, fail_open: false }),
    {
        NfqConfig { queue_num: 0, queue_max_len: 4096, fail_open: false }
    }
}

/// Where rules are kept unless configured otherwise.
pub const DEFAULT_STORAGE: &'static str = "/var/lib/colony-firewall/rules.db";

/// The `[storage]` section.
#[derive(Debug)]
pub struct StorageConfig {
    pub path: String,
}

impl Default for StorageConfig {
    fn default() -> (r: Self)
        ensures
            r.path@ == DEFAULT_STORAGE@,
    {
        StorageConfig { path: text(DEFAULT_STORAGE) }
    }
}

/// The `[pause]` section.
#[derive(Debug, Clone, Copy, PartialEq, Eq, Structural)]
pub struct PauseConfig {
    pub default_secs: u64,
}

impl Default for PauseConfig {
    fn default() -> (r: Self)
        ensures
            r.default_secs == 600,
    {
        PauseConfig { default_secs: 600 }
    }
}

/// The `[events]` section.
#[derive(Debug, Clone, Copy, PartialEq, Eq, Structural)]
pub struct EventsConfig {
    pub max_rows: u32,
}

impl Default for EventsConfig {
    fn default() -> (r: Self)
        ensures
            r.max_rows == 100_000,
    {
        EventsConfig { max_rows: 100_000 }
    }
}

/// The group that may use the control socket unless configured otherwise.
pub const DEFAULT_GROUP: &'static str = "colony-firewall";

/// The `[ipc]` section.
#[derive(Debug)]
pub struct IpcConfig {
    pub group: String,
    pub require_group: bool,
}

impl Default for IpcConfig {
    fn default() -> (r: Self)
        ensures
            r.group@ == DEFAULT_GROUP@,
            r.require_group,
    {
        IpcConfig { group: text(DEFAULT_GROUP), require_group: true }
    }
}

/// The `[provenance]` section.
#[derive(Debug, Clone, Copy, PartialEq, Eq, Structural)]
pub struct ProvenanceConfig {
    pub enabled: bool,
}

impl Default for ProvenanceConfig {
    fn default() -> (r: Self)
        ensures
            r.enabled,
    {
        ProvenanceConfig { enabled: true }
    }
}

/// Whether the kernel-side layer is wanted.
#[derive(Debug, Clone, Copy, PartialEq, Eq, Structural)]
pub enum EbpfMode {
    /// Load it where it can be loaded, and say nothing where it cannot.
    Auto,
    /// Load it, and say so where it cannot be loaded.
    On,
    Off,
}

impl Default for EbpfMode {
    fn default() -> (r: Self)
        ensures
            r == EbpfMode::Auto,
    {
        EbpfMode::Auto
    }
}

/// The mode a text names. A text that names none is taken for `Auto`: a
/// misspelled switch must not keep the daemon from starting.
pub open spec fn mode_named(s: Seq<char>) -> EbpfMode {
    let t = lowercase(trim(s));
    if t == "on"@ || t == "true"@ || t == "yes"@ || t == "enabled"@ {
        EbpfMode::On
    } else if t == "off"@ || t == "false"@ || t == "no"@ || t == "disabled"@ {
        EbpfMode::Off
    } else {
        EbpfMode::Auto
    }
}

impl EbpfMode {
    /// True when an attempt to load is made at all.
    pub fn wants_load(self) -> (r: bool)
        ensures
            r == (self != EbpfMode::Off),
    {
        self != EbpfMode::Off
    }

    /// True when somebody asked for the layer by name.
    pub fn is_forced(self) -> (r: bool)
        ensures
            r == (self == EbpfMode::On),
    {
        self == EbpfMode::On
    }

    /// The mode a boolean stands for.
    pub fn from_switch(on: bool) -> (r: EbpfMode)
        ensures
            r == if on {
                EbpfMode::On
            } else {
                EbpfMode::Off
            },
    {
        if on {
            EbpfMode::On
        } else {
            EbpfMode::Off
        }
    }

    /// The mode a text names.
    pub fn from_text(s: &str) -> (r: EbpfMode)
        ensures
            r == mode_named(s@),
    {
        let t = lowercase_chars(trim_chars(chars_of(s).as_slice()).as_slice());
        if is_word(&t, "on") || is_word(&t, "true") || is_word(&t, "yes") || is_word(&t, "enabled") {
            EbpfMode::On
        } else if is_word(&t, "off") || is_word(&t, "false") || is_word(&t, "no") || is_word(
            &t,
            "disabled",
        ) {
            EbpfMode::Off
        } else {
            EbpfMode::Auto
        }
    }
}

/// The `[ebpf]` section.
#[derive(Debug)]
pub struct EbpfConfig {
    pub enabled: EbpfMode,
    pub object_path: Option<String>,
    pub fast_allow: bool,
    pub fast_allow_mark: Option<u32>,
}

impl Default for EbpfConfig {
    fn default() -> (r: Self)
        ensures
            r.enabled == EbpfMode::Auto,
            r.object_path is None,
            !r.fast_allow,
            r.fast_allow_mark is None,
    {
        EbpfConfig {
            enabled: EbpfMode::Auto,
            object_path: None,
            fast_allow: false,
            fast_allow_mark: None,
        }
    }
}

/// A configuration file as written: every section, each with its own defaults,
/// before profile and policy are combined.
#[derive(Debug)]
pub struct ConfigToml {
    pub profile: Option<String>,
    pub default_policy: DefaultPolicyToml,
    pub nfqueue: NfqConfig,
    pub storage: StorageConfig,
    pub pause: PauseConfig,
    pub events: EventsConfig,
    pub ipc: IpcConfig,
    pub provenance: ProvenanceConfig,
    pub ebpf: EbpfConfig,
}

/// The configuration the daemon runs with.
#[derive(Debug)]
pub struct Config {
    pub profile: Option<String>,
    pub default_policy: DefaultPolicy,
    pub nfqueue: NfqConfig,
    pub storage: StorageConfig,
    pub pause: PauseConfig,
    pub events: EventsConfig,
    pub ipc: IpcConfig,
    pub provenance: ProvenanceConfig,
    pub ebpf: EbpfConfig,
}

/// The policy that a profile setting stands for on its own. An unrecognised
/// profile, like none, stands for the balanced one.
pub open spec fn base_policy(profile: Option<String>) -> DefaultPolicy {
    match profile {
        Some(s) => match profile_named(s@) {
            Some(p) => profile_policy(p),
            None => profile_policy(Profile::Balanced),
        },
        None => profile_policy(Profile::Balanced),
    }
}

impl Default for ConfigToml {
    fn default() -> (r: Self)
        ensures
            r.profile is None,
            overlay(r.default_policy, profile_policy(Profile::Balanced)) == profile_policy(
                Profile::Balanced,
            ),
            r.nfqueue == (NfqConfig { queue_num: 0, queue_max_len: 4096, fail_open: false }),
            r.storage.path@ == DEFAULT_STORAGE@,
            r.pause.default_secs == 600,
            r.events.max_rows == 100_000,
            r.ipc.group@ == DEFAULT_GROUP@,
            r.ipc.require_group,
            r.provenance.enabled,
            r.ebpf.enabled == EbpfMode::Auto,
            r.ebpf.object_path is None,
            !r.ebpf.fast_allow,
            r.ebpf.fast_allow_mark is None,
    {
        ConfigToml {
            profile: None,
            default_policy: DefaultPolicyToml::default(),
            nfqueue: NfqConfig::default(),
            storage: StorageConfig::default(),
            pause: PauseConfig::default(),
            events: EventsConfig::default(),
            ipc: IpcConfig::default(),
            provenance: ProvenanceConfig::default(),
            ebpf: EbpfConfig::default(),
        }
    }
}

impl ConfigToml {
    /// The configuration a file makes: its explicit policy values over those
    /// of its profile, and every other section as it stands.
    pub fn resolve(self) -> (r: Config)
        ensures
            r.profile == self.profile,
            r.default_policy == overlay(self.default_policy, base_policy(self.profile)),
            r.nfqueue == self.nfqueue,
            r.storage == self.storage,
            r.pause == self.pause,
            r.events == self.events,
            r.ipc == self.ipc,
            r.provenance == self.provenance,
            r.ebpf == self.ebpf,
    {
        let base = match &self.profile {
            Some(s) => match Profile::parse(s.as_str()) {
                Some(p) => p.policy(),
                None => Profile::Balanced.policy(),
            },
            None => Profile::Balanced.policy(),
        };
        Config {
            default_policy: self.default_policy.resolve(base),
            profile: self.profile,
            nfqueue: self.nfqueue,
            storage: self.storage,
            pause: self.pause,
            events: self.events,
            ipc: self.ipc,
            provenance: self.provenance,
            ebpf: self.ebpf,
        }
    }
}

impl Default for Config {
    fn default() -> (r: Self)
        ensures
            r.profile is None,
            r.default_policy == profile_policy(Profile::Balanced),
            r.nfqueue == (NfqConfig { queue_num: 0, queue_max_len: 4096, fail_open: false }),
            r.storage.path@ == DEFAULT_STORAGE@,
            r.pause.default_secs == 600,
            r.events.max_rows == 100_000,
            r.ipc.group@ == DEFAULT_GROUP@,
            r.ipc.require_group,
            r.provenance.enabled,
            r.ebpf.enabled == EbpfMode::Auto,
            r.ebpf.object_path is None,
            !r.ebpf.fast_allow,
            r.ebpf.fast_allow_mark is None,
    {
        ConfigToml::default().resolve()
    }
}

/// What a reload does to the policy in force: a file that could be read
/// replaces it, one that could not leaves it as it is.
pub fn reload_policy(current: DefaultPolicy, loaded: Option<DefaultPolicy>) -> (r: DefaultPolicy)
    ensures
        r == written_or(loaded, current),
{
    match loaded {
        Some(p) => p,
        None => current,
    }
}

/// No profile permits anything by itself: not when nobody is there to ask, not
/// when nobody answered, and not inbound.
pub proof fn profiles_never_permit(p: Profile)
    ensures
        profile_policy(p).no_ui_action != Action::Allow,
        profile_policy(p).timeout_action != Action::Allow,
        profile_policy(p).inbound_action != Action::Allow,
{
}

/// No configuration admits inbound traffic by default, whatever was written.
pub proof fn inbound_is_never_allowed_by_default(over: DefaultPolicyToml, base: DefaultPolicy)
    ensures
        overlay(over, base).inbound_action != Action::Allow,
{
}

/// A file that writes no `Allow` under `[default_policy]` permits nothing by
/// default, whatever profile it names.
pub proof fn only_an_explicit_allow_permits(over: DefaultPolicyToml, profile: Option<String>)
    requires
        over.no_ui_action != Some(Action::Allow),
        over.timeout_action != Some(Action::Allow),
    ensures
        overlay(over, base_policy(profile)).no_ui_action != Action::Allow,
        overlay(over, base_policy(profile)).timeout_action != Action::Allow,
        overlay(over, base_policy(profile)).inbound_action != Action::Allow,
{
}

/// An explicit value beats the profile's.
pub proof fn explicit_values_win(over: DefaultPolicyToml, base: DefaultPolicy)
    ensures
        over.no_ui_action matches Some(a) ==> overlay(over, base).no_ui_action == a,
        over.timeout_action matches Some(a) ==> overlay(over, base).timeout_action == a,
        over.prompt_timeout_secs matches Some(n) ==> overlay(over, base).prompt_timeout_secs == n,
        over.inbound_action == Some(Action::Reject) ==> overlay(over, base).inbound_action
            == Action::Reject,
{
}

/// A text that is some word in any case, with whitespace around it.
proof fn lemma_word_in_any_case(a: Seq<char>, w: Seq<char>, b: Seq<char>)
    requires
        all_space(a),
        all_space(b),
        w.len() > 0,
        !is_space(lowercase(w)[0]),
        !is_space(lowercase(w).last()),
    ensures
        trim(a + w + b) == w,
{
    lower_case_touches_capitals_only(w, 0);
    lower_case_touches_capitals_only(w, w.len() - 1);
    trimming_takes_what_surrounds(a, w, b);
}

/// A profile is named by its own name, in any case and with whitespace around
/// it, and by nothing else.
pub proof fn a_profile_answers_to_its_name(a: Seq<char>, w: Seq<char>, b: Seq<char>)
    requires
        all_space(a),
        all_space(b),
        w.len() > 0,
        !is_space(lowercase(w)[0]),
        !is_space(lowercase(w).last()),
    ensures
        profile_named(a + w + b) == Some(Profile::Relaxed) <==> lowercase(w) == "relaxed"@,
        profile_named(a + w + b) == Some(Profile::Balanced) <==> lowercase(w) == "balanced"@,
        profile_named(a + w + b) == Some(Profile::Strict) <==> lowercase(w) == "strict"@,
        profile_named(w) == profile_named(a + w + b),
{
    reveal_strlit("relaxed");
    reveal_strlit("balanced");
    reveal_strlit("strict");
    assert("relaxed"@.len() == 7 && "balanced"@.len() == 8 && "strict"@.len() == 6);
    lemma_word_in_any_case(a, w, b);
    let none = Seq::<char>::empty();
    lemma_word_in_any_case(none, w, none);
    assert(none + w + none =~= w);
}

/// Prompts wait a minute, half a minute or a quarter of one, the stricter the
/// shorter; nothing is permitted by default, and only a relaxed machine tells
/// who was turned away.
pub proof fn profiles_differ_in_patience(p: Profile)
    ensures
        p == Profile::Relaxed <==> profile_policy(p).prompt_timeout_secs == 60,
        p == Profile::Balanced <==> profile_policy(p).prompt_timeout_secs == 30,
        p == Profile::Strict <==> profile_policy(p).prompt_timeout_secs == 15,
        p == Profile::Relaxed <==> profile_policy(p).inbound_action == Action::Reject,
        p != Profile::Relaxed <==> profile_policy(p).inbound_action == Action::Deny,
        profile_policy(p).no_ui_action == Action::Deny,
        profile_policy(p).timeout_action == Action::Deny,
{
}

/// The switch is thrown by each of its words, in any case and with whitespace
/// around it; every other text leaves it to the machine.
pub proof fn the_switch_answers_to_its_words(a: Seq<char>, w: Seq<char>, b: Seq<char>)
    requires
        all_space(a),
        all_space(b),
        w.len() > 0,
        !is_space(lowercase(w)[0]),
        !is_space(lowercase(w).last()),
    ensures
        mode_named(a + w + b) == EbpfMode::On <==> lowercase(w) == "on"@ || lowercase(w) == "true"@
            || lowercase(w) == "yes"@ || lowercase(w) == "enabled"@,
        mode_named(a + w + b) == EbpfMode::Off <==> lowercase(w) == "off"@ || lowercase(w)
            == "false"@ || lowercase(w) == "no"@ || lowercase(w) == "disabled"@,
        mode_named(Seq::empty()) == EbpfMode::Auto,
{
    reveal_strlit("on");
    reveal_strlit("true");
    reveal_strlit("yes");
    reveal_strlit("enabled");
    reveal_strlit("off");
    reveal_strlit("false");
    reveal_strlit("no");
    reveal_strlit("disabled");
    assert("on"@[1] != "no"@[1]);
    assert("yes"@[0] != "off"@[0]);
    assert("true"@.len() == 4 && "enabled"@.len() == 7 && "false"@.len() == 5 && "disabled"@.len()
        == 8 && "on"@.len() == 2 && "no"@.len() == 2 && "yes"@.len() == 3 && "off"@.len() == 3);
    lemma_word_in_any_case(a, w, b);
    let none = Seq::<char>::empty();
    trimming_takes_what_surrounds(none, none, none);
    assert(none + none + none =~= none);
    assert(lowercase(none).len() == 0);
}

/// Field by field, what is written counts, and what is not written is the
/// base's; but an inbound allow, written or not, is a silent refusal.
pub proof fn what_is_not_written_is_the_bases(over: DefaultPolicyToml, base: DefaultPolicy)
    ensures
        overlay(over, base).no_ui_action == (if over.no_ui_action is Some {
            over.no_ui_action->Some_0
        } else {
            base.no_ui_action
        }),
        overlay(over, base).timeout_action == (if over.timeout_action is Some {
            over.timeout_action->Some_0
        } else {
            base.timeout_action
        }),
        overlay(over, base).prompt_timeout_secs == (if over.prompt_timeout_secs is Some {
            over.prompt_timeout_secs->Some_0
        } else {
            base.prompt_timeout_secs
        }),
        over.inbound_action == Some(Action::Reject) || (over.inbound_action is None
            && base.inbound_action == Action::Reject) <==> overlay(over, base).inbound_action
            == Action::Reject,
        overlay(over, base).inbound_action == Action::Reject || overlay(over, base).inbound_action
            == Action::Deny,
{
}

/// A file's profile gives the base if it names one; if it names none, or
/// nothing, the base is the balanced one.
pub proof fn an_unknown_profile_is_the_balanced_one(profile: Option<String>, p: Profile)
    ensures
        profile is None ==> base_policy(profile) == profile_policy(Profile::Balanced),
        profile is Some && profile_named(profile->Some_0@) is None ==> base_policy(profile)
            == profile_policy(Profile::Balanced),
        profile is Some && profile_named(profile->Some_0@) == Some(p) ==> base_policy(profile)
            == profile_policy(p),
{
}

/// A reload takes what could be read, and keeps what was there where nothing
/// could.
pub proof fn a_failed_reload_changes_nothing(current: DefaultPolicy, loaded: DefaultPolicy)
    ensures
        written_or(Some(loaded), current) == loaded,
        written_or(None, current) == current,
{
}

} // verus!
