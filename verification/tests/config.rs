//! What a configuration file means.

use cfc_daemon::config::{
    reload_policy, Config, ConfigToml, DefaultPolicy, EbpfMode, Profile,
};
use cfc_daemon::model::Action;

fn section<'a>(file: &'a toml::Table, name: &str) -> Option<&'a toml::Table> {
    file.get(name).and_then(|v| v.as_table())
}

fn number(t: &toml::Table, key: &str) -> Option<i64> {
    t.get(key).and_then(|v| v.as_integer())
}

fn flag(t: &toml::Table, key: &str) -> Option<bool> {
    t.get(key).and_then(|v| v.as_bool())
}

fn word(t: &toml::Table, key: &str) -> Option<String> {
    t.get(key).and_then(|v| v.as_str()).map(|s| s.to_string())
}

fn action(t: &toml::Table, key: &str) -> Option<Action> {
    match t.get(key).and_then(|v| v.as_str()) {
        Some("Allow") => Some(Action::Allow),
        Some("Deny") => Some(Action::Deny),
        Some("Reject") => Some(Action::Reject),
        _ => None,
    }
}

fn from_toml_str(text: &str) -> Result<Config, toml::de::Error> {
    let file: toml::Table = text.parse()?;
    let mut c = ConfigToml::default();
    c.profile = word(&file, "profile");
    if let Some(t) = section(&file, "default_policy") {
        c.default_policy.no_ui_action = action(t, "no_ui_action");
        c.default_policy.timeout_action = action(t, "timeout_action");
        c.default_policy.inbound_action = action(t, "inbound_action");
        c.default_policy.prompt_timeout_secs = number(t, "prompt_timeout_secs").map(|n| n as u32);
    }
    if let Some(t) = section(&file, "nfqueue") {
        if let Some(n) = number(t, "queue_num") {
            c.nfqueue.queue_num = n as u16;
        }
        if let Some(n) = number(t, "queue_max_len") {
            c.nfqueue.queue_max_len = n as u32;
        }
        if let Some(b) = flag(t, "fail_open") {
            c.nfqueue.fail_open = b;
        }
    }
    if let Some(n) = section(&file, "pause").and_then(|t| number(t, "default_secs")) {
        c.pause.default_secs = n as u64;
    }
    if let Some(n) = section(&file, "events").and_then(|t| number(t, "max_rows")) {
        c.events.max_rows = n as u32;
    }
    if let Some(t) = section(&file, "ipc") {
        if let Some(g) = word(t, "group") {
            c.ipc.group = g;
        }
        if let Some(b) = flag(t, "require_group") {
            c.ipc.require_group = b;
        }
    }
    if let Some(b) = section(&file, "provenance").and_then(|t| flag(t, "enabled")) {
        c.provenance.enabled = b;
    }
    if let Some(t) = section(&file, "ebpf") {
        if let Some(b) = flag(t, "enabled") {
            c.ebpf.enabled = EbpfMode::from_switch(b);
        }
        if let Some(s) = word(t, "enabled") {
            c.ebpf.enabled = EbpfMode::from_text(&s);
        }
        c.ebpf.object_path = word(t, "object_path");
        if let Some(b) = flag(t, "fast_allow") {
            c.ebpf.fast_allow = b;
        }
        c.ebpf.fast_allow_mark = number(t, "fast_allow_mark").map(|n| n as u32);
    }
    Ok(c.resolve())
}

#[test]
fn empty_file_yields_balanced_defaults() {
    let cfg = from_toml_str("").unwrap();
    assert_eq!(cfg.default_policy.no_ui_action, Action::Deny);
    assert_eq!(cfg.default_policy.timeout_action, Action::Deny);
    assert_eq!(cfg.default_policy.prompt_timeout_secs, 30);
    assert_eq!(cfg.nfqueue.queue_num, 0);
    assert_eq!(cfg.nfqueue.queue_max_len, 4096);
    assert!(!cfg.nfqueue.fail_open);
    assert_eq!(cfg.pause.default_secs, 600);
    assert_eq!(cfg.events.max_rows, 100_000);
    assert_eq!(cfg.ipc.group, "colony-firewall");
    assert!(cfg.ipc.require_group);
    assert!(cfg.provenance.enabled);
    assert_eq!(cfg.ebpf.enabled, EbpfMode::Auto);
    assert_eq!(cfg.ebpf.object_path, None);
    assert_eq!(
        cfg.storage.path,
        "/var/lib/colony-firewall/rules.db"
    );
}

#[test]
fn inbound_action_allow_is_coerced_to_deny_without_failing_the_parse() {
    let cfg = from_toml_str("[default_policy]\ninbound_action = \"Allow\"\n")
        .expect("a bad inbound_action must not abort startup");
    assert_eq!(cfg.default_policy.inbound_action, Action::Deny);
}

#[test]
fn inbound_action_deny_and_reject_are_both_honoured() {
    let action = |v: &str| {
        from_toml_str(&format!("[default_policy]\ninbound_action = \"{v}\"\n"))
            .unwrap()
            .default_policy
            .inbound_action
    };
    assert_eq!(action("Deny"), Action::Deny);
    assert_eq!(action("Reject"), Action::Reject);
}

#[test]
fn no_profile_allows_inbound_by_default() {
    for p in [Profile::Relaxed, Profile::Balanced, Profile::Strict] {
        assert_ne!(
            p.policy().inbound_action,
            Action::Allow,
            "{p:?} would admit unauthorised inbound traffic"
        );
    }
}

#[test]
fn ebpf_enabled_is_a_tri_state_defaulting_to_auto() {
    let mode = |toml: &str| from_toml_str(toml).unwrap().ebpf.enabled;

    assert_eq!(mode(""), EbpfMode::Auto, "absent means auto");
    assert_eq!(
        mode("[ebpf]\n"),
        EbpfMode::Auto,
        "an empty section keeps the default"
    );
    assert_eq!(
        mode(
            r#"[ebpf]
enabled = "auto""#
        ),
        EbpfMode::Auto
    );

    assert_eq!(mode("[ebpf]\nenabled = true\n"), EbpfMode::On);
    assert_eq!(mode("[ebpf]\nenabled = false\n"), EbpfMode::Off);
    assert_eq!(
        mode(
            r#"[ebpf]
enabled = "on""#
        ),
        EbpfMode::On
    );
    assert_eq!(
        mode(
            r#"[ebpf]
enabled = "off""#
        ),
        EbpfMode::Off
    );
    assert_eq!(
        mode(
            r#"[ebpf]
enabled = " Auto ""#
        ),
        EbpfMode::Auto
    );

    let cfg = from_toml_str(
        r#"
        [ebpf]
        enabled = true
        object_path = "/opt/cfc/cfc-ebpf.o"
        "#,
    )
    .unwrap();
    assert_eq!(cfg.ebpf.enabled, EbpfMode::On);
    assert_eq!(
        cfg.ebpf.object_path,
        Some("/opt/cfc/cfc-ebpf.o".to_string())
    );
}

#[test]
fn an_unrecognised_ebpf_mode_falls_back_instead_of_failing_to_start() {
    let cfg = from_toml_str("[ebpf]\nenabled = \"maybe\"\n")
        .expect("an unknown value must parse, not abort startup");
    assert_eq!(cfg.ebpf.enabled, EbpfMode::Auto);

    let cfg = from_toml_str("[ebpf]\nenabled = \"\"\n")
        .expect("an empty value must parse too");
    assert_eq!(cfg.ebpf.enabled, EbpfMode::Auto);
}

#[test]
fn the_fast_allow_mark_parses_in_the_spelling_the_sample_documents() {
    let mark = |toml: &str| from_toml_str(toml).unwrap().ebpf.fast_allow_mark;
    assert_eq!(mark(""), None, "absent means draw one");
    assert_eq!(
        mark("[ebpf]\nfast_allow_mark = 0x00033331\n"),
        Some(0x0003_3331)
    );
    assert_eq!(mark("[ebpf]\nfast_allow_mark = 209713\n"), Some(209_713));
    assert_eq!(
        mark("[ebpf]\nfast_allow_mark = 0xffffffff\n"),
        Some(u32::MAX)
    );
}

#[test]
fn ebpf_fast_allow_is_off_unless_asked_for() {
    let fast_allow = |toml: &str| from_toml_str(toml).unwrap().ebpf.fast_allow;

    assert!(!fast_allow(""), "absent means off");
    assert!(
        !fast_allow("[ebpf]\n"),
        "an empty section keeps the default"
    );
    assert!(!fast_allow("[ebpf]\nfast_allow = false\n"));
    assert!(fast_allow("[ebpf]\nfast_allow = true\n"));
    assert!(fast_allow("[ebpf]\nenabled = false\nfast_allow = true\n"));
}

#[test]
fn ebpf_mode_helpers_match_their_names() {
    assert!(EbpfMode::Auto.wants_load() && !EbpfMode::Auto.is_forced());
    assert!(EbpfMode::On.wants_load() && EbpfMode::On.is_forced());
    assert!(!EbpfMode::Off.wants_load() && !EbpfMode::Off.is_forced());
}

#[test]
fn provenance_is_on_by_default_and_can_be_switched_off() {
    assert!(from_toml_str("").unwrap().provenance.enabled);
    assert!(
        from_toml_str("[provenance]\n")
            .unwrap()
            .provenance
            .enabled,
        "an empty section keeps the default"
    );
    assert!(
        !from_toml_str("[provenance]\nenabled = false\n")
            .unwrap()
            .provenance
            .enabled
    );
}

#[test]
fn profile_only_applies_profile_policy() {
    let cfg = from_toml_str(r#"profile = "strict""#).unwrap();
    assert_eq!(cfg.default_policy.no_ui_action, Action::Deny);
    assert_eq!(cfg.default_policy.timeout_action, Action::Deny);
    assert_eq!(cfg.default_policy.prompt_timeout_secs, 15);
    assert_eq!(cfg.profile.as_deref(), Some("strict"));
}

#[test]
fn profile_plus_partial_override_mixes_per_field() {
    let cfg = from_toml_str(
        r#"
        profile = "strict"

        [default_policy]
        prompt_timeout_secs = 30
        "#,
    )
    .unwrap();
    assert_eq!(cfg.default_policy.prompt_timeout_secs, 30);
    assert_eq!(cfg.default_policy.no_ui_action, Action::Deny);
    assert_eq!(cfg.default_policy.timeout_action, Action::Deny);
}

#[test]
fn explicit_block_without_profile_uses_explicit_values() {
    let cfg = from_toml_str(
        r#"
        [default_policy]
        no_ui_action = "Deny"
        timeout_action = "Reject"
        prompt_timeout_secs = 42
        "#,
    )
    .unwrap();
    assert_eq!(cfg.default_policy.no_ui_action, Action::Deny);
    assert_eq!(cfg.default_policy.timeout_action, Action::Reject);
    assert_eq!(cfg.default_policy.prompt_timeout_secs, 42);
}

#[test]
fn explicit_balanced_values_beat_strict_profile() {
    let cfg = from_toml_str(
        r#"
        profile = "strict"

        [default_policy]
        no_ui_action = "Allow"
        timeout_action = "Allow"
        prompt_timeout_secs = 15
        "#,
    )
    .unwrap();
    assert_eq!(cfg.default_policy.no_ui_action, Action::Allow);
    assert_eq!(cfg.default_policy.timeout_action, Action::Allow);
    assert_eq!(cfg.default_policy.prompt_timeout_secs, 15);
}

#[test]
fn no_profile_ever_permits_by_itself() {
    for profile in [Profile::Relaxed, Profile::Balanced, Profile::Strict] {
        let p = profile.policy();
        assert_ne!(
            p.no_ui_action,
            Action::Allow,
            "{profile:?} would allow when no client is connected -- on a \
             headless or SSH-only host that is the permanent state, not a \
             boot-time window, so this is 'no outbound firewall at all'"
        );
        assert_ne!(
            p.timeout_action,
            Action::Allow,
            "{profile:?} would allow an unanswered prompt, making 'connect \
             while nobody is at the keyboard' a winning move"
        );
    }
}

#[test]
fn unrecognized_profile_falls_back_to_balanced_base() {
    let cfg = from_toml_str(r#"profile = "paranoid""#).unwrap();
    assert_eq!(cfg.default_policy.no_ui_action, Action::Deny);
    assert_eq!(cfg.default_policy.prompt_timeout_secs, 30);
}

#[test]
fn new_sections_parse_and_default() {
    let cfg = from_toml_str(
        r#"
        [nfqueue]
        queue_num = 3
        queue_max_len = 8192
        fail_open = true

        [pause]
        default_secs = 120

        [events]
        max_rows = 5000

        [ipc]
        group = "wheel"
        require_group = false
        "#,
    )
    .unwrap();
    assert_eq!(cfg.nfqueue.queue_num, 3);
    assert_eq!(cfg.nfqueue.queue_max_len, 8192);
    assert!(cfg.nfqueue.fail_open);
    assert_eq!(cfg.pause.default_secs, 120);
    assert_eq!(cfg.events.max_rows, 5000);
    assert_eq!(cfg.ipc.group, "wheel");
    assert!(!cfg.ipc.require_group);

    let cfg = from_toml_str("[ipc]\ngroup = \"wheel\"\n").unwrap();
    assert_eq!(cfg.ipc.group, "wheel");
    assert!(cfg.ipc.require_group);

    let cfg = from_toml_str("[nfqueue]\nqueue_num = 7\n").unwrap();
    assert_eq!(cfg.nfqueue.queue_num, 7);
    assert_eq!(cfg.nfqueue.queue_max_len, 4096);
    assert!(!cfg.nfqueue.fail_open);
}

#[test]
fn the_defaults_are_those_of_an_empty_file() {
    let cfg = Config::default();
    assert_eq!(cfg.default_policy.prompt_timeout_secs, 30);
    assert_eq!(cfg.pause.default_secs, 600);
}

#[test]
fn the_policies_of_the_profiles() {
    assert_eq!(
        Profile::Relaxed.policy(),
        DefaultPolicy {
            no_ui_action: Action::Deny,
            timeout_action: Action::Deny,
            inbound_action: Action::Reject,
            prompt_timeout_secs: 60,
        }
    );
    assert_eq!(Profile::Balanced.policy().prompt_timeout_secs, 30);
    assert_eq!(Profile::Strict.policy().prompt_timeout_secs, 15);
    assert_eq!(Profile::parse(" Strict "), Some(Profile::Strict));
    assert_eq!(Profile::parse("nonsense"), None);
}

#[test]
fn a_reload_that_failed_keeps_the_policy() {
    let now = Profile::Strict.policy();
    let new = Profile::Balanced.policy();
    assert_eq!(reload_policy(now, None), now);
    assert_eq!(reload_policy(now, Some(new)), new);
}
