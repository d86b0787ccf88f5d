//! The prompts that are out.

use cfc_daemon::config::DefaultPolicy;
use cfc_daemon::model::{Action, Verdict, VerdictSource};
use cfc_daemon::nfqueue::PromptVerdict;
use cfc_daemon::prompts::PromptRouter;

const SEC: u64 = 1_000_000_000;

fn policy() -> DefaultPolicy {
    DefaultPolicy {
        no_ui_action: Action::Deny,
        timeout_action: Action::Reject,
        inbound_action: Action::Deny,
        prompt_timeout_secs: 30,
    }
}

fn user(action: Action) -> Verdict {
    Verdict { action, source: VerdictSource::UserPrompt }
}

#[test]
fn a_prompt_nobody_may_see_is_answered_at_once() {
    let mut r = PromptRouter::new();
    let at_once = Some(PromptVerdict { prompt_id: 7, verdict: Verdict::from_policy(Action::Deny) });
    assert_eq!(r.open(7, Some(1000), &vec![], &policy(), 0), at_once);
    assert_eq!(r.open(7, Some(1000), &vec![1001], &policy(), 0), at_once);
    assert_eq!(r.len(), 0);
    assert_eq!(r.open(7, Some(1000), &vec![1001, 1000], &policy(), 0), None);
    assert_eq!(r.open(8, Some(1000), &vec![0], &policy(), 0), None);
    assert_eq!(r.open(9, None, &vec![1001], &policy(), 0), None);
    assert_eq!(r.len(), 3);
}

#[test]
fn a_prompt_is_answered_once() {
    let mut r = PromptRouter::new();
    r.open(7, None, &vec![0], &policy(), 0);
    assert_eq!(r.submit("8", user(Action::Allow)), None);
    assert_eq!(r.submit("seven", user(Action::Allow)), None);
    assert_eq!(
        r.submit("7", user(Action::Allow)),
        Some(PromptVerdict { prompt_id: 7, verdict: user(Action::Allow) })
    );
    assert_eq!(r.submit("7", user(Action::Allow)), None);
}

#[test]
fn an_unanswered_prompt_gets_the_timeout_action() {
    let mut r = PromptRouter::new();
    r.open(7, None, &vec![0], &policy(), 0);
    r.open(8, None, &vec![0], &policy(), 10 * SEC);
    assert!(r.expire(&policy(), 30 * SEC - 1).is_empty());
    assert_eq!(
        r.expire(&policy(), 30 * SEC),
        vec![PromptVerdict {
            prompt_id: 7,
            verdict: Verdict { action: Action::Reject, source: VerdictSource::Timeout },
        }]
    );
    assert_eq!(r.len(), 1);
    r.open(9, None, &vec![0], &policy(), u64::MAX);
    assert_eq!(r.expire(&policy(), u64::MAX).len(), 2);
}
