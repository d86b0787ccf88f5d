//! Names for addresses, and how far each can be trusted.

use cfc_daemon::dns::{
    addrs_contain, forward_confirm, worth_confirming, DnsCache, Trust, CACHE_MAX_ENTRIES,
};
use cfc_daemon::model::IpAddr;

const SEC: u64 = 1_000_000_000;
const PID: u32 = 4242;

fn secs(n: u64) -> u64 {
    n * SEC
}

fn ip(s: &str) -> IpAddr {
    match s.strip_prefix("::ffff:") {
        Some(v4) => match ip(v4) {
            IpAddr::V4(a) => IpAddr::V6(0xffff_0000_0000 | a as u128),
            other => other,
        },
        None => IpAddr::V4(
            s.split('.').fold(0, |n, part| n * 256 + part.parse::<u32>().unwrap()),
        ),
    }
}

fn insert_ptr(cache: &mut DnsCache, addr: IpAddr, name: Option<&str>, now: u64) {
    cache.record_ptr_result(addr, name.map(str::to_string), now);
}

#[test]
fn forward_confirmation_requires_the_original_ip() {
    let want = ip("93.184.216.34");
    let other = ip("203.0.113.7");

    assert!(addrs_contain(&[other, want], want));
    assert!(!addrs_contain(&[other], want));
    assert!(!addrs_contain(&[], want));
}

#[test]
fn forward_confirmation_accepts_v4_mapped_answers() {
    let want = ip("93.184.216.34");
    let mapped = ip("::ffff:93.184.216.34");

    assert!(addrs_contain(&[mapped], want));
    assert!(addrs_contain(&[want], mapped));
}

#[test]
fn is_self_matches_pid() {
    let mut cache = DnsCache::new(PID);
    assert!(cache.is_self(PID));
    assert!(!cache.is_self(PID + 1));
}

#[test]
fn empty_cache_returns_none() {
    let mut cache = DnsCache::new(PID);
    assert!(cache.lookup_cached(ip("8.8.8.8"), 0).is_none());
}

#[test]
fn an_observed_answer_is_returned_and_marked_observed() {
    let mut cache = DnsCache::new(PID);
    let now = 1_000 * SEC;
    cache.observe_answer(ip("93.184.216.34"), "example.com", 300, now);
    assert_eq!(
        cache.lookup_cached(ip("93.184.216.34"), now).as_deref(),
        Some("example.com")
    );
    assert_eq!(
        cache.cached_trust(ip("93.184.216.34"), now),
        Some(Trust::Observed)
    );
}

#[test]
fn observed_answers_are_normalized() {
    let mut cache = DnsCache::new(PID);
    let now = 1_000 * SEC;
    cache.observe_answer(ip("1.2.3.4"), "API.GitHub.com.", 300, now);
    assert_eq!(
        cache.lookup_cached(ip("1.2.3.4"), now).as_deref(),
        Some("api.github.com")
    );
    cache.observe_answer(ip("5.6.7.8"), ".", 300, now);
    assert!(cache.lookup_cached(ip("5.6.7.8"), now).is_none());
}

#[test]
fn an_observation_beats_an_existing_ptr_name() {
    let mut cache = DnsCache::new(PID);
    let now = 1_000 * SEC;
    insert_ptr(&mut cache, ip("203.0.113.7"), Some("api.github.com"), now);
    assert_eq!(cache.cached_trust(ip("203.0.113.7"), now), Some(Trust::Ptr));

    cache.observe_answer(ip("203.0.113.7"), "tracker.example.net", 300, now);
    assert_eq!(
        cache.lookup_cached(ip("203.0.113.7"), now).as_deref(),
        Some("tracker.example.net")
    );
    assert_eq!(cache.cached_trust(ip("203.0.113.7"), now), Some(Trust::Observed));
}

#[test]
fn a_ptr_result_never_displaces_a_fresh_observation() {
    let mut cache = DnsCache::new(PID);
    let now = 1_000 * SEC;
    cache.observe_answer(ip("93.184.216.34"), "example.com", 300, now);
    insert_ptr(&mut cache, ip("93.184.216.34"), Some("evil.example"), now);
    assert_eq!(
        cache.lookup_cached(ip("93.184.216.34"), now).as_deref(),
        Some("example.com")
    );
    assert_eq!(
        cache.cached_trust(ip("93.184.216.34"), now),
        Some(Trust::Observed)
    );
}

#[test]
fn a_negative_ptr_result_cannot_erase_an_observation_either() {
    let mut cache = DnsCache::new(PID);
    let now = 1_000 * SEC;
    cache.observe_answer(ip("93.184.216.34"), "example.com", 300, now);
    insert_ptr(&mut cache, ip("93.184.216.34"), None, now);
    assert_eq!(
        cache.lookup_cached(ip("93.184.216.34"), now).as_deref(),
        Some("example.com")
    );
}

#[test]
fn ptr_is_still_used_when_nothing_was_observed() {
    let mut cache = DnsCache::new(PID);
    let now = 1_000 * SEC;
    insert_ptr(&mut cache, ip("203.0.113.9"), Some("mail.example.org"), now);
    assert_eq!(
        cache.lookup_cached(ip("203.0.113.9"), now).as_deref(),
        Some("mail.example.org")
    );
    assert_eq!(cache.cached_trust(ip("203.0.113.9"), now), Some(Trust::Ptr));
}

#[test]
fn observed_entries_expire_on_the_records_own_ttl() {
    let mut cache = DnsCache::new(PID);
    let now = 1_000 * SEC;
    cache.observe_answer(ip("93.184.216.34"), "example.com", 120, now);
    assert!(cache
        .lookup_cached(ip("93.184.216.34"), now + secs(119))
        .is_some());
    assert!(
        cache
            .lookup_cached(ip("93.184.216.34"), now + secs(121))
            .is_none(),
        "the record's 120s TTL is honoured, not the 300s PTR one"
    );
}

#[test]
fn absurd_record_ttls_are_clamped_at_both_ends() {
    let mut cache = DnsCache::new(PID);
    let now = 1_000 * SEC;
    cache.observe_answer(ip("1.1.1.1"), "one.one.one.one", 0, now);
    assert!(cache
        .lookup_cached(ip("1.1.1.1"), now + secs(59))
        .is_some());
    assert!(cache
        .lookup_cached(ip("1.1.1.1"), now + secs(61))
        .is_none());

    cache.observe_answer(ip("8.8.8.8"), "dns.google", u32::MAX, now);
    assert!(cache
        .lookup_cached(ip("8.8.8.8"), now + secs(3599))
        .is_some());
    assert!(cache
        .lookup_cached(ip("8.8.8.8"), now + secs(3601))
        .is_none());
}

#[test]
fn a_stale_observation_is_replaced_by_a_ptr_result() {
    let mut cache = DnsCache::new(PID);
    let now = 1_000 * SEC;
    cache.observe_answer(ip("93.184.216.34"), "example.com", 60, now);
    let later = now + secs(61);
    insert_ptr(&mut cache, ip("93.184.216.34"), Some("edge.example.net"), later);
    assert_eq!(
        cache.lookup_cached(ip("93.184.216.34"), later).as_deref(),
        Some("edge.example.net"),
        "once the observation is stale, PTR may take the slot again"
    );
    assert_eq!(
        cache.cached_trust(ip("93.184.216.34"), later),
        Some(Trust::Ptr),
        "and the trust level drops back with it"
    );
}

#[test]
fn a_newer_observation_replaces_an_older_one() {
    let mut cache = DnsCache::new(PID);
    let now = 1_000 * SEC;
    cache.observe_answer(ip("93.184.216.34"), "example.com", 300, now);
    cache.observe_answer(ip("93.184.216.34"), "www.example.com", 300, now);
    assert_eq!(
        cache.lookup_cached(ip("93.184.216.34"), now).as_deref(),
        Some("www.example.com"),
        "several names share a CDN address; keep the freshest answer"
    );
}

#[test]
fn the_cache_stays_bounded_under_a_flood_of_observations() {
    let mut cache = DnsCache::new(PID);
    let now = 1_000 * SEC;
    for i in 0..CACHE_MAX_ENTRIES + 64 {
        let addr = IpAddr::V6(i as u128);
        cache.observe_answer(addr, &format!("h{i}.example"), 300, now);
    }
    assert!(cache.len() <= CACHE_MAX_ENTRIES);
}

#[test]
fn a_lookup_is_started_once() {
    let mut cache = DnsCache::new(PID);
    let now = 1_000 * SEC;
    assert!(cache.enqueue_lookup(ip("1.2.3.4"), now));
    assert!(!cache.enqueue_lookup(ip("1.2.3.4"), now), "one is under way");
    insert_ptr(&mut cache, ip("1.2.3.4"), Some("a.example"), now);
    assert!(!cache.enqueue_lookup(ip("1.2.3.4"), now + secs(299)), "still fresh");
    assert!(cache.enqueue_lookup(ip("1.2.3.4"), now + secs(301)));
}

#[test]
fn a_negative_answer_is_kept_for_a_minute() {
    let mut cache = DnsCache::new(PID);
    let now = 1_000 * SEC;
    insert_ptr(&mut cache, ip("1.2.3.4"), None, now);
    assert!(!cache.enqueue_lookup(ip("1.2.3.4"), now + secs(59)));
    assert!(cache.enqueue_lookup(ip("1.2.3.4"), now + secs(61)));
}

#[test]
fn a_name_counts_only_if_it_leads_back() {
    assert!(forward_confirm(&Some(vec![ip("1.2.3.4")]), ip("1.2.3.4")));
    assert!(!forward_confirm(&Some(vec![ip("1.2.3.5")]), ip("1.2.3.4")));
    assert!(!forward_confirm(&None, ip("1.2.3.4")));
    assert!(worth_confirming("a.example", "1.2.3.4"));
    assert!(!worth_confirming("1.2.3.4", "1.2.3.4"));
}

#[test]
fn the_oldest_entry_makes_room() {
    let mut cache = DnsCache::new(PID);
    for i in 0..CACHE_MAX_ENTRIES {
        cache.observe_answer(IpAddr::V6(i as u128), "h.example", 3600, (1000 + i as u64) * SEC);
    }
    assert_eq!(cache.len(), CACHE_MAX_ENTRIES);
    let now = (1000 + CACHE_MAX_ENTRIES as u64) * SEC;
    cache.observe_answer(IpAddr::V4(7), "new.example", 3600, now);
    assert_eq!(cache.len(), CACHE_MAX_ENTRIES);
    assert!(cache.lookup_cached(IpAddr::V6(0), 1000 * SEC).is_none());
    assert!(cache.lookup_cached(IpAddr::V6(1), 1001 * SEC).is_some());
    assert_eq!(
        cache.lookup_cached(IpAddr::V4(7), now).as_deref(),
        Some("new.example")
    );
}

#[test]
fn a_known_address_costs_no_other_its_name() {
    let mut cache = DnsCache::new(PID);
    let now = 1_000 * SEC;
    for i in 0..CACHE_MAX_ENTRIES {
        let addr = IpAddr::V6(i as u128);
        cache.observe_answer(addr, &format!("h{i}.example"), 300, now + i as u64);
    }
    let later = now + SEC;
    cache.observe_answer(IpAddr::V6(5), "again.example", 300, later);
    assert_eq!(cache.len(), CACHE_MAX_ENTRIES);
    assert_eq!(cache.lookup_cached(IpAddr::V6(0), later), Some("h0.example".to_string()));
    assert_eq!(cache.lookup_cached(IpAddr::V6(5), later), Some("again.example".to_string()));

    cache.observe_answer(ip("1.2.3.4"), "new.example", 300, later);
    assert_eq!(cache.len(), CACHE_MAX_ENTRIES);
    assert_eq!(cache.lookup_cached(IpAddr::V6(0), later), None, "the oldest made room");
    assert_eq!(cache.lookup_cached(IpAddr::V6(1), later), Some("h1.example".to_string()));
}

#[test]
fn a_late_reverse_name_does_not_take_the_cache_past_its_bound() {
    let mut cache = DnsCache::new(PID);
    let now = 1_000 * SEC;
    for i in 0..CACHE_MAX_ENTRIES {
        cache.observe_answer(IpAddr::V6(i as u128), "h.example", 300, now + i as u64);
    }
    insert_ptr(&mut cache, ip("1.2.3.4"), Some("late.example"), now + SEC);
    assert_eq!(cache.len(), CACHE_MAX_ENTRIES);
    assert_eq!(
        cache.lookup_cached(ip("1.2.3.4"), now + SEC),
        Some("late.example".to_string())
    );
}
