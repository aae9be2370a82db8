//! Sticky sessions.

use neemata_proxy::lb::{BackendSet, TransportKind};
use neemata_proxy::sticky::{
    AffinityMapKey, StickySessionConfig, StickySessionState, STICKY_SHARD_COUNT,
};

const SECOND: u64 = 1_000_000_000;

fn sessions(ttl_ms: u32, max_entries: usize) -> StickySessionState {
    StickySessionState::new(StickySessionConfig {
        enabled: true,
        cookie_name: "nmt_affinity".to_string(),
        header_name: "x-nmt-affinity-key".to_string(),
        ttl_ms,
        max_entries,
        cookie_secure: false,
    })
}

fn backends(addresses: &[&str]) -> BackendSet {
    let mut set = BackendSet::new();
    for address in addresses {
        set.insert(address.to_string());
    }
    set
}

#[test]
fn bound_key_is_found_until_it_expires() {
    let mut state = sessions(10_000, 100);
    let allowed = backends(&["1.1.1.1:80", "2.2.2.2:80"]);
    state.bind("app", TransportKind::Http1, "k", "1.1.1.1:80".to_string(), 0);
    assert_eq!(
        state
            .lookup("app", TransportKind::Http1, "k", &allowed, 9 * SECOND)
            .as_deref(),
        Some("1.1.1.1:80")
    );
    // The hit extended the binding.
    assert_eq!(
        state
            .lookup("app", TransportKind::Http1, "k", &allowed, 18 * SECOND)
            .as_deref(),
        Some("1.1.1.1:80")
    );
    assert_eq!(
        state.lookup("app", TransportKind::Http1, "k", &allowed, 28 * SECOND),
        None
    );
    assert_eq!(
        state.lookup("app", TransportKind::Http1, "k", &allowed, 18 * SECOND),
        None
    );
}

#[test]
fn backend_that_is_not_allowed_unbinds() {
    let mut state = sessions(10_000, 100);
    state.bind("app", TransportKind::Ws, "k", "1.1.1.1:80".to_string(), 0);
    let other = backends(&["2.2.2.2:80"]);
    let same = backends(&["1.1.1.1:80"]);
    assert_eq!(state.lookup("app", TransportKind::Ws, "k", &other, 1), None);
    assert_eq!(state.lookup("app", TransportKind::Ws, "k", &same, 1), None);
}

#[test]
fn removed_key_is_not_found() {
    let mut state = sessions(10_000, 100);
    let allowed = backends(&["1.1.1.1:80"]);
    state.bind("app", TransportKind::Http2, "k", "1.1.1.1:80".to_string(), 0);
    state.remove("app", TransportKind::Http2, "k");
    assert_eq!(
        state.lookup("app", TransportKind::Http2, "k", &allowed, 1),
        None
    );
}

#[test]
fn bindings_are_per_application_transport_and_key() {
    let mut state = sessions(10_000, 100);
    let allowed = backends(&["1.1.1.1:80"]);
    state.bind("app", TransportKind::Http1, "k", "1.1.1.1:80".to_string(), 0);
    assert_eq!(state.lookup("other", TransportKind::Http1, "k", &allowed, 1), None);
    assert_eq!(state.lookup("app", TransportKind::Http2, "k", &allowed, 1), None);
    assert_eq!(state.lookup("app", TransportKind::Http1, "l", &allowed, 1), None);
    assert!(state.lookup("app", TransportKind::Http1, "k", &allowed, 1).is_some());
}

#[test]
fn cleanup_evicts_what_expires_soonest() {
    let mut state = sessions(10_000, 2);
    let allowed = backends(&["1.1.1.1:80"]);
    for (i, key) in ["a", "b", "c", "d"].iter().enumerate() {
        state.bind(
            "app",
            TransportKind::Http1,
            key,
            "1.1.1.1:80".to_string(),
            i as u64 * SECOND,
        );
    }
    state.cleanup_global(4 * SECOND);
    let found: Vec<bool> = ["a", "b", "c", "d"]
        .iter()
        .map(|key| {
            state
                .lookup("app", TransportKind::Http1, key, &allowed, 4 * SECOND)
                .is_some()
        })
        .collect();
    assert_eq!(found, vec![false, false, true, true]);
}

#[test]
fn cleanup_drops_what_no_longer_counts() {
    let mut state = sessions(1_000, 100);
    let allowed = backends(&["1.1.1.1:80"]);
    state.bind("app", TransportKind::Http1, "old", "1.1.1.1:80".to_string(), 0);
    state.bind("app", TransportKind::Http1, "new", "1.1.1.1:80".to_string(), SECOND);
    state.cleanup_global(SECOND);
    assert_eq!(
        state.lookup("app", TransportKind::Http1, "old", &allowed, 0),
        None
    );
    assert!(state
        .lookup("app", TransportKind::Http1, "new", &allowed, SECOND)
        .is_some());
}

#[test]
fn refreshed_binding_outlives_an_older_note() {
    let mut state = sessions(10_000, 2);
    let allowed = backends(&["1.1.1.1:80"]);
    state.bind("app", TransportKind::Http1, "a", "1.1.1.1:80".to_string(), 0);
    state.bind("app", TransportKind::Http1, "b", "1.1.1.1:80".to_string(), SECOND);
    // The hit gives the first a later expiry time than the second.
    assert!(state
        .lookup("app", TransportKind::Http1, "a", &allowed, 2 * SECOND)
        .is_some());
    state.bind("app", TransportKind::Http1, "c", "1.1.1.1:80".to_string(), 3 * SECOND);
    state.cleanup_global(3 * SECOND);
    let found: Vec<bool> = ["a", "b", "c"]
        .iter()
        .map(|key| {
            state
                .lookup("app", TransportKind::Http1, key, &allowed, 3 * SECOND)
                .is_some()
        })
        .collect();
    assert_eq!(found, vec![true, false, true]);
}

#[test]
fn every_shard_asks_for_a_cleanup_with_its_first_operation() {
    let mut state = sessions(10_000, 100);
    assert!(state.should_cleanup(3));
    for _ in 1..128 {
        assert!(!state.should_cleanup(3));
    }
    assert!(state.should_cleanup(3));
    assert!(state.should_cleanup(4));
}

#[test]
fn shard_is_the_same_for_the_same_key() {
    let state = sessions(10_000, 100);
    let key = AffinityMapKey::new("app", TransportKind::Http1, "k");
    let same = AffinityMapKey::new("app", TransportKind::Http1, "k");
    let shard = state.shard_index_for_key(&key);
    assert!(shard < STICKY_SHARD_COUNT);
    assert_eq!(shard, state.shard_index_for_key(&same));
}

#[test]
fn notes_alone_evict_nothing() {
    let mut state = sessions(10_000, 1);
    let allowed = backends(&["1.1.1.1:80"]);
    let key = AffinityMapKey::new("app", TransportKind::Http1, "a");
    let shard = state.shard_index_for_key(&key);
    state.bind("app", TransportKind::Http1, "a", "1.1.1.1:80".to_string(), SECOND);
    state.record_eviction_candidate(shard, &key, 7);
    state.cleanup_global(SECOND);
    assert!(state
        .lookup("app", TransportKind::Http1, "a", &allowed, SECOND)
        .is_some());
}

fn found(state: &mut StickySessionState, keys: &[&str], now: u64) -> Vec<bool> {
    let allowed = backends(&["1.1.1.1:80"]);
    keys.iter()
        .map(|key| {
            state
                .lookup("app", TransportKind::Http1, key, &allowed, now)
                .is_some()
        })
        .collect()
}

#[test]
fn limit_holds_after_every_bind() {
    let mut state = sessions(10_000, 1);
    for (now, key) in [(1, "x"), (2, "y"), (3, "x")] {
        state.bind("app", TransportKind::Http1, key, "1.1.1.1:80".to_string(), now);
        let count = found(&mut state, &["x", "y"], now)
            .into_iter()
            .filter(|found| *found)
            .count();
        assert_eq!(count, 1);
    }
    assert_eq!(found(&mut state, &["x", "y"], 3), vec![true, false]);
}

#[test]
fn limit_holds_over_many_keys() {
    let mut state = sessions(10_000, 5);
    let keys: Vec<String> = (0..40).map(|i| format!("k{i}")).collect();
    for (i, key) in keys.iter().enumerate() {
        state.bind(
            "app",
            TransportKind::Http1,
            key,
            "1.1.1.1:80".to_string(),
            i as u64,
        );
    }
    let keys: Vec<&str> = keys.iter().map(String::as_str).collect();
    let found = found(&mut state, &keys, 40);
    assert_eq!(found.iter().filter(|found| **found).count(), 5);
    assert!(found[35..].iter().all(|found| *found));
}

#[test]
fn newest_of_bindings_that_expire_together_is_kept() {
    let mut state = sessions(10_000, 2);
    for key in ["a", "b", "c"] {
        state.bind("app", TransportKind::Http1, key, "1.1.1.1:80".to_string(), SECOND);
    }
    assert_eq!(found(&mut state, &["a", "b", "c"], SECOND), vec![false, true, true]);
}

#[test]
fn key_that_was_unbound_is_kept_when_bound_again() {
    // Below the limit an older note with the same expiry time makes no difference.
    let mut state = sessions(10_000, 2);
    state.bind("app", TransportKind::Http1, "k", "1.1.1.1:80".to_string(), SECOND);
    state.remove("app", TransportKind::Http1, "k");
    state.bind("app", TransportKind::Http1, "l", "1.1.1.1:80".to_string(), SECOND);
    state.bind("app", TransportKind::Http1, "k", "1.1.1.1:80".to_string(), SECOND);
    assert_eq!(found(&mut state, &["k", "l"], SECOND), vec![true, true]);
    // Nor does it at the limit, where the note of another binding comes first.
    let mut state = sessions(10_000, 1);
    state.bind("app", TransportKind::Http1, "l", "1.1.1.1:80".to_string(), 0);
    state.bind("app", TransportKind::Http1, "k", "1.1.1.1:80".to_string(), SECOND);
    state.remove("app", TransportKind::Http1, "k");
    state.bind("app", TransportKind::Http1, "l", "1.1.1.1:80".to_string(), 1);
    state.bind("app", TransportKind::Http1, "k", "1.1.1.1:80".to_string(), SECOND);
    assert_eq!(found(&mut state, &["k", "l"], SECOND), vec![true, false]);
}

#[test]
fn older_note_that_comes_first_evicts_the_same_key() {
    let mut state = sessions(10_000, 1);
    state.bind("app", TransportKind::Http1, "k", "1.1.1.1:80".to_string(), SECOND);
    state.remove("app", TransportKind::Http1, "k");
    state.bind("app", TransportKind::Http1, "l", "1.1.1.1:80".to_string(), SECOND);
    state.bind("app", TransportKind::Http1, "k", "1.1.1.1:80".to_string(), SECOND);
    assert_eq!(found(&mut state, &["k", "l"], SECOND), vec![false, true]);
}

#[test]
fn last_bind_wins() {
    let mut state = sessions(10_000, 1);
    let allowed = backends(&["1.1.1.1:80", "2.2.2.2:80"]);
    state.bind("app", TransportKind::Http1, "k", "1.1.1.1:80".to_string(), 0);
    state.bind("app", TransportKind::Http1, "k", "2.2.2.2:80".to_string(), 0);
    assert_eq!(
        state
            .lookup("app", TransportKind::Http1, "k", &allowed, 1)
            .as_deref(),
        Some("2.2.2.2:80")
    );
}

#[test]
fn nothing_is_kept_where_nothing_may_be() {
    let mut state = sessions(10_000, 0);
    state.bind("app", TransportKind::Http1, "k", "1.1.1.1:80".to_string(), 0);
    assert_eq!(found(&mut state, &["k"], 1), vec![false]);
}

#[test]
fn missing_key_stays_missing_until_it_is_bound() {
    let mut state = sessions(10_000, 100);
    let other = backends(&["2.2.2.2:80"]);
    state.bind("app", TransportKind::Http1, "k", "1.1.1.1:80".to_string(), 0);
    state.bind("app", TransportKind::Http1, "l", "1.1.1.1:80".to_string(), 0);
    assert_eq!(state.lookup("app", TransportKind::Http1, "k", &other, 1), None);
    assert_eq!(found(&mut state, &["k", "l"], 2), vec![false, true]);
    assert_eq!(found(&mut state, &["k", "l"], 3), vec![false, true]);
    state.bind("app", TransportKind::Http1, "k", "1.1.1.1:80".to_string(), 4);
    assert_eq!(found(&mut state, &["k", "l"], 5), vec![true, true]);
}

#[test]
fn affinity_keys_are_hexadecimal_and_differ() {
    let mut state = sessions(10_000, 100);
    assert_eq!(state.generate_affinity_key(255), "ff1");
    assert_eq!(state.generate_affinity_key(255), "ff2");
    assert_eq!(state.generate_affinity_key(0), "03");
}

#[test]
fn cookie_names_its_age() {
    let state = sessions(600_000, 100);
    assert_eq!(
        state.cookie_header_value("abc"),
        "nmt_affinity=abc; Max-Age=600; Path=/; HttpOnly; SameSite=Lax"
    );
}

#[test]
fn cookie_is_at_least_a_second_old_and_may_be_secure() {
    let state = StickySessionState::new(StickySessionConfig {
        enabled: true,
        cookie_name: "c".to_string(),
        header_name: "h".to_string(),
        ttl_ms: 999,
        max_entries: 1,
        cookie_secure: true,
    });
    assert_eq!(
        state.cookie_header_value("k"),
        "c=k; Max-Age=1; Path=/; HttpOnly; SameSite=Lax; Secure"
    );
    assert_eq!(state.config().ttl_ms, 999);
}
