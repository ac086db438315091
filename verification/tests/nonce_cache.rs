use sky_daemon::nonce_cache::NonceCache;

const SECOND: u128 = 1_000_000_000;
const MILLISECOND: u128 = 1_000_000;

#[test]
fn first_use_of_a_nonce_is_accepted() {
    let mut cache = NonceCache::new(30 * SECOND);
    assert!(cache.check_and_record("abc"));
}

#[test]
fn replaying_the_same_nonce_is_rejected() {
    let mut cache = NonceCache::new(30 * SECOND);
    assert!(cache.check_and_record("abc"));
    assert!(!cache.check_and_record("abc"));
}

#[test]
fn distinct_nonces_are_independent() {
    let mut cache = NonceCache::new(30 * SECOND);
    assert!(cache.check_and_record("a"));
    assert!(cache.check_and_record("b"));
}

#[test]
fn a_nonce_is_accepted_again_after_the_ttl_expires() {
    let mut cache = NonceCache::new(20 * MILLISECOND);
    assert!(cache.check_and_record_at("abc", 0));
    assert!(cache.check_and_record_at("abc", 40 * MILLISECOND));
}

#[test]
fn a_nonce_expires_exactly_at_the_ttl() {
    let mut cache = NonceCache::new(10);
    assert!(cache.check_and_record_at("abc", 100));
    assert!(!cache.check_and_record_at("abc", 109));
    assert!(cache.check_and_record_at("abc", 110));
}

#[test]
fn a_rejected_nonce_is_not_remembered_for_longer() {
    let mut cache = NonceCache::new(10);
    assert!(cache.check_and_record_at("abc", 0));
    assert!(!cache.check_and_record_at("abc", 9));
    assert!(cache.check_and_record_at("abc", 10));
}

#[test]
fn a_cache_without_a_span_remembers_nothing() {
    let mut cache = NonceCache::new(0);
    assert!(cache.check_and_record_at("abc", 5));
    assert!(cache.check_and_record_at("abc", 5));
}

#[test]
fn a_nonce_stays_remembered_while_others_arrive() {
    let mut cache = NonceCache::new(1_000);
    assert!(cache.check_and_record_at("kept", 0));
    for i in 0..50u128 {
        assert!(cache.check_and_record_at(&format!("other-{}", i), i));
    }
    assert!(!cache.check_and_record_at("kept", 999));
}

#[test]
fn a_nonce_is_accepted_exactly_if_it_was_not_accepted_lately() {
    let ttl = 10u128;
    let mut cache = NonceCache::new(ttl);
    let mut history: Vec<(&str, u128)> = Vec::new();
    for (i, now) in [0u128, 3, 3, 9, 10, 12, 12, 13, 19, 20, 22, 22, 23, 40].into_iter().enumerate() {
        let nonce = ["a", "b", "c"][i * 2 % 3];
        let lately = history.iter().any(|(n, at)| *n == nonce && now - at < ttl);
        assert_eq!(cache.check_and_record_at(nonce, now), !lately);
        if !lately {
            history.push((nonce, now));
        }
    }
}

#[test]
fn the_clock_moves_between_checks() {
    // With a span of one nanosecond a nonce is forgotten by the time that the
    // clock has moved on.
    let mut cache = NonceCache::new(1);
    assert!(cache.check_and_record("abc"));
    let mut accepted = false;
    for _ in 0..1_000_000 {
        if cache.check_and_record("abc") {
            accepted = true;
            break;
        }
    }
    assert!(accepted);
}
