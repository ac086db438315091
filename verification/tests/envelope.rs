use sky_daemon::envelope::{random_nonce, to_unix_seconds, Envelope, EnvelopeError, MAX_CLOCK_SKEW_SECS};
use sky_daemon::sign;

/// The JSON text of a payload with a number and a text.
fn dummy(a: i32, b: &str) -> String {
    let mut map = serde_json::Map::new();
    map.insert("a".to_string(), serde_json::Value::from(a));
    map.insert("b".to_string(), serde_json::Value::from(b));
    serde_json::Value::Object(map).to_string()
}

fn decode(text: &str) -> Result<(i64, String), String> {
    let value: serde_json::Value = serde_json::from_str(text).map_err(|e| e.to_string())?;
    let a = value["a"].as_i64().ok_or("a")?;
    let b = value["b"].as_str().ok_or("b")?;
    Ok((a, b.to_string()))
}

#[test]
fn signed_envelope_verifies_with_correct_secret() {
    let payload = dummy(1, "hi");
    let env = Envelope::signed(b"secret", "event", &payload).unwrap();
    assert!(env.verify(b"secret"));
}

#[test]
fn signed_envelope_fails_with_wrong_secret() {
    let payload = dummy(1, "hi");
    let env = Envelope::signed(b"secret", "event", &payload).unwrap();
    assert!(!env.verify(b"wrong-secret"));
}

#[test]
fn decode_payload_round_trips() {
    let payload = dummy(42, "hello");
    let env = Envelope::signed(b"secret", "event", &payload).unwrap();
    let decoded = env.decode_payload(decode).unwrap();
    assert_eq!(decoded, (42, "hello".to_string()));
}

#[test]
fn stale_timestamp_fails_verification() {
    let payload = dummy(1, "hi");
    let mut env = Envelope::signed(b"secret", "event", &payload).unwrap();
    env.timestamp -= MAX_CLOCK_SKEW_SECS + 5;
    // The signature was computed with the original timestamp, so it is now also
    // invalid; but staleness alone must fail verification.
    assert!(!env.verify(b"secret"));
    assert!(!env.timestamp_is_fresh());
}

#[test]
fn two_signed_envelopes_get_distinct_nonces() {
    let payload = dummy(1, "hi");
    let a = Envelope::signed(b"secret", "event", &payload).unwrap();
    let b = Envelope::signed(b"secret", "event", &payload).unwrap();
    assert_ne!(a.nonce, b.nonce);
}

#[test]
fn freshness_reaches_thirty_seconds_both_ways() {
    let env = Envelope::signed_with(b"k", "event", 1_000, "n".to_string(), "{}").unwrap();
    assert!(env.is_fresh_at(1_030));
    assert!(!env.is_fresh_at(1_031));
    assert!(env.is_fresh_at(970));
    assert!(!env.is_fresh_at(969));
    assert!(env.verify_at(b"k", 1_030));
    assert!(!env.verify_at(b"k", 1_031));
}

#[test]
fn freshness_is_decided_at_the_ends_of_the_range() {
    let early = Envelope::signed_with(b"k", "event", i64::MIN, "n".to_string(), "{}").unwrap();
    assert!(!early.is_fresh_at(i64::MAX));
    assert!(early.is_fresh_at(i64::MIN));
    let late = Envelope::signed_with(b"k", "event", i64::MAX, "n".to_string(), "{}").unwrap();
    assert!(!late.is_fresh_at(i64::MIN));
    assert!(late.is_fresh_at(i64::MAX - 30));
}

#[test]
fn stale_but_properly_signed_envelope_is_refused() {
    let env = Envelope::signed_with(b"k", "event", 1_000, "n".to_string(), "{}").unwrap();
    assert!(sign::verify(b"k", "event", 1_000, "n", b"{}", &env.sig));
    assert!(!env.verify_at(b"k", 2_000));
}

#[test]
fn every_changed_field_breaks_the_signature() {
    let env = Envelope::signed_with(b"k", "event", 1_000, "n1".to_string(), "{\"x\":1}").unwrap();
    assert!(env.verify_at(b"k", 1_000));
    let mut kind = env.clone();
    kind.kind = "command".to_string();
    assert!(!kind.verify_at(b"k", 1_000));
    let mut timestamp = env.clone();
    timestamp.timestamp = 1_001;
    assert!(!timestamp.verify_at(b"k", 1_000));
    let mut nonce = env.clone();
    nonce.nonce = "n2".to_string();
    assert!(!nonce.verify_at(b"k", 1_000));
    let mut payload = env.clone();
    payload.payload = "{\"x\":2}".to_string();
    assert!(!payload.verify_at(b"k", 1_000));
    let mut sig = env.clone();
    sig.sig = sig.sig.replace(|c: char| c.is_ascii_digit(), "a");
    assert!(!sig.verify_at(b"k", 1_000));
}

#[test]
fn payload_that_is_no_json_is_refused() {
    match Envelope::signed(b"k", "event", "{not json") {
        Err(EnvelopeError::Serialize(_)) => {}
        Ok(_) => panic!("accepted a payload that is no JSON"),
    }
}

#[test]
fn white_space_around_a_payload_does_not_travel() {
    let env = Envelope::signed(b"k", "event", "  {\"a\": 1}\n").unwrap();
    assert_eq!(env.payload, "{\"a\": 1}");
    assert!(env.verify(b"k"));
}

#[test]
fn sealed_envelope_keeps_its_fields() {
    let env = Envelope::sealed(b"k", "ack", -5, "nonce".to_string(), "null".to_string());
    assert_eq!(env.kind, "ack");
    assert_eq!(env.timestamp, -5);
    assert_eq!(env.nonce, "nonce");
    assert_eq!(env.payload, "null");
    assert!(env.verify_at(b"k", 0));
}

#[test]
fn decoding_errors_are_passed_on() {
    let env = Envelope::sealed(b"k", "ack", 0, "n".to_string(), "[]".to_string());
    assert_eq!(env.decode_payload(decode), Err("a".to_string()));
}

#[test]
fn nonces_are_thirty_two_hexadecimal_digits() {
    let nonce = random_nonce();
    assert_eq!(nonce.len(), 32);
    assert!(nonce.chars().all(|c| c.is_ascii_digit() || ('a'..='f').contains(&c)));
}

#[test]
fn unix_seconds_count_from_the_start_of_1970() {
    assert_eq!(to_unix_seconds(true, 0), 0);
    assert_eq!(to_unix_seconds(true, 1_700_000_000), 1_700_000_000);
    assert_eq!(to_unix_seconds(false, 5), -5);
    assert_eq!(to_unix_seconds(true, u64::MAX), i64::MAX);
    assert_eq!(to_unix_seconds(false, u64::MAX), -i64::MAX);
}
