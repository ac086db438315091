use sky_daemon::sign::{canonical_string, sign, verify};

#[test]
fn sign_and_verify_round_trip() {
    let secret = b"node-secret-token";
    let sig = sign(secret, "heartbeat", 1_700_000_000, "abc123", b"{\"ok\":true}");
    assert!(verify(secret, "heartbeat", 1_700_000_000, "abc123", b"{\"ok\":true}", &sig));
}

#[test]
fn verify_rejects_tampered_payload() {
    let secret = b"node-secret-token";
    let sig = sign(secret, "heartbeat", 1_700_000_000, "abc123", b"{\"ok\":true}");
    assert!(!verify(secret, "heartbeat", 1_700_000_000, "abc123", b"{\"ok\":false}", &sig));
}

#[test]
fn verify_rejects_wrong_secret() {
    let sig = sign(b"secret-a", "heartbeat", 1_700_000_000, "abc123", b"{}");
    assert!(!verify(b"secret-b", "heartbeat", 1_700_000_000, "abc123", b"{}", &sig));
}

#[test]
fn verify_rejects_replayed_nonce_with_different_type() {
    // Same nonce, timestamp and payload but another claimed type must not
    // validate against a signature computed for the original type: a captured
    // message could otherwise be replayed under a different envelope type.
    let secret = b"node-secret-token";
    let sig = sign(secret, "event", 1_700_000_000, "abc123", b"{}");
    assert!(!verify(secret, "heartbeat", 1_700_000_000, "abc123", b"{}", &sig));
}

#[test]
fn canonical_string_names_every_field() {
    assert_eq!(
        canonical_string("heartbeat", 1_700_000_000, "abc123", b"{\"ok\":true}"),
        "heartbeat.1700000000.abc123.4062edaf750fb8074e7e83e0c9028c94e32468a8b6f1614774328ef045150f93"
    );
}

#[test]
fn canonical_string_writes_negative_timestamps() {
    let text = canonical_string("event", i64::MIN, "n", b"");
    assert_eq!(
        text,
        "event.-9223372036854775808.n.e3b0c44298fc1c149afbf4c8996fb92427ae41e4649b934ca495991b7852b855"
    );
}

#[test]
fn signature_is_the_hexadecimal_tag() {
    assert_eq!(
        sign(b"node-secret-token", "heartbeat", 1_700_000_000, "abc123", b"{\"ok\":true}"),
        "06605a4f15e2f222433024aed315b7b8c6b27ac4bbb05cbf5f097faf605c74fd"
    );
}

#[test]
fn verify_rejects_shortened_and_upper_case_signatures() {
    let sig = sign(b"k", "event", 1, "n", b"{}");
    assert!(!verify(b"k", "event", 1, "n", b"{}", &sig[1..]));
    assert!(!verify(b"k", "event", 1, "n", b"{}", &sig.to_ascii_uppercase()));
    assert!(!verify(b"k", "event", 1, "n", b"{}", ""));
}

#[test]
fn keys_of_any_length_are_accepted() {
    let long = vec![7u8; 1000];
    let sig = sign(&long, "event", 1, "n", b"{}");
    assert!(verify(&long, "event", 1, "n", b"{}", &sig));
    let none = sign(b"", "event", 1, "n", b"{}");
    assert!(verify(b"", "event", 1, "n", b"{}", &none));
    assert_ne!(sig, none);
}

#[test]
fn distinct_fields_are_signed_as_distinct_texts() {
    // Moving a character over a separator gives another text.
    let a = canonical_string("event", 12, "3", b"{}");
    let b = canonical_string("event", 1, "23", b"{}");
    assert_ne!(a, b);
}
