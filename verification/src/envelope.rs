//! The signed message of the wire, in both directions.
//!
//! The payload is kept as the JSON text that travels, so that a signature
//! always covers the exact bytes that were transmitted.

use rand::RngCore;
use std::time::{SystemTime, UNIX_EPOCH};
use vstd::prelude::*;
use vstd::string::*;

use crate::sign;
use crate::text;

verus! {

/// An error of the JSON parser.
#[verifier::external_type_specification]
#[verifier::external_body]
pub struct ExJsonError(serde_json::Error);

/// How far a timestamp may drift from the present, in either direction, and
/// still be accepted.
pub const MAX_CLOCK_SKEW_SECS: i64 = 30;

/// Every message on the wire.
#[derive(Debug, Clone)]
pub struct Envelope {
    /// The message's type.
    pub kind: String,
    /// Unix seconds.
    pub timestamp: i64,
    pub nonce: String,
    /// The payload as JSON text.
    pub payload: String,
    pub sig: String,
}

/// Why an envelope cannot be made.
#[derive(Debug)]
pub enum EnvelopeError {
    /// The payload is no JSON text.
    Serialize(serde_json::Error),
}

/// Whether a text is one JSON value, with white space around it allowed.
pub uninterp spec fn is_json(text: Seq<char>) -> bool;

/// `serde_json::value::RawValue::from_string`: succeeds on JSON texts alone,
/// which the text alone decides, and then gives the text without the white space
/// around it.
#[verifier::external_body]
fn raw_value(json: String) -> (out: Result<String, serde_json::Error>)
    ensures
        match out {
            Ok(raw) => is_json(json@) && raw@ == text::trim(json@),
            Err(_) => !is_json(json@),
        },
{
    serde_json::value::RawValue::from_string(json).map(|v| v.get().to_string())
}

/// `rand::thread_rng` and `RngCore::fill_bytes`: sixteen bytes, of which
/// nothing else is known.
#[verifier::external_body]
fn random_bytes() -> (out: [u8; 16]) {
    let mut bytes = [0u8; 16];
    rand::thread_rng().fill_bytes(&mut bytes);
    bytes
}

/// A reading of the system clock.
#[verifier::external_type_specification]
#[verifier::external_body]
pub struct ExSystemTime(std::time::SystemTime);

/// `std::time::SystemTime::now`: a reading of the system clock, of which nothing
/// is known.
#[verifier::external_body]
fn system_time() -> SystemTime {
    SystemTime::now()
}

/// `std::time::SystemTime::duration_since` the start of 1970: whether a reading
/// lies at or after it, and how many whole seconds away from it. Of neither is
/// anything known.
#[verifier::external_body]
fn since_epoch(reading: SystemTime) -> (bool, u64) {
    match reading.duration_since(UNIX_EPOCH) {
        Ok(since) => (true, since.as_secs()),
        Err(until) => (false, until.duration().as_secs()),
    }
}

/// The Unix seconds of a moment at so many whole seconds from the start of 1970:
/// counted forwards at or after it and backwards before it, and held at the end
/// of the range where they exceed it.
pub open spec fn unix_seconds(after: bool, secs: u64) -> int {
    let magnitude = if secs <= i64::MAX {
        secs as int
    } else {
        i64::MAX as int
    };
    if after {
        magnitude
    } else {
        -magnitude
    }
}

/// Counts the Unix seconds of a moment, given how it lies to the start of 1970.
pub fn to_unix_seconds(after: bool, secs: u64) -> (seconds: i64)
    ensures
        seconds == unix_seconds(after, secs),
{
    let magnitude: i64 = if secs <= i64::MAX as u64 {
        secs as i64
    } else {
        i64::MAX
    };
    if after {
        magnitude
    } else {
        -magnitude
    }
}

/// Whether a number is the Unix seconds of some reading of the system clock.
pub open spec fn is_moment(seconds: int) -> bool {
    exists|after: bool, secs: u64| seconds == #[trigger] unix_seconds(after, secs)
}

/// The present, in Unix seconds: those of some reading of the system clock. Which
/// reading that is, is not known.
fn now_unix() -> (seconds: i64)
    ensures
        is_moment(seconds as int),
{
    let (after, secs): (bool, u64) = since_epoch(system_time());
    let seconds: i64 = to_unix_seconds(after, secs);
    assert(seconds == unix_seconds(after, secs));
    seconds
}

/// Whether a text is the lower-case hexadecimal form of sixteen bytes.
pub open spec fn is_nonce(nonce: Seq<char>) -> bool {
    exists|bytes: Seq<u8>| bytes.len() == 16 && nonce == #[trigger] sign::hex_text(bytes)
}

/// A nonce: thirty-two hexadecimal digits drawn at random.
pub fn random_nonce() -> (nonce: String)
    ensures
        is_nonce(nonce@),
        nonce@.len() == 32,
        !nonce@.contains('.'),
{
    let bytes: [u8; 16] = random_bytes();
    let nonce: String = sign::hex_encode(bytes.as_slice());
    assert(bytes@.len() == 16 && nonce@ == sign::hex_text(bytes@));
    proof {
        sign::lemma_hex_text_has_no_dot(bytes@);
    }
    nonce
}

/// Whether a timestamp is close enough to the present.
pub open spec fn fresh(timestamp: int, now: int) -> bool {
    -MAX_CLOCK_SKEW_SECS <= now - timestamp <= MAX_CLOCK_SKEW_SECS
}

impl Envelope {
    /// Whether the signature is the one that `secret` gives for the envelope's
    /// other fields.
    pub open spec fn authentic(&self, secret: Seq<u8>) -> bool {
        self.sig@ == sign::signature(
            secret,
            self.kind@,
            self.timestamp as int,
            self.nonce@,
            vstd::utf8::encode_utf8(self.payload@),
        )
    }

    /// Builds and signs a new envelope that carries the JSON text `payload`,
    /// with `secret` as the key.
    pub fn signed(secret: &[u8], kind: &str, payload: &str) -> (out: Result<Self, EnvelopeError>)
        ensures
            match out {
                Ok(envelope) => {
                    &&& is_json(payload@)
                    &&& envelope.payload@ == text::trim(payload@)
                    &&& carries(envelope, kind@, payload@)
                    &&& envelope.kind@ == kind@
                    &&& envelope.authentic(secret@)
                    &&& is_moment(envelope.timestamp as int)
                    &&& is_nonce(envelope.nonce@)
                    &&& envelope.nonce@.len() == 32
                    &&& !envelope.nonce@.contains('.')
                },
                Err(_) => !is_json(payload@),
            },
    {
        let timestamp: i64 = now_unix();
        let nonce: String = random_nonce();
        Envelope::signed_with(secret, kind, timestamp, nonce, payload)
    }

    /// `signed` with a given timestamp and nonce.
    pub fn signed_with(secret: &[u8], kind: &str, timestamp: i64, nonce: String, payload: &str) -> (out: Result<
        Self,
        EnvelopeError,
    >)
        ensures
            match out {
                Ok(envelope) => {
                    &&& is_json(payload@)
                    &&& envelope.payload@ == text::trim(payload@)
                    &&& carries(envelope, kind@, payload@)
                    &&& envelope.kind@ == kind@
                    &&& envelope.timestamp == timestamp
                    &&& envelope.nonce@ == nonce@
                    &&& envelope.authentic(secret@)
                },
                Err(_) => !is_json(payload@),
            },
    {
        match raw_value(payload.to_owned()) {
            Err(e) => Err(EnvelopeError::Serialize(e)),
            Ok(raw) => Ok(Envelope::sealed(secret, kind, timestamp, nonce, raw)),
        }
    }

    /// Signs the given fields as they are.
    pub fn sealed(secret: &[u8], kind: &str, timestamp: i64, nonce: String, payload: String) -> (envelope: Self)
        ensures
            envelope.kind@ == kind@,
            envelope.timestamp == timestamp,
            envelope.nonce == nonce,
            envelope.payload == payload,
            envelope.authentic(secret@),
    {
        let sig: String = sign::sign(secret, kind, timestamp, nonce.as_str(), payload.as_str().as_bytes());
        Envelope { kind: kind.to_owned(), timestamp, nonce, payload, sig }
    }

    /// Verifies the envelope's signature and the freshness of its timestamp.
    /// Does not check that the nonce is unique: that takes a memory of the
    /// nonces seen.
    pub fn verify(&self, secret: &[u8]) -> (valid: bool)
        ensures
            valid ==> self.authentic(secret@),
            exists|now: i64| valid == (#[trigger] fresh(self.timestamp as int, now as int) && self.authentic(secret@)),
    {
        let now: i64 = now_unix();
        let valid: bool = self.verify_at(secret, now);
        assert(valid == (fresh(self.timestamp as int, now as int) && self.authentic(secret@)));
        valid
    }

    /// `verify` at a given moment, in Unix seconds.
    pub fn verify_at(&self, secret: &[u8], now: i64) -> (valid: bool)
        ensures
            valid == (fresh(self.timestamp as int, now as int) && self.authentic(secret@)),
    {
        if !self.is_fresh_at(now) {
            return false;
        }
        sign::verify(
            secret,
            self.kind.as_str(),
            self.timestamp,
            self.nonce.as_str(),
            self.payload.as_str().as_bytes(),
            self.sig.as_str(),
        )
    }

    /// Whether the timestamp is close enough to the present.
    pub fn timestamp_is_fresh(&self) -> (r: bool)
        ensures
            exists|now: i64| r == #[trigger] fresh(self.timestamp as int, now as int),
    {
        let now: i64 = now_unix();
        self.is_fresh_at(now)
    }

    /// Whether the timestamp is close enough to a given moment, in Unix
    /// seconds.
    pub fn is_fresh_at(&self, now: i64) -> (r: bool)
        ensures
            r == fresh(self.timestamp as int, now as int),
    {
        match now.checked_sub(self.timestamp) {
            None => false,
            Some(drift) => -MAX_CLOCK_SKEW_SECS <= drift && drift <= MAX_CLOCK_SKEW_SECS,
        }
    }

    /// Hands the payload's text to a decoder.
    pub fn decode_payload<T, E, F: Fn(&str) -> Result<T, E>>(&self, decode: F) -> (out: Result<T, E>)
        requires
            forall|text: &str| #[trigger] decode.requires((text,)),
        ensures
            exists|text: &str| text@ == self.payload@ && #[trigger] decode.ensures((text,), out),
    {
        let text: &str = self.payload.as_str();
        decode(text)
    }
}

/// A signed envelope passes verification with the key that signed it for as
/// long as its timestamp is fresh, and never once it is stale.
pub proof fn law_signed_envelope_verifies(envelope: Envelope, secret: Seq<u8>, now: int)
    requires
        envelope.authentic(secret),
    ensures
        (fresh(envelope.timestamp as int, now) && envelope.authentic(secret)) <==> -30 <= now - envelope.timestamp
            <= 30,
{
}

/// The bytes that an envelope's signature covers.
pub open spec fn covered_bytes(envelope: Envelope) -> Seq<u8> {
    vstd::utf8::encode_utf8(
        sign::canonical(
            envelope.kind@,
            envelope.timestamp as int,
            envelope.nonce@,
            vstd::utf8::encode_utf8(envelope.payload@),
        ),
    )
}

/// A signature does not pass for another message: where two envelopes with the
/// same signature are both authentic, and their types and nonces hold no dot,
/// either they agree in type, timestamp, nonce and payload digest, or two
/// different byte strings have the same HMAC-SHA256 tag under the key.
pub proof fn law_signature_binds_every_field(a: Envelope, b: Envelope, secret: Seq<u8>)
    requires
        a.authentic(secret),
        b.authentic(secret),
        a.sig@ == b.sig@,
        !a.kind@.contains('.'),
        !a.nonce@.contains('.'),
        !b.kind@.contains('.'),
        !b.nonce@.contains('.'),
    ensures
        sign::hmac_sha256(secret, covered_bytes(a)) == sign::hmac_sha256(secret, covered_bytes(b)),
        covered_bytes(a) == covered_bytes(b) ==> {
            &&& a.kind@ == b.kind@
            &&& a.timestamp == b.timestamp
            &&& a.nonce@ == b.nonce@
            &&& sign::sha256(vstd::utf8::encode_utf8(a.payload@)) == sign::sha256(
                vstd::utf8::encode_utf8(b.payload@),
            )
        },
{
    sign::lemma_hex_text_injective(
        sign::hmac_sha256(secret, covered_bytes(a)),
        sign::hmac_sha256(secret, covered_bytes(b)),
    );
    let pa = vstd::utf8::encode_utf8(a.payload@);
    let pb = vstd::utf8::encode_utf8(b.payload@);
    let ca = sign::canonical(a.kind@, a.timestamp as int, a.nonce@, pa);
    let cb = sign::canonical(b.kind@, b.timestamp as int, b.nonce@, pb);
    if covered_bytes(a) == covered_bytes(b) {
        vstd::utf8::encode_utf8_decode_utf8(ca);
        vstd::utf8::encode_utf8_decode_utf8(cb);
        sign::law_canonical_text_separates_fields(
            a.kind@,
            a.timestamp as int,
            a.nonce@,
            pa,
            b.kind@,
            b.timestamp as int,
            b.nonce@,
            pb,
        );
    }
}

/// An envelope is authentic exactly if its signature is the one that the secret
/// gives for its own type, timestamp, nonce and the bytes of its payload.
pub proof fn law_authentic_means_signed_over_all_fields(envelope: Envelope, secret: Seq<u8>)
    ensures
        envelope.authentic(secret) <==> envelope.sig@ == sign::hex_text(
            sign::hmac_sha256(
                secret,
                vstd::utf8::encode_utf8(
                    envelope.kind@.push('.') + text::signed_decimal(envelope.timestamp as int).push('.')
                        + envelope.nonce@.push('.') + sign::hex_text(
                        sign::sha256(vstd::utf8::encode_utf8(envelope.payload@)),
                    ),
                ),
            ),
        ),
{
    sign::law_signature_is_the_tag_of_all_fields(
        secret,
        envelope.kind@,
        envelope.timestamp as int,
        envelope.nonce@,
        vstd::utf8::encode_utf8(envelope.payload@),
    );
}

/// A timestamp is fresh exactly within thirty seconds of the present, before it or
/// behind it.
pub proof fn law_fresh_means_within_thirty_seconds(timestamp: int, now: int)
    ensures
        fresh(timestamp, now) <==> timestamp - 30 <= now <= timestamp + 30,
        fresh(timestamp, now) <==> fresh(now, timestamp),
{
}

/// Unix seconds count from the start of 1970, backwards before it, and stay at the
/// end of the range where they would exceed it.
pub proof fn law_unix_seconds_count_from_1970(secs: u64)
    ensures
        secs <= i64::MAX ==> unix_seconds(true, secs) == secs,
        secs > i64::MAX ==> unix_seconds(true, secs) == i64::MAX,
        unix_seconds(false, secs) == -unix_seconds(true, secs),
{
}

/// Whether an envelope is of a type and carries a JSON text.
pub open spec fn carries(envelope: Envelope, kind: Seq<char>, payload: Seq<char>) -> bool {
    &&& envelope.kind@ == kind
    &&& envelope.payload@ == text::trim(payload)
}

/// An envelope carries the whole text that it was made with, but for white space
/// around it: a text without such is carried as it is, and two of them under one
/// payload are the same.
pub proof fn law_payload_is_carried_whole(envelope: Envelope, kind: Seq<char>, a: Seq<char>, b: Seq<char>)
    requires
        carries(envelope, kind, a),
    ensures
        envelope.kind@ == kind,
        a.len() > 0 && !text::is_white_space(a[0]) && !text::is_white_space(a.last()) ==> envelope.payload@ == a,
        carries(envelope, kind, b) && text::trim(a) == a && text::trim(b) == b ==> a == b,
{
    text::law_trim_takes_white_space_only(a);
}

} // verus!
