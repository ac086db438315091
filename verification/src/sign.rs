//! Signing and verification of messages with HMAC-SHA256.
//!
//! The signature covers the exact bytes of the payload, through their SHA-256
//! digest, together with the message's type, timestamp and nonce.

use hmac::Mac;
use sha2::Digest;
use subtle::ConstantTimeEq;
use vstd::prelude::*;
use vstd::string::*;

use crate::text;

verus! {

/// The SHA-256 digest of a byte string.
pub uninterp spec fn sha256(data: Seq<u8>) -> Seq<u8>;

/// The HMAC-SHA256 tag of a message under a key.
pub uninterp spec fn hmac_sha256(key: Seq<u8>, message: Seq<u8>) -> Seq<u8>;

/// `sha2::Sha256::digest`: the digest is a function of the data alone and has
/// thirty-two bytes.
#[verifier::external_body]
fn sha256_digest(data: &[u8]) -> (digest: Vec<u8>)
    ensures
        digest@ == sha256(data@),
        digest@.len() == 32,
{
    sha2::Sha256::digest(data).to_vec()
}

/// `hmac::Hmac::<Sha256>`, keyed, fed with the message and finalized: the tag
/// is a function of key and message alone and has thirty-two bytes. A key of
/// any length is accepted.
#[verifier::external_body]
fn hmac_tag(key: &[u8], message: &[u8]) -> (tag: Vec<u8>)
    ensures
        tag@ == hmac_sha256(key@, message@),
        tag@.len() == 32,
{
    let mut mac = hmac::Hmac::<sha2::Sha256>::new_from_slice(key).expect("HMAC accepts a key of any length");
    mac.update(message);
    mac.finalize().into_bytes().to_vec()
}

/// The lower-case hexadecimal digit of a number below sixteen.
pub open spec fn hex_digit(d: int) -> char {
    if d < 10 {
        (('0' as int) + d) as char
    } else {
        (('a' as int) + d - 10) as char
    }
}

/// The lower-case hexadecimal text of a byte string: two digits per byte, the
/// high one first.
pub open spec fn hex_text(data: Seq<u8>) -> Seq<char> {
    Seq::new(
        2 * data.len(),
        |i: int| if i % 2 == 0 { hex_digit(data[i / 2] as int / 16) } else { hex_digit(data[i / 2] as int % 16) },
    )
}

/// `hex::encode`: two lower-case hexadecimal digits per byte, the high one
/// first.
#[verifier::external_body]
pub(crate) fn hex_encode(data: &[u8]) -> (out: String)
    ensures
        out@ == hex_text(data@),
{
    hex::encode(data)
}

/// `subtle::ConstantTimeEq::ct_eq` on byte slices: whether the two hold the
/// same bytes.
#[verifier::external_body]
fn constant_time_eq(a: &[u8], b: &[u8]) -> (equal: bool)
    ensures
        equal == (a@ == b@),
{
    a.ct_eq(b).into()
}

/// The text that a signature covers: type, timestamp, nonce and the digest of
/// the payload, separated by dots.
pub open spec fn canonical(kind: Seq<char>, timestamp: int, nonce: Seq<char>, payload: Seq<u8>) -> Seq<char> {
    kind + seq!['.'] + text::signed_decimal(timestamp) + seq!['.'] + nonce + seq!['.'] + hex_text(sha256(payload))
}

/// The signature of a message: the hexadecimal tag of its canonical text.
pub open spec fn signature(
    secret: Seq<u8>,
    kind: Seq<char>,
    timestamp: int,
    nonce: Seq<char>,
    payload: Seq<u8>,
) -> Seq<char> {
    hex_text(hmac_sha256(secret, vstd::utf8::encode_utf8(canonical(kind, timestamp, nonce, payload))))
}

/// Builds the text that gets signed.
pub fn canonical_string(kind: &str, timestamp: i64, nonce: &str, payload_bytes: &[u8]) -> (out: String)
    ensures
        out@ == canonical(kind@, timestamp as int, nonce@, payload_bytes@),
{
    let payload_hash: String = hex_encode(sha256_digest(payload_bytes).as_slice());
    let stamp: String = text::signed_decimal_text(timestamp);
    let mut out: String = kind.to_owned();
    out.push('.');
    out.append(stamp.as_str());
    out.push('.');
    out.append(nonce);
    out.push('.');
    out.append(payload_hash.as_str());
    assert(out@ =~= canonical(kind@, timestamp as int, nonce@, payload_bytes@));
    out
}

/// Returns the hexadecimal HMAC-SHA256 signature of the given fields.
pub fn sign(secret: &[u8], kind: &str, timestamp: i64, nonce: &str, payload_bytes: &[u8]) -> (sig: String)
    ensures
        sig@ == signature(secret@, kind@, timestamp as int, nonce@, payload_bytes@),
        sig@.len() == 64,
{
    let covered: String = canonical_string(kind, timestamp, nonce, payload_bytes);
    let tag: Vec<u8> = hmac_tag(secret, covered.as_str().as_bytes());
    hex_encode(tag.as_slice())
}

/// Verifies a signature against the given fields, in constant time.
pub fn verify(
    secret: &[u8],
    kind: &str,
    timestamp: i64,
    nonce: &str,
    payload_bytes: &[u8],
    sig_hex: &str,
) -> (valid: bool)
    ensures
        valid == (sig_hex@ == signature(secret@, kind@, timestamp as int, nonce@, payload_bytes@)),
{
    let expected: String = sign(secret, kind, timestamp, nonce, payload_bytes);
    let valid: bool = constant_time_eq(expected.as_str().as_bytes(), sig_hex.as_bytes());
    proof {
        vstd::utf8::encode_utf8_decode_utf8(expected@);
        vstd::utf8::encode_utf8_decode_utf8(sig_hex@);
    }
    valid
}

/// Splitting at the first dot recovers what stands before and after it.
proof fn lemma_split_at_dot(a: Seq<char>, x: Seq<char>, b: Seq<char>, y: Seq<char>)
    requires
        !a.contains('.'),
        !b.contains('.'),
        a + seq!['.'] + x == b + seq!['.'] + y,
    ensures
        a == b,
        x == y,
{
    let left = a + seq!['.'] + x;
    let right = b + seq!['.'] + y;
    if a.len() < b.len() {
        assert(left[a.len() as int] == '.');
        assert(right[a.len() as int] == b[a.len() as int]);
    } else if b.len() < a.len() {
        assert(right[b.len() as int] == '.');
        assert(left[b.len() as int] == a[b.len() as int]);
    }
    assert(a =~= left.take(a.len() as int));
    assert(b =~= right.take(b.len() as int));
    assert(x =~= left.skip(a.len() as int + 1));
    assert(y =~= right.skip(b.len() as int + 1));
}

/// A decimal numeral holds no dot.
proof fn lemma_decimal_has_no_dot(i: int)
    ensures
        !text::signed_decimal(i).contains('.'),
{
    text::lemma_decimal_chars(if i < 0 { (-i) as nat } else { i as nat });
    if text::signed_decimal(i).contains('.') {
        let k = choose|k: int| 0 <= k < text::signed_decimal(i).len() && text::signed_decimal(i)[k] == '.';
        if i < 0 {
            if k > 0 {
                assert(text::signed_decimal(i)[k] == text::decimal((-i) as nat)[k - 1]);
            }
        }
    }
}

/// Hexadecimal text holds no dot.
pub proof fn lemma_hex_text_has_no_dot(data: Seq<u8>)
    ensures
        !hex_text(data).contains('.'),
{
    if hex_text(data).contains('.') {
        let k = choose|k: int| 0 <= k < hex_text(data).len() && hex_text(data)[k] == '.';
        let d = if k % 2 == 0 {
            data[k / 2] as int / 16
        } else {
            data[k / 2] as int % 16
        };
        assert(hex_text(data)[k] == hex_digit(d));
        assert(0 <= d < 16);
    }
}

/// Hexadecimal text names one byte string only.
pub proof fn lemma_hex_text_injective(a: Seq<u8>, b: Seq<u8>)
    requires
        hex_text(a) == hex_text(b),
    ensures
        a == b,
{
    assert(hex_text(a).len() == 2 * a.len());
    assert(hex_text(b).len() == 2 * b.len());
    assert forall|k: int| 0 <= k < a.len() implies a[k] == b[k] by {
        assert(hex_text(a)[2 * k] == hex_text(b)[2 * k]);
        assert(hex_text(a)[2 * k + 1] == hex_text(b)[2 * k + 1]);
        assert(hex_text(a)[2 * k] == hex_digit(a[k] as int / 16));
        assert(hex_text(a)[2 * k + 1] == hex_digit(a[k] as int % 16));
        assert(hex_text(b)[2 * k] == hex_digit(b[k] as int / 16));
        assert(hex_text(b)[2 * k + 1] == hex_digit(b[k] as int % 16));
    }
    assert(a =~= b);
}

/// The signed text pins every field down: two messages whose types and nonces
/// hold no dot have the same canonical text only if their types, timestamps,
/// nonces and payload digests are the same. So a signature made for one type
/// is never computed over the text of another.
pub proof fn law_canonical_text_separates_fields(
    kind_a: Seq<char>,
    timestamp_a: int,
    nonce_a: Seq<char>,
    payload_a: Seq<u8>,
    kind_b: Seq<char>,
    timestamp_b: int,
    nonce_b: Seq<char>,
    payload_b: Seq<u8>,
)
    requires
        !kind_a.contains('.'),
        !nonce_a.contains('.'),
        !kind_b.contains('.'),
        !nonce_b.contains('.'),
        canonical(kind_a, timestamp_a, nonce_a, payload_a) == canonical(kind_b, timestamp_b, nonce_b, payload_b),
    ensures
        kind_a == kind_b,
        timestamp_a == timestamp_b,
        nonce_a == nonce_b,
        sha256(payload_a) == sha256(payload_b),
{
    let ha = hex_text(sha256(payload_a));
    let hb = hex_text(sha256(payload_b));
    let ta = text::signed_decimal(timestamp_a);
    let tb = text::signed_decimal(timestamp_b);
    let dot = seq!['.'];
    assert(canonical(kind_a, timestamp_a, nonce_a, payload_a) =~= kind_a + dot + (ta + dot + (nonce_a + dot + ha)));
    assert(canonical(kind_b, timestamp_b, nonce_b, payload_b) =~= kind_b + dot + (tb + dot + (nonce_b + dot + hb)));
    lemma_decimal_has_no_dot(timestamp_a);
    lemma_decimal_has_no_dot(timestamp_b);
    lemma_split_at_dot(kind_a, ta + dot + (nonce_a + dot + ha), kind_b, tb + dot + (nonce_b + dot + hb));
    lemma_split_at_dot(ta, nonce_a + dot + ha, tb, nonce_b + dot + hb);
    lemma_split_at_dot(nonce_a, ha, nonce_b, hb);
    text::lemma_signed_decimal_injective(timestamp_a, timestamp_b);
    lemma_hex_text_injective(sha256(payload_a), sha256(payload_b));
}

/// A signature is the tag of one text: the type, the timestamp in decimal, the
/// nonce and the hexadecimal digest of the payload, in this order and with a dot
/// between each two, under the secret as the key.
pub proof fn law_signature_is_the_tag_of_all_fields(
    secret: Seq<u8>,
    kind: Seq<char>,
    timestamp: int,
    nonce: Seq<char>,
    payload: Seq<u8>,
)
    ensures
        signature(secret, kind, timestamp, nonce, payload) == hex_text(
            hmac_sha256(
                secret,
                vstd::utf8::encode_utf8(
                    kind.push('.') + text::signed_decimal(timestamp).push('.') + nonce.push('.') + hex_text(
                        sha256(payload),
                    ),
                ),
            ),
        ),
{
    assert(canonical(kind, timestamp, nonce, payload) =~= kind.push('.') + text::signed_decimal(timestamp).push('.')
        + nonce.push('.') + hex_text(sha256(payload)));
}

} // verus!
