//! What the session service is asked: the server hash that proves the
//! client holds the shared secret, and the player's UUID in its answer.
use vstd::prelude::*;

use crate::data_types::{be_value, pow256, Uuid};

verus! {

#[verifier::external_type_specification]
#[verifier::external_body]
pub struct ExUuidError(uuid::Error);

/// The SHA-1 digest of some bytes.
pub uninterp spec fn sha1_of(data: Seq<u8>) -> Seq<u8>;

/// Relies on `openssl::sha::sha1`: the 20-byte SHA-1 digest of `data`,
/// which depends on the bytes alone.
#[verifier::external_body]
fn sha1_digest(data: &[u8]) -> (r: [u8; 20])
    ensures
        r@ == sha1_of(data@),
{
    openssl::sha::sha1(data)
}

/// Big-endian bytes read as a two's-complement integer.
pub open spec fn signed_be_value(b: Seq<u8>) -> int {
    if b.len() > 0 && b[0] >= 128 {
        be_value(b) - pow256(b.len())
    } else {
        be_value(b) as int
    }
}

/// The character of a lowercase hex digit.
pub open spec fn hex_digit(d: nat) -> char {
    if d < 10 {
        (48 + d) as char
    } else {
        (87 + d) as char
    }
}

/// The lowercase hex digits of `n`, without leading zeros (`0` for zero).
pub open spec fn hex_chars(n: nat) -> Seq<char>
    decreases n,
{
    if n < 16 {
        seq![hex_digit(n)]
    } else {
        hex_chars(n / 16).push(hex_digit(n % 16))
    }
}

/// The signed hex form of two's-complement bytes: a minus sign for a
/// negative number, then the magnitude's lowercase hex digits.
pub open spec fn signed_hex(b: Seq<u8>) -> Seq<char> {
    let v = signed_be_value(b);
    if v < 0 {
        seq!['-'] + hex_chars((-v) as nat)
    } else {
        hex_chars(v as nat)
    }
}

/// Relies on `num_bigint`: `BigInt::from_signed_bytes_be` reads the bytes
/// as a big-endian two's-complement number, and its `LowerHex` prints a
/// minus sign for a negative number, then the magnitude in lowercase hex
/// without leading zeros.
#[verifier::external_body]
fn signed_hex_string(b: &[u8]) -> (r: String)
    ensures
        r@ == signed_hex(b@),
{
    format!("{:x}", num_bigint::BigInt::from_signed_bytes_be(b))
}

/// A digest in the session service's signed hex form.
pub fn digest_hex(digest: &[u8]) -> (r: String)
    ensures
        r@ == signed_hex(digest@),
{
    signed_hex_string(digest)
}

/// The server hash that the session service checks a join against: the
/// SHA-1 of the (empty) server id, the shared secret and the server's
/// public key, in signed hex.
pub fn server_hash(shared_secret: &[u8], public_key: &[u8]) -> (r: String)
    ensures
        r@ == signed_hex(sha1_of(shared_secret@ + public_key@)),
{
    let mut data: Vec<u8> = Vec::new();
    data.extend_from_slice(shared_secret);
    data.extend_from_slice(public_key);
    let digest = sha1_digest(data.as_slice());
    assert(data@ =~= shared_secret@ + public_key@);
    digest_hex(&digest)
}

/// The UUID that a text reads as, if any.
pub uninterp spec fn uuid_text_value(s: Seq<char>) -> Option<u128>;

/// Relies on `uuid::Uuid::parse_str`: whether and as what the text reads as
/// a UUID depends on the text alone.
#[verifier::external_body]
fn parse_uuid_text(s: &str) -> (r: Result<u128, uuid::Error>)
    ensures
        r is Ok <==> uuid_text_value(s@) is Some,
        r matches Ok(v) ==> uuid_text_value(s@) == Some(v),
{
    match uuid::Uuid::parse_str(s) {
        Ok(u) => Ok(u.as_u128()),
        Err(e) => Err(e),
    }
}

/// The player's UUID from the `id` that the session service answered with.
pub fn profile_uuid(id: &str) -> (r: Result<Uuid, uuid::Error>)
    ensures
        r is Ok <==> uuid_text_value(id@) is Some,
        r matches Ok(u) ==> uuid_text_value(id@) == Some(u@),
{
    match parse_uuid_text(id) {
        Ok(v) => Ok(Uuid::from_u128(v)),
        Err(e) => Err(e),
    }
}

} // verus!
