//! Trusted wrappers around the digest, MAC, base64, random and address
//! crates that the logic calls mid-stream. Each contract states only what
//! the wrapped crate's own source and documentation give.

use vstd::prelude::*;
use hmac::{Mac, NewMac};
use rand::RngCore;

verus! {

/// The SHA-512 digest of a byte string.
pub uninterp spec fn sha512_of(data: Seq<u8>) -> Seq<u8>;

/// Relies on sha2's `Sha512`: a 64-byte digest depending on the input
/// bytes alone.
#[verifier::external_body]
pub fn sha512(data: &[u8]) -> (r: Vec<u8>)
    ensures
        r@ == sha512_of(data@),
        r@.len() == 64,
{
    let mut hasher = <sha2::Sha512 as sha2::Digest>::new();
    sha2::Digest::update(&mut hasher, data);
    sha2::Digest::finalize(hasher).as_slice().into()
}

/// The HMAC-SHA-512 tag for a key and message.
pub uninterp spec fn hmac_sha512_of(key: Seq<u8>, msg: Seq<u8>) -> Seq<u8>;

/// Relies on hmac's `Hmac<Sha512>`: a 64-byte tag depending on key and
/// message alone. `new_from_slice` accepts keys of any length for HMAC.
#[verifier::external_body]
pub fn hmac_sha512(key: &[u8], msg: &[u8]) -> (r: Vec<u8>)
    ensures
        r@ == hmac_sha512_of(key@, msg@),
        r@.len() == 64,
{
    let mut mac = hmac::Hmac::<sha2::Sha512>::new_from_slice(key).unwrap();
    mac.update(msg);
    mac.finalize().into_bytes().as_slice().into()
}

/// The URL-safe, unpadded base64 rendering of a byte string.
pub uninterp spec fn b64url_of(data: Seq<u8>) -> Seq<u8>;

/// What URL-safe unpadded base64 decoding yields: `None` exactly on
/// strings the decoder rejects.
pub uninterp spec fn b64url_decoded(s: Seq<u8>) -> Option<Seq<u8>>;

/// The length of the unpadded encoding: four digits per three bytes.
pub open spec fn b64url_len(n: nat) -> nat {
    4 * (n / 3) + (if n % 3 == 0 {
        0nat
    } else if n % 3 == 1 {
        2nat
    } else {
        3nat
    })
}

/// Relies on base64's `encode_config` with `URL_SAFE_NO_PAD`: the output
/// is ASCII from the URL-safe alphabet (never `;`), decodes back to the
/// input, and has the unpadded length.
#[verifier::external_body]
pub fn b64url_encode(data: &[u8]) -> (r: Vec<u8>)
    ensures
        r@ == b64url_of(data@),
        r@.len() == b64url_len(data@.len()),
        b64url_decoded(r@) == Some(data@),
        forall|i: int| 0 <= i < r@.len() ==> r@[i] != 59,
{
    base64::encode_config(data, base64::URL_SAFE_NO_PAD).into_bytes()
}

/// Relies on base64's `decode_config` with `URL_SAFE_NO_PAD`.
#[verifier::external_body]
pub fn b64url_decode(s: &[u8]) -> (r: Option<Vec<u8>>)
    ensures
        match r {
            Some(v) => b64url_decoded(s@) == Some(v@),
            None => b64url_decoded(s@) is None,
        },
{
    base64::decode_config(s, base64::URL_SAFE_NO_PAD).ok()
}

/// What standard-alphabet base64 decoding yields.
pub uninterp spec fn b64std_decoded(s: Seq<u8>) -> Option<Seq<u8>>;

/// Relies on base64's `decode_config` with `STANDARD` (the alphabet the
/// client uses for rasterised signature images).
#[verifier::external_body]
pub fn b64std_decode(s: &[u8]) -> (r: Option<Vec<u8>>)
    ensures
        match r {
            Some(v) => b64std_decoded(s@) == Some(v@),
            None => b64std_decoded(s@) is None,
        },
{
    base64::decode_config(s, base64::STANDARD).ok()
}

/// Relies on rand's `ThreadRng::fill_bytes`: fills the buffer; nothing is
/// promised of the values themselves.
#[verifier::external_body]
pub fn random_bytes(n: usize) -> (r: Vec<u8>)
    ensures
        r@.len() == n,
{
    let mut v = vec![0u8; n];
    rand::thread_rng().fill_bytes(&mut v);
    v
}

/// Whether lettre accepts a byte string as an email address.
pub uninterp spec fn email_ok(s: Seq<u8>) -> bool;

/// Relies on lettre's `Address` parser (its `FromStr`): acceptance depends
/// on the bytes alone.
#[verifier::external_body]
pub fn email_valid(s: &[u8]) -> (r: bool)
    ensures
        r == email_ok(s@),
{
    match std::str::from_utf8(s) {
        Ok(t) => t.parse::<lettre::Address>().is_ok(),
        Err(_) => false,
    }
}

/// Relies on uuid's `Uuid::new_v4`: a fresh random identifier; its version
/// nibble is 4.
#[verifier::external_body]
pub fn fresh_uuid() -> (r: u128)
    ensures
        (r >> 76) & 0xf == 4,
{
    uuid::Uuid::new_v4().as_u128()
}

} // verus!
