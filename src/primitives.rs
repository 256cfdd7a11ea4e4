//! The outside cryptographic primitives that the library relies on, each
//! behind one trusted item whose contract names what it computes.

use vstd::prelude::*;
use sha2::Digest;
use hmac::Mac;
use rand::RngCore;
use rand::seq::SliceRandom;

verus! {

/// The SHA-256 digest of a byte sequence.
pub uninterp spec fn sha256_of(data: Seq<u8>) -> Seq<u8>;

/// Relies on `sha2::Sha256::digest`: the 32-byte digest depends on the input bytes alone.
#[verifier::external_body]
pub(crate) fn sha256(data: &[u8]) -> (r: [u8; 32])
    ensures
        r@ == sha256_of(data@),
{
    sha2::Sha256::digest(data).into()
}

/// The HMAC-SHA-256 tag of `data` under `key`.
pub uninterp spec fn hmac_sha256_of(key: Seq<u8>, data: Seq<u8>) -> Seq<u8>;

/// The 32-byte HMAC-SHA-256 tag of `data` under `key`.
pub open spec fn tag_spec(key: Seq<u8>, data: Seq<u8>) -> Seq<u8> {
    Seq::new(32, |i: int| hmac_sha256_of(key, data)[i])
}

/// Relies on `hmac::Hmac<Sha256>`: `new_from_slice` accepts a key of any
/// length, and the 32-byte tag depends on the key and the data alone.
#[verifier::external_body]
pub(crate) fn hmac_sha256(key: &[u8], data: &[u8]) -> (r: [u8; 32])
    ensures
        r@ == hmac_sha256_of(key@, data@),
{
    let mut mac = hmac::Hmac::<sha2::Sha256>::new_from_slice(key).expect("HMAC takes keys of any size");
    mac.update(data);
    mac.finalize().into_bytes().into()
}

/// Relies on `rand::thread_rng().fill_bytes`: any sixteen bytes may come back.
#[verifier::external_body]
pub(crate) fn generate_iv() -> (r: [u8; 16]) {
    let mut iv = [0u8; 16];
    rand::thread_rng().fill_bytes(&mut iv);
    iv
}

/// Relies on `hmac::Mac::verify_slice`: it accepts exactly the full 32-byte
/// tag of `data` under `key`, compared in constant time.
#[verifier::external_body]
pub(crate) fn hmac_sha256_verify(key: &[u8], data: &[u8], tag: &[u8]) -> (r: bool)
    ensures
        r == (tag@ == tag_spec(key@, data@)),
{
    let mut mac = hmac::Hmac::<sha2::Sha256>::new_from_slice(key).expect("HMAC takes keys of any size");
    mac.update(data);
    mac.verify_slice(tag).is_ok()
}

/// The first 32 bytes of HKDF-SHA-256 output for a salt, input key material
/// and info string.
pub uninterp spec fn hkdf_sha256_of(salt: Seq<u8>, ikm: Seq<u8>, info: Seq<u8>) -> Seq<u8>;

/// Relies on `hkdf::Hkdf::<Sha256>::new(Some(salt), ikm).expand(info, ..)`:
/// 32 bytes of output never exceed the limit of 255 digests, and they depend
/// on salt, key material and info alone.
#[verifier::external_body]
pub(crate) fn hkdf_sha256(salt: &[u8], ikm: &[u8], info: &[u8]) -> (r: [u8; 32])
    ensures
        r@ == hkdf_sha256_of(salt@, ikm@, info@),
{
    let mut okm = [0u8; 32];
    hkdf::Hkdf::<sha2::Sha256>::new(Some(salt), ikm).expand(info, &mut okm).expect("32 bytes is a valid length");
    okm
}

/// Relies on `rand::rngs::OsRng.fill_bytes`: `size` bytes from the operating
/// system, of any value.
#[verifier::external_body]
pub(crate) fn generate_random_bytes(size: usize) -> (r: Vec<u8>)
    ensures
        r@.len() == size,
{
    let mut buffer = vec![0u8; size];
    rand::rngs::OsRng.fill_bytes(&mut buffer);
    buffer
}

/// Relies on `rand::seq::SliceRandom::shuffle` with `thread_rng`: the same
/// bytes come back in some order.
#[verifier::external_body]
pub(crate) fn shuffle_bytes(v: &mut [u8; 256])
    ensures
        final(v)@.to_multiset() == old(v)@.to_multiset(),
{
    v.shuffle(&mut rand::thread_rng());
}

/// Relies on `zeroize::Zeroize` for byte slices: every byte is overwritten
/// with zero and the length stays.
#[verifier::external_body]
pub(crate) fn wipe_slice(s: &mut [u8])
    ensures
        final(s)@ == Seq::new(old(s)@.len(), |i: int| 0u8),
{
    zeroize::Zeroize::zeroize(s);
}

} // verus!
