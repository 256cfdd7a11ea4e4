//! A key-file XOR cipher whose integrity tag is kept apart from the data:
//! the tag is an HMAC over `plaintext || length`, the length as eight
//! little-endian bytes, and the ciphertext is the plaintext XOR a key at
//! least as long.

use vstd::prelude::*;
use crate::codec::append_bytes;
use crate::keystream::{le_bytes, u64_to_le_bytes};
use crate::primitives::{hmac_sha256, tag_spec};

verus! {

/// Why the key-file cipher refused to go on.
#[derive(Debug, Clone, Copy, PartialEq, Eq, Structural)]
pub enum XorError {
    /// The XOR key is shorter than the data.
    KeyTooShort,
    /// The stored tag does not match the recovered plaintext.
    IntegrityFailure,
}

/// The tag over `data` followed by its length.
pub open spec fn length_tag_spec(mac_key: Seq<u8>, data: Seq<u8>) -> Seq<u8> {
    tag_spec(mac_key, data + le_bytes(data.len() as u64))
}

/// `data` XOR the first `data.len()` bytes of `key`.
pub open spec fn key_xor(data: Seq<u8>, key: Seq<u8>) -> Seq<u8> {
    Seq::new(data.len(), |i: int| data[i] ^ key[i])
}

/// Computes the HMAC over `data || length`.
pub fn length_bound_tag(mac_key: &[u8], data: &[u8]) -> (r: Vec<u8>)
    requires
        data@.len() + 8 <= usize::MAX,
    ensures
        r@ == length_tag_spec(mac_key@, data@),
{
    let mut input: Vec<u8> = Vec::with_capacity(data.len() + 8);
    append_bytes(&mut input, data);
    let len_bytes = u64_to_le_bytes(data.len() as u64);
    append_bytes(&mut input, &len_bytes);
    let tag = hmac_sha256(mac_key, input.as_slice());
    let mut out: Vec<u8> = Vec::with_capacity(32);
    append_bytes(&mut out, &tag);
    assert(out@ =~= length_tag_spec(mac_key@, data@));
    out
}

/// XORs `data` in place with the start of `key`, which must be at least as
/// long; a short key leaves `data` untouched.
pub fn xor_with_key(data: &mut Vec<u8>, key: &[u8]) -> (r: Result<(), XorError>)
    ensures
        match r {
            Ok(()) => key@.len() >= old(data)@.len() && final(data)@ == key_xor(old(data)@, key@),
            Err(e) => key@.len() < old(data)@.len() && e == XorError::KeyTooShort && final(data)@
                == old(data)@,
        },
{
    if key.len() < data.len() {
        return Err(XorError::KeyTooShort);
    }
    let mut i: usize = 0;
    while i < data.len()
        invariant
            i <= data@.len(),
            data@.len() == old(data)@.len(),
            key@.len() >= data@.len(),
            forall|m: int| 0 <= m < i ==> data@[m] == old(data)@[m] ^ key@[m],
            forall|m: int| i <= m < data@.len() ==> data@[m] == old(data)@[m],
        decreases data@.len() - i,
    {
        let b = data[i] ^ key[i];
        data.set(i, b);
        i = i + 1;
    }
    assert(data@ =~= key_xor(old(data)@, key@));
    Ok(())
}

/// Whether two byte sequences are equal.
pub(crate) fn bytes_equal(a: &[u8], b: &[u8]) -> (r: bool)
    ensures
        r == (a@ == b@),
{
    if a.len() != b.len() {
        return false;
    }
    let mut i: usize = 0;
    while i < a.len()
        invariant
            i <= a@.len(),
            a@.len() == b@.len(),
            forall|m: int| 0 <= m < i ==> a@[m] == b@[m],
        decreases a@.len() - i,
    {
        if a[i] != b[i] {
            return false;
        }
        i = i + 1;
    }
    assert(a@ =~= b@);
    true
}

/// Encrypts `plaintext`: returns the ciphertext and the tag to store beside it.
pub fn encrypt_with_tag(plaintext: &[u8], xor_key: &[u8], mac_key: &[u8]) -> (r: Result<
    (Vec<u8>, Vec<u8>),
    XorError,
>)
    requires
        plaintext@.len() + 8 <= usize::MAX,
    ensures
        match r {
            Ok((ct, tag)) => xor_key@.len() >= plaintext@.len() && ct@ == key_xor(plaintext@, xor_key@)
                && tag@ == length_tag_spec(mac_key@, plaintext@),
            Err(e) => xor_key@.len() < plaintext@.len() && e == XorError::KeyTooShort,
        },
{
    if xor_key.len() < plaintext.len() {
        return Err(XorError::KeyTooShort);
    }
    let tag = length_bound_tag(mac_key, plaintext);
    let mut data: Vec<u8> = Vec::with_capacity(plaintext.len());
    append_bytes(&mut data, plaintext);
    match xor_with_key(&mut data, xor_key) {
        Ok(()) => Ok((data, tag)),
        Err(e) => Err(e),
    }
}

/// What decrypting `ciphertext` against `stored_tag` yields.
pub open spec fn decrypt_with_tag_spec(
    ciphertext: Seq<u8>,
    stored_tag: Seq<u8>,
    xor_key: Seq<u8>,
    mac_key: Seq<u8>,
) -> Result<Seq<u8>, XorError> {
    if xor_key.len() < ciphertext.len() {
        Err(XorError::KeyTooShort)
    } else if length_tag_spec(mac_key, key_xor(ciphertext, xor_key)) != stored_tag {
        Err(XorError::IntegrityFailure)
    } else {
        Ok(key_xor(ciphertext, xor_key))
    }
}

/// Decrypts `ciphertext` and checks the recovered plaintext against the
/// stored tag; nothing is returned unless the tag matches.
pub fn decrypt_with_tag(ciphertext: &[u8], stored_tag: &[u8], xor_key: &[u8], mac_key: &[u8]) -> (r:
    Result<Vec<u8>, XorError>)
    requires
        ciphertext@.len() + 8 <= usize::MAX,
    ensures
        match r {
            Ok(p) => decrypt_with_tag_spec(ciphertext@, stored_tag@, xor_key@, mac_key@) == Ok::<
                Seq<u8>,
                XorError,
            >(p@),
            Err(e) => decrypt_with_tag_spec(ciphertext@, stored_tag@, xor_key@, mac_key@) == Err::<
                Seq<u8>,
                XorError,
            >(e),
        },
{
    let mut data: Vec<u8> = Vec::with_capacity(ciphertext.len());
    append_bytes(&mut data, ciphertext);
    match xor_with_key(&mut data, xor_key) {
        Ok(()) => {},
        Err(e) => {
            return Err(e);
        },
    }
    let recomputed = length_bound_tag(mac_key, data.as_slice());
    if !bytes_equal(recomputed.as_slice(), stored_tag) {
        return Err(XorError::IntegrityFailure);
    }
    Ok(data)
}

/// Checks a freshly written ciphertext: it must decrypt to a plaintext that
/// matches the stored tag.
pub fn verify_ciphertext(ciphertext: &[u8], stored_tag: &[u8], xor_key: &[u8], mac_key: &[u8]) -> (r:
    Result<(), XorError>)
    requires
        ciphertext@.len() + 8 <= usize::MAX,
    ensures
        match r {
            Ok(()) => decrypt_with_tag_spec(ciphertext@, stored_tag@, xor_key@, mac_key@) is Ok,
            Err(e) => decrypt_with_tag_spec(ciphertext@, stored_tag@, xor_key@, mac_key@) == Err::<
                Seq<u8>,
                XorError,
            >(e),
        },
{
    match decrypt_with_tag(ciphertext, stored_tag, xor_key, mac_key) {
        Ok(_) => Ok(()),
        Err(e) => Err(e),
    }
}

/// Checks a freshly written plaintext against the stored tag.
pub fn verify_plaintext(plaintext: &[u8], stored_tag: &[u8], mac_key: &[u8]) -> (r: Result<(), XorError>)
    requires
        plaintext@.len() + 8 <= usize::MAX,
    ensures
        match r {
            Ok(()) => length_tag_spec(mac_key@, plaintext@) == stored_tag@,
            Err(e) => length_tag_spec(mac_key@, plaintext@) != stored_tag@ && e
                == XorError::IntegrityFailure,
        },
{
    let recomputed = length_bound_tag(mac_key, plaintext);
    if bytes_equal(recomputed.as_slice(), stored_tag) {
        Ok(())
    } else {
        Err(XorError::IntegrityFailure)
    }
}

/// Decrypting what `encrypt_with_tag` produced, with the same keys, gives
/// the plaintext back.
pub proof fn lemma_tagged_round_trip(plaintext: Seq<u8>, xor_key: Seq<u8>, mac_key: Seq<u8>)
    requires
        xor_key.len() >= plaintext.len(),
    ensures
        decrypt_with_tag_spec(
            key_xor(plaintext, xor_key),
            length_tag_spec(mac_key, plaintext),
            xor_key,
            mac_key,
        ) == Ok::<Seq<u8>, XorError>(plaintext),
{
    let ct = key_xor(plaintext, xor_key);
    assert forall|i: int| 0 <= i < plaintext.len() implies #[trigger] key_xor(ct, xor_key)[i] == plaintext[i] by {
        let x = plaintext[i];
        let k = xor_key[i];
        assert(x ^ k ^ k == x) by (bit_vector);
    }
    assert(key_xor(ct, xor_key) =~= plaintext);
}

} // verus!
