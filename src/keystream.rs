//! A stream construction: subkeys from HKDF over the key and a nonce, a
//! SHA-256 counter keystream, a key file of at least the data's length, and
//! an HMAC over `nonce || ciphertext`.

use vstd::prelude::*;
use vstd::string::StringSliceAdditionalSpecFns;
use crate::codec::append_bytes;
use crate::feistel::digest_prefix;
use crate::primitives::{
    generate_random_bytes, wipe_slice, hkdf_sha256, hkdf_sha256_of, hmac_sha256, hmac_sha256_verify, sha256,
    tag_spec,
};

verus! {

/// Size of the nonce that starts a sealed message.
pub const NONCE_SIZE: usize = 16;

/// Size of the tag that ends a sealed message.
pub const MAC_SIZE: usize = 32;

/// HKDF info for the keystream subkey: the ASCII bytes of `encryption_subkey`.
pub const ENCRYPTION_INFO: [u8; 17] = [
    101, 110, 99, 114, 121, 112, 116, 105, 111, 110, 95, 115, 117, 98, 107, 101, 121,
];

/// HKDF info for the tag subkey: the ASCII bytes of `hmac_subkey`.
pub const HMAC_INFO: [u8; 11] = [104, 109, 97, 99, 95, 115, 117, 98, 107, 101, 121];

/// Why sealing or opening a message failed.
#[derive(Debug, Clone, Copy, PartialEq, Eq, Structural)]
pub enum StreamError {
    /// The key file is shorter than the data it must cover.
    KeyTooShort,
    /// The message is shorter than a nonce and a tag together.
    TruncatedInput,
    /// The tag does not match the nonce and ciphertext.
    IntegrityFailure,
}

/// The eight big-endian bytes of `x`.
pub open spec fn be_bytes(x: u64) -> Seq<u8> {
    Seq::new(8, |k: int| ((x >> ((56 - 8 * k) as u64)) & 0xff) as u8)
}

/// Keystream block number `counter`.
pub open spec fn keystream_block(subkey: Seq<u8>, nonce: Seq<u8>, counter: u64) -> Seq<u8> {
    digest_prefix(subkey + nonce + be_bytes(counter), 32)
}

/// The first `length` keystream bytes.
pub open spec fn keystream_spec(subkey: Seq<u8>, nonce: Seq<u8>, length: nat) -> Seq<u8> {
    Seq::new(length, |i: int| keystream_block(subkey, nonce, (i / 32) as u64)[i % 32])
}

/// Every input byte combined with the key byte and keystream byte at the same position.
pub open spec fn triple_xor(input: Seq<u8>, key: Seq<u8>, keystream: Seq<u8>) -> Seq<u8> {
    Seq::new(input.len(), |i: int| input[i] ^ key[i] ^ keystream[i])
}

/// The keystream subkey for a key and nonce.
pub open spec fn encryption_subkey(key: Seq<u8>, nonce: Seq<u8>) -> Seq<u8> {
    hkdf_sha256_of(nonce, key, ENCRYPTION_INFO@)
}

/// The tag subkey for a key and nonce.
pub open spec fn hmac_subkey(key: Seq<u8>, nonce: Seq<u8>) -> Seq<u8> {
    hkdf_sha256_of(nonce, key, HMAC_INFO@)
}

/// A sealed message: nonce, ciphertext, and the tag over both.
pub open spec fn seal_spec(key: Seq<u8>, input: Seq<u8>, nonce: Seq<u8>) -> Seq<u8> {
    let ks = keystream_spec(encryption_subkey(key, nonce), nonce, input.len());
    let body = nonce + triple_xor(input, key, ks);
    body + tag_spec(hmac_subkey(key, nonce), body)
}

/// What opening `data` with `key` yields.
pub open spec fn open_spec(key: Seq<u8>, data: Seq<u8>) -> Result<Seq<u8>, StreamError> {
    if data.len() < 48 {
        Err(StreamError::TruncatedInput)
    } else if key.len() < data.len() - 48 {
        Err(StreamError::KeyTooShort)
    } else {
        let nonce = data.subrange(0, 16);
        let body = data.subrange(0, data.len() - 32);
        let ct = data.subrange(16, data.len() - 32);
        if data.subrange(data.len() - 32, data.len() as int) != tag_spec(hmac_subkey(key, nonce), body) {
            Err(StreamError::IntegrityFailure)
        } else {
            Ok(triple_xor(ct, key, keystream_spec(encryption_subkey(key, nonce), nonce, ct.len())))
        }
    }
}

/// The big-endian bytes of a counter.
pub fn u64_to_be_bytes(x: u64) -> (r: [u8; 8])
    ensures
        r@ == be_bytes(x),
{
    let mut out: [u8; 8] = [0u8; 8];
    let mut k: usize = 0;
    while k < 8
        invariant
            k <= 8,
            out@.len() == 8,
            forall|m: int| 0 <= m < k ==> out@[m] == be_bytes(x)[m],
        decreases 8 - k,
    {
        let shift: u64 = (56 - 8 * k) as u64;
        out[k] = ((x >> shift) & 0xff) as u8;
        k = k + 1;
    }
    assert(out@ =~= be_bytes(x));
    out
}

/// Derives the keystream subkey and the tag subkey from a master key, with
/// the nonce as HKDF salt.
pub fn derive_subkeys_with_hkdf(master_key: &[u8], salt: &[u8]) -> (r: (Vec<u8>, Vec<u8>))
    ensures
        r.0@ == encryption_subkey(master_key@, salt@),
        r.1@ == hmac_subkey(master_key@, salt@),
        r.0@.len() == 32,
        r.1@.len() == 32,
{
    let enc = hkdf_sha256(salt, master_key, &ENCRYPTION_INFO);
    let mac = hkdf_sha256(salt, master_key, &HMAC_INFO);
    let mut encryption_subkey: Vec<u8> = Vec::with_capacity(32);
    append_bytes(&mut encryption_subkey, &enc);
    let mut hmac_subkey: Vec<u8> = Vec::with_capacity(32);
    append_bytes(&mut hmac_subkey, &mac);
    (encryption_subkey, hmac_subkey)
}

/// Produces `length` keystream bytes: block `n` is the SHA-256 digest of
/// `subkey || nonce || n` with `n` as eight big-endian bytes, and only as
/// much of the last block as is needed is kept.
pub fn generate_keystream(encryption_subkey: &[u8], nonce: &[u8], length: usize) -> (r: Vec<u8>)
    requires
        encryption_subkey@.len() + nonce@.len() + 8 <= usize::MAX,
    ensures
        r@ == keystream_spec(encryption_subkey@, nonce@, length as nat),
{
    let ghost full = keystream_spec(encryption_subkey@, nonce@, length as nat);
    let mut keystream: Vec<u8> = Vec::with_capacity(length);
    let mut counter: u64 = 0;
    let mut produced: usize = 0;
    while produced < length
        invariant
            produced == keystream@.len(),
            produced <= length,
            produced < length ==> produced == 32 * counter,
            full == keystream_spec(encryption_subkey@, nonce@, length as nat),
            keystream@ == full.subrange(0, produced as int),
        decreases length - produced,
    {
        let mut input: Vec<u8> = Vec::new();
        append_bytes(&mut input, encryption_subkey);
        append_bytes(&mut input, nonce);
        let counter_bytes = u64_to_be_bytes(counter);
        append_bytes(&mut input, &counter_bytes);
        let hash = sha256(input.as_slice());
        let take: usize = if length - produced < 32 { length - produced } else { 32 };
        let mut j: usize = 0;
        while j < take
            invariant
                j <= take <= 32,
                produced + take <= length,
                produced == 32 * counter,
                hash@ == sha256_of_block(encryption_subkey@, nonce@, counter),
                keystream@.len() == produced + j,
                full == keystream_spec(encryption_subkey@, nonce@, length as nat),
                keystream@ == full.subrange(0, produced + j),
            decreases take - j,
        {
            proof {
                let i = produced + j;
                assert(i / 32 == counter as int);
                assert(i % 32 == j as int);
            }
            keystream.push(hash[j]);
            j = j + 1;
        }
        produced = produced + take;
        counter = counter + 1;
    }
    keystream
}

/// The full digest behind keystream block `counter`.
pub open spec fn sha256_of_block(subkey: Seq<u8>, nonce: Seq<u8>, counter: u64) -> Seq<u8> {
    crate::primitives::sha256_of(subkey + nonce + be_bytes(counter))
}

/// Appends every input byte combined with the key and keystream bytes at the
/// same position.
pub fn xor_with_key_and_keystream(input: &[u8], key: &[u8], keystream: &[u8], output: &mut Vec<u8>)
    requires
        key@.len() >= input@.len(),
        keystream@.len() >= input@.len(),
    ensures
        final(output)@ == old(output)@ + triple_xor(input@, key@, keystream@),
{
    let mut i: usize = 0;
    while i < input.len()
        invariant
            i <= input@.len(),
            key@.len() >= input@.len(),
            keystream@.len() >= input@.len(),
            output@ == old(output)@ + triple_xor(input@, key@, keystream@).subrange(0, i as int),
        decreases input@.len() - i,
    {
        output.push(input[i] ^ key[i] ^ keystream[i]);
        i = i + 1;
    }
}

/// The HMAC-SHA-256 tag of `data` under `key`.
pub fn generate_hmac(key: &[u8], data: &[u8]) -> (r: Vec<u8>)
    ensures
        r@ == tag_spec(key@, data@),
{
    let tag = hmac_sha256(key, data);
    let mut out: Vec<u8> = Vec::with_capacity(32);
    append_bytes(&mut out, &tag);
    assert(out@ =~= tag_spec(key@, data@));
    out
}

/// Whether `received_mac` is the HMAC-SHA-256 tag of `data` under `key`.
pub fn verify_hmac(key: &[u8], data: &[u8], received_mac: &[u8]) -> (r: bool)
    ensures
        r == (received_mac@ == tag_spec(key@, data@)),
{
    hmac_sha256_verify(key, data, received_mac)
}

/// Seals `input` with a key file at least as long and the given 16-byte
/// nonce: `nonce || input ^ key ^ keystream || tag`.
pub fn seal_with_nonce(key: &[u8], input: &[u8], nonce: &[u8]) -> (r: Result<Vec<u8>, StreamError>)
    requires
        nonce@.len() == NONCE_SIZE,
        input@.len() + 48 <= usize::MAX,
    ensures
        match r {
            Ok(v) => key@.len() >= input@.len() && v@ == seal_spec(key@, input@, nonce@),
            Err(e) => key@.len() < input@.len() && e == StreamError::KeyTooShort,
        },
{
    if key.len() < input.len() {
        return Err(StreamError::KeyTooShort);
    }
    let (encryption_subkey, hmac_subkey) = derive_subkeys_with_hkdf(key, nonce);
    let keystream = generate_keystream(encryption_subkey.as_slice(), nonce, input.len());
    let mut output: Vec<u8> = Vec::with_capacity(input.len() + NONCE_SIZE + MAC_SIZE);
    append_bytes(&mut output, nonce);
    xor_with_key_and_keystream(input, key, keystream.as_slice(), &mut output);
    let mac = generate_hmac(hmac_subkey.as_slice(), output.as_slice());
    append_bytes(&mut output, mac.as_slice());
    Ok(output)
}

/// Seals `input` with a fresh random nonce.
pub fn seal(key: &[u8], input: &[u8]) -> (r: Result<Vec<u8>, StreamError>)
    requires
        input@.len() + 48 <= usize::MAX,
    ensures
        match r {
            Ok(v) => key@.len() >= input@.len() && v@.len() >= NONCE_SIZE && v@ == seal_spec(
                key@,
                input@,
                v@.subrange(0, NONCE_SIZE as int),
            ),
            Err(e) => key@.len() < input@.len() && e == StreamError::KeyTooShort,
        },
{
    let nonce = generate_random_bytes(NONCE_SIZE);
    let r = seal_with_nonce(key, input, nonce.as_slice());
    if let Ok(v) = &r {
        assert(v@.subrange(0, 16) =~= nonce@);
    }
    r
}

/// Opens a sealed message: checks its length, that the key file covers the
/// ciphertext, and the tag, and only then removes key and keystream.
pub fn open_sealed(key: &[u8], data: &[u8]) -> (r: Result<Vec<u8>, StreamError>)
    ensures
        match r {
            Ok(v) => open_spec(key@, data@) == Ok::<Seq<u8>, StreamError>(v@),
            Err(e) => open_spec(key@, data@) == Err::<Seq<u8>, StreamError>(e),
        },
{
    if data.len() < NONCE_SIZE + MAC_SIZE {
        return Err(StreamError::TruncatedInput);
    }
    let len: usize = data.len();
    if key.len() < len - NONCE_SIZE - MAC_SIZE {
        return Err(StreamError::KeyTooShort);
    }
    let nonce = crate::codec::copy_range(data, 0, NONCE_SIZE);
    let body = crate::codec::copy_range(data, 0, len - MAC_SIZE);
    let ciphertext = crate::codec::copy_range(data, NONCE_SIZE, len - MAC_SIZE);
    let received = crate::codec::copy_range(data, len - MAC_SIZE, len);
    let (encryption_subkey, hmac_subkey) = derive_subkeys_with_hkdf(key, nonce.as_slice());
    if !verify_hmac(hmac_subkey.as_slice(), body.as_slice(), received.as_slice()) {
        return Err(StreamError::IntegrityFailure);
    }
    let keystream = generate_keystream(encryption_subkey.as_slice(), nonce.as_slice(), ciphertext.len());
    let mut output: Vec<u8> = Vec::new();
    xor_with_key_and_keystream(ciphertext.as_slice(), key, keystream.as_slice(), &mut output);
    assert(output@ =~= triple_xor(ciphertext@, key@, keystream@));
    Ok(output)
}

/// Opening what was sealed with the same key gives the input back.
pub proof fn lemma_seal_open(key: Seq<u8>, input: Seq<u8>, nonce: Seq<u8>)
    requires
        nonce.len() == 16,
        key.len() >= input.len(),
    ensures
        open_spec(key, seal_spec(key, input, nonce)) == Ok::<Seq<u8>, StreamError>(input),
{
    let ks = keystream_spec(encryption_subkey(key, nonce), nonce, input.len());
    let ct = triple_xor(input, key, ks);
    let body = nonce + ct;
    let tag = tag_spec(hmac_subkey(key, nonce), body);
    let data = body + tag;
    let len = data.len();
    assert(data.subrange(0, 16) =~= nonce);
    assert(data.subrange(0, len - 32) =~= body);
    assert(data.subrange(16, len - 32) =~= ct);
    assert(data.subrange(len - 32, len as int) =~= tag);
    assert forall|i: int| 0 <= i < input.len() implies #[trigger] triple_xor(ct, key, ks)[i] == input[i] by {
        let x = input[i];
        let k = key[i];
        let s = ks[i];
        assert(x ^ k ^ s ^ k ^ s == x) by (bit_vector);
    }
    assert(triple_xor(ct, key, ks) =~= input);
}

/// The eight little-endian bytes of `x`.
pub open spec fn le_bytes(x: u64) -> Seq<u8> {
    Seq::new(8, |k: int| ((x >> ((8 * k) as u64)) & 0xff) as u8)
}

/// The first `length` bytes of the digests of `password || n`, for
/// `n = 0, 1, ...` written as eight little-endian bytes.
pub open spec fn expand_key_spec(password: Seq<u8>, length: nat) -> Seq<u8> {
    Seq::new(length, |i: int| digest_prefix(password + le_bytes((i / 32) as u64), 32)[i % 32])
}

/// The little-endian bytes of a counter.
pub fn u64_to_le_bytes(x: u64) -> (r: [u8; 8])
    ensures
        r@ == le_bytes(x),
{
    let mut out: [u8; 8] = [0u8; 8];
    let mut k: usize = 0;
    while k < 8
        invariant
            k <= 8,
            out@.len() == 8,
            forall|m: int| 0 <= m < k ==> out@[m] == le_bytes(x)[m],
        decreases 8 - k,
    {
        let shift: u64 = (8 * k) as u64;
        out[k] = ((x >> shift) & 0xff) as u8;
        k = k + 1;
    }
    assert(out@ =~= le_bytes(x));
    out
}

/// Stretches a password to `length` bytes by hashing it with a block counter.
pub fn expand_key(password: &str, length: usize) -> (r: Vec<u8>)
    requires
        password.spec_bytes().len() + 8 <= usize::MAX,
    ensures
        r@ == expand_key_spec(password.spec_bytes(), length as nat),
{
    let bytes = password.as_bytes();
    let ghost full = expand_key_spec(bytes@, length as nat);
    let mut key: Vec<u8> = Vec::with_capacity(length);
    let mut block_count: u64 = 0;
    let mut produced: usize = 0;
    while produced < length
        invariant
            produced == key@.len(),
            produced <= length,
            produced < length ==> produced == 32 * block_count,
            full == expand_key_spec(bytes@, length as nat),
            key@ == full.subrange(0, produced as int),
        decreases length - produced,
    {
        let mut input: Vec<u8> = Vec::new();
        append_bytes(&mut input, bytes);
        let counter_bytes = u64_to_le_bytes(block_count);
        append_bytes(&mut input, &counter_bytes);
        let hash = sha256(input.as_slice());
        let take: usize = if length - produced < 32 { length - produced } else { 32 };
        let mut j: usize = 0;
        while j < take
            invariant
                j <= take <= 32,
                produced + take <= length,
                produced == 32 * block_count,
                hash@ == crate::primitives::sha256_of(bytes@ + le_bytes(block_count)),
                key@.len() == produced + j,
                full == expand_key_spec(bytes@, length as nat),
                key@ == full.subrange(0, produced + j),
            decreases take - j,
        {
            proof {
                let i = produced + j;
                assert(i / 32 == block_count as int);
                assert(i % 32 == j as int);
            }
            key.push(hash[j]);
            j = j + 1;
        }
        produced = produced + take;
        block_count = block_count + 1;
    }
    key
}

/// Overwrites every byte of every buffer with zero, keeping their lengths.
pub fn zeroize_slices(slices: &mut Vec<Vec<u8>>)
    ensures
        final(slices)@.len() == old(slices)@.len(),
        forall|k: int| 0 <= k < final(slices)@.len() ==> #[trigger] final(slices)@[k]@ == Seq::new(
            old(slices)@[k]@.len(),
            |i: int| 0u8,
        ),
{
    let mut i: usize = 0;
    while i < slices.len()
        invariant
            i <= slices@.len(),
            slices@.len() == old(slices)@.len(),
            forall|k: int| 0 <= k < i ==> #[trigger] slices@[k]@ == Seq::new(old(slices)@[k]@.len(), |j: int| 0u8),
            forall|k: int| i <= k < slices@.len() ==> #[trigger] slices@[k] == old(slices)@[k],
        decreases slices@.len() - i,
    {
        wipe_slice(slices[i].as_mut_slice());
        i = i + 1;
    }
}

} // verus!
