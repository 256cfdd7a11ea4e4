//! Repeating-key ciphers: the key, and optionally a nonce, are repeated over
//! the length of the data.

use vstd::prelude::*;
use vstd::string::StringSliceAdditionalSpecFns;
use crate::primitives::shuffle_bytes;
use crate::spn::AES_SBOX;

verus! {

/// Every byte of `data` combined with the key and nonce bytes at the same
/// position, both repeated.
pub open spec fn cyclic_xor(data: Seq<u8>, key: Seq<u8>, nonce: Seq<u8>) -> Seq<u8> {
    Seq::new(data.len(), |i: int| data[i] ^ key[i % (key.len() as int)] ^ nonce[i % (nonce.len() as int)])
}

/// Every byte of `data` combined with the key byte at the same position, the
/// key repeated.
pub open spec fn repeat_xor(data: Seq<u8>, key: Seq<u8>) -> Seq<u8> {
    Seq::new(data.len(), |i: int| data[i] ^ key[i % (key.len() as int)])
}

/// `pattern` repeated up to `length` bytes.
pub open spec fn repeat_to(pattern: Seq<u8>, length: nat) -> Seq<u8> {
    Seq::new(length, |i: int| pattern[i % (pattern.len() as int)])
}

/// Combines `data` with a repeated key and a repeated nonce; applying it
/// twice with the same key and nonce gives the data back.
pub fn xor_encrypt_decrypt(data: &[u8], key: &[u8], nonce: &[u8]) -> (r: Vec<u8>)
    requires
        key@.len() > 0,
        nonce@.len() > 0,
    ensures
        r@ == cyclic_xor(data@, key@, nonce@),
{
    let mut output: Vec<u8> = Vec::with_capacity(data.len());
    let mut i: usize = 0;
    while i < data.len()
        invariant
            i <= data@.len(),
            key@.len() > 0,
            nonce@.len() > 0,
            output@ == cyclic_xor(data@, key@, nonce@).subrange(0, i as int),
        decreases data@.len() - i,
    {
        output.push(data[i] ^ key[i % key.len()] ^ nonce[i % nonce.len()]);
        i = i + 1;
    }
    output
}

/// Combines `data` with a repeated key.
pub fn xor_process(data: &[u8], key: &[u8]) -> (r: Vec<u8>)
    requires
        key@.len() > 0,
    ensures
        r@ == repeat_xor(data@, key@),
{
    let mut output: Vec<u8> = Vec::with_capacity(data.len());
    let mut i: usize = 0;
    while i < data.len()
        invariant
            i <= data@.len(),
            key@.len() > 0,
            output@ == repeat_xor(data@, key@).subrange(0, i as int),
        decreases data@.len() - i,
    {
        output.push(data[i] ^ key[i % key.len()]);
        i = i + 1;
    }
    output
}

/// Stretches a password to `length` bytes by repeating its UTF-8 bytes.
pub fn generate_key(password: &str, length: usize) -> (r: Vec<u8>)
    requires
        length == 0 || password@.len() > 0,
    ensures
        r@ == repeat_to(password.spec_bytes(), length as nat),
{
    let bytes = password.as_bytes();
    if length > 0 {
        proof {
            lemma_nonempty_bytes(password@);
        }
    }
    let mut key: Vec<u8> = Vec::with_capacity(length);
    let mut i: usize = 0;
    while i < length
        invariant
            i <= length,
            bytes@ == password.spec_bytes(),
            length > 0 ==> bytes@.len() > 0,
            key@ == repeat_to(bytes@, length as nat).subrange(0, i as int),
        decreases length - i,
    {
        key.push(bytes[i % bytes.len()]);
        i = i + 1;
    }
    key
}

/// A string with characters has bytes.
proof fn lemma_nonempty_bytes(s: Seq<char>)
    requires
        s.len() > 0,
    ensures
        vstd::utf8::encode_utf8(s).len() > 0,
{
    assert(vstd::utf8::encode_utf8(s) == vstd::utf8::encode_scalar(s[0] as u32) + vstd::utf8::encode_utf8(
        s.drop_first(),
    ));
}

/// Repeating a pattern-derived key twice restores the data.
pub proof fn lemma_cyclic_twice(data: Seq<u8>, key: Seq<u8>, nonce: Seq<u8>)
    requires
        key.len() > 0,
        nonce.len() > 0,
    ensures
        cyclic_xor(cyclic_xor(data, key, nonce), key, nonce) == data,
{
    let once = cyclic_xor(data, key, nonce);
    assert forall|i: int| 0 <= i < data.len() implies #[trigger] cyclic_xor(once, key, nonce)[i] == data[i] by {
        let x = data[i];
        let k = key[i % (key.len() as int)];
        let n = nonce[i % (nonce.len() as int)];
        assert(x ^ k ^ n ^ k ^ n == x) by (bit_vector);
    }
    assert(cyclic_xor(once, key, nonce) =~= data);
}

/// All byte values in increasing order.
pub open spec fn all_bytes() -> Seq<u8> {
    Seq::new(256, |i: int| i as u8)
}

/// Each byte of `order` sent through the AES S-box.
pub open spec fn sbox_of(order: Seq<u8>) -> Seq<u8> {
    Seq::new(order.len(), |i: int| AES_SBOX@[order[i] as int])
}

/// Sends every byte of an ordering of the byte values through the AES S-box.
pub fn sbox_nonce_from_order(order: &[u8; 256]) -> (r: [u8; 256])
    ensures
        r@ == sbox_of(order@),
{
    let mut nonce: [u8; 256] = [0u8; 256];
    let mut i: usize = 0;
    while i < 256
        invariant
            i <= 256,
            nonce@.len() == 256,
            forall|m: int| 0 <= m < i ==> nonce@[m] == AES_SBOX@[order@[m] as int],
        decreases 256 - i,
    {
        nonce[i] = AES_SBOX[order[i] as usize];
        i = i + 1;
    }
    assert(nonce@ =~= sbox_of(order@));
    nonce
}

/// A 256-byte nonce: the byte values in random order, each sent through the
/// AES S-box, so every byte value occurs exactly once.
pub fn generate_sbox_nonce() -> (r: [u8; 256])
    ensures
        exists|order: Seq<u8>| order.to_multiset() == all_bytes().to_multiset() && r@ == sbox_of(order),
{
    let mut order: [u8; 256] = [0u8; 256];
    let mut i: usize = 0;
    while i < 256
        invariant
            i <= 256,
            order@.len() == 256,
            forall|m: int| 0 <= m < i ==> order@[m] == m as u8,
        decreases 256 - i,
    {
        order[i] = i as u8;
        i = i + 1;
    }
    assert(order@ =~= all_bytes());
    shuffle_bytes(&mut order);
    let nonce = sbox_nonce_from_order(&order);
    assert(order@.to_multiset() == all_bytes().to_multiset() && nonce@ == sbox_of(order@));
    nonce
}

} // verus!
