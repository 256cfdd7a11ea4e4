//! A substitution-permutation network over 16-byte blocks: pre-whitening
//! with the key, then per round the AES S-box, a fixed byte permutation and
//! a round key.

use vstd::prelude::*;

verus! {

/// Size of one block in bytes.
pub const SPN_BLOCK: usize = 16;

/// The AES S-box.
pub const AES_SBOX: [u8; 256] = [
    0x63, 0x7C, 0x77, 0x7B, 0xF2, 0x6B, 0x6F, 0xC5,
    0x30, 0x01, 0x67, 0x2B, 0xFE, 0xD7, 0xAB, 0x76,
    0xCA, 0x82, 0xC9, 0x7D, 0xFA, 0x59, 0x47, 0xF0,
    0xAD, 0xD4, 0xA2, 0xAF, 0x9C, 0xA4, 0x72, 0xC0,
    0xB7, 0xFD, 0x93, 0x26, 0x36, 0x3F, 0xF7, 0xCC,
    0x34, 0xA5, 0xE5, 0xF1, 0x71, 0xD8, 0x31, 0x15,
    0x04, 0xC7, 0x23, 0xC3, 0x18, 0x96, 0x05, 0x9A,
    0x07, 0x12, 0x80, 0xE2, 0xEB, 0x27, 0xB2, 0x75,
    0x09, 0x83, 0x2C, 0x1A, 0x1B, 0x6E, 0x5A, 0xA0,
    0x52, 0x3B, 0xD6, 0xB3, 0x29, 0xE3, 0x2F, 0x84,
    0x53, 0xD1, 0x00, 0xED, 0x20, 0xFC, 0xB1, 0x5B,
    0x6A, 0xCB, 0xBE, 0x39, 0x4A, 0x4C, 0x58, 0xCF,
    0xD0, 0xEF, 0xAA, 0xFB, 0x43, 0x4D, 0x33, 0x85,
    0x45, 0xF9, 0x02, 0x7F, 0x50, 0x3C, 0x9F, 0xA8,
    0x51, 0xA3, 0x40, 0x8F, 0x92, 0x9D, 0x38, 0xF5,
    0xBC, 0xB6, 0xDA, 0x21, 0x10, 0xFF, 0xF3, 0xD2,
    0xCD, 0x0C, 0x13, 0xEC, 0x5F, 0x97, 0x44, 0x17,
    0xC4, 0xA7, 0x7E, 0x3D, 0x64, 0x5D, 0x19, 0x73,
    0x60, 0x81, 0x4F, 0xDC, 0x22, 0x2A, 0x90, 0x88,
    0x46, 0xEE, 0xB8, 0x14, 0xDE, 0x5E, 0x0B, 0xDB,
    0xE0, 0x32, 0x3A, 0x0A, 0x49, 0x06, 0x24, 0x5C,
    0xC2, 0xD3, 0xAC, 0x62, 0x91, 0x95, 0xE4, 0x79,
    0xE7, 0xC8, 0x37, 0x6D, 0x8D, 0xD5, 0x4E, 0xA9,
    0x6C, 0x56, 0xF4, 0xEA, 0x65, 0x7A, 0xAE, 0x08,
    0xBA, 0x78, 0x25, 0x2E, 0x1C, 0xA6, 0xB4, 0xC6,
    0xE8, 0xDD, 0x74, 0x1F, 0x4B, 0xBD, 0x8B, 0x8A,
    0x70, 0x3E, 0xB5, 0x66, 0x48, 0x03, 0xF6, 0x0E,
    0x61, 0x35, 0x57, 0xB9, 0x86, 0xC1, 0x1D, 0x9E,
    0xE1, 0xF8, 0x98, 0x11, 0x69, 0xD9, 0x8E, 0x94,
    0x9B, 0x1E, 0x87, 0xE9, 0xCE, 0x55, 0x28, 0xDF,
    0x8C, 0xA1, 0x89, 0x0D, 0xBF, 0xE6, 0x42, 0x68,
    0x41, 0x99, 0x2D, 0x0F, 0xB0, 0x54, 0xBB, 0x16,
];

/// The inverse of the AES S-box.
pub const AES_INV_SBOX: [u8; 256] = [
    0x52, 0x09, 0x6A, 0xD5, 0x30, 0x36, 0xA5, 0x38,
    0xBF, 0x40, 0xA3, 0x9E, 0x81, 0xF3, 0xD7, 0xFB,
    0x7C, 0xE3, 0x39, 0x82, 0x9B, 0x2F, 0xFF, 0x87,
    0x34, 0x8E, 0x43, 0x44, 0xC4, 0xDE, 0xE9, 0xCB,
    0x54, 0x7B, 0x94, 0x32, 0xA6, 0xC2, 0x23, 0x3D,
    0xEE, 0x4C, 0x95, 0x0B, 0x42, 0xFA, 0xC3, 0x4E,
    0x08, 0x2E, 0xA1, 0x66, 0x28, 0xD9, 0x24, 0xB2,
    0x76, 0x5B, 0xA2, 0x49, 0x6D, 0x8B, 0xD1, 0x25,
    0x72, 0xF8, 0xF6, 0x64, 0x86, 0x68, 0x98, 0x16,
    0xD4, 0xA4, 0x5C, 0xCC, 0x5D, 0x65, 0xB6, 0x92,
    0x6C, 0x70, 0x48, 0x50, 0xFD, 0xED, 0xB9, 0xDA,
    0x5E, 0x15, 0x46, 0x57, 0xA7, 0x8D, 0x9D, 0x84,
    0x90, 0xD8, 0xAB, 0x00, 0x8C, 0xBC, 0xD3, 0x0A,
    0xF7, 0xE4, 0x58, 0x05, 0xB8, 0xB3, 0x45, 0x06,
    0xD0, 0x2C, 0x1E, 0x8F, 0xCA, 0x3F, 0x0F, 0x02,
    0xC1, 0xAF, 0xBD, 0x03, 0x01, 0x13, 0x8A, 0x6B,
    0x3A, 0x91, 0x11, 0x41, 0x4F, 0x67, 0xDC, 0xEA,
    0x97, 0xF2, 0xCF, 0xCE, 0xF0, 0xB4, 0xE6, 0x73,
    0x96, 0xAC, 0x74, 0x22, 0xE7, 0xAD, 0x35, 0x85,
    0xE2, 0xF9, 0x37, 0xE8, 0x1C, 0x75, 0xDF, 0x6E,
    0x47, 0xF1, 0x1A, 0x71, 0x1D, 0x29, 0xC5, 0x89,
    0x6F, 0xB7, 0x62, 0x0E, 0xAA, 0x18, 0xBE, 0x1B,
    0xFC, 0x56, 0x3E, 0x4B, 0xC6, 0xD2, 0x79, 0x20,
    0x9A, 0xDB, 0xC0, 0xFE, 0x78, 0xCD, 0x5A, 0xF4,
    0x1F, 0xDD, 0xA8, 0x33, 0x88, 0x07, 0xC7, 0x31,
    0xB1, 0x12, 0x10, 0x59, 0x27, 0x80, 0xEC, 0x5F,
    0x60, 0x51, 0x7F, 0xA9, 0x19, 0xB5, 0x4A, 0x0D,
    0x2D, 0xE5, 0x7A, 0x9F, 0x93, 0xC9, 0x9C, 0xEF,
    0xA0, 0xE0, 0x3B, 0x4D, 0xAE, 0x2A, 0xF5, 0xB0,
    0xC8, 0xEB, 0xBB, 0x3C, 0x83, 0x53, 0x99, 0x61,
    0x17, 0x2B, 0x04, 0x7E, 0xBA, 0x77, 0xD6, 0x26,
    0xE1, 0x69, 0x14, 0x63, 0x55, 0x21, 0x0C, 0x7D,
];

/// Where each output byte of a round's permutation is taken from.
pub const PERMUTATION: [usize; 16] = [3, 0, 4, 12, 9, 7, 5, 15, 2, 14, 1, 8, 13, 6, 11, 10];

/// The inverse of `PERMUTATION`.
pub const INVERSE_PERMUTATION: [usize; 16] = [1, 10, 8, 0, 2, 6, 13, 5, 11, 4, 15, 14, 3, 12, 9, 7];

/// Round key `r`: each byte adds a key byte and the round number (mod 256)
/// to the same byte of the previous round key, the first 16 key bytes before
/// round 0.
pub open spec fn spn_round_key(key: Seq<u8>, r: nat) -> Seq<u8>
    decreases r,
{
    let prev = if r == 0 {
        key.subrange(0, 16)
    } else {
        spn_round_key(key, (r - 1) as nat)
    };
    Seq::new(
        16,
        |i: int|
            vstd::wrapping::u8_specs::wrapping_add(
                vstd::wrapping::u8_specs::wrapping_add(prev[i], key[(r + i) % (key.len() as int)]),
                (r % 256) as u8,
            ),
    )
}

/// Each byte replaced through the S-box.
pub open spec fn sub_spec(b: Seq<u8>) -> Seq<u8> {
    Seq::new(b.len(), |i: int| AES_SBOX@[b[i] as int])
}

/// Each byte replaced through the inverse S-box.
pub open spec fn inv_sub_spec(b: Seq<u8>) -> Seq<u8> {
    Seq::new(b.len(), |i: int| AES_INV_SBOX@[b[i] as int])
}

/// The bytes of a block in the order `PERMUTATION` gives.
pub open spec fn perm_spec(b: Seq<u8>) -> Seq<u8> {
    Seq::new(16, |i: int| b[PERMUTATION@[i] as int])
}

/// The bytes of a block in the order `INVERSE_PERMUTATION` gives.
pub open spec fn inv_perm_spec(b: Seq<u8>) -> Seq<u8> {
    Seq::new(16, |i: int| b[INVERSE_PERMUTATION@[i] as int])
}

/// A block combined byte by byte with a round key.
pub open spec fn add_key(b: Seq<u8>, k: Seq<u8>) -> Seq<u8> {
    Seq::new(16, |i: int| b[i] ^ k[i])
}

/// A block combined with the key repeated over its length.
pub open spec fn whiten(b: Seq<u8>, key: Seq<u8>) -> Seq<u8> {
    Seq::new(16, |i: int| b[i] ^ key[i % (key.len() as int)])
}

/// A chunk of at most 16 bytes, filled up with zeros.
pub open spec fn zero_extend(chunk: Seq<u8>) -> Seq<u8> {
    Seq::new(16, |i: int| if i < chunk.len() { chunk[i] } else { 0u8 })
}

/// A block after the first `n` rounds.
pub open spec fn rounds_enc(b: Seq<u8>, key: Seq<u8>, n: nat) -> Seq<u8>
    decreases n,
{
    if n == 0 {
        b
    } else {
        add_key(perm_spec(sub_spec(rounds_enc(b, key, (n - 1) as nat))), spn_round_key(key, (n - 1) as nat))
    }
}

/// A block after undoing rounds `n - 1` down to `0`.
pub open spec fn rounds_dec(b: Seq<u8>, key: Seq<u8>, n: nat) -> Seq<u8>
    decreases n,
{
    if n == 0 {
        b
    } else {
        rounds_dec(inv_sub_spec(inv_perm_spec(add_key(b, spn_round_key(key, (n - 1) as nat)))), key, (n - 1) as nat)
    }
}

/// Encryption of one chunk of at most 16 bytes.
pub open spec fn spn_encrypt_block_spec(chunk: Seq<u8>, key: Seq<u8>, rounds: nat) -> Seq<u8> {
    rounds_enc(whiten(zero_extend(chunk), key), key, rounds)
}

/// Decryption of one 16-byte block.
pub open spec fn spn_decrypt_block_spec(block: Seq<u8>, key: Seq<u8>, rounds: nat) -> Seq<u8> {
    whiten(rounds_dec(block, key, rounds), key)
}

/// Chunk `k` of `data`: 16 bytes, or fewer at the end.
pub open spec fn chunk_at(data: Seq<u8>, k: int) -> Seq<u8> {
    data.subrange(16 * k, if 16 * k + 16 <= data.len() { 16 * k + 16 } else { data.len() as int })
}

/// The first `n` chunks of `data`, each encrypted to a full block.
pub open spec fn spn_enc_chunks(data: Seq<u8>, key: Seq<u8>, rounds: nat, n: nat) -> Seq<u8>
    decreases n,
{
    if n == 0 {
        Seq::empty()
    } else {
        spn_enc_chunks(data, key, rounds, (n - 1) as nat) + spn_encrypt_block_spec(chunk_at(data, n - 1), key, rounds)
    }
}

/// The first `n` blocks of `data`, each decrypted.
pub open spec fn spn_dec_blocks(data: Seq<u8>, key: Seq<u8>, rounds: nat, n: nat) -> Seq<u8>
    decreases n,
{
    if n == 0 {
        Seq::empty()
    } else {
        spn_dec_blocks(data, key, rounds, (n - 1) as nat) + spn_decrypt_block_spec(chunk_at(data, n - 1), key, rounds)
    }
}

/// Derives `rounds` round keys from a key of at least 16 bytes.
pub fn generate_round_keys(key: &[u8], rounds: usize) -> (r: Vec<[u8; 16]>)
    requires
        key@.len() >= 16,
        rounds + 16 <= usize::MAX,
    ensures
        r@.len() == rounds,
        forall|k: int| 0 <= k < rounds ==> #[trigger] r@[k]@ == spn_round_key(key@, k as nat),
{
    let mut round_keys: Vec<[u8; 16]> = Vec::with_capacity(rounds);
    let mut prev_key: [u8; 16] = [0u8; 16];
    let mut i: usize = 0;
    while i < SPN_BLOCK
        invariant
            i <= SPN_BLOCK,
            key@.len() >= 16,
            prev_key@.len() == 16,
            forall|m: int| 0 <= m < i ==> prev_key@[m] == key@[m],
        decreases SPN_BLOCK - i,
    {
        prev_key[i] = key[i];
        i = i + 1;
    }
    assert(prev_key@ =~= key@.subrange(0, 16));
    let mut round: usize = 0;
    while round < rounds
        invariant
            round <= rounds,
            rounds + 16 <= usize::MAX,
            key@.len() >= 16,
            round_keys@.len() == round,
            forall|k: int| 0 <= k < round ==> #[trigger] round_keys@[k]@ == spn_round_key(key@, k as nat),
            round == 0 ==> prev_key@ == key@.subrange(0, 16),
            round > 0 ==> prev_key@ == spn_round_key(key@, (round - 1) as nat),
        decreases rounds - round,
    {
        let ghost prev = prev_key@;
        let mut current_key: [u8; 16] = [0u8; 16];
        let mut j: usize = 0;
        while j < SPN_BLOCK
            invariant
                j <= SPN_BLOCK,
                round < rounds,
                rounds + 16 <= usize::MAX,
                key@.len() >= 16,
                prev == prev_key@,
                current_key@.len() == 16,
                forall|m: int| 0 <= m < j ==> current_key@[m] == spn_round_key(key@, round as nat)[m],
                round == 0 ==> prev == key@.subrange(0, 16),
                round > 0 ==> prev == spn_round_key(key@, (round - 1) as nat),
            decreases SPN_BLOCK - j,
        {
            current_key[j] = prev_key[j].wrapping_add(key[(round + j) % key.len()]).wrapping_add(
                (round % 256) as u8,
            );
            j = j + 1;
        }
        assert(current_key@ =~= spn_round_key(key@, round as nat));
        round_keys.push(current_key);
        prev_key = current_key;
        round = round + 1;
    }
    round_keys
}

/// Replaces every byte through the AES S-box.
pub fn apply_substitution(block: &mut [u8])
    ensures
        final(block)@ == sub_spec(old(block)@),
{
    let mut i: usize = 0;
    while i < block.len()
        invariant
            i <= block@.len(),
            block@.len() == old(block)@.len(),
            forall|m: int| 0 <= m < i ==> block@[m] == AES_SBOX@[old(block)@[m] as int],
            forall|m: int| i <= m < block@.len() ==> block@[m] == old(block)@[m],
        decreases block@.len() - i,
    {
        block[i] = AES_SBOX[block[i] as usize];
        i = i + 1;
    }
    assert(block@ =~= sub_spec(old(block)@));
}

/// Replaces every byte through the inverse AES S-box.
pub fn apply_inverse_substitution(block: &mut [u8])
    ensures
        final(block)@ == inv_sub_spec(old(block)@),
{
    let mut i: usize = 0;
    while i < block.len()
        invariant
            i <= block@.len(),
            block@.len() == old(block)@.len(),
            forall|m: int| 0 <= m < i ==> block@[m] == AES_INV_SBOX@[old(block)@[m] as int],
            forall|m: int| i <= m < block@.len() ==> block@[m] == old(block)@[m],
        decreases block@.len() - i,
    {
        block[i] = AES_INV_SBOX[block[i] as usize];
        i = i + 1;
    }
    assert(block@ =~= inv_sub_spec(old(block)@));
}

/// Reorders a 16-byte block by `PERMUTATION`.
pub fn apply_permutation(block: &mut [u8])
    requires
        old(block)@.len() == 16,
    ensures
        final(block)@ == perm_spec(old(block)@),
{
    let mut temp: [u8; 16] = [0u8; 16];
    let mut i: usize = 0;
    while i < SPN_BLOCK
        invariant
            i <= SPN_BLOCK,
            block@.len() == 16,
            temp@.len() == 16,
            forall|m: int| 0 <= m < i ==> temp@[m] == block@[PERMUTATION@[m] as int],
        decreases SPN_BLOCK - i,
    {
        temp[i] = block[PERMUTATION[i]];
        i = i + 1;
    }
    let ghost source = block@;
    let mut j: usize = 0;
    while j < SPN_BLOCK
        invariant
            j <= SPN_BLOCK,
            block@.len() == 16,
            temp@.len() == 16,
            forall|m: int| 0 <= m < j ==> block@[m] == temp@[m],
            forall|m: int| 0 <= m < 16 ==> temp@[m] == source[PERMUTATION@[m] as int],
        decreases SPN_BLOCK - j,
    {
        block[j] = temp[j];
        j = j + 1;
    }
    assert forall|m: int| 0 <= m < 16 implies #[trigger] block@[m] == perm_spec(source)[m] by {
        assert(block@[m] == temp@[m]);
        assert(0 <= PERMUTATION@[m] < 16);
    }
    assert(block@ =~= perm_spec(source));
}

/// Reorders a 16-byte block by `INVERSE_PERMUTATION`.
pub fn apply_inverse_permutation(block: &mut [u8])
    requires
        old(block)@.len() == 16,
    ensures
        final(block)@ == inv_perm_spec(old(block)@),
{
    let mut temp: [u8; 16] = [0u8; 16];
    let mut i: usize = 0;
    while i < SPN_BLOCK
        invariant
            i <= SPN_BLOCK,
            block@.len() == 16,
            temp@.len() == 16,
            forall|m: int| 0 <= m < i ==> temp@[m] == block@[INVERSE_PERMUTATION@[m] as int],
        decreases SPN_BLOCK - i,
    {
        temp[i] = block[INVERSE_PERMUTATION[i]];
        i = i + 1;
    }
    let ghost source = block@;
    let mut j: usize = 0;
    while j < SPN_BLOCK
        invariant
            j <= SPN_BLOCK,
            block@.len() == 16,
            temp@.len() == 16,
            forall|m: int| 0 <= m < j ==> block@[m] == temp@[m],
            forall|m: int| 0 <= m < 16 ==> temp@[m] == source[INVERSE_PERMUTATION@[m] as int],
        decreases SPN_BLOCK - j,
    {
        block[j] = temp[j];
        j = j + 1;
    }
    assert forall|m: int| 0 <= m < 16 implies #[trigger] block@[m] == inv_perm_spec(source)[m] by {
        assert(block@[m] == temp@[m]);
        assert(0 <= INVERSE_PERMUTATION@[m] < 16);
    }
    assert(block@ =~= inv_perm_spec(source));
}

/// How many chunks data of length `len` splits into.
pub open spec fn n_chunks(len: nat) -> nat {
    ((len + 15) / 16) as nat
}

/// Combines a 16-byte block with the key repeated over it.
fn whiten_in_place(block: &mut Vec<u8>, key: &[u8])
    requires
        old(block)@.len() == 16,
        key@.len() > 0,
    ensures
        final(block)@ == whiten(old(block)@, key@),
{
    let mut i: usize = 0;
    while i < SPN_BLOCK
        invariant
            i <= SPN_BLOCK,
            key@.len() > 0,
            block@.len() == 16,
            forall|m: int| 0 <= m < i ==> block@[m] == old(block)@[m] ^ key@[m % (key@.len() as int)],
            forall|m: int| i <= m < 16 ==> block@[m] == old(block)@[m],
        decreases SPN_BLOCK - i,
    {
        let b = block[i] ^ key[i % key.len()];
        block.set(i, b);
        i = i + 1;
    }
    assert(block@ =~= whiten(old(block)@, key@));
}

/// Combines a 16-byte block with a round key.
fn add_round_key(block: &mut Vec<u8>, round_key: &[u8; 16])
    requires
        old(block)@.len() == 16,
    ensures
        final(block)@ == add_key(old(block)@, round_key@),
{
    let mut i: usize = 0;
    while i < SPN_BLOCK
        invariant
            i <= SPN_BLOCK,
            block@.len() == 16,
            forall|m: int| 0 <= m < i ==> block@[m] == old(block)@[m] ^ round_key@[m],
            forall|m: int| i <= m < 16 ==> block@[m] == old(block)@[m],
        decreases SPN_BLOCK - i,
    {
        let b = block[i] ^ round_key[i];
        block.set(i, b);
        i = i + 1;
    }
    assert(block@ =~= add_key(old(block)@, round_key@));
}

/// Copies chunk `off / 16` of `data` into a block, zero-filled at the end.
fn load_chunk(data: &[u8], off: usize, end: usize) -> (r: Vec<u8>)
    requires
        off < end <= data@.len(),
        end - off <= 16,
    ensures
        r@ == zero_extend(data@.subrange(off as int, end as int)),
{
    let mut block: Vec<u8> = Vec::with_capacity(SPN_BLOCK);
    let mut m: usize = 0;
    while m < SPN_BLOCK
        invariant
            m <= SPN_BLOCK,
            off < end <= data@.len(),
            end - off <= 16,
            block@ == zero_extend(data@.subrange(off as int, end as int)).subrange(0, m as int),
        decreases SPN_BLOCK - m,
    {
        if m < end - off {
            block.push(data[off + m]);
        } else {
            block.push(0);
        }
        m = m + 1;
    }
    block
}

/// Encrypts `data` block by block; a short last chunk is filled with zeros,
/// so the result is a whole number of blocks.
pub fn spn_encrypt(data: &[u8], key: &[u8], rounds: usize) -> (r: Vec<u8>)
    requires
        key@.len() >= 16,
        rounds + 16 <= usize::MAX,
        data@.len() + 16 <= usize::MAX,
    ensures
        r@ == spn_enc_chunks(data@, key@, rounds as nat, n_chunks(data@.len())),
{
    let round_keys = generate_round_keys(key, rounds);
    let len: usize = data.len();
    let mut result: Vec<u8> = Vec::with_capacity(len + SPN_BLOCK);
    let mut c: usize = 0;
    let mut off: usize = 0;
    while off < len
        invariant
            len == data@.len(),
            len + 16 <= usize::MAX,
            key@.len() >= 16,
            round_keys@.len() == rounds,
            forall|k: int| 0 <= k < rounds ==> #[trigger] round_keys@[k]@ == spn_round_key(key@, k as nat),
            off == 16 * c,
            off < len + 16,
            result@ == spn_enc_chunks(data@, key@, rounds as nat, c as nat),
        decreases len + 16 - off,
    {
        let end: usize = if off + SPN_BLOCK <= len { off + SPN_BLOCK } else { len };
        let mut block = load_chunk(data, off, end);
        assert(data@.subrange(off as int, end as int) == chunk_at(data@, c as int));
        whiten_in_place(&mut block, key);
        let ghost start = block@;
        let mut round: usize = 0;
        while round < rounds
            invariant
                round <= rounds,
                round_keys@.len() == rounds,
                forall|k: int| 0 <= k < rounds ==> #[trigger] round_keys@[k]@ == spn_round_key(key@, k as nat),
                block@.len() == 16,
                block@ == rounds_enc(start, key@, round as nat),
            decreases rounds - round,
        {
            apply_substitution(block.as_mut_slice());
            apply_permutation(block.as_mut_slice());
            add_round_key(&mut block, &round_keys[round]);
            round = round + 1;
        }
        let ghost before = result@;
        let mut i: usize = 0;
        while i < SPN_BLOCK
            invariant
                i <= SPN_BLOCK,
                block@.len() == 16,
                result@ == before + block@.subrange(0, i as int),
            decreases SPN_BLOCK - i,
        {
            result.push(block[i]);
            i = i + 1;
        }
        assert(block@.subrange(0, 16) =~= block@);
        c = c + 1;
        off = off + SPN_BLOCK;
    }
    result
}

/// Decrypts `data`, a whole number of 16-byte blocks.
pub fn spn_decrypt(data: &[u8], key: &[u8], rounds: usize) -> (r: Vec<u8>)
    requires
        key@.len() >= 16,
        rounds + 16 <= usize::MAX,
        data@.len() % 16 == 0,
    ensures
        r@ == spn_dec_blocks(data@, key@, rounds as nat, data@.len() / 16),
{
    let round_keys = generate_round_keys(key, rounds);
    let len: usize = data.len();
    let mut result: Vec<u8> = Vec::with_capacity(len);
    let mut c: usize = 0;
    let mut off: usize = 0;
    while off < len
        invariant
            len == data@.len(),
            len % 16 == 0,
            key@.len() >= 16,
            round_keys@.len() == rounds,
            forall|k: int| 0 <= k < rounds ==> #[trigger] round_keys@[k]@ == spn_round_key(key@, k as nat),
            off == 16 * c,
            off <= len,
            result@ == spn_dec_blocks(data@, key@, rounds as nat, c as nat),
        decreases len - off,
    {
        assert(off + 16 <= len);
        let mut block = load_chunk(data, off, off + SPN_BLOCK);
        assert(data@.subrange(off as int, off + 16) =~= chunk_at(data@, c as int));
        assert(zero_extend(chunk_at(data@, c as int)) =~= chunk_at(data@, c as int));
        let ghost target = rounds_dec(block@, key@, rounds as nat);
        let mut round: usize = rounds;
        while round > 0
            invariant
                round <= rounds,
                key@.len() >= 16,
                round_keys@.len() == rounds,
                forall|k: int| 0 <= k < rounds ==> #[trigger] round_keys@[k]@ == spn_round_key(key@, k as nat),
                block@.len() == 16,
                rounds_dec(block@, key@, round as nat) == target,
            decreases round,
        {
            add_round_key(&mut block, &round_keys[round - 1]);
            apply_inverse_permutation(block.as_mut_slice());
            apply_inverse_substitution(block.as_mut_slice());
            round = round - 1;
        }
        whiten_in_place(&mut block, key);
        let ghost before = result@;
        let mut i: usize = 0;
        while i < SPN_BLOCK
            invariant
                i <= SPN_BLOCK,
                block@.len() == 16,
                result@ == before + block@.subrange(0, i as int),
            decreases SPN_BLOCK - i,
        {
            result.push(block[i]);
            i = i + 1;
        }
        assert(block@.subrange(0, 16) =~= block@);
        c = c + 1;
        off = off + SPN_BLOCK;
    }
    result
}

/// The inverse S-box undoes the S-box on every byte.
pub proof fn lemma_sbox_inverse()
    ensures
        forall|x: u8| #[trigger] AES_INV_SBOX@[AES_SBOX@[x as int] as int] == x,
{
    assert forall|x: u8| #[trigger] AES_INV_SBOX@[AES_SBOX@[x as int] as int] == x by {
        let h = x / 16;
        let l = x % 16;
        assert(x == 16 * h + l);
        assert(h == 0 || h == 1 || h == 2 || h == 3 || h == 4 || h == 5 || h == 6 || h == 7 || h == 8
            || h == 9 || h == 10 || h == 11 || h == 12 || h == 13 || h == 14 || h == 15);
        assert(l == 0 || l == 1 || l == 2 || l == 3 || l == 4 || l == 5 || l == 6 || l == 7 || l == 8
            || l == 9 || l == 10 || l == 11 || l == 12 || l == 13 || l == 14 || l == 15);
    }
}

/// `INVERSE_PERMUTATION` undoes `PERMUTATION`.
pub proof fn lemma_permutation_inverse(b: Seq<u8>)
    requires
        b.len() == 16,
    ensures
        inv_perm_spec(perm_spec(b)) == b,
{
    assert forall|i: int| 0 <= i < 16 implies #[trigger] inv_perm_spec(perm_spec(b))[i] == b[i] by {
        assert(i == 0 || i == 1 || i == 2 || i == 3 || i == 4 || i == 5 || i == 6 || i == 7 || i == 8
            || i == 9 || i == 10 || i == 11 || i == 12 || i == 13 || i == 14 || i == 15);
    }
    assert(inv_perm_spec(perm_spec(b)) =~= b);
}

/// Undoing the rounds in reverse order restores the block before them.
pub proof fn lemma_rounds_inverse(b: Seq<u8>, key: Seq<u8>, n: nat)
    requires
        b.len() == 16,
    ensures
        rounds_enc(b, key, n).len() == 16,
        rounds_dec(rounds_enc(b, key, n), key, n) == b,
    decreases n,
{
    if n > 0 {
        lemma_rounds_inverse(b, key, (n - 1) as nat);
        let prev = rounds_enc(b, key, (n - 1) as nat);
        let k = spn_round_key(key, (n - 1) as nat);
        let s = sub_spec(prev);
        let p = perm_spec(s);
        assert forall|i: int| 0 <= i < 16 implies #[trigger] add_key(add_key(p, k), k)[i] == p[i] by {
            let x = p[i];
            let y = k[i];
            assert(x ^ y ^ y == x) by (bit_vector);
        }
        assert(add_key(add_key(p, k), k) =~= p);
        lemma_permutation_inverse(s);
        lemma_sbox_inverse();
        assert(inv_sub_spec(s) =~= prev);
    }
}

/// Decrypting one encrypted block gives back the chunk, filled with zeros
/// up to 16 bytes.
pub proof fn lemma_spn_block_round_trip(chunk: Seq<u8>, key: Seq<u8>, rounds: nat)
    requires
        chunk.len() <= 16,
        key.len() > 0,
    ensures
        spn_encrypt_block_spec(chunk, key, rounds).len() == 16,
        spn_decrypt_block_spec(spn_encrypt_block_spec(chunk, key, rounds), key, rounds) == zero_extend(chunk),
{
    let z = zero_extend(chunk);
    let w = whiten(z, key);
    lemma_rounds_inverse(w, key, rounds);
    assert forall|i: int| 0 <= i < 16 implies #[trigger] whiten(w, key)[i] == z[i] by {
        let x = z[i];
        let y = key[i % (key.len() as int)];
        assert(x ^ y ^ y == x) by (bit_vector);
    }
    assert(whiten(w, key) =~= z);
}

/// The first `n` encrypted chunks take `16 * n` bytes, and block `k` of them
/// is chunk `k` encrypted on its own.
pub proof fn lemma_spn_enc_chunks(data: Seq<u8>, key: Seq<u8>, rounds: nat, n: nat, k: int)
    requires
        key.len() > 0,
        0 <= k < n,
        16 * n <= data.len(),
    ensures
        spn_enc_chunks(data, key, rounds, n).len() == 16 * n,
        spn_enc_chunks(data, key, rounds, n).subrange(16 * k, 16 * k + 16) == spn_encrypt_block_spec(
            chunk_at(data, k),
            key,
            rounds,
        ),
    decreases n,
{
    let prev = spn_enc_chunks(data, key, rounds, (n - 1) as nat);
    let last = spn_encrypt_block_spec(chunk_at(data, n - 1), key, rounds);
    lemma_spn_block_round_trip(chunk_at(data, n - 1), key, rounds);
    if n == 1 {
        assert(prev =~= Seq::<u8>::empty());
    } else {
        lemma_spn_enc_chunks(data, key, rounds, (n - 1) as nat, if k < n - 1 { k } else { 0 });
    }
    if k == n - 1 {
        assert((prev + last).subrange(16 * k, 16 * k + 16) =~= last);
    } else {
        assert((prev + last).subrange(16 * k, 16 * k + 16) =~= prev.subrange(16 * k, 16 * k + 16));
    }
}

/// Decrypting the encryption of data that is a whole number of blocks gives
/// the data back.
pub proof fn lemma_spn_round_trip(data: Seq<u8>, key: Seq<u8>, rounds: nat)
    requires
        key.len() > 0,
        data.len() % 16 == 0,
    ensures
        spn_dec_blocks(
            spn_enc_chunks(data, key, rounds, n_chunks(data.len())),
            key,
            rounds,
            data.len() / 16,
        ) == data,
{
    let n = n_chunks(data.len());
    assert(n == data.len() / 16);
    lemma_spn_dec_prefix(data, key, rounds, n, n);
    assert(data.subrange(0, 16 * n as int) =~= data);
}

/// Decrypting the first `m` of `n` encrypted blocks gives the first `16 * m`
/// bytes of whole-block data.
proof fn lemma_spn_dec_prefix(data: Seq<u8>, key: Seq<u8>, rounds: nat, n: nat, m: nat)
    requires
        key.len() > 0,
        data.len() == 16 * n,
        m <= n,
    ensures
        spn_dec_blocks(spn_enc_chunks(data, key, rounds, n), key, rounds, m) == data.subrange(0, 16 * m as int),
    decreases m,
{
    if m == 0 {
        assert(data.subrange(0, 0) =~= Seq::<u8>::empty());
    } else {
        let e = spn_enc_chunks(data, key, rounds, n);
        lemma_spn_dec_prefix(data, key, rounds, n, (m - 1) as nat);
        lemma_spn_enc_chunks(data, key, rounds, n, m - 1);
        let c = chunk_at(data, m - 1);
        assert(c =~= data.subrange(16 * (m - 1), 16 * m as int));
        lemma_spn_block_round_trip(c, key, rounds);
        assert(zero_extend(c) =~= c);
        assert(chunk_at(e, m - 1) =~= e.subrange(16 * (m - 1), 16 * m as int));
        assert(data.subrange(0, 16 * (m - 1)) + c =~= data.subrange(0, 16 * m as int));
    }
}

} // verus!
