//! The Feistel block layer: key schedule, round function and the block
//! transforms in both directions.

use vstd::prelude::*;
use crate::error::CipherError;
use crate::primitives::{sha256, sha256_of};

verus! {

/// Number of rounds of the network, which is also the number of round keys.
pub const NUM_ROUNDS: usize = 16;

/// Size of one block in bytes.
pub const BLOCK_SIZE: usize = 16;

/// Size of one half-block in bytes.
pub const HALF_SIZE: usize = 8;

/// The first `n` bytes of the digest of `data`.
pub open spec fn digest_prefix(data: Seq<u8>, n: nat) -> Seq<u8> {
    Seq::new(n, |i: int| sha256_of(data)[i])
}

/// The round function: the digest of `right || round_key`, cut to a half-block.
pub open spec fn round_fn(right: Seq<u8>, round_key: Seq<u8>) -> Seq<u8> {
    digest_prefix(right + round_key, HALF_SIZE as nat)
}

/// Byte-wise exclusive or over the common prefix of two sequences.
pub open spec fn xor_seq(a: Seq<u8>, b: Seq<u8>) -> Seq<u8> {
    Seq::new(if a.len() <= b.len() { a.len() } else { b.len() }, |i: int| a[i] ^ b[i])
}

/// The `i`-th link of the hash chain started at `master`.
pub open spec fn chain_key(master: Seq<u8>, i: nat) -> Seq<u8>
    decreases i,
{
    if i == 0 {
        digest_prefix(master, 32)
    } else {
        digest_prefix(chain_key(master, (i - 1) as nat), 32)
    }
}

/// The round keys derived from `master`.
pub open spec fn schedule(master: Seq<u8>) -> Seq<Seq<u8>> {
    Seq::new(NUM_ROUNDS as nat, |i: int| chain_key(master, i as nat))
}

/// The contents of a list of round keys.
pub open spec fn keys_view(keys: Seq<[u8; 32]>) -> Seq<Seq<u8>> {
    keys.map_values(|k: [u8; 32]| k@)
}

/// Byte-wise exclusive or of two slices, as long as the shorter one.
pub fn xor(a: &[u8], b: &[u8]) -> (r: Vec<u8>)
    ensures
        r@ == xor_seq(a@, b@),
{
    let n: usize = if a.len() <= b.len() { a.len() } else { b.len() };
    let mut out: Vec<u8> = Vec::with_capacity(n);
    let mut i: usize = 0;
    while i < n
        invariant
            n == (if a@.len() <= b@.len() { a@.len() } else { b@.len() }),
            i <= n,
            out@ == xor_seq(a@, b@).subrange(0, i as int),
        decreases n - i,
    {
        out.push(a[i] ^ b[i]);
        i = i + 1;
    }
    out
}

/// Applies the round function to a half-block and a round key.
pub fn round_function(right: &[u8], round_key: &[u8]) -> (r: [u8; 8])
    requires
        right@.len() + round_key@.len() <= usize::MAX,
    ensures
        r@ == round_fn(right@, round_key@),
{
    let mut input: Vec<u8> = Vec::with_capacity(right.len() + round_key.len());
    let mut i: usize = 0;
    while i < right.len()
        invariant
            i <= right@.len(),
            input@ == right@.subrange(0, i as int),
        decreases right@.len() - i,
    {
        input.push(right[i]);
        i = i + 1;
    }
    let mut j: usize = 0;
    while j < round_key.len()
        invariant
            j <= round_key@.len(),
            input@ == right@ + round_key@.subrange(0, j as int),
        decreases round_key@.len() - j,
    {
        input.push(round_key[j]);
        j = j + 1;
    }
    assert(round_key@.subrange(0, round_key@.len() as int) == round_key@);
    let hash = sha256(input.as_slice());
    let mut out: [u8; 8] = [0u8; 8];
    let mut k: usize = 0;
    while k < HALF_SIZE
        invariant
            k <= HALF_SIZE,
            hash@ == sha256_of(right@ + round_key@),
            forall|m: int| 0 <= m < k ==> out@[m] == hash@[m],
        decreases HALF_SIZE - k,
    {
        out[k] = hash[k];
        k = k + 1;
    }
    assert(out@ == round_fn(right@, round_key@));
    out
}

/// State `(left, right)` after the first `n` encryption rounds.
pub open spec fn fwd(l: Seq<u8>, r: Seq<u8>, keys: Seq<Seq<u8>>, n: nat) -> (Seq<u8>, Seq<u8>)
    decreases n,
{
    if n == 0 {
        (l, r)
    } else {
        let s = fwd(l, r, keys, (n - 1) as nat);
        (s.1, xor_seq(s.0, round_fn(s.1, keys[n - 1])))
    }
}

/// State reached by undoing rounds `n - 1` down to `0`, starting from `(l, r)`.
pub open spec fn bwd(l: Seq<u8>, r: Seq<u8>, keys: Seq<Seq<u8>>, n: nat) -> (Seq<u8>, Seq<u8>)
    decreases n,
{
    if n == 0 {
        (l, r)
    } else {
        bwd(xor_seq(r, round_fn(l, keys[n - 1])), l, keys, (n - 1) as nat)
    }
}

/// The chaining value as a sequence, if one is given.
pub open spec fn iv_view(iv: Option<&[u8; 16]>) -> Option<Seq<u8>> {
    match iv {
        Some(v) => Some(v@),
        None => None,
    }
}

/// Mixes the chaining value, if any, into a left half. Only its first eight
/// bytes take part, since the exclusive or stops at the shorter operand; the
/// other eight are carried in the ciphertext but never used, which keeps the
/// format of existing files.
pub open spec fn mix(l: Seq<u8>, iv: Option<Seq<u8>>) -> Seq<u8> {
    match iv {
        Some(v) => xor_seq(l, v),
        None => l,
    }
}

/// Encryption of one 16-byte block.
pub open spec fn encrypt_block_spec(block: Seq<u8>, keys: Seq<Seq<u8>>, iv: Option<Seq<u8>>) -> Seq<u8> {
    let s = fwd(mix(block.subrange(0, 8), iv), block.subrange(8, 16), keys, keys.len());
    s.0 + s.1
}

/// Decryption of one 16-byte block.
pub open spec fn decrypt_block_spec(block: Seq<u8>, keys: Seq<Seq<u8>>, iv: Option<Seq<u8>>) -> Seq<u8> {
    let s = bwd(block.subrange(0, 8), block.subrange(8, 16), keys, keys.len());
    mix(s.0, iv) + s.1
}

/// Exclusive or with the same bytes twice gives back the original.
pub proof fn lemma_xor_twice(a: Seq<u8>, b: Seq<u8>)
    requires
        a.len() <= b.len(),
    ensures
        xor_seq(xor_seq(a, b), b) == a,
{
    assert forall|i: int| 0 <= i < a.len() implies #[trigger] xor_seq(xor_seq(a, b), b)[i] == a[i] by {
        let x = a[i];
        let y = b[i];
        assert((x ^ y) ^ y == x) by (bit_vector);
    }
    assert(xor_seq(xor_seq(a, b), b) =~= a);
}

/// Encryption rounds keep both halves at eight bytes.
pub proof fn lemma_fwd_len(l: Seq<u8>, r: Seq<u8>, keys: Seq<Seq<u8>>, n: nat)
    requires
        l.len() == 8,
        r.len() == 8,
    ensures
        fwd(l, r, keys, n).0.len() == 8,
        fwd(l, r, keys, n).1.len() == 8,
    decreases n,
{
    if n > 0 {
        lemma_fwd_len(l, r, keys, (n - 1) as nat);
    }
}

/// Undoing the rounds in reverse order restores the state before them.
pub proof fn lemma_bwd_fwd(l: Seq<u8>, r: Seq<u8>, keys: Seq<Seq<u8>>, n: nat)
    requires
        l.len() == 8,
        r.len() == 8,
    ensures
        bwd(fwd(l, r, keys, n).0, fwd(l, r, keys, n).1, keys, n) == (l, r),
    decreases n,
{
    if n > 0 {
        let s = fwd(l, r, keys, (n - 1) as nat);
        lemma_fwd_len(l, r, keys, (n - 1) as nat);
        lemma_xor_twice(s.0, round_fn(s.1, keys[n - 1]));
        lemma_bwd_fwd(l, r, keys, (n - 1) as nat);
    }
}

/// Decrypting an encrypted block with the same keys and chaining value gives
/// the block back.
pub proof fn lemma_block_round_trip(block: Seq<u8>, keys: Seq<Seq<u8>>, iv: Option<Seq<u8>>)
    requires
        block.len() == 16,
        iv matches Some(v) ==> v.len() >= 8,
    ensures
        decrypt_block_spec(encrypt_block_spec(block, keys, iv), keys, iv) == block,
{
    let l0 = block.subrange(0, 8);
    let r0 = block.subrange(8, 16);
    let l1 = mix(l0, iv);
    let s = fwd(l1, r0, keys, keys.len());
    lemma_fwd_len(l1, r0, keys, keys.len());
    let c = s.0 + s.1;
    assert(c.subrange(0, 8) =~= s.0);
    assert(c.subrange(8, 16) =~= s.1);
    lemma_bwd_fwd(l1, r0, keys, keys.len());
    if let Some(v) = iv {
        lemma_xor_twice(l0, v);
    }
    assert(l0 + r0 =~= block);
}

/// Encrypts one 16-byte block with the given round keys; the chaining value,
/// when present, is mixed into the left half before the first round.
pub fn encrypt_block(block: &[u8], round_keys: &[[u8; 32]], iv: Option<&[u8; 16]>) -> (r: [u8; 16])
    requires
        block@.len() == BLOCK_SIZE,
    ensures
        r@ == encrypt_block_spec(block@, keys_view(round_keys@), iv_view(iv)),
{
    let ghost keys = keys_view(round_keys@);
    let mut left: Vec<u8> = Vec::with_capacity(HALF_SIZE);
    let mut right: Vec<u8> = Vec::with_capacity(HALF_SIZE);
    let mut i: usize = 0;
    while i < HALF_SIZE
        invariant
            i <= HALF_SIZE,
            block@.len() == BLOCK_SIZE,
            left@ == block@.subrange(0, i as int),
            right@ == block@.subrange(8, 8 + i),
        decreases HALF_SIZE - i,
    {
        left.push(block[i]);
        right.push(block[HALF_SIZE + i]);
        i = i + 1;
    }
    if let Some(iv_bytes) = iv {
        left = xor(left.as_slice(), iv_bytes);
    }
    let ghost l1 = left@;
    let ghost r1 = right@;
    assert(l1 == mix(block@.subrange(0, 8), iv_view(iv)));
    let mut idx: usize = 0;
    while idx < round_keys.len()
        invariant
            idx <= round_keys@.len(),
            keys == keys_view(round_keys@),
            l1.len() == 8,
            r1.len() == 8,
            (left@, right@) == fwd(l1, r1, keys, idx as nat),
        decreases round_keys@.len() - idx,
    {
        proof {
            lemma_fwd_len(l1, r1, keys, idx as nat);
        }
        let f = round_function(right.as_slice(), &round_keys[idx]);
        let new_right = xor(left.as_slice(), &f);
        left = right;
        right = new_right;
        idx = idx + 1;
    }
    proof {
        lemma_fwd_len(l1, r1, keys, idx as nat);
    }
    join_halves(&left, &right)
}

/// Decrypts one 16-byte block with the given round keys, applied in reverse
/// order; the chaining value, when present, is removed from the left half last.
pub fn decrypt_block(block: &[u8], round_keys: &[[u8; 32]], iv: Option<&[u8; 16]>) -> (r: [u8; 16])
    requires
        block@.len() == BLOCK_SIZE,
    ensures
        r@ == decrypt_block_spec(block@, keys_view(round_keys@), iv_view(iv)),
{
    let ghost keys = keys_view(round_keys@);
    let mut left: Vec<u8> = Vec::with_capacity(HALF_SIZE);
    let mut right: Vec<u8> = Vec::with_capacity(HALF_SIZE);
    let mut i: usize = 0;
    while i < HALF_SIZE
        invariant
            i <= HALF_SIZE,
            block@.len() == BLOCK_SIZE,
            left@ == block@.subrange(0, i as int),
            right@ == block@.subrange(8, 8 + i),
        decreases HALF_SIZE - i,
    {
        left.push(block[i]);
        right.push(block[HALF_SIZE + i]);
        i = i + 1;
    }
    let ghost target = bwd(left@, right@, keys, keys.len());
    let mut idx: usize = round_keys.len();
    while idx > 0
        invariant
            idx <= round_keys@.len(),
            keys == keys_view(round_keys@),
            left@.len() == 8,
            right@.len() == 8,
            bwd(left@, right@, keys, idx as nat) == target,
        decreases idx,
    {
        let f = round_function(left.as_slice(), &round_keys[idx - 1]);
        let new_left = xor(right.as_slice(), &f);
        right = left;
        left = new_left;
        idx = idx - 1;
    }
    if let Some(iv_bytes) = iv {
        left = xor(left.as_slice(), iv_bytes);
    }
    join_halves(&left, &right)
}

/// Puts two eight-byte halves together into one block.
fn join_halves(left: &Vec<u8>, right: &Vec<u8>) -> (r: [u8; 16])
    requires
        left@.len() == 8,
        right@.len() == 8,
    ensures
        r@ == left@ + right@,
{
    let mut out: [u8; 16] = [0u8; 16];
    let mut i: usize = 0;
    while i < HALF_SIZE
        invariant
            i <= HALF_SIZE,
            left@.len() == 8,
            right@.len() == 8,
            out@.len() == 16,
            forall|m: int| 0 <= m < i ==> out@[m] == left@[m] && out@[m + 8] == right@[m],
        decreases HALF_SIZE - i,
    {
        out[i] = left[i];
        out[HALF_SIZE + i] = right[i];
        i = i + 1;
    }
    assert(out@ =~= left@ + right@);
    out
}

/// A full 32-byte digest equals its 32-byte prefix.
proof fn lemma_digest_full(r: Seq<u8>, data: Seq<u8>)
    requires
        r == sha256_of(data),
        r.len() == 32,
    ensures
        r == digest_prefix(data, 32),
{
    assert(r =~= digest_prefix(data, 32));
}

/// Derives the sixteen round keys from the master key by a hash chain:
/// the first is the digest of the key, each next one the digest of the last.
pub fn key_schedule(key: &[u8]) -> (r: Result<Vec<[u8; 32]>, CipherError>)
    ensures
        match r {
            Ok(keys) => key@.len() > 0 && keys_view(keys@) == schedule(key@),
            Err(e) => key@.len() == 0 && e == CipherError::EmptyKey,
        },
{
    if key.len() == 0 {
        return Err(CipherError::EmptyKey);
    }
    let mut round_keys: Vec<[u8; 32]> = Vec::with_capacity(NUM_ROUNDS);
    let mut current: [u8; 32] = sha256(key);
    proof {
        lemma_digest_full(current@, key@);
    }
    round_keys.push(current);
    let mut i: usize = 1;
    while i < NUM_ROUNDS
        invariant
            1 <= i <= NUM_ROUNDS,
            current@ == chain_key(key@, (i - 1) as nat),
            keys_view(round_keys@) == Seq::new(i as nat, |j: int| chain_key(key@, j as nat)),
        decreases NUM_ROUNDS - i,
    {
        let ghost prev = current@;
        current = sha256(&current);
        proof {
            lemma_digest_full(current@, prev);
            assert(current@ == chain_key(key@, i as nat));
        }
        let ghost before = round_keys@;
        round_keys.push(current);
        assert(keys_view(round_keys@) =~= keys_view(before).push(current@));
        i = i + 1;
        assert(keys_view(round_keys@) =~= Seq::new(i as nat, |j: int| chain_key(key@, j as nat)));
    }
    assert(keys_view(round_keys@) =~= schedule(key@));
    Ok(round_keys)
}

/// An encrypted block is again 16 bytes long.
pub proof fn lemma_encrypt_block_len(block: Seq<u8>, keys: Seq<Seq<u8>>, iv: Option<Seq<u8>>)
    requires
        block.len() == 16,
        iv matches Some(v) ==> v.len() >= 8,
    ensures
        encrypt_block_spec(block, keys, iv).len() == 16,
{
    lemma_fwd_len(mix(block.subrange(0, 8), iv), block.subrange(8, 16), keys, keys.len());
}

} // verus!
