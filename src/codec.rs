//! The file format: chaining value, encrypted blocks, then an HMAC tag over
//! both (encrypt-then-MAC).

use vstd::prelude::*;
use crate::error::CipherError;
use crate::feistel::{
    decrypt_block, decrypt_block_spec, encrypt_block, encrypt_block_spec, key_schedule,
    keys_view, lemma_block_round_trip, lemma_encrypt_block_len, schedule, BLOCK_SIZE,
};
use crate::padding::{lemma_unpad_pad, pad, pad_spec, unpad, unpad_spec};
use crate::primitives::{generate_iv, hmac_sha256, tag_spec, wipe_slice};

verus! {

/// Size of the chaining value that starts every ciphertext.
pub const IV_SIZE: usize = 16;

/// Size of the authentication tag that ends every ciphertext.
pub const HMAC_SIZE: usize = 32;

/// The `k`-th 16-byte block of `s`.
pub open spec fn block_at(s: Seq<u8>, k: int) -> Seq<u8> {
    s.subrange(16 * k, 16 * k + 16)
}

/// The chaining value reaches block 0 only.
pub open spec fn chain_for(k: int, iv: Seq<u8>) -> Option<Seq<u8>> {
    if k == 0 {
        Some(iv)
    } else {
        None
    }
}

/// The first `n` blocks of `p`, each encrypted.
pub open spec fn enc_blocks(p: Seq<u8>, keys: Seq<Seq<u8>>, iv: Seq<u8>, n: nat) -> Seq<u8>
    decreases n,
{
    if n == 0 {
        Seq::empty()
    } else {
        enc_blocks(p, keys, iv, (n - 1) as nat) + encrypt_block_spec(
            block_at(p, n - 1),
            keys,
            chain_for(n - 1, iv),
        )
    }
}

/// The first `n` blocks of `c`, each decrypted.
pub open spec fn dec_blocks(c: Seq<u8>, keys: Seq<Seq<u8>>, iv: Seq<u8>, n: nat) -> Seq<u8>
    decreases n,
{
    if n == 0 {
        Seq::empty()
    } else {
        dec_blocks(c, keys, iv, (n - 1) as nat) + decrypt_block_spec(
            block_at(c, n - 1),
            keys,
            chain_for(n - 1, iv),
        )
    }
}

/// The chaining value followed by the encrypted, padded plaintext.
pub open spec fn sealed_body(key: Seq<u8>, plaintext: Seq<u8>, iv: Seq<u8>) -> Seq<u8> {
    let padded = pad_spec(plaintext);
    iv + enc_blocks(padded, schedule(key), iv, padded.len() / 16)
}

/// The whole ciphertext for `plaintext` under `key` and chaining value `iv`.
pub open spec fn encrypt_spec(key: Seq<u8>, plaintext: Seq<u8>, iv: Seq<u8>) -> Seq<u8> {
    let body = sealed_body(key, plaintext, iv);
    body + tag_spec(key, body)
}

/// What decrypting `data` under `key` yields.
pub open spec fn decrypt_spec(key: Seq<u8>, data: Seq<u8>) -> Result<Seq<u8>, CipherError> {
    if key.len() == 0 {
        Err(CipherError::EmptyKey)
    } else if data.len() < 48 {
        Err(CipherError::TruncatedInput)
    } else {
        let body = data.subrange(0, data.len() - 32);
        if tag_spec(key, body) != data.subrange(data.len() - 32, data.len() as int) {
            Err(CipherError::IntegrityFailure)
        } else if (data.len() - 48) % 16 != 0 {
            Err(CipherError::InvalidPadding)
        } else {
            let ct = data.subrange(16, data.len() - 32);
            match unpad_spec(dec_blocks(ct, schedule(key), data.subrange(0, 16), ct.len() / 16)) {
                Some(p) => Ok(p),
                None => Err(CipherError::InvalidPadding),
            }
        }
    }
}

/// Computes the HMAC-SHA-256 tag of `data` under `key`.
pub fn compute_hmac(key: &[u8], data: &[u8]) -> (r: [u8; 32])
    ensures
        r@ == tag_spec(key@, data@),
{
    let r = hmac_sha256(key, data);
    assert(r@ =~= tag_spec(key@, data@));
    r
}

/// Appends all of `src` to `out`.
pub(crate) fn append_bytes(out: &mut Vec<u8>, src: &[u8])
    ensures
        final(out)@ == old(out)@ + src@,
{
    let mut i: usize = 0;
    while i < src.len()
        invariant
            i <= src@.len(),
            out@ == old(out)@ + src@.subrange(0, i as int),
        decreases src@.len() - i,
    {
        out.push(src[i]);
        i = i + 1;
    }
    assert(src@.subrange(0, src@.len() as int) =~= src@);
}

/// Copies bytes `start..end` of `data`.
pub(crate) fn copy_range(data: &[u8], start: usize, end: usize) -> (r: Vec<u8>)
    requires
        start <= end <= data@.len(),
    ensures
        r@ == data@.subrange(start as int, end as int),
{
    let mut out: Vec<u8> = Vec::with_capacity(end - start);
    let mut i: usize = start;
    while i < end
        invariant
            start <= i <= end,
            end <= data@.len(),
            out@ == data@.subrange(start as int, i as int),
        decreases end - i,
    {
        out.push(data[i]);
        i = i + 1;
    }
    out
}

/// Copies the 16 bytes that start at `start`.
fn block_from(data: &[u8], start: usize) -> (r: [u8; 16])
    requires
        start + 16 <= data@.len(),
    ensures
        r@ == data@.subrange(start as int, start + 16),
{
    let len: usize = data.len();
    let mut out: [u8; 16] = [0u8; 16];
    let mut i: usize = 0;
    while i < BLOCK_SIZE
        invariant
            i <= BLOCK_SIZE,
            len == data@.len(),
            start + 16 <= len,
            out@.len() == 16,
            forall|m: int| 0 <= m < i ==> out@[m] == data@[start + m],
        decreases BLOCK_SIZE - i,
    {
        out[i] = data[start + i];
        i = i + 1;
    }
    assert(out@ =~= data@.subrange(start as int, start + 16));
    out
}

/// Overwrites every round key with zeros and empties the list.
fn wipe_round_keys(round_keys: &mut Vec<[u8; 32]>)
    ensures
        final(round_keys)@.len() == 0,
{
    let mut i: usize = 0;
    while i < round_keys.len()
        invariant
            i <= round_keys@.len(),
        decreases round_keys@.len() - i,
    {
        wipe_slice(&mut round_keys[i]);
        i = i + 1;
    }
    round_keys.clear();
}

/// Encrypts `plaintext` under `key` with the given chaining value: pads it,
/// encrypts block 0 with the chaining value and the other blocks without,
/// and appends the tag over `chaining value || blocks`.
pub fn encrypt_with_iv(key: &[u8], plaintext: &[u8], iv: &[u8; 16]) -> (r: Result<Vec<u8>, CipherError>)
    requires
        plaintext@.len() + 64 <= usize::MAX,
    ensures
        match r {
            Ok(c) => key@.len() > 0 && c@ == encrypt_spec(key@, plaintext@, iv@),
            Err(e) => key@.len() == 0 && e == CipherError::EmptyKey,
        },
{
    let round_keys = match key_schedule(key) {
        Ok(k) => k,
        Err(e) => {
            return Err(e);
        },
    };
    let ghost keys = keys_view(round_keys@);
    let padded = pad(plaintext);
    let mut out: Vec<u8> = Vec::with_capacity(padded.len() + IV_SIZE + HMAC_SIZE);
    append_bytes(&mut out, iv);
    let mut b: usize = 0;
    let mut off: usize = 0;
    while off < padded.len()
        invariant
            keys == schedule(key@),
            keys == keys_view(round_keys@),
            padded@ == pad_spec(plaintext@),
            padded@.len() % 16 == 0,
            padded@.len() <= plaintext@.len() + 16,
            plaintext@.len() + 64 <= usize::MAX,
            off == 16 * b,
            off <= padded@.len(),
            out@ == iv@ + enc_blocks(padded@, keys, iv@, b as nat),
        decreases padded@.len() - off,
    {
        assert(off + 16 <= padded@.len());
        let block = block_from(padded.as_slice(), off);
        let enc = if b == 0 {
            encrypt_block(&block, round_keys.as_slice(), Some(iv))
        } else {
            encrypt_block(&block, round_keys.as_slice(), None)
        };
        append_bytes(&mut out, &enc);
        assert(out@ =~= iv@ + enc_blocks(padded@, keys, iv@, (b + 1) as nat));
        b = b + 1;
        off = off + 16;
    }
    assert(b == padded@.len() / 16);
    let tag = compute_hmac(key, out.as_slice());
    append_bytes(&mut out, &tag);
    let mut padded = padded;
    wipe_slice(padded.as_mut_slice());
    let mut round_keys = round_keys;
    wipe_round_keys(&mut round_keys);
    Ok(out)
}

/// Encrypts `plaintext` under `key` with a fresh random chaining value,
/// which the ciphertext carries in its first 16 bytes.
pub fn encrypt(key: &[u8], plaintext: &[u8]) -> (r: Result<Vec<u8>, CipherError>)
    requires
        plaintext@.len() + 64 <= usize::MAX,
    ensures
        match r {
            Ok(c) => key@.len() > 0 && c@.len() >= IV_SIZE && c@ == encrypt_spec(
                key@,
                plaintext@,
                c@.subrange(0, IV_SIZE as int),
            ),
            Err(e) => key@.len() == 0 && e == CipherError::EmptyKey,
        },
{
    let iv = generate_iv();
    let r = encrypt_with_iv(key, plaintext, &iv);
    if let Ok(c) = &r {
        assert(c@.subrange(0, 16) =~= iv@);
    }
    r
}

/// Compares two 32-byte tags without stopping at the first difference.
fn tags_equal(a: &[u8; 32], b: &[u8]) -> (r: bool)
    requires
        b@.len() == 32,
    ensures
        r <==> a@ == b@,
{
    let mut diff: u8 = 0;
    let mut i: usize = 0;
    while i < HMAC_SIZE
        invariant
            i <= HMAC_SIZE,
            b@.len() == 32,
            diff == 0 <==> forall|k: int| 0 <= k < i ==> a@[k] == b@[k],
        decreases HMAC_SIZE - i,
    {
        let x = a[i];
        let y = b[i];
        let d = diff;
        assert((d | (x ^ y)) == 0 <==> (d == 0 && x == y)) by (bit_vector);
        diff = diff | (x ^ y);
        i = i + 1;
    }
    if diff == 0 {
        assert(a@ =~= b@);
        true
    } else {
        false
    }
}

/// Decrypts `data`, laid out as `chaining value (16) || blocks || tag (32)`.
/// Input under 48 bytes is refused before the tag is looked at; a tag that
/// does not match stops before any block is decrypted.
pub fn decrypt(key: &[u8], data: &[u8]) -> (r: Result<Vec<u8>, CipherError>)
    ensures
        match r {
            Ok(v) => decrypt_spec(key@, data@) == Ok::<Seq<u8>, CipherError>(v@),
            Err(e) => decrypt_spec(key@, data@) == Err::<Seq<u8>, CipherError>(e),
        },
{
    let mut round_keys = match key_schedule(key) {
        Ok(k) => k,
        Err(e) => {
            return Err(e);
        },
    };
    let ghost keys = keys_view(round_keys@);
    if data.len() < IV_SIZE + HMAC_SIZE {
        wipe_round_keys(&mut round_keys);
        return Err(CipherError::TruncatedInput);
    }
    let len: usize = data.len();
    let body_end: usize = len - HMAC_SIZE;
    let body = copy_range(data, 0, body_end);
    let expected = compute_hmac(key, body.as_slice());
    let received = copy_range(data, body_end, len);
    if !tags_equal(&expected, received.as_slice()) {
        wipe_round_keys(&mut round_keys);
        return Err(CipherError::IntegrityFailure);
    }
    if (len - IV_SIZE - HMAC_SIZE) % BLOCK_SIZE != 0 {
        wipe_round_keys(&mut round_keys);
        return Err(CipherError::InvalidPadding);
    }
    let iv = block_from(data, 0);
    let ghost ct = data@.subrange(16, len - 32);
    let mut padded: Vec<u8> = Vec::with_capacity(body_end - IV_SIZE);
    let mut b: usize = 0;
    let mut off: usize = IV_SIZE;
    while off < body_end
        invariant
            keys == schedule(key@),
            keys == keys_view(round_keys@),
            len == data@.len(),
            body_end == len - 32,
            len >= 48,
            (len - 48) % 16 == 0,
            ct == data@.subrange(16, len - 32),
            iv@ == data@.subrange(0, 16),
            off == 16 + 16 * b,
            off <= body_end,
            padded@ == dec_blocks(ct, keys, iv@, b as nat),
        decreases body_end - off,
    {
        assert(off + 16 <= body_end);
        let block = block_from(data, off);
        assert(block@ =~= block_at(ct, b as int));
        let dec = if b == 0 {
            decrypt_block(&block, round_keys.as_slice(), Some(&iv))
        } else {
            decrypt_block(&block, round_keys.as_slice(), None)
        };
        append_bytes(&mut padded, &dec);
        assert(padded@ =~= dec_blocks(ct, keys, iv@, (b + 1) as nat));
        b = b + 1;
        off = off + 16;
    }
    assert(b == ct.len() / 16);
    let r = unpad(padded.as_slice());
    wipe_slice(padded.as_mut_slice());
    wipe_round_keys(&mut round_keys);
    r
}

/// The first `n` encrypted blocks take `16 * n` bytes.
pub proof fn lemma_enc_blocks_len(p: Seq<u8>, keys: Seq<Seq<u8>>, iv: Seq<u8>, n: nat)
    requires
        p.len() >= 16 * n,
        iv.len() >= 8,
    ensures
        enc_blocks(p, keys, iv, n).len() == 16 * n,
    decreases n,
{
    if n > 0 {
        lemma_enc_blocks_len(p, keys, iv, (n - 1) as nat);
        lemma_encrypt_block_len(block_at(p, n - 1), keys, chain_for(n - 1, iv));
    }
}

/// Block `k` of the encrypted sequence is block `k` of the input, encrypted
/// on its own.
pub proof fn lemma_enc_block_at(p: Seq<u8>, keys: Seq<Seq<u8>>, iv: Seq<u8>, n: nat, k: int)
    requires
        p.len() >= 16 * n,
        iv.len() >= 8,
        0 <= k < n,
    ensures
        block_at(enc_blocks(p, keys, iv, n), k) == encrypt_block_spec(
            block_at(p, k),
            keys,
            chain_for(k, iv),
        ),
    decreases n,
{
    let prev = enc_blocks(p, keys, iv, (n - 1) as nat);
    lemma_enc_blocks_len(p, keys, iv, (n - 1) as nat);
    let last = encrypt_block_spec(block_at(p, n - 1), keys, chain_for(n - 1, iv));
    lemma_encrypt_block_len(block_at(p, n - 1), keys, chain_for(n - 1, iv));
    if k == n - 1 {
        assert(block_at(prev + last, k) =~= last);
    } else {
        lemma_enc_block_at(p, keys, iv, (n - 1) as nat, k);
        assert(block_at(prev + last, k) =~= block_at(prev, k));
    }
}

/// Decrypting the first `m` of `n` encrypted blocks gives the first `16 * m`
/// bytes of the input.
pub proof fn lemma_dec_enc_blocks(p: Seq<u8>, keys: Seq<Seq<u8>>, iv: Seq<u8>, n: nat, m: nat)
    requires
        p.len() >= 16 * n,
        iv.len() >= 8,
        m <= n,
    ensures
        dec_blocks(enc_blocks(p, keys, iv, n), keys, iv, m) == p.subrange(0, 16 * m as int),
    decreases m,
{
    if m == 0 {
        assert(p.subrange(0, 0) =~= Seq::<u8>::empty());
    } else {
        let e = enc_blocks(p, keys, iv, n);
        lemma_dec_enc_blocks(p, keys, iv, n, (m - 1) as nat);
        lemma_enc_block_at(p, keys, iv, n, m - 1);
        lemma_block_round_trip(block_at(p, m - 1), keys, chain_for(m - 1, iv));
        assert(p.subrange(0, 16 * (m - 1)) + block_at(p, m - 1) =~= p.subrange(0, 16 * m as int));
    }
}

/// Shape of a ciphertext: the chaining value, `n` encrypted blocks, the tag.
proof fn lemma_ciphertext_layout(key: Seq<u8>, plaintext: Seq<u8>, iv: Seq<u8>)
    requires
        iv.len() == 16,
    ensures
        pad_spec(plaintext).len() % 16 == 0,
        encrypt_spec(key, plaintext, iv).len() == pad_spec(plaintext).len() as int + 48,
        encrypt_spec(key, plaintext, iv).subrange(0, 16) == iv,
        encrypt_spec(key, plaintext, iv).subrange(16, pad_spec(plaintext).len() as int + 16)
            == enc_blocks(pad_spec(plaintext), schedule(key), iv, pad_spec(plaintext).len() / 16),
        encrypt_spec(key, plaintext, iv).subrange(0, pad_spec(plaintext).len() as int + 16)
            == sealed_body(key, plaintext, iv),
        encrypt_spec(key, plaintext, iv).subrange(
            pad_spec(plaintext).len() as int + 16,
            pad_spec(plaintext).len() as int + 48,
        ) == tag_spec(key, sealed_body(key, plaintext, iv)),
{
    let padded = pad_spec(plaintext);
    let n = padded.len() / 16;
    let e = enc_blocks(padded, schedule(key), iv, n);
    lemma_enc_blocks_len(padded, schedule(key), iv, n);
    let body = sealed_body(key, plaintext, iv);
    let c = encrypt_spec(key, plaintext, iv);
    assert(c.subrange(0, 16) =~= iv);
    assert(c.subrange(16, padded.len() as int + 16) =~= e);
    assert(c.subrange(0, padded.len() as int + 16) =~= body);
    assert(c.subrange(padded.len() as int + 16, padded.len() as int + 48) =~= tag_spec(key, body));
}

/// Round trip: with a non-empty key, decrypting what encryption produced
/// gives back the plaintext, whatever the chaining value.
pub proof fn lemma_round_trip(key: Seq<u8>, plaintext: Seq<u8>, iv: Seq<u8>)
    requires
        key.len() > 0,
        iv.len() == 16,
    ensures
        decrypt_spec(key, encrypt_spec(key, plaintext, iv)) == Ok::<Seq<u8>, CipherError>(plaintext),
{
    let padded = pad_spec(plaintext);
    let n = padded.len() / 16;
    let c = encrypt_spec(key, plaintext, iv);
    lemma_ciphertext_layout(key, plaintext, iv);
    assert(c.subrange(0, c.len() - 32) == sealed_body(key, plaintext, iv));
    let ct = c.subrange(16, c.len() - 32);
    assert(ct.len() / 16 == n);
    lemma_dec_enc_blocks(padded, schedule(key), iv, n, n);
    assert(padded.subrange(0, 16 * n as int) =~= padded);
    lemma_unpad_pad(plaintext);
}

/// Flipping one bit of the tag of a valid ciphertext makes decryption fail
/// the integrity check.
pub proof fn lemma_tag_bit_flip(key: Seq<u8>, plaintext: Seq<u8>, iv: Seq<u8>, j: int, bit: u8)
    requires
        key.len() > 0,
        iv.len() == 16,
        encrypt_spec(key, plaintext, iv).len() - 32 <= j < encrypt_spec(key, plaintext, iv).len(),
        bit < 8,
    ensures
        decrypt_spec(
            key,
            encrypt_spec(key, plaintext, iv).update(
                j,
                encrypt_spec(key, plaintext, iv)[j] ^ (1u8 << bit),
            ),
        ) == Err::<Seq<u8>, CipherError>(CipherError::IntegrityFailure),
{
    let c = encrypt_spec(key, plaintext, iv);
    let x = c[j];
    let t = c.update(j, x ^ (1u8 << bit));
    lemma_ciphertext_layout(key, plaintext, iv);
    let len = c.len();
    assert(t.subrange(0, len - 32) =~= c.subrange(0, len - 32));
    assert(x ^ (1u8 << bit) != x) by (bit_vector)
        requires
            bit < 8,
    ;
    assert(t.subrange(len - 32, len as int)[j - (len - 32)] != c.subrange(len - 32, len as int)[j - (len - 32)]);
}

/// Two encryptions of one plaintext under one key differ whenever their
/// chaining values differ, since each ciphertext starts with its own.
pub proof fn lemma_chaining_value_separates(key: Seq<u8>, plaintext: Seq<u8>, iv1: Seq<u8>, iv2: Seq<u8>)
    requires
        iv1.len() == 16,
        iv2.len() == 16,
        iv1 != iv2,
    ensures
        encrypt_spec(key, plaintext, iv1) != encrypt_spec(key, plaintext, iv2),
{
    lemma_ciphertext_layout(key, plaintext, iv1);
    lemma_ciphertext_layout(key, plaintext, iv2);
}

/// Blocks after the first carry no chaining: two plaintexts whose padded
/// forms agree on block `k >= 1` give equal ciphertext blocks at that index,
/// whatever their chaining values.
pub proof fn lemma_trailing_block_independent(
    key: Seq<u8>,
    p1: Seq<u8>,
    p2: Seq<u8>,
    iv1: Seq<u8>,
    iv2: Seq<u8>,
    k: int,
)
    requires
        iv1.len() == 16,
        iv2.len() == 16,
        1 <= k,
        16 * k + 16 <= pad_spec(p1).len(),
        16 * k + 16 <= pad_spec(p2).len(),
        block_at(pad_spec(p1), k) == block_at(pad_spec(p2), k),
    ensures
        encrypt_spec(key, p1, iv1).subrange(16 * k + 16, 16 * k + 32)
            == encrypt_spec(key, p2, iv2).subrange(16 * k + 16, 16 * k + 32),
{
    let keys = schedule(key);
    let a = pad_spec(p1);
    let b = pad_spec(p2);
    lemma_ciphertext_layout(key, p1, iv1);
    lemma_ciphertext_layout(key, p2, iv2);
    let ea = enc_blocks(a, keys, iv1, a.len() / 16);
    let eb = enc_blocks(b, keys, iv2, b.len() / 16);
    lemma_enc_block_at(a, keys, iv1, a.len() / 16, k);
    lemma_enc_block_at(b, keys, iv2, b.len() / 16, k);
    let c1 = encrypt_spec(key, p1, iv1);
    let c2 = encrypt_spec(key, p2, iv2);
    assert(c1.subrange(16 * k + 16, 16 * k + 32) =~= block_at(ea, k));
    assert(c2.subrange(16 * k + 16, 16 * k + 32) =~= block_at(eb, k));
}

} // verus!
