use feistel_crypt::codec::{compute_hmac, decrypt, encrypt, encrypt_with_iv, HMAC_SIZE, IV_SIZE};
use feistel_crypt::error::CipherError;
use feistel_crypt::feistel::{decrypt_block, encrypt_block, key_schedule, round_function, xor};
use feistel_crypt::padding::{pad, unpad};

fn hex(bytes: &[u8]) -> String {
    let mut s = String::new();
    for b in bytes {
        s.push_str(&format!("{:02x}", b));
    }
    s
}

#[test]
fn scenario_a_round_trip_of_sixteen_a() {
    let key = b"testkey";
    let plaintext = [b'A'; 16];
    assert_eq!(pad(&plaintext).len(), 32);
    let ciphertext = encrypt(key, &plaintext).unwrap();
    assert_eq!(ciphertext.len(), 16 + 32 + 32);
    let recovered = decrypt(key, &ciphertext).unwrap();
    assert_eq!(recovered, plaintext.to_vec());
}

#[test]
fn scenario_b_empty_plaintext_gives_sixty_four_bytes() {
    let padded = pad(&[]);
    assert_eq!(padded.len(), 16);
    assert_eq!(padded, vec![16u8; 16]);
    let ciphertext = encrypt(b"testkey", &[]).unwrap();
    assert_eq!(ciphertext.len(), 64);
    assert_eq!(decrypt(b"testkey", &ciphertext).unwrap(), Vec::<u8>::new());
}

#[test]
fn scenario_c_flipped_tag_byte_fails_integrity() {
    let key = b"testkey";
    let mut ciphertext = encrypt(key, &[b'A'; 16]).unwrap();
    let last = ciphertext.len() - 1;
    ciphertext[last] ^= 0x01;
    assert_eq!(decrypt(key, &ciphertext), Err(CipherError::IntegrityFailure));
}

#[test]
fn scenario_d_forty_bytes_is_truncated() {
    let data = [0u8; 40];
    assert_eq!(decrypt(b"testkey", &data), Err(CipherError::TruncatedInput));
}

#[test]
fn round_trip_various_lengths() {
    let key = b"a longer master key";
    for len in [0usize, 1, 15, 16, 17, 31, 32, 33, 100, 255] {
        let plaintext: Vec<u8> = (0..len).map(|i| (i * 7 + 3) as u8).collect();
        let ciphertext = encrypt(key, &plaintext).unwrap();
        assert_eq!(ciphertext.len(), IV_SIZE + (len / 16 + 1) * 16 + HMAC_SIZE);
        assert_eq!(decrypt(key, &ciphertext).unwrap(), plaintext);
    }
}

#[test]
fn every_single_bit_flip_is_detected() {
    let key = b"testkey";
    let ciphertext = encrypt(key, b"attack at dawn!!!").unwrap();
    for j in 0..ciphertext.len() {
        for bit in 0..8 {
            let mut tampered = ciphertext.clone();
            tampered[j] ^= 1 << bit;
            assert_eq!(decrypt(key, &tampered), Err(CipherError::IntegrityFailure));
        }
    }
}

#[test]
fn wrong_key_fails_integrity() {
    let ciphertext = encrypt(b"right key", b"secret").unwrap();
    assert_eq!(decrypt(b"wrong key", &ciphertext), Err(CipherError::IntegrityFailure));
}

#[test]
fn empty_key_is_rejected() {
    assert_eq!(encrypt(b"", b"data"), Err(CipherError::EmptyKey));
    assert_eq!(decrypt(b"", &[0u8; 64]), Err(CipherError::EmptyKey));
    assert_eq!(key_schedule(b""), Err(CipherError::EmptyKey));
}

#[test]
fn fixed_chaining_value_is_deterministic() {
    let key = b"testkey";
    let iv = [9u8; 16];
    let a = encrypt_with_iv(key, b"same plaintext", &iv).unwrap();
    let b = encrypt_with_iv(key, b"same plaintext", &iv).unwrap();
    assert_eq!(a, b);
    assert_eq!(&a[..16], &iv);
}

#[test]
fn different_chaining_values_give_different_ciphertexts() {
    let key = b"testkey";
    let a = encrypt_with_iv(key, b"same plaintext", &[1u8; 16]).unwrap();
    let b = encrypt_with_iv(key, b"same plaintext", &[2u8; 16]).unwrap();
    assert_ne!(a, b);
    let c = encrypt(key, b"same plaintext").unwrap();
    let d = encrypt(key, b"same plaintext").unwrap();
    assert_ne!(c, d);
}

#[test]
fn trailing_blocks_repeat_like_ecb() {
    let key = b"testkey";
    let mut p1 = vec![1u8; 16];
    p1.extend_from_slice(&[b'Z'; 16]);
    let mut p2 = vec![2u8; 16];
    p2.extend_from_slice(&[b'Z'; 16]);
    let c1 = encrypt_with_iv(key, &p1, &[3u8; 16]).unwrap();
    let c2 = encrypt_with_iv(key, &p2, &[4u8; 16]).unwrap();
    assert_ne!(&c1[16..32], &c2[16..32]);
    assert_eq!(&c1[32..48], &c2[32..48]);
    assert_eq!(&c1[48..64], &c2[48..64]);
}

#[test]
fn only_first_half_of_chaining_value_matters() {
    let key = b"testkey";
    let mut iv1 = [5u8; 16];
    let mut iv2 = [5u8; 16];
    iv1[12] = 0;
    iv2[12] = 1;
    let a = encrypt_with_iv(key, b"abc", &iv1).unwrap();
    let b = encrypt_with_iv(key, b"abc", &iv2).unwrap();
    assert_eq!(&a[16..32], &b[16..32]);
}

#[test]
fn valid_tag_over_bad_padding_is_invalid_padding() {
    let key = b"testkey";
    let keys = key_schedule(key).unwrap();
    let iv = [7u8; 16];
    let block = [0u8; 16];
    let enc = encrypt_block(&block, &keys, Some(&iv));
    let mut data = iv.to_vec();
    data.extend_from_slice(&enc);
    let tag = compute_hmac(key, &data);
    data.extend_from_slice(&tag);
    assert_eq!(decrypt(key, &data), Err(CipherError::InvalidPadding));
}

#[test]
fn valid_tag_over_partial_block_is_invalid_padding() {
    let key = b"testkey";
    let mut data = vec![1u8; 17];
    let tag = compute_hmac(key, &data);
    data.extend_from_slice(&tag);
    assert_eq!(data.len(), 49);
    assert_eq!(decrypt(key, &data), Err(CipherError::InvalidPadding));
}

#[test]
fn no_blocks_with_valid_tag_is_invalid_padding() {
    let key = b"testkey";
    let mut data = vec![0u8; 16];
    let tag = compute_hmac(key, &data);
    data.extend_from_slice(&tag);
    assert_eq!(decrypt(key, &data), Err(CipherError::InvalidPadding));
}

#[test]
fn hmac_matches_rfc4231_case_two() {
    let tag = compute_hmac(b"Jefe", b"what do ya want for nothing?");
    assert_eq!(hex(&tag), "5bdcc146bf60754e6a042426089575c75a003f089d2739839dec58b964ec3843");
}

#[test]
fn key_schedule_is_a_sha256_chain() {
    let keys = key_schedule(b"abc").unwrap();
    assert_eq!(keys.len(), 16);
    assert_eq!(hex(&keys[0]), "ba7816bf8f01cfea414140de5dae2223b00361a396177a9cb410ff61f20015ad");
    for i in 1..16 {
        let again = key_schedule(&keys[i - 1]).unwrap();
        assert_eq!(again[0], keys[i]);
    }
    assert_eq!(key_schedule(b"abc").unwrap(), keys);
}

#[test]
fn round_function_is_truncated_sha256_of_concatenation() {
    let f = round_function(b"ab", b"c");
    let expected = key_schedule(b"abc").unwrap()[0];
    assert_eq!(&f[..], &expected[..8]);
}

#[test]
fn xor_stops_at_shorter_input() {
    assert_eq!(xor(&[1, 2, 3], &[3, 3]), vec![2, 1]);
    assert_eq!(xor(&[], &[1]), Vec::<u8>::new());
}

#[test]
fn block_decrypt_inverts_encrypt() {
    let keys = key_schedule(b"block key").unwrap();
    let block: Vec<u8> = (0u8..16).collect();
    let iv = [0xAAu8; 16];
    let with_iv = encrypt_block(&block, &keys, Some(&iv));
    assert_ne!(with_iv.to_vec(), block);
    assert_eq!(decrypt_block(&with_iv, &keys, Some(&iv)).to_vec(), block);
    let without = encrypt_block(&block, &keys, None);
    assert_eq!(decrypt_block(&without, &keys, None).to_vec(), block);
    assert_ne!(with_iv, without);
}

#[test]
fn padding_lengths() {
    assert_eq!(pad(&[0u8; 16]).len(), 32);
    assert_eq!(pad(&[0u8; 15]), {
        let mut v = vec![0u8; 15];
        v.push(1);
        v
    });
    for len in 0..40usize {
        let data = vec![0xEEu8; len];
        let padded = pad(&data);
        assert!(padded.len() > len);
        assert_eq!(padded.len() % 16, 0);
        assert_eq!(unpad(&padded).unwrap(), data);
    }
}

#[test]
fn unpad_rejects_malformed_padding() {
    assert_eq!(unpad(&[]), Err(CipherError::InvalidPadding));
    assert_eq!(unpad(&[1, 2, 3, 0]), Err(CipherError::InvalidPadding));
    assert_eq!(unpad(&[17u8; 32]), Err(CipherError::InvalidPadding));
    assert_eq!(unpad(&[1, 3, 2, 3]), Err(CipherError::InvalidPadding));
    assert_eq!(unpad(&[5, 5, 5]), Err(CipherError::InvalidPadding));
    assert_eq!(unpad(&[9, 2, 2]).unwrap(), vec![9]);
}
