use feistel_crypt::spn::{
    apply_inverse_permutation, apply_inverse_substitution, apply_permutation, apply_substitution,
    generate_round_keys, spn_decrypt, spn_encrypt, AES_SBOX,
};

#[test]
fn substitution_uses_aes_sbox_and_inverts() {
    let mut block: Vec<u8> = (0u8..16).collect();
    apply_substitution(&mut block);
    assert_eq!(block[0], 0x63);
    assert_eq!(block[1], 0x7C);
    apply_inverse_substitution(&mut block);
    assert_eq!(block, (0u8..16).collect::<Vec<u8>>());
    for b in 0..=255u8 {
        let mut one = [b];
        apply_substitution(&mut one);
        assert_eq!(one[0], AES_SBOX[b as usize]);
        apply_inverse_substitution(&mut one);
        assert_eq!(one[0], b);
    }
}

#[test]
fn permutation_moves_bytes_and_inverts() {
    let mut block: Vec<u8> = (0u8..16).collect();
    apply_permutation(&mut block);
    assert_eq!(block, vec![3, 0, 4, 12, 9, 7, 5, 15, 2, 14, 1, 8, 13, 6, 11, 10]);
    apply_inverse_permutation(&mut block);
    assert_eq!(block, (0u8..16).collect::<Vec<u8>>());
}

#[test]
fn round_keys_follow_the_schedule() {
    let key: Vec<u8> = (1u8..=20).collect();
    let keys = generate_round_keys(&key, 3);
    assert_eq!(keys.len(), 3);
    let mut prev: [u8; 16] = key[..16].try_into().unwrap();
    for round in 0..3usize {
        let mut expected = [0u8; 16];
        for i in 0..16 {
            expected[i] = prev[i]
                .wrapping_add(key[(round + i) % key.len()])
                .wrapping_add(round as u8);
        }
        assert_eq!(keys[round], expected);
        prev = expected;
    }
}

#[test]
fn spn_round_trip_on_whole_blocks() {
    let key: Vec<u8> = (100u8..132).collect();
    let data: Vec<u8> = (0..64).map(|i| (i * 13) as u8).collect();
    for rounds in [0usize, 1, 16] {
        let encrypted = spn_encrypt(&data, &key, rounds);
        assert_eq!(encrypted.len(), 64);
        assert_eq!(spn_decrypt(&encrypted, &key, rounds), data);
    }
    assert_ne!(spn_encrypt(&data, &key, 16), data);
}

#[test]
fn spn_short_last_chunk_is_zero_filled() {
    let key = [0x42u8; 16];
    let encrypted = spn_encrypt(b"hello", &key, 16);
    assert_eq!(encrypted.len(), 16);
    let mut expected = b"hello".to_vec();
    expected.resize(16, 0);
    assert_eq!(spn_decrypt(&encrypted, &key, 16), expected);
    assert_eq!(spn_encrypt(&[], &key, 16), Vec::<u8>::new());
}
