use feistel_crypt::keystream::{
    derive_subkeys_with_hkdf, generate_hmac, generate_keystream, open_sealed, seal, seal_with_nonce,
    u64_to_be_bytes, verify_hmac, xor_with_key_and_keystream, StreamError,
};
use sha2::Digest;

#[test]
fn counter_bytes_are_big_endian() {
    assert_eq!(u64_to_be_bytes(0x0102030405060708), [1, 2, 3, 4, 5, 6, 7, 8]);
    assert_eq!(u64_to_be_bytes(0), [0; 8]);
}

#[test]
fn keystream_blocks_are_counter_digests() {
    let subkey = [7u8; 32];
    let nonce = [9u8; 16];
    let ks = generate_keystream(&subkey, &nonce, 70);
    assert_eq!(ks.len(), 70);
    for counter in 0u64..3 {
        let mut h = sha2::Sha256::new();
        h.update(subkey);
        h.update(nonce);
        h.update(counter.to_be_bytes());
        let block = h.finalize();
        let start = counter as usize * 32;
        let end = std::cmp::min(start + 32, 70);
        assert_eq!(&ks[start..end], &block[..end - start]);
    }
    assert_eq!(generate_keystream(&subkey, &nonce, 0), Vec::<u8>::new());
}

#[test]
fn subkeys_match_hkdf() {
    let (enc, mac) = derive_subkeys_with_hkdf(b"master key", b"salt salt salt!!");
    let hk = hkdf::Hkdf::<sha2::Sha256>::new(Some(b"salt salt salt!!"), b"master key");
    let mut e = [0u8; 32];
    let mut m = [0u8; 32];
    hk.expand(b"encryption_subkey", &mut e).unwrap();
    hk.expand(b"hmac_subkey", &mut m).unwrap();
    assert_eq!(enc, e.to_vec());
    assert_eq!(mac, m.to_vec());
    assert_ne!(enc, mac);
}

#[test]
fn hmac_generation_and_check() {
    let tag = generate_hmac(b"Jefe", b"what do ya want for nothing?");
    assert_eq!(tag[0], 0x5b);
    assert_eq!(tag.len(), 32);
    assert!(verify_hmac(b"Jefe", b"what do ya want for nothing?", &tag));
    assert!(!verify_hmac(b"Jefe", b"what do ya want for nothing!", &tag));
    assert!(!verify_hmac(b"Jefe", b"what do ya want for nothing?", &tag[..31]));
}

#[test]
fn triple_xor_appends() {
    let mut out = vec![0xAA];
    xor_with_key_and_keystream(&[1, 2], &[3, 4, 5], &[6, 7], &mut out);
    assert_eq!(out, vec![0xAA, 1 ^ 3 ^ 6, 2 ^ 4 ^ 7]);
}

#[test]
fn sealed_message_round_trip() {
    let key: Vec<u8> = (0..64).map(|i| (i * 3) as u8).collect();
    let input = b"a message shorter than the key".to_vec();
    let sealed = seal(&key, &input).unwrap();
    assert_eq!(sealed.len(), input.len() + 48);
    assert_eq!(open_sealed(&key, &sealed).unwrap(), input);
    let fixed = seal_with_nonce(&key, &input, &[1u8; 16]).unwrap();
    assert_eq!(&fixed[..16], &[1u8; 16]);
    assert_eq!(open_sealed(&key, &fixed).unwrap(), input);
}

#[test]
fn sealed_message_errors() {
    let key = vec![1u8; 8];
    assert_eq!(seal(&key, &[0u8; 9]), Err(StreamError::KeyTooShort));
    assert_eq!(open_sealed(&key, &[0u8; 47]), Err(StreamError::TruncatedInput));
    assert_eq!(open_sealed(&key, &[0u8; 57]), Err(StreamError::KeyTooShort));
    let mut sealed = seal_with_nonce(&key, &[5u8; 8], &[2u8; 16]).unwrap();
    sealed[20] ^= 0x80;
    assert_eq!(open_sealed(&key, &sealed), Err(StreamError::IntegrityFailure));
}

#[test]
fn buffers_are_zeroed_in_place() {
    let mut buffers = vec![vec![1u8, 2, 3], Vec::new(), vec![9u8; 40]];
    feistel_crypt::keystream::zeroize_slices(&mut buffers);
    assert_eq!(buffers, vec![vec![0u8; 3], Vec::new(), vec![0u8; 40]]);
}
