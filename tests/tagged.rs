use feistel_crypt::cyclic::{generate_sbox_nonce, sbox_nonce_from_order};
use feistel_crypt::mac_file::{
    decrypt_with_tag, encrypt_with_tag, length_bound_tag, verify_ciphertext, verify_plaintext,
    xor_with_key, XorError,
};
use feistel_crypt::mixed_size;
use feistel_crypt::unit_size::SizeError;
use hmac::Mac;

#[test]
fn length_bound_tag_covers_length() {
    let tag = length_bound_tag(b"mac key", b"hello");
    let mut mac = hmac::Hmac::<sha2::Sha256>::new_from_slice(b"mac key").unwrap();
    mac.update(b"hello");
    mac.update(&5u64.to_le_bytes());
    assert_eq!(tag, mac.finalize().into_bytes().to_vec());
}

#[test]
fn tagged_round_trip() {
    let plaintext = b"file contents".to_vec();
    let xor_key: Vec<u8> = (0..20).map(|i| (i * 11 + 1) as u8).collect();
    let (ct, tag) = encrypt_with_tag(&plaintext, &xor_key, b"mac").unwrap();
    assert_ne!(ct, plaintext);
    assert_eq!(verify_ciphertext(&ct, &tag, &xor_key, b"mac"), Ok(()));
    let recovered = decrypt_with_tag(&ct, &tag, &xor_key, b"mac").unwrap();
    assert_eq!(recovered, plaintext);
    assert_eq!(verify_plaintext(&recovered, &tag, b"mac"), Ok(()));
}

#[test]
fn tagged_errors() {
    assert_eq!(encrypt_with_tag(b"long data", b"key", b"mac"), Err(XorError::KeyTooShort));
    let xor_key = [7u8; 16];
    let (mut ct, tag) = encrypt_with_tag(b"abc", &xor_key, b"mac").unwrap();
    assert_eq!(decrypt_with_tag(&ct, &tag, &[7u8; 2], b"mac"), Err(XorError::KeyTooShort));
    ct[0] ^= 1;
    assert_eq!(decrypt_with_tag(&ct, &tag, &xor_key, b"mac"), Err(XorError::IntegrityFailure));
    assert_eq!(verify_ciphertext(&ct, &tag, &xor_key, b"mac"), Err(XorError::IntegrityFailure));
    assert_eq!(verify_plaintext(b"abd", &tag, b"mac"), Err(XorError::IntegrityFailure));
    assert_eq!(decrypt_with_tag(&ct, &tag[..31], &xor_key, b"mac"), Err(XorError::IntegrityFailure));
}

#[test]
fn in_place_xor_keeps_data_on_short_key() {
    let mut data = vec![1u8, 2, 3];
    assert_eq!(xor_with_key(&mut data, &[1, 1]), Err(XorError::KeyTooShort));
    assert_eq!(data, vec![1, 2, 3]);
    assert_eq!(xor_with_key(&mut data, &[1, 1, 1, 9]), Ok(()));
    assert_eq!(data, vec![0, 3, 2]);
}

#[test]
fn mixed_sizes() {
    assert_eq!(mixed_size::parse_size("32bytes"), Ok(32));
    assert_eq!(mixed_size::parse_size("20mb"), Ok(20 * 1024 * 1024));
    assert_eq!(mixed_size::parse_size("5GB"), Ok(5 * 1024 * 1024 * 1024));
    assert_eq!(mixed_size::parse_size("1b0"), Ok(10));
    assert_eq!(mixed_size::parse_size(" 7 KB "), Err(SizeError::UnknownUnit));
    assert_eq!(mixed_size::parse_size(" 7KB "), Ok(7 * 1024));
    assert_eq!(mixed_size::parse_size("mb"), Err(SizeError::InvalidNumber));
    assert_eq!(mixed_size::parse_size("10tb"), Err(SizeError::UnknownUnit));
    assert_eq!(mixed_size::parse_size("10"), Err(SizeError::UnknownUnit));
}

#[test]
fn sbox_nonce_holds_every_byte_once() {
    let mut nonce = generate_sbox_nonce().to_vec();
    nonce.sort();
    assert_eq!(nonce, (0..=255u8).collect::<Vec<u8>>());
    let order: [u8; 256] = core::array::from_fn(|i| i as u8);
    let fixed = sbox_nonce_from_order(&order);
    assert_eq!(fixed[0], 0x63);
    assert_eq!(fixed[255], 0x16);
}
