use feistel_crypt::cyclic;
use feistel_crypt::otp::{process_data, xor_encrypt_decrypt, xor_process, PadError};

#[test]
fn one_time_pad_round_trip() {
    let data = b"meet me at noon".to_vec();
    let key: Vec<u8> = (0..data.len()).map(|i| (i * 31 + 5) as u8).collect();
    let once = process_data(&data, &key).unwrap();
    assert_ne!(once, data);
    assert_eq!(process_data(&once, &key).unwrap(), data);
}

#[test]
fn one_time_pad_errors() {
    assert_eq!(process_data(b"abc", b""), Err(PadError::EmptyKey));
    assert_eq!(process_data(b"abc", b"ab"), Err(PadError::KeyTooShort));
    assert_eq!(process_data(b"", b"k").unwrap(), Vec::<u8>::new());
    assert_eq!(process_data(b"ab", b"\x01\x02\x03").unwrap(), vec![b'a' ^ 1, b'b' ^ 2]);
}

#[test]
fn zip_xor_stops_at_shorter() {
    assert_eq!(xor_encrypt_decrypt(&[0xFF, 0x0F, 0x01], &[0x0F, 0xFF]), vec![0xF0, 0xF0]);
    assert_eq!(xor_process(&[1, 2], &[1, 2, 3]), vec![0, 0]);
}

#[test]
fn cyclic_xor_repeats_key_and_nonce() {
    let out = cyclic::xor_encrypt_decrypt(&[0, 0, 0, 0, 0], &[1, 2], &[0x10, 0x20, 0x30]);
    assert_eq!(out, vec![0x11, 0x22, 0x31, 0x12, 0x21]);
    assert_eq!(cyclic::xor_encrypt_decrypt(&out, &[1, 2], &[0x10, 0x20, 0x30]), vec![0; 5]);
}

#[test]
fn cyclic_xor_process_repeats_key() {
    assert_eq!(cyclic::xor_process(&[5, 5, 5], &[1, 4]), vec![4, 1, 4]);
}

#[test]
fn generate_key_repeats_password() {
    assert_eq!(cyclic::generate_key("abc", 7), b"abcabca".to_vec());
    assert_eq!(cyclic::generate_key("", 0), Vec::<u8>::new());
    assert_eq!(cyclic::generate_key("é", 3), vec![0xC3, 0xA9, 0xC3]);
}
