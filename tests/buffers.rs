use feistel_crypt::buffers::{determine_buffer_size, process_chunk, MAX_BUFFER_SIZE, MIN_BUFFER_SIZE};
use feistel_crypt::keystream::expand_key;
use sha2::Digest;

const MIB: u64 = 1024 * 1024;
const GIB: u64 = 1024 * MIB;

#[test]
fn buffer_size_limits_and_classes() {
    assert_eq!(determine_buffer_size(0, 0), MIN_BUFFER_SIZE);
    assert_eq!(determine_buffer_size(20 * 100 * MIB, 0), 8 * 1024 * 1024);
    assert_eq!(determine_buffer_size(u64::MAX, 2 * GIB), 16 * 1024 * 1024);
    assert_eq!(determine_buffer_size(u64::MAX, 11 * GIB), 32 * 1024 * 1024);
    assert_eq!(determine_buffer_size(20 * 5 * MIB, 11 * GIB), 5 * 1024 * 1024);
    assert!(determine_buffer_size(u64::MAX, u64::MAX) <= MAX_BUFFER_SIZE);
}

#[test]
fn chunk_is_xored_into_output() {
    let mut out = [0u8; 3];
    process_chunk(&[1, 2, 3], &[4, 4, 4], &mut out);
    assert_eq!(out, [5, 6, 7]);
}

#[test]
fn expanded_key_is_counter_hashes() {
    let key = expand_key("pw", 40);
    assert_eq!(key.len(), 40);
    let mut h0 = sha2::Sha256::new();
    h0.update(b"pw");
    h0.update(0u64.to_le_bytes());
    let mut h1 = sha2::Sha256::new();
    h1.update(b"pw");
    h1.update(1u64.to_le_bytes());
    assert_eq!(&key[..32], &h0.finalize()[..]);
    assert_eq!(&key[32..], &h1.finalize()[..8]);
    assert_eq!(expand_key("pw", 0), Vec::<u8>::new());
}
