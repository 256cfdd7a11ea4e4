//! One-time-pad helpers: data combined byte by byte with a key at least as
//! long, or, for the looser tools, with as much of the key as there is.

use vstd::prelude::*;
use crate::feistel::{xor, xor_seq};

verus! {

/// Why a one-time pad cannot be applied.
#[derive(Debug, Clone, Copy, PartialEq, Eq, Structural)]
pub enum PadError {
    /// The key has no bytes.
    EmptyKey,
    /// The key is shorter than the data.
    KeyTooShort,
}

/// Combines `data` with `key` byte by byte, stopping at the shorter of the two.
pub fn xor_encrypt_decrypt(data: &[u8], key: &[u8]) -> (r: Vec<u8>)
    ensures
        r@ == xor_seq(data@, key@),
{
    xor(data, key)
}

/// Combines `data` with `key` byte by byte, stopping at the shorter of the two.
pub fn xor_process(data: &[u8], key: &[u8]) -> (r: Vec<u8>)
    ensures
        r@ == xor_seq(data@, key@),
{
    xor(data, key)
}

/// Applies a one-time pad: the key must be non-empty and at least as long as
/// the input, and then every input byte is combined with the key byte at the
/// same position.
pub fn process_data(input_data: &[u8], key_data: &[u8]) -> (r: Result<Vec<u8>, PadError>)
    ensures
        match r {
            Ok(v) => key_data@.len() > 0 && key_data@.len() >= input_data@.len() && v@ == xor_seq(
                input_data@,
                key_data@,
            ) && v@.len() == input_data@.len(),
            Err(e) => (key_data@.len() == 0 && e == PadError::EmptyKey) || (key_data@.len() > 0
                && key_data@.len() < input_data@.len() && e == PadError::KeyTooShort),
        },
{
    if key_data.len() == 0 {
        return Err(PadError::EmptyKey);
    }
    if key_data.len() < input_data.len() {
        return Err(PadError::KeyTooShort);
    }
    Ok(xor(input_data, key_data))
}

/// Applying the same pad twice gives the data back, as long as the pad
/// covers it.
pub proof fn lemma_pad_twice(data: Seq<u8>, key: Seq<u8>)
    requires
        data.len() <= key.len(),
    ensures
        xor_seq(xor_seq(data, key), key) == data,
{
    crate::feistel::lemma_xor_twice(data, key);
}

} // verus!
