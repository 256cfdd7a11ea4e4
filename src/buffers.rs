//! Buffer sizing and chunk processing for the streaming one-time-pad tool.

use vstd::prelude::*;
use crate::feistel::xor_seq;

verus! {

/// Smallest buffer ever chosen: 4 MiB.
pub const MIN_BUFFER_SIZE: usize = 4 * 1024 * 1024;

/// Largest buffer ever chosen: 64 MiB.
pub const MAX_BUFFER_SIZE: usize = 64 * 1024 * 1024;

/// The smaller of two integers.
pub open spec fn min_int(a: int, b: int) -> int {
    if a <= b {
        a
    } else {
        b
    }
}

/// The buffer size for a file of `file_size` bytes when `available_memory`
/// bytes are free: a twentieth of free memory, but no more than the file's
/// size class allows (32 MiB above 10 GiB, 16 MiB above 1 GiB, else 8 MiB),
/// kept between the two limits.
pub open spec fn buffer_size_spec(available_memory: u64, file_size: u64) -> int {
    let by_memory = min_int((available_memory / 20) as int, MAX_BUFFER_SIZE as int);
    let by_file: int = if file_size > 10 * 1024 * 1024 * 1024 {
        32 * 1024 * 1024int
    } else if file_size > 1024 * 1024 * 1024 {
        16 * 1024 * 1024int
    } else {
        8 * 1024 * 1024int
    };
    let b = min_int(by_memory, by_file);
    if b < MIN_BUFFER_SIZE {
        MIN_BUFFER_SIZE as int
    } else if b > MAX_BUFFER_SIZE {
        MAX_BUFFER_SIZE as int
    } else {
        b
    }
}

/// Chooses how many bytes to process at a time, from the free memory that
/// the caller measured and the size of the file.
pub fn determine_buffer_size(available_memory: u64, file_size: u64) -> (r: usize)
    ensures
        r == buffer_size_spec(available_memory, file_size),
        MIN_BUFFER_SIZE <= r <= MAX_BUFFER_SIZE,
{
    let share: u64 = available_memory / 20;
    let by_memory: usize = if share < MAX_BUFFER_SIZE as u64 {
        share as usize
    } else {
        MAX_BUFFER_SIZE
    };
    let by_file: usize = if file_size > 10 * 1024 * 1024 * 1024 {
        32 * 1024 * 1024
    } else if file_size > 1024 * 1024 * 1024 {
        16 * 1024 * 1024
    } else {
        8 * 1024 * 1024
    };
    let buffer_size: usize = if by_memory <= by_file {
        by_memory
    } else {
        by_file
    };
    if buffer_size < MIN_BUFFER_SIZE {
        MIN_BUFFER_SIZE
    } else if buffer_size > MAX_BUFFER_SIZE {
        MAX_BUFFER_SIZE
    } else {
        buffer_size
    }
}

/// Writes `input ^ key` into `output`; all three have the same length.
pub fn process_chunk(input: &[u8], key: &[u8], output: &mut [u8])
    requires
        input@.len() == key@.len(),
        input@.len() == old(output)@.len(),
    ensures
        final(output)@ == xor_seq(input@, key@),
{
    let mut i: usize = 0;
    while i < input.len()
        invariant
            i <= input@.len(),
            input@.len() == key@.len(),
            input@.len() == output@.len(),
            forall|m: int| 0 <= m < i ==> output@[m] == input@[m] ^ key@[m],
        decreases input@.len() - i,
    {
        output[i] = input[i] ^ key[i];
        i = i + 1;
    }
    assert(output@ =~= xor_seq(input@, key@));
}

} // verus!
