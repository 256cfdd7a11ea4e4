//! PKCS#7 padding to a multiple of the block size.

use vstd::prelude::*;
use crate::error::CipherError;
use crate::feistel::BLOCK_SIZE;

verus! {

/// How many padding bytes follow data of length `n`: between 1 and 16.
pub open spec fn pad_len(n: nat) -> nat {
    (16 - n % 16) as nat
}

/// `data` followed by `p` bytes of value `p`.
pub open spec fn pad_spec(data: Seq<u8>) -> Seq<u8> {
    data + Seq::new(pad_len(data.len()), |i: int| pad_len(data.len()) as u8)
}

/// `data` without its padding, or `None` when the padding is malformed.
pub open spec fn unpad_spec(data: Seq<u8>) -> Option<Seq<u8>> {
    if data.len() == 0 {
        None
    } else {
        let p = data.last() as int;
        if p == 0 || p > 16 || p > data.len() {
            None
        } else if forall|i: int| data.len() - p <= i < data.len() ==> #[trigger] data[i] == p as u8 {
            Some(data.subrange(0, data.len() - p))
        } else {
            None
        }
    }
}

/// Appends `p` bytes of value `p`, where `p = 16 - len % 16`; a length that
/// is already a multiple of 16 gets a whole block of padding.
pub fn pad(data: &[u8]) -> (r: Vec<u8>)
    requires
        data@.len() + BLOCK_SIZE <= usize::MAX,
    ensures
        r@ == pad_spec(data@),
        r@.len() > data@.len(),
        r@.len() % 16 == 0,
{
    let padding_len: usize = BLOCK_SIZE - (data.len() % BLOCK_SIZE);
    let mut out: Vec<u8> = Vec::with_capacity(data.len() + padding_len);
    let mut i: usize = 0;
    while i < data.len()
        invariant
            i <= data@.len(),
            out@ == data@.subrange(0, i as int),
        decreases data@.len() - i,
    {
        out.push(data[i]);
        i = i + 1;
    }
    let mut j: usize = 0;
    while j < padding_len
        invariant
            padding_len == pad_len(data@.len()),
            j <= padding_len,
            out@ == data@ + Seq::new(j as nat, |k: int| padding_len as u8),
        decreases padding_len - j,
    {
        out.push(padding_len as u8);
        j = j + 1;
        assert(out@ =~= data@ + Seq::new(j as nat, |k: int| padding_len as u8));
    }
    out
}

/// Removes PKCS#7 padding, rejecting empty input, a last byte of 0 or above
/// 16, and trailing bytes that do not all equal the last one.
pub fn unpad(data: &[u8]) -> (r: Result<Vec<u8>, CipherError>)
    ensures
        match r {
            Ok(v) => unpad_spec(data@) == Some(v@),
            Err(e) => unpad_spec(data@) is None && e == CipherError::InvalidPadding,
        },
{
    if data.len() == 0 {
        return Err(CipherError::InvalidPadding);
    }
    let padding_len: usize = data[data.len() - 1] as usize;
    if padding_len == 0 || padding_len > BLOCK_SIZE || padding_len > data.len() {
        return Err(CipherError::InvalidPadding);
    }
    let start: usize = data.len() - padding_len;
    let mut i: usize = start;
    while i < data.len()
        invariant
            start == data@.len() - padding_len,
            padding_len == data@.last() as int,
            start <= i <= data@.len(),
            forall|k: int| start <= k < i ==> data@[k] == padding_len as u8,
        decreases data@.len() - i,
    {
        if data[i] as usize != padding_len {
            return Err(CipherError::InvalidPadding);
        }
        i = i + 1;
    }
    let mut out: Vec<u8> = Vec::with_capacity(start);
    let mut j: usize = 0;
    while j < start
        invariant
            start <= data@.len(),
            j <= start,
            out@ == data@.subrange(0, j as int),
        decreases start - j,
    {
        out.push(data[j]);
        j = j + 1;
    }
    Ok(out)
}

/// Removing the padding that `pad` added gives back the original data.
pub proof fn lemma_unpad_pad(data: Seq<u8>)
    ensures
        unpad_spec(pad_spec(data)) == Some(data),
{
    let p = pad_len(data.len());
    let padded = pad_spec(data);
    assert(padded.last() == p as u8);
    assert(padded.subrange(0, padded.len() - p) =~= data);
}

/// Padding always adds at least one byte and ends on a block boundary; a
/// whole block is added when the data already does.
pub proof fn lemma_pad_growth(data: Seq<u8>)
    ensures
        pad_spec(data).len() > data.len(),
        pad_spec(data).len() % 16 == 0,
        data.len() % 16 == 0 ==> pad_spec(data).len() == data.len() + 16,
{
}

} // verus!
