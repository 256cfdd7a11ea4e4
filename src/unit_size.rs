//! Sizes written as decimal digits followed by a one-letter unit (`B`, `K`,
//! `M` or `G`, either case); whatever follows the unit letter is ignored.

use vstd::prelude::*;
use vstd::string::StringSliceAdditionalSpecFns;

verus! {

/// Why a size could not be read.
#[derive(Debug, Clone, Copy, PartialEq, Eq, Structural)]
pub enum SizeError {
    /// No digits, or more than `usize` holds.
    InvalidNumber,
    /// The letter after the digits is not a known unit.
    UnknownUnit,
    /// The number times its unit does not fit in `usize`.
    TooLarge,
}

/// Whether `b` is an ASCII decimal digit.
pub open spec fn is_digit_byte(b: u8) -> bool {
    48 <= b <= 57
}

/// How many ASCII digits `s` starts with.
pub open spec fn digit_run(s: Seq<u8>) -> nat
    decreases s.len(),
{
    if s.len() == 0 || !is_digit_byte(s[0]) {
        0
    } else {
        1 + digit_run(s.drop_first())
    }
}

/// The number that the ASCII digits `s` spell.
pub open spec fn byte_digits_value(s: Seq<u8>) -> int
    decreases s.len(),
{
    if s.len() == 0 {
        0
    } else {
        byte_digits_value(s.drop_last()) * 10 + (s.last() - 48)
    }
}

/// An ASCII letter in upper case; other bytes unchanged.
pub open spec fn upper(b: u8) -> u8 {
    if 97 <= b <= 122 {
        (b - 32) as u8
    } else {
        b
    }
}

/// `v` times `factor`, or `TooLarge` when that does not fit.
pub open spec fn times(v: int, factor: int) -> Result<usize, SizeError> {
    if v * factor <= usize::MAX {
        Ok((v * factor) as usize)
    } else {
        Err(SizeError::TooLarge)
    }
}

/// The size in bytes that the UTF-8 bytes `s` stand for.
pub open spec fn unit_size_spec(s: Seq<u8>) -> Result<usize, SizeError> {
    let n = digit_run(s);
    let v = byte_digits_value(s.subrange(0, n as int));
    if n == 0 || v > usize::MAX {
        Err(SizeError::InvalidNumber)
    } else if n == s.len() {
        Ok(v as usize)
    } else {
        let u = upper(s[n as int]);
        if u == 66 {
            Ok(v as usize)
        } else if u == 75 {
            times(v, 1024)
        } else if u == 77 {
            times(v, 1024 * 1024int)
        } else if u == 71 {
            times(v, 1024 * 1024 * 1024int)
        } else {
            Err(SizeError::UnknownUnit)
        }
    }
}

/// A run of `i` digits ended by the end of `s` or a non-digit is the whole run.
proof fn lemma_digit_run(s: Seq<u8>, i: int)
    requires
        0 <= i <= s.len(),
        forall|k: int| 0 <= k < i ==> is_digit_byte(#[trigger] s[k]),
        i == s.len() || !is_digit_byte(s[i]),
    ensures
        digit_run(s) == i,
    decreases i,
{
    if i > 0 {
        let t = s.drop_first();
        assert forall|k: int| 0 <= k < i - 1 implies is_digit_byte(#[trigger] t[k]) by {
            assert(t[k] == s[k + 1]);
        }
        lemma_digit_run(t, i - 1);
    }
}

/// Reads a size such as `512B`, `4k`, `20M` or `1G`; digits alone are bytes.
pub fn parse_size(size_str: &str) -> (r: Result<usize, SizeError>)
    ensures
        r == unit_size_spec(size_str.spec_bytes()),
{
    let bytes = size_str.as_bytes();
    let len: usize = bytes.len();
    let mut i: usize = 0;
    let mut value: usize = 0;
    let mut overflow: bool = false;
    while i < len && 48 <= bytes[i] && bytes[i] <= 57
        invariant
            len == bytes@.len(),
            i <= len,
            forall|k: int| 0 <= k < i ==> is_digit_byte(#[trigger] bytes@[k]),
            overflow ==> byte_digits_value(bytes@.subrange(0, i as int)) > usize::MAX,
            !overflow ==> value == byte_digits_value(bytes@.subrange(0, i as int)),
        decreases len - i,
    {
        let d: usize = (bytes[i] - 48) as usize;
        let ghost prev = byte_digits_value(bytes@.subrange(0, i as int));
        assert(bytes@.subrange(0, i + 1).drop_last() =~= bytes@.subrange(0, i as int));
        if !overflow {
            match value.checked_mul(10) {
                Some(t) => match t.checked_add(d) {
                    Some(n) => {
                        value = n;
                    },
                    None => {
                        overflow = true;
                    },
                },
                None => {
                    overflow = true;
                },
            }
        }
        i = i + 1;
    }
    proof {
        lemma_digit_run(bytes@, i as int);
    }
    if i == 0 || overflow {
        return Err(SizeError::InvalidNumber);
    }
    if i == len {
        return Ok(value);
    }
    let c: u8 = bytes[i];
    let unit: u8 = if 97 <= c && c <= 122 {
        c - 32
    } else {
        c
    };
    if unit == 66 {
        Ok(value)
    } else if unit == 75 {
        match value.checked_mul(1024) {
            Some(v) => Ok(v),
            None => Err(SizeError::TooLarge),
        }
    } else if unit == 77 {
        match value.checked_mul(1024 * 1024) {
            Some(v) => Ok(v),
            None => Err(SizeError::TooLarge),
        }
    } else if unit == 71 {
        match value.checked_mul(1024 * 1024 * 1024) {
            Some(v) => Ok(v),
            None => Err(SizeError::TooLarge),
        }
    } else {
        Err(SizeError::UnknownUnit)
    }
}

/// Reads a run of ASCII digits as a number; `None` when the run is empty or
/// its value does not fit.
pub(crate) fn parse_digits(bytes: &[u8]) -> (r: Option<usize>)
    requires
        forall|k: int| 0 <= k < bytes@.len() ==> is_digit_byte(#[trigger] bytes@[k]),
    ensures
        match r {
            Some(v) => bytes@.len() > 0 && byte_digits_value(bytes@) <= usize::MAX && v
                == byte_digits_value(bytes@),
            None => bytes@.len() == 0 || byte_digits_value(bytes@) > usize::MAX,
        },
{
    let len: usize = bytes.len();
    let mut i: usize = 0;
    let mut value: usize = 0;
    let mut overflow: bool = false;
    while i < len
        invariant
            len == bytes@.len(),
            i <= len,
            forall|k: int| 0 <= k < len ==> is_digit_byte(#[trigger] bytes@[k]),
            overflow ==> byte_digits_value(bytes@.subrange(0, i as int)) > usize::MAX,
            !overflow ==> value == byte_digits_value(bytes@.subrange(0, i as int)),
        decreases len - i,
    {
        let d: usize = (bytes[i] - 48) as usize;
        assert(bytes@.subrange(0, i + 1).drop_last() =~= bytes@.subrange(0, i as int));
        if !overflow {
            match value.checked_mul(10) {
                Some(t) => match t.checked_add(d) {
                    Some(n) => {
                        value = n;
                    },
                    None => {
                        overflow = true;
                    },
                },
                None => {
                    overflow = true;
                },
            }
        }
        i = i + 1;
    }
    assert(bytes@.subrange(0, len as int) =~= bytes@);
    if len == 0 || overflow {
        None
    } else {
        Some(value)
    }
}

} // verus!
