//! Key sizes with a case-insensitive `gb`, `mb`, `kb` or `b` suffix.

use vstd::prelude::*;
use crate::text::{
    decimal_spec, ends_with, lemma_strip, lower_of, parse_usize, strip_suffix, to_lowercase, trim,
    trim_spec,
};

verus! {

/// Why a key size could not be read; each unit has its own complaint.
#[derive(Debug, Clone, Copy, PartialEq, Eq, Structural)]
pub enum KeySizeError {
    /// Nothing was entered.
    Empty,
    /// The number before `gb` is not valid, or too large in bytes.
    InvalidGb,
    /// The number before `mb` is not valid, or too large in bytes.
    InvalidMb,
    /// The number before `kb` is not valid, or too large in bytes.
    InvalidKb,
    /// The number before `b` is not valid.
    InvalidB,
    /// A plain byte count that is not valid.
    InvalidBytes,
}

/// `v` times `factor` when both fit, else `err`.
pub open spec fn scaled_or(v: Option<usize>, factor: int, err: KeySizeError) -> Result<usize, KeySizeError> {
    match v {
        Some(x) => if x * factor <= usize::MAX {
            Ok((x * factor) as usize)
        } else {
            Err(err)
        },
        None => Err(err),
    }
}

/// The number before a suffix of `n` characters of `lower`.
pub open spec fn before_suffix(lower: Seq<char>, n: int) -> Option<usize> {
    decimal_spec(trim_spec(lower.subrange(0, lower.len() - n)))
}

/// The size in bytes that `s` stands for; suffixes are matched on its
/// lower-case form, and a bare number is read from `s` itself.
pub open spec fn key_size_spec(s: Seq<char>) -> Result<usize, KeySizeError> {
    let lower = lower_of(s);
    if s.len() == 0 {
        Err(KeySizeError::Empty)
    } else if ends_with(lower, seq!['g', 'b']) {
        scaled_or(before_suffix(lower, 2), 1024 * 1024 * 1024int, KeySizeError::InvalidGb)
    } else if ends_with(lower, seq!['m', 'b']) {
        scaled_or(before_suffix(lower, 2), 1024 * 1024int, KeySizeError::InvalidMb)
    } else if ends_with(lower, seq!['k', 'b']) {
        scaled_or(before_suffix(lower, 2), 1024, KeySizeError::InvalidKb)
    } else if ends_with(lower, seq!['b']) {
        scaled_or(before_suffix(lower, 1), 1, KeySizeError::InvalidB)
    } else {
        scaled_or(decimal_spec(s), 1, KeySizeError::InvalidBytes)
    }
}

/// Multiplies a parsed number by `factor`, failing with `err`.
fn scale_or(v: Option<usize>, factor: usize, err: KeySizeError) -> (r: Result<usize, KeySizeError>)
    ensures
        r == scaled_or(v, factor as int, err),
{
    match v {
        Some(x) => match x.checked_mul(factor) {
            Some(y) => Ok(y),
            None => Err(err),
        },
        None => Err(err),
    }
}

/// Reads a key size such as `1GB`, `500mb`, `64KB`, `1024B` or `32`.
pub fn parse_key_size(input: &str) -> (r: Result<usize, KeySizeError>)
    ensures
        r == key_size_spec(input@),
{
    proof {
        reveal_strlit("gb");
        reveal_strlit("mb");
        reveal_strlit("kb");
        reveal_strlit("b");
        assert("gb"@ =~= seq!['g', 'b']);
        assert("mb"@ =~= seq!['m', 'b']);
        assert("kb"@ =~= seq!['k', 'b']);
        assert("b"@ =~= seq!['b']);
    }
    if input.is_empty() {
        return Err(KeySizeError::Empty);
    }
    let lower_input = to_lowercase(input);
    let lower = lower_input.as_str();
    if let Some(value) = strip_suffix(lower, "gb") {
        proof {
            lemma_strip(lower@, value@, "gb"@);
        }
        scale_or(parse_usize(trim(value)), 1024 * 1024 * 1024, KeySizeError::InvalidGb)
    } else if let Some(value) = strip_suffix(lower, "mb") {
        proof {
            lemma_strip(lower@, value@, "mb"@);
        }
        scale_or(parse_usize(trim(value)), 1024 * 1024, KeySizeError::InvalidMb)
    } else if let Some(value) = strip_suffix(lower, "kb") {
        proof {
            lemma_strip(lower@, value@, "kb"@);
        }
        scale_or(parse_usize(trim(value)), 1024, KeySizeError::InvalidKb)
    } else if let Some(value) = strip_suffix(lower, "b") {
        proof {
            lemma_strip(lower@, value@, "b"@);
        }
        scale_or(parse_usize(trim(value)), 1, KeySizeError::InvalidB)
    } else {
        scale_or(parse_usize(input), 1, KeySizeError::InvalidBytes)
    }
}

} // verus!
