//! Key sizes written as a number with an optional `b`, `mb` or `gb` suffix.

use vstd::prelude::*;
use crate::text::{decimal_spec, ends_with, lemma_strip, parse_usize, strip_suffix, trim, trim_spec};

verus! {

/// Bytes in a mebibyte.
pub const MIB: usize = 1024 * 1024;

/// Bytes in a gibibyte.
pub const GIB: usize = 1024 * 1024 * 1024;

/// `v` times `factor`, or `None` when `v` is `None` or the product does not fit.
pub open spec fn scaled(v: Option<usize>, factor: int) -> Option<usize> {
    match v {
        Some(x) => if x * factor <= usize::MAX {
            Some((x * factor) as usize)
        } else {
            None
        },
        None => None,
    }
}

/// The size in bytes that `s` stands for. The longer suffixes are tried
/// first, so that `10mb` reads as ten mebibytes.
pub open spec fn parse_size_spec(s: Seq<char>) -> Option<usize> {
    if ends_with(s, seq!['m', 'b']) {
        scaled(decimal_spec(trim_spec(s.subrange(0, s.len() - 2))), MIB as int)
    } else if ends_with(s, seq!['g', 'b']) {
        scaled(decimal_spec(trim_spec(s.subrange(0, s.len() - 2))), GIB as int)
    } else if ends_with(s, seq!['b']) {
        decimal_spec(trim_spec(s.subrange(0, s.len() - 1)))
    } else {
        decimal_spec(s)
    }
}

/// Multiplies a parsed number by `factor`, giving `None` on overflow.
fn scale(v: Option<usize>, factor: usize) -> (r: Option<usize>)
    ensures
        r == scaled(v, factor as int),
{
    match v {
        Some(x) => x.checked_mul(factor),
        None => None,
    }
}

/// Parses a size such as `1024b`, `10mb`, `1gb` or a bare `4096` into bytes.
/// The number may be padded with whitespace before a suffix; anything else,
/// or a size that does not fit in `usize`, gives `None`.
pub fn parse_size(input: &str) -> (r: Option<usize>)
    ensures
        r == parse_size_spec(input@),
{
    proof {
        reveal_strlit("mb");
        reveal_strlit("gb");
        reveal_strlit("b");
        assert("mb"@ =~= seq!['m', 'b']);
        assert("gb"@ =~= seq!['g', 'b']);
        assert("b"@ =~= seq!['b']);
    }
    if let Some(mb) = strip_suffix(input, "mb") {
        proof {
            lemma_strip(input@, mb@, "mb"@);
        }
        scale(parse_usize(trim(mb)), MIB)
    } else if let Some(gb) = strip_suffix(input, "gb") {
        proof {
            lemma_strip(input@, gb@, "gb"@);
        }
        scale(parse_usize(trim(gb)), GIB)
    } else if let Some(bytes) = strip_suffix(input, "b") {
        proof {
            lemma_strip(input@, bytes@, "b"@);
        }
        parse_usize(trim(bytes))
    } else {
        parse_usize(input)
    }
}

} // verus!
