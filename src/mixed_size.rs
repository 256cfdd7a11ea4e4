//! Sizes such as `32bytes`, `20mb` or `5GB`: after lower-casing and
//! trimming, the digits anywhere in the text form the number and the other
//! characters, in order, form the unit.

use vstd::prelude::*;
use vstd::string::StringSliceAdditionalSpecFns;
use crate::mac_file::bytes_equal;
use crate::text::{lower_of, to_lowercase, trim, trim_spec};
use crate::unit_size::{byte_digits_value, is_digit_byte, parse_digits, times, SizeError};

verus! {

/// Whether a byte is an ASCII digit, as a predicate to filter with.
pub open spec fn digit_pred() -> spec_fn(u8) -> bool {
    |b: u8| is_digit_byte(b)
}

/// Whether a byte is not an ASCII digit, as a predicate to filter with.
pub open spec fn unit_pred() -> spec_fn(u8) -> bool {
    |b: u8| !is_digit_byte(b)
}

/// The size in bytes that `s` stands for.
pub open spec fn mixed_size_spec(s: Seq<char>) -> Result<usize, SizeError> {
    let bytes = vstd::utf8::encode_utf8(trim_spec(lower_of(s)));
    let digits = bytes.filter(digit_pred());
    let unit = bytes.filter(unit_pred());
    let v = byte_digits_value(digits);
    if digits.len() == 0 || v > usize::MAX {
        Err(SizeError::InvalidNumber)
    } else if unit == seq![98u8] || unit == seq![98u8, 121, 116, 101, 115] {
        Ok(v as usize)
    } else if unit == seq![107u8, 98] {
        times(v, 1024)
    } else if unit == seq![109u8, 98] {
        times(v, 1024 * 1024int)
    } else if unit == seq![103u8, 98] {
        times(v, 1024 * 1024 * 1024int)
    } else {
        Err(SizeError::UnknownUnit)
    }
}

/// Reads a size: `b` or `bytes`, `kb`, `mb` or `gb`, in any case.
pub fn parse_size(size_str: &str) -> (r: Result<usize, SizeError>)
    ensures
        r == mixed_size_spec(size_str@),
{
    let lowered = to_lowercase(size_str);
    let trimmed = trim(lowered.as_str());
    let bytes = trimmed.as_bytes();
    let mut number_part: Vec<u8> = Vec::new();
    let mut unit: Vec<u8> = Vec::new();
    let mut i: usize = 0;
    while i < bytes.len()
        invariant
            i <= bytes@.len(),
            number_part@ == bytes@.subrange(0, i as int).filter(digit_pred()),
            unit@ == bytes@.subrange(0, i as int).filter(unit_pred()),
        decreases bytes@.len() - i,
    {
        let b = bytes[i];
        proof {
            let next = bytes@.subrange(0, i + 1);
            assert(next.drop_last() =~= bytes@.subrange(0, i as int));
            reveal_with_fuel(Seq::filter, 1);
        }
        if 48 <= b && b <= 57 {
            number_part.push(b);
        } else {
            unit.push(b);
        }
        i = i + 1;
    }
    assert(bytes@.subrange(0, bytes@.len() as int) =~= bytes@);
    proof {
        broadcast use vstd::seq_lib::group_filter_ensures;

        assert(forall|k: int| 0 <= k < number_part@.len() ==> digit_pred()(#[trigger] number_part@[k]));
    }
    let size = match parse_digits(number_part.as_slice()) {
        Some(v) => v,
        None => {
            return Err(SizeError::InvalidNumber);
        },
    };
    let b_unit: [u8; 1] = [98];
    let bytes_unit: [u8; 5] = [98, 121, 116, 101, 115];
    let kb_unit: [u8; 2] = [107, 98];
    let mb_unit: [u8; 2] = [109, 98];
    let gb_unit: [u8; 2] = [103, 98];
    assert(b_unit@ =~= seq![98u8]);
    assert(bytes_unit@ =~= seq![98u8, 121, 116, 101, 115]);
    assert(kb_unit@ =~= seq![107u8, 98]);
    assert(mb_unit@ =~= seq![109u8, 98]);
    assert(gb_unit@ =~= seq![103u8, 98]);
    if bytes_equal(unit.as_slice(), &b_unit) || bytes_equal(unit.as_slice(), &bytes_unit) {
        Ok(size)
    } else if bytes_equal(unit.as_slice(), &kb_unit) {
        match size.checked_mul(1024) {
            Some(v) => Ok(v),
            None => Err(SizeError::TooLarge),
        }
    } else if bytes_equal(unit.as_slice(), &mb_unit) {
        match size.checked_mul(1024 * 1024) {
            Some(v) => Ok(v),
            None => Err(SizeError::TooLarge),
        }
    } else if bytes_equal(unit.as_slice(), &gb_unit) {
        match size.checked_mul(1024 * 1024 * 1024) {
            Some(v) => Ok(v),
            None => Err(SizeError::TooLarge),
        }
    } else {
        Err(SizeError::UnknownUnit)
    }
}

} // verus!
