//! Arguments of the window capture helper.
use vstd::prelude::*;
use crate::text::{
    chars_of, has_prefix, lower_seq, parse_u64_radix, parse_unsigned, str_eq, strip_prefix,
    to_ascii_lowercase, trim, trim_str,
};

verus! {

/// Why a window address could not be read.
#[derive(Debug, Clone, Copy, PartialEq, Eq)]
pub enum AddressError {
    /// Nothing, or the null address `0`.
    Empty,
    /// Not a hexadecimal number that fits in 64 bits.
    BadHex,
    /// Not a decimal number that fits in 64 bits.
    BadDecimal,
}

pub open spec fn all_ascii_digits(s: Seq<char>) -> bool {
    forall|i: int| 0 <= i < s.len() ==> '0' <= #[trigger] s[i] && s[i] <= '9'
}

/// A parsed number that fits in a `u64`.
pub open spec fn fits_u64(n: Option<nat>) -> Option<u64> {
    match n {
        Some(v) => if v <= u64::MAX {
            Some(v as u64)
        } else {
            None
        },
        None => None,
    }
}

pub open spec fn as_address(n: Option<nat>, err: AddressError) -> Result<u64, AddressError> {
    match fits_u64(n) {
        Some(v) => Ok(v),
        None => Err(err),
    }
}

/// A Hyprland window address as given on the command line: trimmed and
/// read case-insensitively; `0x` introduces hex, a run of digits is
/// decimal, anything else is read as bare hex. Empty and `0` are refused.
pub open spec fn address_spec(raw: Seq<char>) -> Result<u64, AddressError> {
    let a = lower_seq(trim(raw));
    if a.len() == 0 || a == seq!['0'] {
        Err(AddressError::Empty)
    } else if has_prefix(a, seq!['0', 'x']) {
        as_address(parse_unsigned(a.subrange(2, a.len() as int), 16), AddressError::BadHex)
    } else if all_ascii_digits(a) {
        as_address(parse_unsigned(a, 10), AddressError::BadDecimal)
    } else {
        as_address(parse_unsigned(a, 16), AddressError::BadHex)
    }
}

fn is_all_digits(s: &str) -> (b: bool)
    ensures
        b == all_ascii_digits(s@),
{
    let v = chars_of(s);
    let mut i: usize = 0;
    while i < v.len()
        invariant
            i <= v.len(),
            v@ == s@,
            forall|j: int| 0 <= j < i ==> '0' <= #[trigger] v@[j] && v@[j] <= '9',
        decreases v.len() - i,
    {
        if !('0' <= v[i] && v[i] <= '9') {
            return false;
        }
        i += 1;
    }
    true
}

fn to_address(n: Option<u64>, err: AddressError) -> (r: Result<u64, AddressError>)
    ensures
        r == (match n {
            Some(v) => Ok(v),
            None => Err(err),
        }),
{
    match n {
        Some(v) => Ok(v),
        None => Err(err),
    }
}

/// Reads a window address (`0x55d0c0ffee00`, `55d0c0ffee00` or decimal).
pub fn parse_address(raw: &str) -> (r: Result<u64, AddressError>)
    ensures
        r == address_spec(raw@),
{
    let trimmed = trim_str(raw);
    let a = to_ascii_lowercase(trimmed.as_str());
    let ghost sa = lower_seq(trim(raw@));
    assert(a@ == sa);
    if str_eq(a.as_str(), "") || str_eq(a.as_str(), "0") {
        proof {
            reveal_strlit("0");
            reveal_strlit("");
            if a@.len() != 0 && a@ == "0"@ {
                assert(a@ =~= seq!['0']);
            }
        }
        return Err(AddressError::Empty);
    }
    proof {
        reveal_strlit("0");
        reveal_strlit("");
        if a@.len() == 0 {
            assert(a@ =~= ""@);
        }
        if a@ == seq!['0'] {
            assert(a@ =~= "0"@);
        }
    }
    match strip_prefix(a.as_str(), "0x") {
        Some(hex) => {
            proof {
                reveal_strlit("0x");
                assert("0x"@ =~= seq!['0', 'x']);
            }
            to_address(parse_u64_radix(hex.as_str(), 16), AddressError::BadHex)
        },
        None => {
            proof {
                reveal_strlit("0x");
                assert("0x"@ =~= seq!['0', 'x']);
            }
            if is_all_digits(a.as_str()) {
                to_address(parse_u64_radix(a.as_str(), 10), AddressError::BadDecimal)
            } else {
                to_address(parse_u64_radix(a.as_str(), 16), AddressError::BadHex)
            }
        },
    }
}

} // verus!
