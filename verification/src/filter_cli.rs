//! Command-line options of the query-log rewriting tool, and the validation
//! of its subnet-prefix option.

use vstd::prelude::*;

verus! {

/// The rewriter's options.
#[derive(Debug)]
pub struct Args {
    /// Log verbosity: 0 errors only, up to 4 for trace output.
    pub debug: u8,
    /// The first three octets of the subnet whose addresses are rewritten.
    pub subnet_prefix: String,
    /// Directory holding the address-to-name mapping file.
    pub mapping_file_dir: String,
}

/// Why a subnet prefix was rejected.
#[derive(Clone, Copy, Debug, PartialEq, Eq)]
pub enum PrefixError {
    /// Not three parts, an empty part, or a part that is no number in 0-255.
    Malformed,
    /// A number other than plain `0` starts with the digit zero.
    ZeroStart,
    /// The leading number is zero.
    LeadingZero,
}

impl PrefixError {
    /// A fixed description of the error.
    pub fn message(&self) -> (r: &'static str)
        ensures
            r@ == match self {
                PrefixError::Malformed => ("should be three numbers separated by dots in the range 0-255")@,
                PrefixError::ZeroStart => ("Numbers can not start with zero")@,
                PrefixError::LeadingZero => ("Leading number can not be zero")@,
            },
    {
        match self {
            PrefixError::Malformed => "should be three numbers separated by dots in the range 0-255",
            PrefixError::ZeroStart => "Numbers can not start with zero",
            PrefixError::LeadingZero => "Leading number can not be zero",
        }
    }
}

/// The separator between the parts of a prefix.
pub const COMMA: u8 = 44;

/// A decimal digit.
pub open spec fn is_digit(b: u8) -> bool {
    48 <= b <= 57
}

/// The number a digit string denotes.
pub open spec fn digits_value(s: Seq<u8>) -> int
    decreases s.len(),
{
    if s.len() == 0 {
        0
    } else {
        digits_value(s.drop_last()) * 10 + (s.last() - 48)
    }
}

/// A non-empty string of decimal digits.
pub open spec fn all_digits(s: Seq<u8>) -> bool {
    forall|i: int| 0 <= i < s.len() ==> is_digit(#[trigger] s[i])
}

/// How `u8::parse` reads a part: an optional `+`, then digits denoting a
/// value up to 255.
pub open spec fn spec_parse_u8(part: Seq<u8>) -> Option<u8> {
    let digits = if part.len() > 0 && part[0] == 43 {
        part.skip(1)
    } else {
        part
    };
    if digits.len() == 0 || !all_digits(digits) {
        None
    } else if digits_value(digits) > 255 {
        None
    } else {
        Some(digits_value(digits) as u8)
    }
}

/// The verdict on one part of the prefix.
pub open spec fn spec_check_part(p: Seq<u8>, first: bool) -> Option<PrefixError> {
    if p.len() == 0 {
        Some(PrefixError::Malformed)
    } else {
        match spec_parse_u8(p) {
            Some(num) => if p != seq![48u8] && p[0] == 48 {
                Some(PrefixError::ZeroStart)
            } else if first && num == 0 {
                Some(PrefixError::LeadingZero)
            } else {
                None
            },
            None => Some(PrefixError::Malformed),
        }
    }
}

/// The verdict on a whole prefix: exactly three comma-separated parts, each
/// a number in 0-255, no number but `0` starting with a zero digit, and a
/// non-zero leading number.
pub open spec fn spec_validate_prefix(s: Seq<u8>) -> Result<Seq<u8>, PrefixError> {
    let c1 = crate::scan::first_byte_from(s, COMMA, 0);
    if c1 >= s.len() {
        Err(PrefixError::Malformed)
    } else {
        let c2 = crate::scan::first_byte_from(s, COMMA, c1 + 1);
        if c2 >= s.len() || crate::scan::first_byte_from(s, COMMA, c2 + 1) < s.len() {
            Err(PrefixError::Malformed)
        } else {
            match spec_check_part(s.subrange(0, c1), true) {
                Some(e) => Err(e),
                None => match spec_check_part(s.subrange(c1 + 1, c2), false) {
                    Some(e) => Err(e),
                    None => match spec_check_part(s.subrange(c2 + 1, s.len() as int), false) {
                        Some(e) => Err(e),
                        None => Ok(s),
                    },
                },
            }
        }
    }
}

/// Nonnegative digit strings denote nondecreasing values as they extend.
proof fn lemma_digits_value_nonneg(s: Seq<u8>)
    requires
        forall|i: int| 0 <= i < s.len() ==> is_digit(#[trigger] s[i]),
    ensures
        digits_value(s) >= 0,
    decreases s.len(),
{
    if s.len() > 0 {
        assert(forall|i: int|
            0 <= i < s.drop_last().len() ==> is_digit(#[trigger] s.drop_last()[i]));
        lemma_digits_value_nonneg(s.drop_last());
    }
}

/// Once a prefix of the string exceeds 255, the whole string does: each
/// further byte at least decuples the value and subtracts at most 48.
proof fn lemma_digits_value_grows(s: Seq<u8>, k: int)
    requires
        0 <= k <= s.len(),
        digits_value(s.take(k)) > 255,
    ensures
        digits_value(s) > 255,
    decreases s.len() - k,
{
    if k < s.len() {
        assert(s.take(k + 1).drop_last() =~= s.take(k));
        assert(digits_value(s.take(k + 1)) == digits_value(s.take(k)) * 10 + (s[k] - 48));
        lemma_digits_value_grows(s, k + 1);
    } else {
        assert(s.take(k) =~= s);
    }
}

/// Parses one part as `u8::parse` would: an optional `+`, digits, at most
/// 255.
#[verifier::loop_isolation(false)]
fn parse_u8_part(part: &[u8]) -> (r: Option<u8>)
    ensures
        r == spec_parse_u8(part@),
{
    let start: usize = if part.len() > 0 && part[0] == 43 {
        1
    } else {
        0
    };
    let digits = vstd::slice::slice_subrange(part, start, part.len());
    proof {
        if part@.len() > 0 && part@[0] == 43 {
            assert(digits@ =~= part@.skip(1));
        } else {
            assert(digits@ =~= part@);
        }
    }
    if digits.len() == 0 {
        return None;
    }
    let mut acc: u32 = 0;
    let mut k: usize = 0;
    while k < digits.len()
        invariant
            k <= digits@.len(),
            forall|i: int| 0 <= i < k ==> is_digit(#[trigger] digits@[i]),
            acc == digits_value(digits@.take(k as int)),
            acc <= 255,
        decreases digits@.len() - k,
    {
        let b = digits[k];
        if b < 48 || b > 57 {
            proof {
                assert(!is_digit(digits@[k as int]));
                assert(!all_digits(digits@));
            }
            return None;
        }
        proof {
            assert(digits@.take(k + 1).drop_last() =~= digits@.take(k as int));
        }
        let next: u32 = acc * 10 + (b - 48) as u32;
        if next > 255 {
            proof {
                lemma_digits_value_grows(digits@, k + 1);
            }
            return None;
        }
        acc = next;
        k = k + 1;
    }
    proof {
        assert(digits@.take(digits@.len() as int) =~= digits@);
    }
    Some(acc as u8)
}

/// Checks one part of the prefix.
fn check_part(p: &[u8], first: bool) -> (r: Option<PrefixError>)
    ensures
        r == spec_check_part(p@, first),
{
    if p.len() == 0 {
        return Some(PrefixError::Malformed);
    }
    match parse_u8_part(p) {
        Some(num) => {
            let zero_literal = p.len() == 1 && p[0] == 48;
            proof {
                if p@.len() == 1 && p@[0] == 48 {
                    assert(p@ =~= seq![48u8]);
                }
            }
            if !zero_literal && p[0] == 48 {
                Some(PrefixError::ZeroStart)
            } else if first && num == 0 {
                Some(PrefixError::LeadingZero)
            } else {
                None
            }
        },
        None => Some(PrefixError::Malformed),
    }
}

/// Validates a subnet prefix of the form `a,b,c`: exactly three numbers in
/// 0-255, none but a literal `0` starting with a zero digit, the first one
/// non-zero. On success the prefix is returned unchanged.
pub fn validate_ipv4_prefix(s: &[u8]) -> (r: Result<Vec<u8>, PrefixError>)
    ensures
        match r {
            Ok(v) => v@ == s@ && spec_validate_prefix(s@) == Ok::<Seq<u8>, PrefixError>(s@),
            Err(e) => spec_validate_prefix(s@) == Err::<Seq<u8>, PrefixError>(e),
        },
{
    let c1 = crate::scan::find_byte(s, COMMA, 0);
    if c1 == s.len() {
        return Err(PrefixError::Malformed);
    }
    let c2 = crate::scan::find_byte(s, COMMA, c1 + 1);
    if c2 == s.len() {
        return Err(PrefixError::Malformed);
    }
    if crate::scan::find_byte(s, COMMA, c2 + 1) < s.len() {
        return Err(PrefixError::Malformed);
    }
    let p1 = vstd::slice::slice_subrange(s, 0, c1);
    if let Some(e) = check_part(p1, true) {
        return Err(e);
    }
    let p2 = vstd::slice::slice_subrange(s, c1 + 1, c2);
    if let Some(e) = check_part(p2, false) {
        return Err(e);
    }
    let p3 = vstd::slice::slice_subrange(s, c2 + 1, s.len());
    if let Some(e) = check_part(p3, false) {
        return Err(e);
    }
    Ok(vstd::slice::slice_to_vec(s))
}

} // verus!
