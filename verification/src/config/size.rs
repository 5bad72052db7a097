//! Sizes such as `8GB`.
use vstd::prelude::*;
use crate::text;

verus! {

/// A size in bytes, written as strings like `"8GB"`, `"512MB"`, `"1024"`.
/// Unit suffixes are powers of 1024 (KB = 1024, MB = 1024², GB = 1024³, TB = 1024⁴).
#[derive(Debug, Clone, Copy, PartialEq, Eq, Structural)]
pub struct ByteSize(pub u64);

#[derive(Debug, PartialEq)]
pub enum SizeParseError {
    /// The text is no size.
    Invalid(String),
    /// The size does not fit in 64 bits.
    Overflow,
}

impl SizeParseError {
    /// The error in words.
    pub fn message(&self) -> (m: String)
        ensures
            m@ == match self {
                SizeParseError::Invalid(s) => "invalid size value: '"@ + s@ + "'"@,
                SizeParseError::Overflow => "size value overflows u64"@,
            },
    {
        match self {
            SizeParseError::Invalid(s) => {
                let mut m: String = String::from_str("invalid size value: '");
                m.append(s.as_str());
                m.append("'");
                m
            },
            SizeParseError::Overflow => String::from_str("size value overflows u64"),
        }
    }
}

/// `s` ends in the letters `a`, `b`, in either case.
pub open spec fn ends_in(s: Seq<char>, a: char, b: char) -> bool {
    &&& s.len() >= 2
    &&& text::lower_char(s[s.len() - 2]) == a
    &&& text::lower_char(s[s.len() - 1]) == b
}

/// The unit at the end of a trimmed size: its length and how many bytes it is.
pub open spec fn unit_of(s: Seq<char>) -> (int, int) {
    if ends_in(s, 't', 'b') {
        (2, 0x100_0000_0000)
    } else if ends_in(s, 'g', 'b') {
        (2, 0x4000_0000)
    } else if ends_in(s, 'm', 'b') {
        (2, 0x10_0000)
    } else if ends_in(s, 'k', 'b') {
        (2, 0x400)
    } else if s.len() >= 1 && text::lower_char(s[s.len() - 1]) == 'b' {
        (1, 1)
    } else {
        (0, 1)
    }
}

/// The number in front of the unit of a trimmed size.
pub open spec fn number_of(s: Seq<char>) -> Option<int> {
    text::parse_number(text::trim(s.take(s.len() - unit_of(s).0)), u64::MAX as int)
}

/// `r` is the size that `s` writes, or why it writes none.
pub open spec fn is_size(s: Seq<char>, r: Result<u64, SizeParseError>) -> bool {
    let t = text::trim(s);
    match number_of(t) {
        None => r matches Err(SizeParseError::Invalid(m)) && m@ == t,
        Some(v) => if v * unit_of(t).1 <= u64::MAX {
            r == Ok::<u64, SizeParseError>((v * unit_of(t).1) as u64)
        } else {
            r == Err::<u64, SizeParseError>(SizeParseError::Overflow)
        },
    }
}

/// Parse a human-readable size string into bytes.
pub fn parse_size(s: &str) -> (r: Result<u64, SizeParseError>)
    ensures
        is_size(s@, r),
{
    let all = text::chars_of(s);
    let (from, to) = text::trim_bounds(all.as_slice(), 0, all.len());
    assert(all@.subrange(0, all@.len() as int) =~= s@);
    let trimmed = text::string_of(all.as_slice(), from, to);
    let t = text::chars_of(trimmed.as_str());
    let n: usize = t.len();
    let last: char = if n >= 1 { text::lower(t[n - 1]) } else { ' ' };
    let second: char = if n >= 2 { text::lower(t[n - 2]) } else { ' ' };
    let (len, mult): (usize, u64) = if last == 'b' && second == 't' {
        (2, 0x100_0000_0000)
    } else if last == 'b' && second == 'g' {
        (2, 0x4000_0000)
    } else if last == 'b' && second == 'm' {
        (2, 0x10_0000)
    } else if last == 'b' && second == 'k' {
        (2, 0x400)
    } else if last == 'b' {
        (1, 1)
    } else {
        (0, 1)
    };
    assert((len as int, mult as int) == unit_of(t@));
    let (a, b) = text::trim_bounds(t.as_slice(), 0, n - len);
    assert(t@.subrange(0, n - len) =~= t@.take(n - len));
    let digits = text::string_of(t.as_slice(), a, b);
    match text::parse_u64(digits.as_str()) {
        None => Err(SizeParseError::Invalid(trimmed)),
        Some(v) => {
            proof {
                text::parse_number_range(digits@, u64::MAX as int);
            }
            match v.checked_mul(mult) {
                Some(bytes) => Ok(bytes),
                None => Err(SizeParseError::Overflow),
            }
        },
    }
}

} // verus!
