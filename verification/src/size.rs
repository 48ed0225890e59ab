//! Parsing of size arguments: a positive integer, optionally followed by a
//! KB, MB, GB or TB suffix (powers of 1024).

use vstd::arithmetic::div_mod::lemma_fundamental_div_mod;
use vstd::prelude::*;

verus! {

/// Why a size argument was rejected.
#[derive(Debug, Clone, Copy, PartialEq, Eq, Structural)]
pub enum SizeError {
    /// The argument does not begin with a decimal digit.
    InvalidNumber,
    /// The characters after the digits are not one of KB, MB, GB, TB.
    UnknownSuffix,
    /// The value is zero; sizes must be positive.
    Zero,
    /// The value, after applying the suffix, does not fit the target type.
    TooLarge,
}

/// `c` is an ASCII decimal digit.
pub open spec fn is_digit(c: char) -> bool {
    48 <= c as u32 <= 57
}

/// The position right after the leading run of digits of `v`, scanning from
/// `i`.
pub open spec fn digits_end(v: Seq<char>, i: int) -> int
    decreases v.len() - i,
{
    if i < 0 || i >= v.len() {
        i
    } else if is_digit(v[i]) {
        digits_end(v, i + 1)
    } else {
        i
    }
}

/// The numeric value of a sequence of decimal digits, most significant
/// first.
pub open spec fn dec_value(d: Seq<char>) -> int
    decreases d.len(),
{
    if d.len() == 0 {
        0
    } else {
        dec_value(d.drop_last()) * 10 + (d.last() as u32 - 48)
    }
}

/// The multiplier a size suffix denotes; `None` for an unknown suffix.
pub open spec fn suffix_unit(sfx: Seq<char>) -> Option<int> {
    if sfx.len() == 0 {
        Some(1)
    } else if sfx.len() == 2 && sfx[1] == 'B' {
        if sfx[0] == 'K' {
            Some(0x400)
        } else if sfx[0] == 'M' {
            Some(0x100000)
        } else if sfx[0] == 'G' {
            Some(0x40000000)
        } else if sfx[0] == 'T' {
            Some(0x10000000000)
        } else {
            None
        }
    } else {
        None
    }
}

/// What parsing a size argument yields, with the value capped at `max`.
///
/// The leading digits give the value; everything after them must be a known
/// suffix. A missing number is rejected first, then a zero or too large
/// number, then an unknown suffix, then a product over the cap.
pub open spec fn parse_size_spec(v: Seq<char>, max: int) -> Result<int, SizeError> {
    let d = digits_end(v, 0);
    let value = dec_value(v.subrange(0, d));
    if d == 0 {
        Err(SizeError::InvalidNumber)
    } else if value == 0 {
        Err(SizeError::Zero)
    } else if value > max {
        Err(SizeError::TooLarge)
    } else {
        match suffix_unit(v.subrange(d, v.len() as int)) {
            None => Err(SizeError::UnknownSuffix),
            Some(u) => if value * u > max {
                Err(SizeError::TooLarge)
            } else {
                Ok(value * u)
            },
        }
    }
}

/// Where the leading digit run ends: its characters are digits and it is
/// maximal.
proof fn lemma_digits_end_bounds(v: Seq<char>, i: int)
    requires
        0 <= i <= v.len(),
    ensures
        i <= digits_end(v, i) <= v.len(),
        forall|j: int| i <= j < digits_end(v, i) ==> is_digit(v[j]),
        digits_end(v, i) == v.len() || !is_digit(v[digits_end(v, i)]),
    decreases v.len() - i,
{
    if i < v.len() && is_digit(v[i]) {
        lemma_digits_end_bounds(v, i + 1);
    }
}

/// The value of a digit sequence is never negative.
proof fn lemma_dec_value_nonneg(d: Seq<char>)
    requires
        forall|j: int| 0 <= j < d.len() ==> is_digit(d[j]),
    ensures
        dec_value(d) >= 0,
    decreases d.len(),
{
    if d.len() > 0 {
        assert(forall|j: int| 0 <= j < d.drop_last().len() ==> is_digit(d.drop_last()[j]));
        lemma_dec_value_nonneg(d.drop_last());
    }
}

/// Extending a digit sequence never decreases its value.
proof fn lemma_dec_value_prefix_le(d: Seq<char>, m: int)
    requires
        0 <= m <= d.len(),
        forall|j: int| 0 <= j < d.len() ==> is_digit(d[j]),
    ensures
        dec_value(d.subrange(0, m)) <= dec_value(d),
    decreases d.len() - m,
{
    if m == d.len() {
        assert(d.subrange(0, m) =~= d);
    } else {
        assert(d.subrange(0, m + 1).drop_last() =~= d.subrange(0, m));
        assert(forall|j: int| 0 <= j < d.subrange(0, m).len() ==> is_digit(d.subrange(0, m)[j]));
        lemma_dec_value_nonneg(d.subrange(0, m));
        assert(dec_value(d.subrange(0, m + 1)) == dec_value(d.subrange(0, m)) * 10 + (d.subrange(
            0,
            m + 1,
        ).last() as u32 - 48));
        lemma_dec_value_prefix_le(d, m + 1);
    }
}

/// Parses a size argument as a byte count no greater than `max`.
fn parse_size(s: &str, max: u64) -> (r: Result<u64, SizeError>)
    requires
        max >= 1,
    ensures
        match parse_size_spec(s@, max as int) {
            Ok(v) => r == Ok::<u64, SizeError>(v as u64) && 0 <= v <= max as int,
            Err(e) => r == Err::<u64, SizeError>(e),
        },
{
    let ghost v = s@;
    let len = s.unicode_len();
    let mut i: usize = 0;
    let mut value: u64 = 0;
    proof {
        lemma_digits_end_bounds(v, 0);
        assert(v.subrange(0, 0) =~= Seq::<char>::empty());
    }
    loop
        invariant
            v == s@,
            len == v.len(),
            0 <= i <= len,
            forall|j: int| 0 <= j < i ==> is_digit(v[j]),
            value == dec_value(v.subrange(0, i as int)),
            value <= max,
            max >= 1,
            i <= digits_end(v, 0),
        ensures
            0 <= i <= len,
            forall|j: int| 0 <= j < i ==> is_digit(v[j]),
            i == digits_end(v, 0),
            value == dec_value(v.subrange(0, i as int)),
            value <= max,
        decreases len - i,
    {
        let ghost d = digits_end(v, 0);
        proof {
            lemma_digits_end_bounds(v, 0);
        }
        if i >= len {
            proof {
                assert(i == d);
            }
            break ;
        }
        let c = s.get_char(i);
        let cv = c as u32;
        if !(48 <= cv && cv <= 57) {
            proof {
                // the run of digits cannot reach past a non-digit
                assert(!is_digit(v[i as int]));
                if d > i {
                    assert(is_digit(v[i as int]));
                }
                assert(i == d);
            }
            break ;
        }
        let digit = (cv - 48) as u64;
        proof {
            // position i is a digit, so the digit run goes past it
            if d <= i {
                assert(d < len);
                assert(!is_digit(v[d]));
                assert(is_digit(v[d]));
            }
            assert(v.subrange(0, i + 1).drop_last() =~= v.subrange(0, i as int));
            // the full digit prefix is worth at least this much
            lemma_dec_value_prefix_le(v.subrange(0, d), i + 1);
            assert(v.subrange(0, d).subrange(0, i + 1) =~= v.subrange(0, i + 1));
        }
        if value > max / 10 {
            proof {
                lemma_fundamental_div_mod(max as int, 10);
                assert(dec_value(v.subrange(0, i + 1)) > max);
                lemma_dec_value_nonneg(v.subrange(0, d));
            }
            return Err(SizeError::TooLarge);
        }
        value = value * 10;
        if digit > max - value {
            proof {
                assert(dec_value(v.subrange(0, i + 1)) > max);
                lemma_dec_value_nonneg(v.subrange(0, d));
            }
            return Err(SizeError::TooLarge);
        }
        value = value + digit;
        i = i + 1;
    }
    if i == 0 {
        return Err(SizeError::InvalidNumber);
    }
    if value == 0 {
        return Err(SizeError::Zero);
    }
    let ghost sfx = v.subrange(i as int, len as int);
    let unit: u64 = if i == len {
        proof {
            assert(sfx =~= Seq::<char>::empty());
        }
        1
    } else if len - i == 2 {
        let c0 = s.get_char(i);
        let c1 = s.get_char(i + 1);
        if c1 != 'B' {
            return Err(SizeError::UnknownSuffix);
        } else if c0 == 'K' {
            1024
        } else if c0 == 'M' {
            1048576
        } else if c0 == 'G' {
            1073741824
        } else if c0 == 'T' {
            1099511627776
        } else {
            return Err(SizeError::UnknownSuffix);
        }
    } else {
        return Err(SizeError::UnknownSuffix);
    };
    proof {
        assert(suffix_unit(sfx) == Some(unit as int));
    }
    let cap = max / unit;
    if value > cap {
        proof {
            lemma_fundamental_div_mod(max as int, unit as int);
            assert(value * unit > max) by (nonlinear_arith)
                requires
                    value > cap,
                    unit >= 1,
                    max as int == (unit as int) * (cap as int) + (max as int) % (unit as int),
                    0 <= (max as int) % (unit as int) < unit as int,
            ;
        }
        return Err(SizeError::TooLarge);
    }
    proof {
        lemma_fundamental_div_mod(max as int, unit as int);
        assert(value * unit <= max) by (nonlinear_arith)
            requires
                0 <= value <= cap,
                unit >= 1,
                max as int == (unit as int) * (cap as int) + (max as int) % (unit as int),
                0 <= (max as int) % (unit as int) < unit as int,
        ;
    }
    Ok(value * unit)
}

/// Parses the threshold argument: a positive byte count with an optional
/// KB, MB, GB or TB suffix, as a `u64`.
pub fn parse_threshold(s: &str) -> (r: Result<u64, SizeError>)
    ensures
        match parse_size_spec(s@, u64::MAX as int) {
            Ok(v) => r == Ok::<u64, SizeError>(v as u64),
            Err(e) => r == Err::<u64, SizeError>(e),
        },
{
    parse_size(s, u64::MAX)
}

/// Parses the chunksize argument: a positive byte count with an optional
/// KB, MB, GB or TB suffix, as a `usize`.
pub fn parse_chunksize(s: &str) -> (r: Result<usize, SizeError>)
    ensures
        match parse_size_spec(s@, usize::MAX as int) {
            Ok(v) => r == Ok::<usize, SizeError>(v as usize),
            Err(e) => r == Err::<usize, SizeError>(e),
        },
{
    match parse_size(s, usize::MAX as u64) {
        Ok(v) => Ok(v as usize),
        Err(e) => Err(e),
    }
}

} // verus!
