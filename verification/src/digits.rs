//! Reading integers written in a radix, as Rust's integer parsing does.

use vstd::prelude::*;

verus! {

/// Why an integer could not be read.
#[derive(Debug, Clone, Copy, PartialEq, Eq, Structural)]
pub enum IntErrorKind {
    Empty,
    InvalidDigit,
    PosOverflow,
    NegOverflow,
}

/// An integer that could not be read.
#[derive(Debug, Clone, Copy, PartialEq, Eq, Structural)]
pub struct ParseIntError {
    pub kind: IntErrorKind,
}

/// The value of `c` as a digit in `radix`: `0`-`9`, then letters of either
/// case from ten on.
pub open spec fn digit_value(c: char, radix: u32) -> Option<u32> {
    let v = c as u32;
    let d: int = if '0' as u32 <= v <= '9' as u32 {
        v - '0' as u32
    } else if 'a' as u32 <= v <= 'z' as u32 {
        v - 'a' as u32 + 10
    } else if 'A' as u32 <= v <= 'Z' as u32 {
        v - 'A' as u32 + 10
    } else {
        99
    };
    if d < radix {
        Some(d as u32)
    } else {
        None
    }
}

/// Reads the digits `d` after the value `acc` read so far, adding each
/// digit (or subtracting it, for a negative number) and failing at the
/// first character that is no digit or the first step that leaves
/// `[lo, hi]`.
pub open spec fn scan_digits(d: Seq<char>, radix: u32, neg: bool, acc: int, lo: int, hi: int) -> Result<int, IntErrorKind>
    decreases d.len(),
{
    if d.len() == 0 {
        Ok(acc)
    } else {
        match digit_value(d[0], radix) {
            None => Err(IntErrorKind::InvalidDigit),
            Some(x) => {
                let next = if neg { acc * radix - x } else { acc * radix + x };
                if next < lo {
                    Err(IntErrorKind::NegOverflow)
                } else if next > hi {
                    Err(IntErrorKind::PosOverflow)
                } else {
                    scan_digits(d.drop_first(), radix, neg, next, lo, hi)
                }
            },
        }
    }
}

/// Rust's reading of a signed (or, with `signed` false, unsigned) integer
/// in `radix` within `[lo, hi]`: an optional `+` (or `-` when signed), then
/// at least one digit.
pub open spec fn spec_parse_int(s: Seq<char>, radix: u32, signed: bool, lo: int, hi: int) -> Result<int, IntErrorKind> {
    if s.len() == 0 {
        Err(IntErrorKind::Empty)
    } else if s.len() == 1 && (s[0] == '+' || s[0] == '-') {
        Err(IntErrorKind::InvalidDigit)
    } else if s[0] == '+' {
        scan_digits(s.drop_first(), radix, false, 0, lo, hi)
    } else if s[0] == '-' && signed {
        scan_digits(s.drop_first(), radix, true, 0, lo, hi)
    } else {
        scan_digits(s, radix, false, 0, lo, hi)
    }
}

/// Rust's `i128::from_str_radix` on the characters `s`.
pub open spec fn spec_parse_i128(s: Seq<char>, radix: u32) -> Result<i128, IntErrorKind> {
    match spec_parse_int(s, radix, true, i128::MIN as int, i128::MAX as int) {
        Ok(v) => Ok(v as i128),
        Err(e) => Err(e),
    }
}

/// Rust's `u32` parsing of the characters `s`, with the error dropped.
pub open spec fn spec_parse_u32(s: Seq<char>) -> Option<u32> {
    match spec_parse_int(s, 10, false, 0, u32::MAX as int) {
        Ok(v) => Some(v as u32),
        Err(_) => None,
    }
}

fn digit(c: char, radix: u32) -> (r: Option<u32>)
    requires
        2 <= radix <= 36,
    ensures
        r == digit_value(c, radix),
{
    let v = c as u32;
    let d: u32 = if '0' as u32 <= v && v <= '9' as u32 {
        v - '0' as u32
    } else if 'a' as u32 <= v && v <= 'z' as u32 {
        v - 'a' as u32 + 10
    } else if 'A' as u32 <= v && v <= 'Z' as u32 {
        v - 'A' as u32 + 10
    } else {
        99
    };
    if d < radix {
        Some(d)
    } else {
        None
    }
}

proof fn lemma_scan_bounds(d: Seq<char>, radix: u32, neg: bool, acc: int, lo: int, hi: int)
    requires
        lo <= acc <= hi,
    ensures
        scan_digits(d, radix, neg, acc, lo, hi) matches Ok(v) ==> lo <= v <= hi,
    decreases d.len(),
{
    if d.len() > 0 {
        if let Some(x) = digit_value(d[0], radix) {
            let next = if neg { acc * radix - x } else { acc * radix + x };
            if lo <= next <= hi {
                lemma_scan_bounds(d.drop_first(), radix, neg, next, lo, hi);
            }
        }
    }
}

/// Reads a signed integer in `radix` the way `i128::from_str_radix` does.
pub fn parse_i128(s: &[char], radix: u32) -> (r: Result<i128, ParseIntError>)
    requires
        2 <= radix <= 36,
    ensures
        match r {
            Ok(v) => spec_parse_i128(s@, radix) == Ok::<i128, IntErrorKind>(v),
            Err(e) => spec_parse_i128(s@, radix) == Err::<i128, IntErrorKind>(e.kind),
        },
{
    if s.len() == 0 {
        return Err(ParseIntError { kind: IntErrorKind::Empty });
    }
    if s.len() == 1 && (s[0] == '+' || s[0] == '-') {
        return Err(ParseIntError { kind: IntErrorKind::InvalidDigit });
    }
    let (neg, start): (bool, usize) = if s[0] == '+' {
        (false, 1)
    } else if s[0] == '-' {
        (true, 1)
    } else {
        (false, 0)
    };
    let ghost digits = s@.skip(start as int);
    proof {
        if start == 1 {
            assert(digits =~= s@.drop_first());
        } else {
            assert(digits =~= s@);
        }
    }
    let mut acc: i128 = 0;
    let mut i: usize = start;
    assert(spec_parse_int(s@, radix, true, i128::MIN as int, i128::MAX as int) == scan_digits(
        digits,
        radix,
        neg,
        0,
        i128::MIN as int,
        i128::MAX as int,
    ));
    while i < s.len()
        invariant
            0 <= start <= i <= s@.len(),
            digits == s@.skip(start as int),
            2 <= radix <= 36,
            neg ==> acc <= 0,
            !neg ==> acc >= 0,
            spec_parse_int(s@, radix, true, i128::MIN as int, i128::MAX as int) == scan_digits(
                digits,
                radix,
                neg,
                0,
                i128::MIN as int,
                i128::MAX as int,
            ),
            scan_digits(digits, radix, neg, 0, i128::MIN as int, i128::MAX as int) == scan_digits(
                s@.skip(i as int),
                radix,
                neg,
                acc as int,
                i128::MIN as int,
                i128::MAX as int,
            ),
        decreases s@.len() - i,
    {
        let ghost rest = s@.skip(i as int);
        assert(rest[0] == s@[i as int]);
        assert(rest.drop_first() =~= s@.skip(i + 1));
        let x = match digit(s[i], radix) {
            Some(x) => x,
            None => {
                return Err(ParseIntError { kind: IntErrorKind::InvalidDigit });
            },
        };
        let r = radix as i128;
        let next_wide = match acc.checked_mul(r) {
            Some(m) => if neg {
                m.checked_sub(x as i128)
            } else {
                m.checked_add(x as i128)
            },
            None => None,
        };
        match next_wide {
            Some(n) => {
                proof {
                    let prod = acc * radix;
                    if neg {
                        assert(prod <= 0) by (nonlinear_arith)
                            requires acc <= 0, radix >= 2, prod == acc * radix;
                    } else {
                        assert(prod >= 0) by (nonlinear_arith)
                            requires acc >= 0, radix >= 2, prod == acc * radix;
                    }
                }
                acc = n;
            },
            None => {
                proof {
                    let next = if neg { acc * radix - x } else { acc * radix + x };
                    let prod = acc * radix;
                    if neg {
                        assert(prod <= 0) by (nonlinear_arith)
                            requires acc <= 0, radix >= 2, prod == acc * radix;
                    } else {
                        assert(prod >= 0) by (nonlinear_arith)
                            requires acc >= 0, radix >= 2, prod == acc * radix;
                    }
                    assert(next < i128::MIN || next > i128::MAX);
                }
                if neg {
                    return Err(ParseIntError { kind: IntErrorKind::NegOverflow });
                } else {
                    return Err(ParseIntError { kind: IntErrorKind::PosOverflow });
                }
            },
        }
        i = i + 1;
    }
    proof {
        assert(s@.skip(i as int).len() == 0);
    }
    Ok(acc)
}

/// Reads a decimal `u32` the way `str::parse::<u32>` does, keeping only
/// whether it succeeded and the value.
pub fn parse_u32(s: &[char]) -> (r: Option<u32>)
    ensures
        r == spec_parse_u32(s@),
{
    let ghost lo: int = 0;
    let ghost hi: int = u32::MAX as int;
    if s.len() == 0 {
        return None;
    }
    if s.len() == 1 && (s[0] == '+' || s[0] == '-') {
        return None;
    }
    let start: usize = if s[0] == '+' { 1 } else { 0 };
    let ghost digits = s@.skip(start as int);
    proof {
        if start == 1 {
            assert(digits =~= s@.drop_first());
        } else {
            assert(digits =~= s@);
        }
    }
    assert(spec_parse_int(s@, 10, false, lo, hi) == scan_digits(digits, 10, false, 0, lo, hi));
    let mut acc: u64 = 0;
    let mut i: usize = start;
    while i < s.len()
        invariant
            0 <= start <= i <= s@.len(),
            digits == s@.skip(start as int),
            lo == 0,
            hi == u32::MAX,
            acc <= u32::MAX,
            spec_parse_int(s@, 10, false, lo, hi) == scan_digits(digits, 10, false, 0, lo, hi),
            scan_digits(digits, 10, false, 0, lo, hi) == scan_digits(
                s@.skip(i as int),
                10,
                false,
                acc as int,
                lo,
                hi,
            ),
        decreases s@.len() - i,
    {
        let ghost rest = s@.skip(i as int);
        assert(rest[0] == s@[i as int]);
        assert(rest.drop_first() =~= s@.skip(i + 1));
        let x = match digit(s[i], 10) {
            Some(x) => x,
            None => {
                return None;
            },
        };
        let next = acc * 10 + x as u64;
        if next > u32::MAX as u64 {
            return None;
        }
        acc = next;
        i = i + 1;
    }
    proof {
        assert(s@.skip(i as int).len() == 0);
    }
    Some(acc as u32)
}

} // verus!
