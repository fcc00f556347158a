//! Decoding numeric, character and string literals from their source text.

use crate::const_value::{decimal, push_decimal, push_str};
use crate::digits::{parse_i128, parse_u32, spec_parse_i128, spec_parse_u32, IntErrorKind, ParseIntError};
use crate::number::{Number, NumberValue};
use crate::text::chars_of;
use vstd::prelude::*;

verus! {

/// Why a literal could not be decoded.
#[derive(Debug, Clone, PartialEq, Eq)]
pub enum LoweringError {
    ParseIntError(ParseIntError),
    ParseFloatError(FloatErrorKind),
    UnknownNumericSuffix(String),
    InvalidUtf8Char(u128),
    UnknownEscapeChar(char),
    UnclosedEscapeChar,
    EmptyCharLiteral,
    MutableExclusion,
}

/// Why a float could not be read: nothing to read, or not a float.
#[derive(Debug, Clone, Copy, PartialEq, Eq, Structural)]
pub enum FloatErrorKind {
    Empty,
    Invalid,
}

/// A decoded numeric literal. Floating-point literals are handed on as
/// their digits (underscores removed), for the caller to convert; their
/// suffix never gives them a width.
#[derive(Debug, Clone, PartialEq, Eq)]
pub enum NumericLiteral {
    Integer(Number),
    Float { digits: Vec<char> },
}

/// What Rust's `str::to_lowercase` gives for the characters `s`.
pub uninterp spec fn lowercase(s: Seq<char>) -> Seq<char>;

/// `s` lower-cased: ASCII text letter by letter (`A`..`Z` to `a`..`z`),
/// other text as `str::to_lowercase` does it (see `lowercase`).
pub open spec fn lower(s: Seq<char>) -> Seq<char> {
    if forall|i: int| 0 <= i < s.len() ==> (#[trigger] s[i] as u32) < 128 {
        s.map_values(|c: char| if 'A' <= c <= 'Z' { ((c as u32) + 32) as char } else { c })
    } else {
        lowercase(s)
    }
}

/// Lower-cases text with `str::to_lowercase`: the result is `lowercase`
/// of the argument, which for ASCII text maps `A`..`Z` to `a`..`z` and
/// keeps every other character (see `lower`); for other text nothing more
/// is stated.
#[verifier::external_body]
fn lowercase_chars(s: &[char]) -> (r: Vec<char>)
    ensures
        r@ == lowercase(s@),
        r@ == lower(s@),
{
    let text: String = s.iter().collect();
    text.to_lowercase().chars().collect()
}

/// The text holding the characters `s`, built with `String::from_iter`.
#[verifier::external_body]
pub(crate) fn string_of(s: &[char]) -> (r: String)
    ensures
        r@ == s@,
{
    s.iter().collect()
}

/// `char::from_u32`: the character with code `v`, unless `v` is above
/// `0x10FFFF` or a surrogate (`0xD800..=0xDFFF`).
#[verifier::external_body]
fn char_from_u32(v: u32) -> (r: Option<char>)
    ensures
        r matches Some(c) ==> c as u32 == v,
        r is None <==> (v > 0x10FFFF || (0xD800 <= v <= 0xDFFF)),
{
    char::from_u32(v)
}

pub open spec fn is_ascii_alpha(c: char) -> bool {
    ('a' <= c <= 'z') || ('A' <= c <= 'Z')
}

pub open spec fn is_ascii_hex(c: char) -> bool {
    ('0' <= c <= '9') || ('a' <= c <= 'f') || ('A' <= c <= 'F')
}

/// The digits and radix of a numeric literal: `0x`, `0b` and `0o` select
/// radix 16, 2 and 8 and are removed; otherwise radix 10.
pub open spec fn radix_of(s: Seq<char>) -> (Seq<char>, u32) {
    if s.len() >= 2 && s[0] == '0' && s[1] == 'x' {
        (s.skip(2), 16)
    } else if s.len() >= 2 && s[0] == '0' && s[1] == 'b' {
        (s.skip(2), 2)
    } else if s.len() >= 2 && s[0] == '0' && s[1] == 'o' {
        (s.skip(2), 8)
    } else {
        (s, 10)
    }
}

/// The characters of `s` other than `_`.
pub open spec fn without_underscores(s: Seq<char>) -> Seq<char> {
    s.filter(|c: char| c != '_')
}

/// A letter that starts the suffix: any ASCII letter, except the hex
/// digit letters in radix 16.
pub open spec fn starts_suffix(c: char, radix: u32) -> bool {
    is_ascii_alpha(c) && !(radix == 16 && is_ascii_hex(c))
}

/// Where the suffix of the literal body `t` starts (its length if none).
pub open spec fn suffix_start(t: Seq<char>, radix: u32) -> int
    decreases t.len(),
{
    if t.len() == 0 {
        0
    } else if starts_suffix(t[0], radix) {
        0
    } else {
        1 + suffix_start(t.drop_first(), radix)
    }
}

/// The literal is a float: radix 10 with a `.`, `f` or `F` in it.
pub open spec fn is_float_literal(t: Seq<char>, radix: u32) -> bool {
    radix == 10 && (t.contains('.') || t.contains('f') || t.contains('F'))
}

/// The number an integer literal denotes with its lower-cased suffix
/// `low`: `u…` unsigned, `i…` signed, each with the width written after
/// the letter when that reads as a `u32`; `c…` signed without width;
/// `None` for any other suffix.
pub open spec fn suffix_number(value: i128, low: Seq<char>) -> Option<Number> {
    if low.len() > 0 && low[0] == 'u' {
        Some(Number { value: NumberValue::Uint(value as u128), size: spec_parse_u32(low.skip(1)) })
    } else if low.len() > 0 && low[0] == 'i' {
        Some(Number { value: NumberValue::Int(value), size: spec_parse_u32(low.skip(1)) })
    } else if low.len() > 0 && low[0] == 'c' {
        Some(Number { value: NumberValue::Int(value), size: None })
    } else {
        None
    }
}

/// `r` is what an integer literal with value `value` and lower-cased
/// suffix `low` decodes to.
pub open spec fn suffix_outcome(value: i128, low: Seq<char>, r: Result<Number, LoweringError>) -> bool {
    match suffix_number(value, low) {
        Some(n) => r == Ok::<Number, LoweringError>(n),
        None => r matches Err(LoweringError::UnknownNumericSuffix(t)) && t@ == low,
    }
}

/// `r` is what the numeric literal written `s` decodes to.
pub open spec fn numeric_outcome(s: Seq<char>, r: Result<NumericLiteral, LoweringError>) -> bool {
    let (body, radix) = radix_of(s);
    let t = without_underscores(body);
    let k = suffix_start(t, radix);
    let digits = t.take(k);
    if is_float_literal(t, radix) {
        r matches Ok(NumericLiteral::Float { digits: d }) && d@ == digits
    } else {
        match spec_parse_i128(digits, radix) {
            Err(e) => r == Err::<NumericLiteral, LoweringError>(
                LoweringError::ParseIntError(ParseIntError { kind: e }),
            ),
            Ok(v) => if k == t.len() {
                r == Ok::<NumericLiteral, LoweringError>(
                    NumericLiteral::Integer(Number { value: NumberValue::Any(v as u128), size: None }),
                )
            } else {
                match r {
                    Ok(NumericLiteral::Integer(n)) => suffix_outcome(v, lower(t.skip(k)), Ok(n)),
                    Ok(NumericLiteral::Float { .. }) => false,
                    Err(e) => suffix_outcome(v, lower(t.skip(k)), Err(e)),
                }
            },
        }
    }
}

/// The number an integer literal with value `value` and lower-cased suffix
/// `suffix` denotes, or the error for an unknown suffix.
pub fn number_from_suffix(value: i128, suffix: &[char]) -> (r: Result<Number, LoweringError>)
    ensures
        suffix_outcome(value, suffix@, r),
{
    if suffix.len() > 0 && (suffix[0] == 'u' || suffix[0] == 'i') {
        let mut width: Vec<char> = Vec::new();
        let mut i: usize = 1;
        while i < suffix.len()
            invariant
                1 <= i <= suffix@.len(),
                width@ == suffix@.subrange(1, i as int),
            decreases suffix@.len() - i,
        {
            width.push(suffix[i]);
            i = i + 1;
        }
        assert(width@ =~= suffix@.skip(1));
        let size = parse_u32(width.as_slice());
        if suffix[0] == 'u' {
            Ok(Number { value: NumberValue::Uint(value as u128), size })
        } else {
            Ok(Number { value: NumberValue::Int(value), size })
        }
    } else if suffix.len() > 0 && suffix[0] == 'c' {
        Ok(Number { value: NumberValue::Int(value), size: None })
    } else {
        Err(LoweringError::UnknownNumericSuffix(string_of(suffix)))
    }
}

proof fn lemma_suffix_start(t: Seq<char>, radix: u32)
    ensures
        0 <= suffix_start(t, radix) <= t.len(),
        forall|i: int| 0 <= i < suffix_start(t, radix) ==> !starts_suffix(#[trigger] t[i], radix),
        suffix_start(t, radix) < t.len() ==> starts_suffix(t[suffix_start(t, radix)], radix),
    decreases t.len(),
{
    if t.len() > 0 && !starts_suffix(t[0], radix) {
        lemma_suffix_start(t.drop_first(), radix);
        assert forall|i: int| 0 <= i < suffix_start(t, radix) implies !starts_suffix(
            #[trigger] t[i],
            radix,
        ) by {
            if i > 0 {
                assert(t[i] == t.drop_first()[i - 1]);
            }
        }
    }
}

/// Decodes the numeric literal made of the characters `s`.
pub fn numeric_literal_chars(s: &[char]) -> (r: Result<NumericLiteral, LoweringError>)
    ensures
        numeric_outcome(s@, r),
{
    let (start, radix): (usize, u32) = if s.len() >= 2 && s[0] == '0' && s[1] == 'x' {
        (2, 16)
    } else if s.len() >= 2 && s[0] == '0' && s[1] == 'b' {
        (2, 2)
    } else if s.len() >= 2 && s[0] == '0' && s[1] == 'o' {
        (2, 8)
    } else {
        (0, 10)
    };
    let ghost body = radix_of(s@).0;
    assert(body =~= s@.skip(start as int));
    assert(radix_of(s@).1 == radix);
    let mut t: Vec<char> = Vec::new();
    let mut i: usize = start;
    while i < s.len()
        invariant
            0 <= start <= i <= s@.len(),
            body == s@.skip(start as int),
            t@ == without_underscores(body.take(i - start)),
        decreases s@.len() - i,
    {
        proof {
            let pre = body.take(i - start + 1);
            assert(pre.drop_last() =~= body.take(i - start));
            assert(pre.last() == s@[i as int]);
            pre.filter_lemma(|c: char| c != '_');
            assert(without_underscores(pre) == without_underscores(pre.drop_last()) + (if s@[i as int]
                != '_' {
                seq![s@[i as int]]
            } else {
                Seq::empty()
            })) by {
                reveal(Seq::filter);
            }
        }
        if s[i] != '_' {
            t.push(s[i]);
        }
        i = i + 1;
    }
    assert(body.take(i - start) =~= body);
    let ghost tt = t@;
    assert(tt == without_underscores(radix_of(s@).0));
    proof {
        lemma_suffix_start(tt, radix);
    }
    let mut k: usize = 0;
    let mut float_marker = false;
    while k < t.len()
        invariant
            t@ == tt,
            0 <= k <= tt.len(),
            k <= suffix_start(tt, radix) <= tt.len(),
        ensures
            k == suffix_start(tt, radix),
        decreases tt.len() - k,
    {
        proof {
            lemma_suffix_start(tt, radix);
        }
        let c = t[k];
        if (('a' <= c && c <= 'z') || ('A' <= c && c <= 'Z')) && !(radix == 16 && (('0' <= c
            && c <= '9') || ('a' <= c && c <= 'f') || ('A' <= c && c <= 'F'))) {
            proof {
                if k < suffix_start(tt, radix) {
                    assert(!starts_suffix(tt[k as int], radix));
                }
            }
            break;
        }
        k = k + 1;
    }
    proof {
        lemma_suffix_start(tt, radix);
    }
    let mut j: usize = 0;
    while j < t.len()
        invariant
            t@ == tt,
            0 <= j <= tt.len(),
            k == suffix_start(tt, radix),
            float_marker == (radix == 10 && exists|m: int|
                0 <= m < j && (tt[m] == '.' || tt[m] == 'f' || tt[m] == 'F')),
        decreases tt.len() - j,
    {
        if radix == 10 && (t[j] == '.' || t[j] == 'f' || t[j] == 'F') {
            float_marker = true;
        }
        j = j + 1;
    }
    proof {
        if float_marker {
            let m = choose|m: int| 0 <= m < tt.len() && (tt[m] == '.' || tt[m] == 'f' || tt[m] == 'F');
            if tt[m] == '.' {
                assert(tt.contains('.'));
            } else if tt[m] == 'f' {
                assert(tt.contains('f'));
            } else {
                assert(tt.contains('F'));
            }
        } else {
            assert(!is_float_literal(tt, radix)) by {
                if radix == 10 {
                    if tt.contains('.') {
                        let m = choose|m: int| 0 <= m < tt.len() && tt[m] == '.';
                    }
                    if tt.contains('f') {
                        let m = choose|m: int| 0 <= m < tt.len() && tt[m] == 'f';
                    }
                    if tt.contains('F') {
                        let m = choose|m: int| 0 <= m < tt.len() && tt[m] == 'F';
                    }
                }
            }
        }
    }
    let mut digits: Vec<char> = Vec::new();
    let mut m: usize = 0;
    while m < k
        invariant
            t@ == tt,
            0 <= m <= k <= tt.len(),
            k == suffix_start(tt, radix),
            float_marker == is_float_literal(tt, radix),
            digits@ == tt.take(m as int),
        decreases k - m,
    {
        digits.push(t[m]);
        m = m + 1;
        assert(digits@ =~= tt.take(m as int));
    }
    assert(k == suffix_start(tt, radix));
    assert(digits@ == tt.take(k as int));
    if float_marker {
        assert(is_float_literal(tt, radix));
        return Ok(NumericLiteral::Float { digits });
    }
    assert(!is_float_literal(tt, radix));
    let value = match parse_i128(digits.as_slice(), radix) {
        Ok(v) => v,
        Err(e) => {
            return Err(LoweringError::ParseIntError(e));
        },
    };
    if k == t.len() {
        return Ok(NumericLiteral::Integer(Number { value: NumberValue::Any(value as u128), size: None }));
    }
    let mut suffix: Vec<char> = Vec::new();
    let mut q: usize = k;
    while q < t.len()
        invariant
            t@ == tt,
            0 <= k <= q <= tt.len(),
            suffix@ == tt.subrange(k as int, q as int),
        decreases tt.len() - q,
    {
        suffix.push(t[q]);
        q = q + 1;
    }
    assert(suffix@ =~= tt.skip(k as int));
    let low = lowercase_chars(suffix.as_slice());
    match number_from_suffix(value, low.as_slice()) {
        Ok(n) => Ok(NumericLiteral::Integer(n)),
        Err(e) => Err(e),
    }
}

/// Decodes the numeric literal written `s`.
pub fn numeric_literal(s: &str) -> (r: Result<NumericLiteral, LoweringError>)
    ensures
        numeric_outcome(s@, r),
{
    let cs = chars_of(s);
    numeric_literal_chars(cs.as_slice())
}

/// The number of `#` that open the text.
pub open spec fn leading_hashes(s: Seq<char>) -> int
    decreases s.len(),
{
    if s.len() > 0 && s[0] == '#' {
        1 + leading_hashes(s.drop_first())
    } else {
        0
    }
}

proof fn lemma_leading_hashes(s: Seq<char>)
    ensures
        0 <= leading_hashes(s) <= s.len(),
        forall|i: int| 0 <= i < leading_hashes(s) ==> #[trigger] s[i] == '#',
        leading_hashes(s) < s.len() ==> s[leading_hashes(s)] != '#',
    decreases s.len(),
{
    if s.len() > 0 && s[0] == '#' {
        lemma_leading_hashes(s.drop_first());
        assert forall|i: int| 0 <= i < leading_hashes(s) implies #[trigger] s[i] == '#' by {
            if i > 0 {
                assert(s[i] == s.drop_first()[i - 1]);
            }
        }
    }
}

/// The character is a single byte in UTF-8.
pub open spec fn is_ascii_char(c: char) -> bool {
    (c as u32) < 0x80
}

/// A string token `#…#"…"#…#` (with any number of `#`, possibly none)
/// whose delimiters are single-byte characters, so that its content can
/// be cut out.
pub open spec fn string_token_ok(s: Seq<char>) -> bool {
    let h = leading_hashes(s);
    &&& 2 * (h + 1) <= s.len()
    &&& is_ascii_char(s[h])
    &&& forall|i: int| s.len() - (h + 1) <= i < s.len() ==> is_ascii_char(#[trigger] s[i])
}

/// The content of a string token: the text without its `n + 1` leading
/// and `n + 1` trailing characters, where `n` is the number of `#` that
/// open it.
pub fn string_literal(s: &str) -> (r: String)
    requires
        string_token_ok(s@),
    ensures
        r@ == s@.subrange(leading_hashes(s@) + 1, s@.len() - (leading_hashes(s@) + 1)),
{
    let cs = chars_of(s);
    proof {
        lemma_leading_hashes(s@);
    }
    let mut h: usize = 0;
    while h < cs.len() && cs[h] == '#'
        invariant
            cs@ == s@,
            0 <= h <= leading_hashes(s@),
            forall|i: int| 0 <= i < leading_hashes(s@) ==> #[trigger] s@[i] == '#',
            leading_hashes(s@) < s@.len() ==> s@[leading_hashes(s@)] != '#',
            leading_hashes(s@) <= s@.len(),
        decreases cs@.len() - h,
    {
        h = h + 1;
    }
    let end = cs.len() - (h + 1);
    let mut content: Vec<char> = Vec::new();
    let mut i: usize = h + 1;
    while i < end
        invariant
            cs@ == s@,
            h + 1 <= i <= end <= cs@.len(),
            content@ == s@.subrange(h + 1, i as int),
        decreases end - i,
    {
        content.push(cs[i]);
        i = i + 1;
    }
    string_of(content.as_slice())
}

/// `s` without every copy of `p` repeated at its start.
pub open spec fn trim_start_all(s: Seq<char>, p: Seq<char>) -> Seq<char>
    decreases s.len(),
{
    if p.len() > 0 && s.len() >= p.len() && s.take(p.len() as int) == p {
        trim_start_all(s.skip(p.len() as int), p)
    } else {
        s
    }
}

/// `s` without every copy of `p` repeated at its end.
pub open spec fn trim_end_all(s: Seq<char>, p: Seq<char>) -> Seq<char>
    decreases s.len(),
{
    if p.len() > 0 && s.len() >= p.len() && s.skip(s.len() - p.len()) == p {
        trim_end_all(s.take(s.len() - p.len()), p)
    } else {
        s
    }
}

/// The opening of a unicode character literal, `'\u{`.
pub open spec fn unicode_open() -> Seq<char> {
    seq!['\'', '\\', 'u', '{']
}

/// The closing of a unicode character literal, `}'`.
pub open spec fn unicode_close() -> Seq<char> {
    seq!['}', '\'']
}

/// The hexadecimal-or-other number written inside a unicode character
/// literal.
pub open spec fn unicode_digits(s: Seq<char>) -> Seq<char> {
    trim_end_all(trim_start_all(s, unicode_open()), unicode_close())
}

/// The character that a one-letter escape after a backslash stands for.
pub open spec fn escape_char(c: char) -> char {
    if c == '0' {
        '\0'
    } else if c == 'a' {
        '\x07'
    } else if c == 'b' {
        '\x08'
    } else if c == 'f' {
        '\x0C'
    } else if c == 'n' {
        '\n'
    } else if c == 'r' {
        '\r'
    } else if c == 't' {
        '\t'
    } else if c == 'v' {
        '\x0B'
    } else {
        c
    }
}

/// The decoded number of a unicode character literal is usable: an
/// unsigned or untyped integer, or an error.
pub open spec fn unicode_number_ok(r: Result<NumericLiteral, LoweringError>) -> bool {
    match r {
        Ok(NumericLiteral::Integer(n)) => n.value is Uint || n.value is Any,
        Ok(NumericLiteral::Float { .. }) => false,
        Err(_) => true,
    }
}

/// A character token that can be decoded: a unicode literal whose number
/// decodes to an unsigned or untyped integer or fails, or a token opened
/// by a backslash and a quote with a single-byte third character, or any
/// other text.
pub open spec fn char_token_ok(s: Seq<char>) -> bool {
    if s.len() >= 4 && s.take(4) == unicode_open() {
        forall|r: Result<NumericLiteral, LoweringError>|
            numeric_outcome(unicode_digits(s), r) ==> #[trigger] unicode_number_ok(r)
    } else if s.len() >= 2 && s[0] == '\\' && s[1] == '\'' {
        s.len() >= 3 && is_ascii_char(s[2])
    } else {
        true
    }
}

/// `r` is what the character token `s` decodes to.
pub open spec fn char_outcome(s: Seq<char>, r: Result<char, LoweringError>) -> bool {
    if s.len() >= 4 && s.take(4) == unicode_open() {
        exists|n: Result<NumericLiteral, LoweringError>|
            #[trigger] numeric_outcome(unicode_digits(s), n) && match n {
                Err(e) => r == Err::<char, LoweringError>(e),
                Ok(NumericLiteral::Integer(num)) => {
                    let v: u128 = match num.value {
                        NumberValue::Uint(v) => v,
                        NumberValue::Any(v) => v,
                        _ => 0,
                    };
                    let code = v as u32;
                    if code > 0x10FFFF || (0xD800 <= code <= 0xDFFF) {
                        r == Err::<char, LoweringError>(LoweringError::InvalidUtf8Char(v))
                    } else {
                        r matches Ok(c) && c as u32 == code
                    }
                },
                _ => false,
            }
    } else if s.len() >= 2 && s[0] == '\\' && s[1] == '\'' {
        r == Ok::<char, LoweringError>(escape_char(s[2]))
    } else if s.len() >= 2 {
        r == Ok::<char, LoweringError>(s[1])
    } else {
        r == Err::<char, LoweringError>(LoweringError::EmptyCharLiteral)
    }
}

proof fn lemma_trim_start(s: Seq<char>, p: Seq<char>)
    ensures
        trim_start_all(s, p).len() <= s.len(),
    decreases s.len(),
{
    if p.len() > 0 && s.len() >= p.len() && s.take(p.len() as int) == p {
        lemma_trim_start(s.skip(p.len() as int), p);
    }
}

fn starts_with_at(s: &Vec<char>, from: usize, to: usize, p: &Vec<char>) -> (b: bool)
    requires
        from <= to <= s@.len(),
    ensures
        b == (p@.len() > 0 && to - from >= p@.len() && s@.subrange(from as int, to as int).take(
            p@.len() as int,
        ) == p@),
{
    if p.len() == 0 || to - from < p.len() {
        return false;
    }
    let mut i: usize = 0;
    while i < p.len()
        invariant
            from <= to <= s@.len(),
            to - from >= p@.len(),
            0 <= i <= p@.len(),
            forall|j: int| 0 <= j < i ==> s@[from + j] == p@[j],
        decreases p@.len() - i,
    {
        if s[from + i] != p[i] {
            assert(s@.subrange(from as int, to as int).take(p@.len() as int)[i as int] != p@[i as int]);
            return false;
        }
        i = i + 1;
    }
    assert(s@.subrange(from as int, to as int).take(p@.len() as int) =~= p@);
    true
}

fn ends_with_at(s: &Vec<char>, from: usize, to: usize, p: &Vec<char>) -> (b: bool)
    requires
        from <= to <= s@.len(),
    ensures
        b == (p@.len() > 0 && to - from >= p@.len() && s@.subrange(from as int, to as int).skip(
            (to - from) - p@.len(),
        ) == p@),
{
    if p.len() == 0 || to - from < p.len() {
        return false;
    }
    let base = to - p.len();
    let mut i: usize = 0;
    while i < p.len()
        invariant
            from <= to <= s@.len(),
            to - from >= p@.len(),
            base == to - p@.len(),
            0 <= i <= p@.len(),
            forall|j: int| 0 <= j < i ==> s@[base + j] == p@[j],
        decreases p@.len() - i,
    {
        if s[base + i] != p[i] {
            assert(s@.subrange(from as int, to as int).skip((to - from) - p@.len())[i as int]
                != p@[i as int]);
            return false;
        }
        i = i + 1;
    }
    assert(s@.subrange(from as int, to as int).skip((to - from) - p@.len()) =~= p@);
    true
}

/// Decodes a character token: a unicode literal `'\u{…}'`, an escape
/// opened by a backslash and a quote, or a quoted character.
pub fn char_literal(s: &str) -> (r: Result<char, LoweringError>)
    requires
        char_token_ok(s@),
    ensures
        char_outcome(s@, r),
{
    let cs = chars_of(s);
    let open = vec!['\'', '\\', 'u', '{'];
    let close = vec!['}', '\''];
    assert(open@ =~= unicode_open());
    assert(close@ =~= unicode_close());
    assert(cs@.subrange(0, cs@.len() as int) =~= cs@);
    if starts_with_at(&cs, 0, cs.len(), &open) {
        let mut from: usize = 0;
        while starts_with_at(&cs, from, cs.len(), &open)
            invariant
                cs@ == s@,
                open@ == unicode_open(),
                from <= cs@.len(),
                trim_start_all(s@, unicode_open()) == trim_start_all(
                    cs@.subrange(from as int, cs@.len() as int),
                    unicode_open(),
                ),
            decreases cs@.len() - from,
        {
            let ghost cur = cs@.subrange(from as int, cs@.len() as int);
            assert(cur.skip(4) =~= cs@.subrange(from + 4, cs@.len() as int));
            from = from + 4;
        }
        let mut to: usize = cs.len();
        while ends_with_at(&cs, from, to, &close)
            invariant
                cs@ == s@,
                close@ == unicode_close(),
                from <= to <= cs@.len(),
                unicode_digits(s@) == trim_end_all(cs@.subrange(from as int, to as int), unicode_close()),
            decreases to - from,
        {
            let ghost cur = cs@.subrange(from as int, to as int);
            assert(cur.take(cur.len() - 2) =~= cs@.subrange(from as int, to - 2));
            to = to - 2;
        }
        let mut digits: Vec<char> = Vec::new();
        let mut i = from;
        while i < to
            invariant
                from <= i <= to <= cs@.len(),
                digits@ == cs@.subrange(from as int, i as int),
            decreases to - i,
        {
            digits.push(cs[i]);
            i = i + 1;
        }
        let ghost u = unicode_digits(s@);
        assert(digits@ == u);
        let n = numeric_literal_chars(digits.as_slice());
        let ghost nr = n;
        assert(numeric_outcome(u, nr));
        assert(unicode_number_ok(nr));
        match n {
            Err(e) => {
                assert(char_outcome(s@, Err(e)));
                Err(e)
            },
            Ok(NumericLiteral::Integer(num)) => {
                let v: u128 = match num.value {
                    NumberValue::Uint(v) => v,
                    NumberValue::Any(v) => v,
                    _ => vstd::pervasive::unreached(),
                };
                let r = match char_from_u32(v as u32) {
                    Some(c) => Ok(c),
                    None => Err(LoweringError::InvalidUtf8Char(v)),
                };
                assert(char_outcome(s@, r));
                r
            },
            Ok(NumericLiteral::Float { .. }) => vstd::pervasive::unreached(),
        }
    } else if cs.len() >= 2 && cs[0] == '\\' && cs[1] == '\'' {
        let c = cs[2];
        let e = if c == '0' {
            '\0'
        } else if c == 'a' {
            '\x07'
        } else if c == 'b' {
            '\x08'
        } else if c == 'f' {
            '\x0C'
        } else if c == 'n' {
            '\n'
        } else if c == 'r' {
            '\r'
        } else if c == 't' {
            '\t'
        } else if c == 'v' {
            '\x0B'
        } else {
            c
        };
        Ok(e)
    } else if cs.len() >= 2 {
        Ok(cs[1])
    } else {
        Err(LoweringError::EmptyCharLiteral)
    }
}

proof fn lemma_numeric_outcome_agrees(u: Seq<char>, r1: Result<NumericLiteral, LoweringError>, r2: Result<NumericLiteral, LoweringError>)
    requires
        numeric_outcome(u, r1),
        numeric_outcome(u, r2),
    ensures
        unicode_number_ok(r1) == unicode_number_ok(r2),
{
}

/// Decodes a character token when `char_literal` can: `None` for a
/// unicode literal whose number is a float or a signed integer, and for a
/// token opened by a backslash and a quote without a single-byte third
/// character.
pub fn try_char_literal(s: &str) -> (r: Option<Result<char, LoweringError>>)
    ensures
        r is None <==> !char_token_ok(s@),
        r matches Some(c) ==> char_outcome(s@, c),
{
    let cs = chars_of(s);
    if cs.len() >= 4 && cs[0] == '\'' && cs[1] == '\\' && cs[2] == 'u' && cs[3] == '{' {
        proof {
            assert(s@.take(4) =~= unicode_open());
        }
        let open = vec!['\'', '\\', 'u', '{'];
        let close = vec!['}', '\''];
        assert(open@ =~= unicode_open());
        assert(close@ =~= unicode_close());
        assert(cs@.subrange(0, cs@.len() as int) =~= cs@);
        let mut from: usize = 0;
        while starts_with_at(&cs, from, cs.len(), &open)
            invariant
                cs@ == s@,
                open@ == unicode_open(),
                from <= cs@.len(),
                trim_start_all(s@, unicode_open()) == trim_start_all(
                    cs@.subrange(from as int, cs@.len() as int),
                    unicode_open(),
                ),
            decreases cs@.len() - from,
        {
            let ghost cur = cs@.subrange(from as int, cs@.len() as int);
            assert(cur.skip(4) =~= cs@.subrange(from + 4, cs@.len() as int));
            from = from + 4;
        }
        let mut to: usize = cs.len();
        while ends_with_at(&cs, from, to, &close)
            invariant
                cs@ == s@,
                close@ == unicode_close(),
                from <= to <= cs@.len(),
                unicode_digits(s@) == trim_end_all(cs@.subrange(from as int, to as int), unicode_close()),
            decreases to - from,
        {
            let ghost cur = cs@.subrange(from as int, to as int);
            assert(cur.take(cur.len() - 2) =~= cs@.subrange(from as int, to - 2));
            to = to - 2;
        }
        let mut digits: Vec<char> = Vec::new();
        let mut i = from;
        while i < to
            invariant
                from <= i <= to <= cs@.len(),
                digits@ == cs@.subrange(from as int, i as int),
            decreases to - i,
        {
            digits.push(cs[i]);
            i = i + 1;
        }
        let n = numeric_literal_chars(digits.as_slice());
        let usable = match &n {
            Ok(NumericLiteral::Integer(num)) => match num.value {
                NumberValue::Uint(_) | NumberValue::Any(_) => true,
                _ => false,
            },
            Ok(NumericLiteral::Float { .. }) => false,
            Err(_) => true,
        };
        proof {
            let u = unicode_digits(s@);
            assert(digits@ == u);
            assert(usable == unicode_number_ok(n));
            if usable {
                assert forall|r2: Result<NumericLiteral, LoweringError>|
                    numeric_outcome(u, r2) implies #[trigger] unicode_number_ok(r2) by {
                    lemma_numeric_outcome_agrees(u, n, r2);
                }
            } else {
                assert(!unicode_number_ok(n));
            }
        }
        if !usable {
            return None;
        }
        return Some(char_literal(s));
    }
    proof {
        if s@.len() >= 4 && s@.take(4) == unicode_open() {
            assert(s@.take(4)[0] == '\'');
            assert(s@.take(4)[1] == '\\');
            assert(s@.take(4)[2] == 'u');
            assert(s@.take(4)[3] == '{');
        }
    }
    if cs.len() >= 2 && cs[0] == '\\' && cs[1] == '\'' {
        if cs.len() < 3 || cs[2] as u32 >= 0x80 {
            return None;
        }
    }
    Some(char_literal(s))
}


/// What Rust's standard library prints for an integer that could not be
/// read.
pub open spec fn int_error_text(k: IntErrorKind) -> Seq<char> {
    match k {
        IntErrorKind::Empty => "cannot parse integer from empty string"@,
        IntErrorKind::InvalidDigit => "invalid digit found in string"@,
        IntErrorKind::PosOverflow => "number too large to fit in target type"@,
        IntErrorKind::NegOverflow => "number too small to fit in target type"@,
    }
}

/// What Rust's standard library prints for a float that could not be read.
pub open spec fn float_error_text(k: FloatErrorKind) -> Seq<char> {
    match k {
        FloatErrorKind::Empty => "cannot parse float from empty string"@,
        FloatErrorKind::Invalid => "invalid float literal"@,
    }
}

/// The heading, the code and the message of a diagnostic for `e`.
pub open spec fn error_info(e: LoweringError) -> (Seq<char>, Seq<char>, Seq<char>) {
    match e {
        LoweringError::ParseIntError(p) => ("Invalid integer literal"@, "300"@, int_error_text(p.kind)),
        LoweringError::ParseFloatError(k) => ("Invalid float literal"@, "301"@, float_error_text(k)),
        LoweringError::UnknownNumericSuffix(s) => (
            "Invalid numeric suffix"@,
            "302"@,
            "Unknown numeric suffix `"@ + s@ + "`"@,
        ),
        LoweringError::MutableExclusion => (
            "conflicting modifiers"@,
            "303"@,
            "Component cannot be both mutable and excluded"@,
        ),
        LoweringError::InvalidUtf8Char(c) => (
            "Invalid character"@,
            "304"@,
            "Invalid UTF-8 character `"@ + decimal(c as nat) + "`"@,
        ),
        LoweringError::UnknownEscapeChar(c) => (
            "Invalid escape sequence"@,
            "305"@,
            "Unknown escape sequence `\\"@ + seq![c] + "`"@,
        ),
        LoweringError::UnclosedEscapeChar => (
            "Unterminated escape sequence"@,
            "306"@,
            "Escape sequence is not terminated"@,
        ),
        LoweringError::EmptyCharLiteral => (
            "Empty character literal"@,
            "307"@,
            "Character literal must contain exactly one character"@,
        ),
    }
}

fn text_of_str(s: &str) -> (r: String)
    ensures
        r@ == s@,
{
    s.to_owned()
}

impl LoweringError {
    /// The heading, the code and the message of the diagnostic for this
    /// error.
    pub fn info(&self) -> (r: (&'static str, &'static str, String))
        ensures
            (r.0@, r.1@, r.2@) == error_info(*self),
    {
        match self {
            LoweringError::ParseIntError(e) => {
                let m = match e.kind {
                    IntErrorKind::Empty => "cannot parse integer from empty string",
                    IntErrorKind::InvalidDigit => "invalid digit found in string",
                    IntErrorKind::PosOverflow => "number too large to fit in target type",
                    IntErrorKind::NegOverflow => "number too small to fit in target type",
                };
                ("Invalid integer literal", "300", text_of_str(m))
            },
            LoweringError::ParseFloatError(k) => {
                let m = match k {
                    FloatErrorKind::Empty => "cannot parse float from empty string",
                    FloatErrorKind::Invalid => "invalid float literal",
                };
                ("Invalid float literal", "301", text_of_str(m))
            },
            LoweringError::UnknownNumericSuffix(suffix) => {
                let mut out: Vec<char> = Vec::new();
                push_str(&mut out, "Unknown numeric suffix `");
                push_str(&mut out, suffix.as_str());
                push_str(&mut out, "`");
                ("Invalid numeric suffix", "302", string_of(out.as_slice()))
            },
            LoweringError::MutableExclusion => (
                "conflicting modifiers",
                "303",
                text_of_str("Component cannot be both mutable and excluded"),
            ),
            LoweringError::InvalidUtf8Char(c) => {
                let mut out: Vec<char> = Vec::new();
                push_str(&mut out, "Invalid UTF-8 character `");
                push_decimal(&mut out, *c);
                push_str(&mut out, "`");
                ("Invalid character", "304", string_of(out.as_slice()))
            },
            LoweringError::UnknownEscapeChar(c) => {
                let mut out: Vec<char> = Vec::new();
                push_str(&mut out, "Unknown escape sequence `\\");
                out.push(*c);
                push_str(&mut out, "`");
                ("Invalid escape sequence", "305", string_of(out.as_slice()))
            },
            LoweringError::UnclosedEscapeChar => (
                "Unterminated escape sequence",
                "306",
                text_of_str("Escape sequence is not terminated"),
            ),
            LoweringError::EmptyCharLiteral => (
                "Empty character literal",
                "307",
                text_of_str("Character literal must contain exactly one character"),
            ),
        }
    }
}

} // verus!
