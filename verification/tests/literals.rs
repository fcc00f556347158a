use lib::digits::{parse_i128, parse_u32, IntErrorKind, ParseIntError};
use lib::literal::FloatErrorKind;
use lib::literal::{
    char_literal, number_from_suffix, numeric_literal, string_literal, try_char_literal, LoweringError,
    NumericLiteral,
};
use lib::number::{Number, NumberValue};

fn integer(value: NumberValue, size: Option<u32>) -> Result<NumericLiteral, LoweringError> {
    Ok(NumericLiteral::Integer(Number { value, size }))
}

fn chars(s: &str) -> Vec<char> {
    s.chars().collect()
}

#[test]
fn untyped_integers() {
    assert_eq!(numeric_literal("42"), integer(NumberValue::Any(42), None));
    assert_eq!(numeric_literal("1_000"), integer(NumberValue::Any(1000), None));
    assert_eq!(numeric_literal("0x1F"), integer(NumberValue::Any(31), None));
    assert_eq!(numeric_literal("0xff"), integer(NumberValue::Any(255), None));
    assert_eq!(numeric_literal("0b101"), integer(NumberValue::Any(5), None));
    assert_eq!(numeric_literal("0o17"), integer(NumberValue::Any(15), None));
}

#[test]
fn suffixes_give_kind_and_width() {
    assert_eq!(numeric_literal("1_000u16"), integer(NumberValue::Uint(1000), Some(16)));
    assert_eq!(numeric_literal("12i32"), integer(NumberValue::Int(12), Some(32)));
    assert_eq!(numeric_literal("5c"), integer(NumberValue::Int(5), None));
    assert_eq!(numeric_literal("7u"), integer(NumberValue::Uint(7), None));
    assert_eq!(numeric_literal("0x10u8"), integer(NumberValue::Uint(16), Some(8)));
}

#[test]
fn suffixes_are_read_in_lower_case() {
    assert_eq!(numeric_literal("3U8"), integer(NumberValue::Uint(3), Some(8)));
    assert_eq!(numeric_literal("3I64"), integer(NumberValue::Int(3), Some(64)));
}

#[test]
fn unknown_suffix_is_an_error() {
    assert_eq!(numeric_literal("12q"), Err(LoweringError::UnknownNumericSuffix("q".to_string())));
    assert_eq!(numeric_literal("12Kb"), Err(LoweringError::UnknownNumericSuffix("kb".to_string())));
}

#[test]
fn malformed_integers() {
    assert_eq!(
        numeric_literal(""),
        Err(LoweringError::ParseIntError(ParseIntError { kind: IntErrorKind::Empty }))
    );
    assert_eq!(
        numeric_literal("0x"),
        Err(LoweringError::ParseIntError(ParseIntError { kind: IntErrorKind::Empty }))
    );
    assert_eq!(
        numeric_literal("1_000_000_000_000_000_000_000_000_000_000_000_000_000"),
        Err(LoweringError::ParseIntError(ParseIntError { kind: IntErrorKind::PosOverflow }))
    );
    assert_eq!(
        numeric_literal("0b12"),
        Err(LoweringError::ParseIntError(ParseIntError { kind: IntErrorKind::InvalidDigit }))
    );
}

#[test]
fn floats_are_handed_on_as_digits() {
    assert_eq!(numeric_literal("1.5"), Ok(NumericLiteral::Float { digits: chars("1.5") }));
    assert_eq!(numeric_literal("2_0.2_5"), Ok(NumericLiteral::Float { digits: chars("20.25") }));
    assert_eq!(numeric_literal("3.0f64"), Ok(NumericLiteral::Float { digits: chars("3.0") }));
}

#[test]
fn number_from_suffix_reads_the_width() {
    assert_eq!(number_from_suffix(9, &chars("u32")), Ok(Number { value: NumberValue::Uint(9), size: Some(32) }));
    assert_eq!(number_from_suffix(-9, &chars("i8")), Ok(Number { value: NumberValue::Int(-9), size: Some(8) }));
    assert_eq!(number_from_suffix(9, &chars("ix")), Ok(Number { value: NumberValue::Int(9), size: None }));
    assert_eq!(number_from_suffix(9, &chars("z")), Err(LoweringError::UnknownNumericSuffix("z".to_string())));
}

#[test]
fn integer_parsing_follows_from_str_radix() {
    assert_eq!(parse_i128(&chars("-17"), 10), Ok(-17));
    assert_eq!(parse_i128(&chars("+ff"), 16), Ok(255));
    assert_eq!(parse_i128(&chars("-"), 10), Err(ParseIntError { kind: IntErrorKind::InvalidDigit }));
    assert_eq!(
        parse_i128(&chars("-170141183460469231731687303715884105728"), 10),
        Ok(i128::MIN)
    );
    assert_eq!(
        parse_i128(&chars("-170141183460469231731687303715884105729"), 10),
        Err(ParseIntError { kind: IntErrorKind::NegOverflow })
    );
    assert_eq!(parse_u32(&chars("4294967295")), Some(u32::MAX));
    assert_eq!(parse_u32(&chars("4294967296")), None);
    assert_eq!(parse_u32(&chars("")), None);
}

#[test]
fn character_literal_decoding() {
    assert_eq!(char_literal("'a'"), Ok('a'));
    assert_eq!(char_literal("'\u{e9}'"), Ok('\u{e9}'));
    assert_eq!(char_literal("'\\u{65}'"), Ok('A'));
    assert_eq!(char_literal("'\\u{0x41}'"), Ok('A'));
    assert_eq!(char_literal("'\\u{0x263A}'"), Ok('\u{263A}'));
    assert_eq!(char_literal("\\'n"), Ok('\n'));
    assert_eq!(char_literal("\\'0"), Ok('\0'));
    assert_eq!(char_literal("\\'t"), Ok('\t'));
    assert_eq!(char_literal("\\'q"), Ok('q'));
}

#[test]
fn a_quoted_escape_reads_its_second_character() {
    assert_eq!(char_literal("'\\n'"), Ok('\\'));
}

#[test]
fn character_literal_errors() {
    assert_eq!(char_literal("'"), Err(LoweringError::EmptyCharLiteral));
    assert_eq!(char_literal("'\\u{0x110000}'"), Err(LoweringError::InvalidUtf8Char(0x110000)));
    assert_eq!(char_literal("'\\u{0xD800}'"), Err(LoweringError::InvalidUtf8Char(55296)));
    assert_eq!(
        char_literal("'\\u{zz}'"),
        Err(LoweringError::ParseIntError(ParseIntError { kind: IntErrorKind::Empty }))
    );
    assert_eq!(char_literal("'\\u{12q}'"), Err(LoweringError::UnknownNumericSuffix("q".to_string())));
}

#[test]
fn try_char_literal_declines_what_would_panic() {
    assert_eq!(try_char_literal("'b'"), Some(Ok('b')));
    assert_eq!(try_char_literal("'\\u{5i32}'"), None);
    assert_eq!(try_char_literal("'\\u{1.5}'"), None);
}

#[test]
fn string_literal_contents() {
    assert_eq!(string_literal("\"abc\""), "abc");
    assert_eq!(string_literal("\"\""), "");
    assert_eq!(string_literal("#\"a\"b\"#"), "a\"b");
    assert_eq!(string_literal("##\"x\"##"), "x");
    assert_eq!(string_literal("\"h\u{e9}\""), "h\u{e9}");
}

#[test]
fn diagnostic_info_of_errors() {
    let e = LoweringError::ParseIntError(ParseIntError { kind: IntErrorKind::Empty });
    assert_eq!(e.info(), ("Invalid integer literal", "300", "cannot parse integer from empty string".to_string()));
    let e = LoweringError::ParseIntError(ParseIntError { kind: IntErrorKind::PosOverflow });
    assert_eq!(e.info().2, "number too large to fit in target type");
    let e = LoweringError::ParseFloatError(FloatErrorKind::Invalid);
    assert_eq!(e.info(), ("Invalid float literal", "301", "invalid float literal".to_string()));
    let e = LoweringError::UnknownNumericSuffix("q".to_string());
    assert_eq!(e.info(), ("Invalid numeric suffix", "302", "Unknown numeric suffix `q`".to_string()));
    assert_eq!(LoweringError::MutableExclusion.info().1, "303");
    let e = LoweringError::InvalidUtf8Char(1114112);
    assert_eq!(e.info(), ("Invalid character", "304", "Invalid UTF-8 character `1114112`".to_string()));
    let e = LoweringError::UnknownEscapeChar('q');
    assert_eq!(e.info(), ("Invalid escape sequence", "305", "Unknown escape sequence `\\q`".to_string()));
    assert_eq!(LoweringError::UnclosedEscapeChar.info().0, "Unterminated escape sequence");
    assert_eq!(
        LoweringError::EmptyCharLiteral.info(),
        ("Empty character literal", "307", "Character literal must contain exactly one character".to_string())
    );
}

#[test]
fn std_error_texts_match() {
    let empty = "".parse::<i128>().unwrap_err().to_string();
    assert_eq!(LoweringError::ParseIntError(ParseIntError { kind: IntErrorKind::Empty }).info().2, empty);
    let invalid = "x".parse::<i128>().unwrap_err().to_string();
    assert_eq!(LoweringError::ParseIntError(ParseIntError { kind: IntErrorKind::InvalidDigit }).info().2, invalid);
    let neg = "-999999999999999999999999999999999999999999".parse::<i128>().unwrap_err().to_string();
    assert_eq!(LoweringError::ParseIntError(ParseIntError { kind: IntErrorKind::NegOverflow }).info().2, neg);
    let fempty = "".parse::<f64>().unwrap_err().to_string();
    assert_eq!(LoweringError::ParseFloatError(FloatErrorKind::Empty).info().2, fempty);
    let finvalid = "x".parse::<f64>().unwrap_err().to_string();
    assert_eq!(LoweringError::ParseFloatError(FloatErrorKind::Invalid).info().2, finvalid);
}
