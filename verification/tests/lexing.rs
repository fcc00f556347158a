use lib::highlight::{index_tokens, Span, Types};
use lib::lexing::{
    merge_literals, merge_numbers, Complex, LexError, Location, Punct, Token, TokenKind,
};

fn tok(index: usize, len: usize, kind: TokenKind) -> Token {
    Token { index, len, location: Location { line: 0, column: index }, kind }
}

fn p(index: usize, punct: Punct) -> Token {
    tok(index, 1, TokenKind::Token(punct))
}

fn text(index: usize, len: usize) -> Token {
    tok(index, len, TokenKind::Text)
}

fn chars(s: &str) -> Vec<char> {
    s.chars().collect()
}

#[test]
fn numbers_with_a_dot_become_floats() {
    let src = chars("1.5");
    let out = merge_numbers(&src, &[text(0, 1), p(1, Punct::Dot), text(2, 1)]);
    assert_eq!(out, vec![tok(0, 3, TokenKind::Complex(Complex::Float))]);
}

#[test]
fn numbers_alone_become_numeric_tokens() {
    let src = chars("12 x");
    let out = merge_numbers(&src, &[text(0, 2), tok(2, 1, TokenKind::Whitespace), text(3, 1)]);
    assert_eq!(
        out,
        vec![tok(0, 2, TokenKind::Complex(Complex::Numeric)), tok(2, 1, TokenKind::Whitespace), text(3, 1)]
    );
}

#[test]
fn field_access_is_not_a_float() {
    let src = chars("a.b");
    let tokens = [text(0, 1), p(1, Punct::Dot), text(2, 1)];
    assert_eq!(merge_numbers(&src, &tokens), tokens.to_vec());
    let src = chars("1.x");
    let out = merge_numbers(&src, &[text(0, 1), p(1, Punct::Dot), text(2, 1)]);
    assert_eq!(out, vec![tok(0, 1, TokenKind::Complex(Complex::Numeric)), p(1, Punct::Dot), text(2, 1)]);
}

#[test]
fn numeric_is_unicode_numeric() {
    let src = chars("\u{663}");
    let out = merge_numbers(&src, &[text(0, 1)]);
    assert_eq!(out, vec![tok(0, 1, TokenKind::Complex(Complex::Numeric))]);
}

#[test]
fn comments_run_to_the_end_of_the_line() {
    let src = chars("a // c\nb");
    let tokens = [
        text(0, 1),
        tok(1, 1, TokenKind::Whitespace),
        p(2, Punct::Slash),
        p(3, Punct::Slash),
        tok(4, 1, TokenKind::Whitespace),
        text(5, 1),
        tok(6, 1, TokenKind::Eol),
        text(7, 1),
    ];
    let out = merge_literals(&src, &tokens).unwrap();
    assert_eq!(
        out,
        vec![
            text(0, 1),
            tok(1, 1, TokenKind::Whitespace),
            tok(2, 4, TokenKind::Complex(Complex::Comment)),
            tok(6, 1, TokenKind::Eol),
            text(7, 1),
        ]
    );
}

#[test]
fn documentation_comments() {
    let src = chars("///x\n");
    let tokens = [p(0, Punct::Slash), p(1, Punct::Slash), p(2, Punct::Slash), text(3, 1), tok(4, 1, TokenKind::Eol)];
    let out = merge_literals(&src, &tokens).unwrap();
    assert_eq!(out, vec![tok(0, 4, TokenKind::Complex(Complex::Docstr)), tok(4, 1, TokenKind::Eol)]);
    let src = chars("//!x\n");
    let tokens = [p(0, Punct::Slash), p(1, Punct::Slash), p(2, Punct::Bang), text(3, 1), tok(4, 1, TokenKind::Eol)];
    let out = merge_literals(&src, &tokens).unwrap();
    assert_eq!(out, vec![tok(0, 4, TokenKind::Complex(Complex::TlDocstr)), tok(4, 1, TokenKind::Eol)]);
}

#[test]
fn a_single_slash_stays() {
    let src = chars("a/b");
    let tokens = [text(0, 1), p(1, Punct::Slash), text(2, 1)];
    assert_eq!(merge_literals(&src, &tokens).unwrap(), tokens.to_vec());
}

#[test]
fn character_literals() {
    let src = chars("'a'");
    let out = merge_literals(&src, &[p(0, Punct::Quote), text(1, 1), p(2, Punct::Quote)]).unwrap();
    assert_eq!(out, vec![tok(0, 3, TokenKind::Complex(Complex::Char))]);
    let src = chars("'\\n'");
    let tokens = [p(0, Punct::Quote), p(1, Punct::Backslash), text(2, 1), p(3, Punct::Quote)];
    let out = merge_literals(&src, &tokens).unwrap();
    assert_eq!(out, vec![tok(0, 4, TokenKind::Complex(Complex::Char))]);
    let src = chars("'\\''");
    let tokens = [p(0, Punct::Quote), p(1, Punct::Backslash), p(2, Punct::Quote), p(3, Punct::Quote)];
    let out = merge_literals(&src, &tokens).unwrap();
    assert_eq!(out, vec![tok(0, 4, TokenKind::Complex(Complex::Char))]);
}

#[test]
fn unicode_character_literals() {
    let src = chars("'\\u{41}'");
    let tokens = [
        p(0, Punct::Quote),
        p(1, Punct::Backslash),
        text(2, 1),
        p(3, Punct::LBrace),
        tok(4, 2, TokenKind::Complex(Complex::Numeric)),
        p(6, Punct::RBrace),
        p(7, Punct::Quote),
    ];
    let out = merge_literals(&src, &tokens).unwrap();
    assert_eq!(out, vec![tok(0, 8, TokenKind::Complex(Complex::Char))]);
}

#[test]
fn malformed_character_literals() {
    let src = chars("''");
    let e = merge_literals(&src, &[p(0, Punct::Quote), p(1, Punct::Quote)]).unwrap_err();
    assert_eq!(e.err, LexError::EmptyCharLit);
    assert_eq!(e.len, 1);

    let src = chars("'ab'");
    let e = merge_literals(&src, &[p(0, Punct::Quote), text(1, 2), p(3, Punct::Quote)]).unwrap_err();
    assert_eq!(e.err, LexError::CharacterOverflow);
    assert_eq!(e.len, 3);

    let src = chars("'a");
    let e = merge_literals(&src, &[p(0, Punct::Quote), text(1, 1)]).unwrap_err();
    assert_eq!(e.err, LexError::UnclosedCharLit);
    assert_eq!(e.len, 2);

    let src = chars("'");
    let e = merge_literals(&src, &[p(0, Punct::Quote)]).unwrap_err();
    assert_eq!(e.err, LexError::UnclosedCharLit);

    let src = chars("'\\q'");
    let tokens = [p(0, Punct::Quote), p(1, Punct::Backslash), text(2, 1), p(3, Punct::Quote)];
    let e = merge_literals(&src, &tokens).unwrap_err();
    assert_eq!(e.err, LexError::UnknownCharacter);
    assert_eq!(e.location.column, 1);
    assert_eq!(e.len, 2);

    let src = chars("'\\u{x}'");
    let tokens = [
        p(0, Punct::Quote),
        p(1, Punct::Backslash),
        text(2, 1),
        p(3, Punct::LBrace),
        text(4, 1),
        p(5, Punct::RBrace),
        p(6, Punct::Quote),
    ];
    let e = merge_literals(&src, &tokens).unwrap_err();
    assert_eq!(e.err, LexError::ExpectedUnicode);
    assert_eq!(e.location.column, 4);
}

#[test]
fn a_digit_between_quotes_is_rejected_after_the_number_pass() {
    let src = chars("'1'");
    let tokens = merge_numbers(&src, &[p(0, Punct::Quote), text(1, 1), p(2, Punct::Quote)]);
    let e = merge_literals(&src, &tokens).unwrap_err();
    assert_eq!(e.err, LexError::UnknownCharacter);
}

#[test]
fn string_literals() {
    let src = chars("\"ab\"");
    let out = merge_literals(&src, &[p(0, Punct::DoubleQuote), text(1, 2), p(3, Punct::DoubleQuote)]).unwrap();
    assert_eq!(out, vec![tok(0, 4, TokenKind::Complex(Complex::Str))]);

    let src = chars("\"a\\\"b\"");
    let tokens = [
        p(0, Punct::DoubleQuote),
        text(1, 1),
        p(2, Punct::Backslash),
        p(3, Punct::DoubleQuote),
        text(4, 1),
        p(5, Punct::DoubleQuote),
    ];
    let out = merge_literals(&src, &tokens).unwrap();
    assert_eq!(out, vec![tok(0, 6, TokenKind::Complex(Complex::Str))]);

    let src = chars("\"ab");
    let e = merge_literals(&src, &[p(0, Punct::DoubleQuote), text(1, 2)]).unwrap_err();
    assert_eq!(e.err, LexError::UnclosedStringLit);
    assert_eq!(e.len, 1);
}

#[test]
fn raw_string_literals() {
    let src = chars("#\"a\"#");
    let tokens = [p(0, Punct::Hash), p(1, Punct::DoubleQuote), text(2, 1), p(3, Punct::DoubleQuote), p(4, Punct::Hash)];
    let out = merge_literals(&src, &tokens).unwrap();
    assert_eq!(out, vec![tok(0, 5, TokenKind::Complex(Complex::Str))]);

    let src = chars("#\"a\"b\"#");
    let tokens = [
        p(0, Punct::Hash),
        p(1, Punct::DoubleQuote),
        text(2, 1),
        p(3, Punct::DoubleQuote),
        text(4, 1),
        p(5, Punct::DoubleQuote),
        p(6, Punct::Hash),
    ];
    let out = merge_literals(&src, &tokens).unwrap();
    assert_eq!(out, vec![tok(0, 7, TokenKind::Complex(Complex::Str))]);

    let src = chars("#a");
    let tokens = [p(0, Punct::Hash), text(1, 1)];
    assert_eq!(merge_literals(&src, &tokens).unwrap(), tokens.to_vec());

    let src = chars("#\"a\"");
    let tokens = [p(0, Punct::Hash), p(1, Punct::DoubleQuote), text(2, 1), p(3, Punct::DoubleQuote)];
    let e = merge_literals(&src, &tokens).unwrap_err();
    assert_eq!(e.err, LexError::UnclosedStringLit);
}

#[test]
fn no_quote_is_left_after_a_successful_pass() {
    let src = chars("x = 'a' + \"b\"");
    let tokens = [
        text(0, 1),
        p(2, Punct::Assign),
        p(4, Punct::Quote),
        text(5, 1),
        p(6, Punct::Quote),
        p(8, Punct::Plus),
        p(10, Punct::DoubleQuote),
        text(11, 1),
        p(12, Punct::DoubleQuote),
    ];
    let out = merge_literals(&src, &tokens).unwrap();
    assert_eq!(out.len(), 5);
    for t in &out {
        assert!(t.kind != TokenKind::Token(Punct::Quote));
        assert!(t.kind != TokenKind::Token(Punct::DoubleQuote));
    }
}

#[test]
fn error_codes() {
    assert_eq!(LexError::UnclosedStringLit.code(), 200);
    assert_eq!(LexError::EmptyCharLit.code(), 201);
    assert_eq!(LexError::CharacterOverflow.code(), 204);
    assert_eq!(LexError::UnclosedCharLit.code(), 205);
    assert_eq!(LexError::UnknownCharacter.code(), 206);
    assert_eq!(LexError::ExpectedUnicode.code(), 207);
}

#[test]
fn highlights_of_compound_tokens() {
    let at = |line: usize, column: usize, len: usize, kind: TokenKind| Token {
        index: 0,
        len,
        location: Location { line, column },
        kind,
    };
    let tokens = vec![
        at(1, 1, 4, TokenKind::Complex(Complex::Comment)),
        at(2, 1, 1, TokenKind::Text),
        at(2, 5, 2, TokenKind::Complex(Complex::Numeric)),
        at(2, 9, 3, TokenKind::Complex(Complex::Str)),
        at(3, 2, 3, TokenKind::Complex(Complex::Char)),
        at(4, 1, 3, TokenKind::Complex(Complex::Float)),
        at(5, 1, 6, TokenKind::Complex(Complex::TlDocstr)),
    ];
    let mut spans = vec![Span { len: 1, line: 0, column: 0, ty: Types::Keyword.number() }];
    index_tokens(&tokens, &mut spans);
    assert_eq!(
        spans,
        vec![
            Span { len: 1, line: 0, column: 0, ty: 2 },
            Span { len: 4, line: 0, column: 0, ty: 0 },
            Span { len: 2, line: 1, column: 4, ty: 4 },
            Span { len: 3, line: 1, column: 8, ty: 3 },
            Span { len: 3, line: 2, column: 1, ty: 3 },
            Span { len: 3, line: 3, column: 0, ty: 4 },
            Span { len: 6, line: 4, column: 0, ty: 0 },
        ]
    );
    assert_eq!(Types::Label.number(), 8);
    assert_eq!(tokens[2].span(Types::Operator), Span { len: 2, line: 1, column: 4, ty: 5 });
}
