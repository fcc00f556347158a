//! The token passes that run between lexing and parsing: numbers are
//! joined into numeric and float literals, then comments, documentation
//! comments, character literals and (raw) string literals are gathered into
//! single tokens.
//!
//! A token is a range of the source text, given in characters, with a
//! kind. The passes read the text of a token from the source.

use crate::operator::Operator;
use crate::span::{Span, SpanIndex};
use vstd::prelude::*;

verus! {

/// The punctuation the lexer recognises.
#[derive(Debug, Clone, Copy, PartialEq, Eq, Structural)]
pub enum Punct {
    Plus,
    Minus,
    Star,
    Slash,
    Percent,
    Backslash,
    Semicolon,
    DoubleQuote,
    Quote,
    Colon,
    DoubleColon,
    LParen,
    LBrace,
    LBracket,
    Less,
    Greater,
    RBracket,
    RBrace,
    RParen,
    Pipe,
    Amp,
    Bang,
    Question,
    Assign,
    Dot,
    Comma,
    Hash,
    EqEq,
    NotEq,
    PlusEq,
    MinusEq,
    StarEq,
    SlashEq,
    PercentEq,
    AndAnd,
    OrOr,
    GreaterEq,
    LessEq,
    FatArrow,
}

/// The compound tokens that the passes produce.
#[derive(Debug, Clone, Copy, PartialEq, Eq, Structural)]
pub enum Complex {
    Numeric,
    Float,
    Docstr,
    TlDocstr,
    Comment,
    Char,
    Str,
}

#[derive(Debug, Clone, Copy, PartialEq, Eq, Structural)]
pub enum TokenKind {
    Token(Punct),
    Text,
    Complex(Complex),
    Eol,
    Whitespace,
}

/// Line and column of a token's first character.
#[derive(Debug, Clone, Copy, PartialEq, Eq, Structural)]
pub struct Location {
    pub line: usize,
    pub column: usize,
}

/// `len` characters of the source starting at `index`.
#[derive(Debug, Clone, Copy, PartialEq, Eq, Structural)]
pub struct Token {
    pub index: usize,
    pub len: usize,
    pub location: Location,
    pub kind: TokenKind,
}

/// What a pass can reject.
#[derive(Debug, Clone, Copy, PartialEq, Eq, Structural)]
pub enum LexError {
    UnclosedStringLit,
    EmptyCharLit,
    CharacterOverflow,
    UnclosedCharLit,
    UnknownCharacter,
    ExpectedUnicode,
}

/// A rejected token stream: the error, and the range it points at.
#[derive(Debug, Clone, Copy, PartialEq, Eq, Structural)]
pub struct PreprocessorError {
    pub err: LexError,
    pub location: Location,
    pub len: usize,
}

impl LexError {
    /// The error's number in the diagnostics.
    pub fn code(&self) -> (c: u32)
        ensures
            c == match *self {
                LexError::UnclosedStringLit => 200u32,
                LexError::EmptyCharLit => 201u32,
                LexError::CharacterOverflow => 204u32,
                LexError::UnclosedCharLit => 205u32,
                LexError::UnknownCharacter => 206u32,
                LexError::ExpectedUnicode => 207u32,
            },
    {
        match self {
            LexError::UnclosedStringLit => 200,
            LexError::EmptyCharLit => 201,
            LexError::CharacterOverflow => 204,
            LexError::UnclosedCharLit => 205,
            LexError::UnknownCharacter => 206,
            LexError::ExpectedUnicode => 207,
        }
    }
}

/// What Rust's `char::is_numeric` says of `c`: that its Unicode general
/// category is a number category.
pub uninterp spec fn numeric_char(c: char) -> bool;

/// Whether `c` is numeric: of ASCII characters exactly the digits are,
/// and of the others those `char::is_numeric` says are (see
/// `numeric_char`).
pub open spec fn numeric(c: char) -> bool {
    if (c as u32) < 128 {
        '0' <= c <= '9'
    } else {
        numeric_char(c)
    }
}

/// `char::is_numeric`. Of ASCII characters exactly the digits are numeric;
/// for the others the result is named, not stated.
#[verifier::external_body]
fn is_numeric_char(c: char) -> (r: bool)
    ensures
        r == numeric_char(c),
        r == numeric(c),
{
    c.is_numeric()
}

/// The characters of the source that a token covers.
pub open spec fn text_of(src: Seq<char>, t: Token) -> Seq<char> {
    src.subrange(t.index as int, t.index + t.len)
}

/// Every token lies inside the source, and the source length leaves room
/// for sums of token lengths.
pub open spec fn tokens_in(src: Seq<char>, ts: Seq<Token>) -> bool {
    &&& src.len() <= isize::MAX
    &&& ts.len() <= isize::MAX
    &&& forall|j: int| 0 <= j < ts.len() ==> #[trigger] ts[j].index + ts[j].len <= src.len()
}

/// Text tokens are not empty.
pub open spec fn texts_nonempty(ts: Seq<Token>) -> bool {
    forall|j: int| 0 <= j < ts.len() && #[trigger] ts[j].kind is Text ==> ts[j].len > 0
}

/// A text token whose first character is numeric.
pub open spec fn numeric_token(src: Seq<char>, t: Token) -> bool {
    t.kind is Text && numeric(src[t.index as int])
}

/// The kind of the `j`-th token, if there is one.
pub open spec fn kind_at(ts: Seq<Token>, j: int) -> Option<TokenKind> {
    if 0 <= j < ts.len() {
        Some(ts[j].kind)
    } else {
        None
    }
}

/// The `j`-th token exists and is the punctuation `p`.
pub open spec fn is_punct(ts: Seq<Token>, j: int, p: Punct) -> bool {
    kind_at(ts, j) == Some(TokenKind::Token(p))
}

/// The first pass from the `i`-th token on: a numeric text token followed
/// by `.` and another numeric text token becomes one float token; any other
/// numeric text token becomes a numeric token; the rest stay.
pub open spec fn numbers_from(src: Seq<char>, ts: Seq<Token>, i: nat) -> Seq<Token>
    decreases ts.len() - i,
{
    let k = i as int;
    if i >= ts.len() {
        seq![]
    } else if numeric_token(src, ts[k]) {
        if k + 2 < ts.len() && is_punct(ts, k + 1, Punct::Dot) && numeric_token(src, ts[k + 2]) {
            seq![
                Token {
                    index: ts[k].index,
                    len: (ts[k].len + 1 + ts[k + 2].len) as usize,
                    location: ts[k].location,
                    kind: TokenKind::Complex(Complex::Float),
                },
            ] + numbers_from(src, ts, i + 3)
        } else {
            seq![
                Token {
                    index: ts[k].index,
                    len: ts[k].len,
                    location: ts[k].location,
                    kind: TokenKind::Complex(Complex::Numeric),
                },
            ] + numbers_from(src, ts, i + 1)
        }
    } else {
        seq![ts[k]] + numbers_from(src, ts, i + 1)
    }
}

fn token_is_numeric(src: &[char], t: &Token) -> (r: bool)
    requires
        t.index + t.len <= src@.len(),
        t.kind is Text ==> t.len > 0,
    ensures
        r == numeric_token(src@, *t),
{
    match t.kind {
        TokenKind::Text => is_numeric_char(src[t.index]),
        _ => false,
    }
}

/// Joins numbers: every numeric text token becomes a numeric token, and
/// `N . M` with numeric `N` and `M` becomes one float token spanning the
/// three.
pub fn merge_numbers(src: &[char], tokens: &[Token]) -> (r: Vec<Token>)
    requires
        tokens_in(src@, tokens@),
        texts_nonempty(tokens@),
    ensures
        r@ == numbers_from(src@, tokens@, 0),
{
    let mut result: Vec<Token> = Vec::new();
    let mut i: usize = 0;
    while i < tokens.len()
        invariant
            i <= tokens@.len(),
            tokens_in(src@, tokens@),
            texts_nonempty(tokens@),
            result@ + numbers_from(src@, tokens@, i as nat) == numbers_from(src@, tokens@, 0),
        decreases tokens@.len() - i,
    {
        let tok = tokens[i];
        assert(tokens@[i as int] == tok);
        if token_is_numeric(src, &tok) {
            if tokens.len() - i > 2 && tokens[i + 1].kind == TokenKind::Token(Punct::Dot)
                && token_is_numeric(src, &tokens[i + 2]) {
                let t2 = tokens[i + 2];
                result.push(
                    Token {
                        index: tok.index,
                        len: tok.len + 1 + t2.len,
                        location: tok.location,
                        kind: TokenKind::Complex(Complex::Float),
                    },
                );
                proof {
                    assert(numbers_from(src@, tokens@, i as nat) == seq![result@.last()]
                        + numbers_from(src@, tokens@, (i + 3) as nat));
                }
                assert(result@ + numbers_from(src@, tokens@, (i + 3) as nat) =~= result@.drop_last()
                    + (seq![result@.last()] + numbers_from(src@, tokens@, (i + 3) as nat)));
                i = i + 3;
            } else {
                result.push(
                    Token {
                        index: tok.index,
                        len: tok.len,
                        location: tok.location,
                        kind: TokenKind::Complex(Complex::Numeric),
                    },
                );
                assert(result@ + numbers_from(src@, tokens@, (i + 1) as nat) =~= result@.drop_last()
                    + (seq![result@.last()] + numbers_from(src@, tokens@, (i + 1) as nat)));
                i = i + 1;
            }
        } else {
            result.push(tok);
            assert(result@ + numbers_from(src@, tokens@, (i + 1) as nat) =~= result@.drop_last()
                + (seq![result@.last()] + numbers_from(src@, tokens@, (i + 1) as nat)));
            i = i + 1;
        }
    }
    assert(result@ =~= numbers_from(src@, tokens@, 0));
    result
}


/// Token start positions never decrease along the stream.
pub open spec fn sorted(ts: Seq<Token>) -> bool {
    forall|a: int, b: int| 0 <= a <= b < ts.len() ==> #[trigger] ts[a].index <= #[trigger] ts[b].index
}

/// The characters that may follow a backslash in a character literal.
pub open spec fn escape_chars() -> Seq<char> {
    seq!['"', '\\', '\'', '0', 'a', 'b', 'f', 'n', 'r', 't', 'v']
}

/// `t` occurs in `s` as a contiguous piece.
pub open spec fn occurs_in(t: Seq<char>, s: Seq<char>) -> bool {
    exists|k: int| 0 <= k && k + t.len() <= s.len() && #[trigger] s.subrange(k, k + t.len()) == t
}

/// The position of the first end of line at or after `j`, or the end of
/// the stream.
pub open spec fn line_end(ts: Seq<Token>, j: int) -> int
    decreases ts.len() - j,
{
    if j < 0 || j >= ts.len() || ts[j].kind is Eol {
        j
    } else {
        line_end(ts, j + 1)
    }
}

/// The position of the `"` that closes a string whose body starts at `p`;
/// a backslash makes the next token part of the body.
pub open spec fn string_close(ts: Seq<Token>, p: int) -> Option<int>
    decreases ts.len() + 1 - p,
{
    if p < 0 || p >= ts.len() {
        None
    } else if ts[p].kind == TokenKind::Token(Punct::DoubleQuote) {
        Some(p)
    } else if ts[p].kind == TokenKind::Token(Punct::Backslash) {
        string_close(ts, p + 2)
    } else {
        string_close(ts, p + 1)
    }
}

/// How many `#` tokens follow one another from position `j`.
pub open spec fn hashes(ts: Seq<Token>, j: int) -> nat
    decreases ts.len() - j,
{
    if 0 <= j < ts.len() && ts[j].kind == TokenKind::Token(Punct::Hash) {
        1 + hashes(ts, j + 1)
    } else {
        0
    }
}

/// The position of the `"` that closes a raw string opened with `count`
/// hashes, searching from `p`: a `"` followed by at least `count` hashes.
pub open spec fn raw_close(ts: Seq<Token>, p: int, count: nat) -> Option<int>
    decreases ts.len() + 1 - p,
{
    if p < 0 || p >= ts.len() {
        None
    } else if ts[p].kind == TokenKind::Token(Punct::DoubleQuote) {
        if hashes(ts, p + 1) < count {
            raw_close(ts, p + 1, count)
        } else {
            Some(p)
        }
    } else if ts[p].kind == TokenKind::Token(Punct::Backslash) {
        raw_close(ts, p + 2, count)
    } else {
        raw_close(ts, p + 1, count)
    }
}

pub open spec fn error_at(err: LexError, location: Location, len: int) -> PreprocessorError {
    PreprocessorError { err, location, len: len as usize }
}

/// A token of kind `kind` that starts where the `i`-th token starts.
pub open spec fn joined(ts: Seq<Token>, i: int, len: int, kind: Complex) -> Token {
    Token { index: ts[i].index, len: len as usize, location: ts[i].location, kind: TokenKind::Complex(kind) }
}

/// A character literal opened by the quote at `i`: `'x'` with one
/// character, `'\e'` with an escape character, or `'\u{N}'` with a number;
/// the token and the position after the closing quote, or the error.
pub open spec fn char_step(src: Seq<char>, ts: Seq<Token>, i: int) -> Result<(Token, int), PreprocessorError> {
    let t = ts[i];
    match kind_at(ts, i + 1) {
        Some(TokenKind::Token(Punct::Backslash)) => if i + 2 < ts.len() {
            let e = ts[i + 2];
            let lit: Result<(Token, int), PreprocessorError> = if occurs_in(text_of(src, e), escape_chars()) {
                Ok((joined(ts, i, e.len + 3, Complex::Char), i + 3))
            } else if text_of(src, e) == seq!['u'] {
                if is_punct(ts, i + 3, Punct::LBrace) && kind_at(ts, i + 4) == Some(
                    TokenKind::Complex(Complex::Numeric),
                ) && is_punct(ts, i + 5, Punct::RBrace) {
                    Ok((joined(ts, i, ts[i + 4].len + 6, Complex::Char), i + 6))
                } else if is_punct(ts, i + 3, Punct::LBrace) && i + 4 < ts.len() {
                    Err(error_at(LexError::ExpectedUnicode, ts[i + 4].location, ts[i + 4].len as int))
                } else {
                    Err(error_at(LexError::ExpectedUnicode, e.location, e.len as int))
                }
            } else {
                Err(error_at(LexError::UnknownCharacter, ts[i + 1].location, e.len + 1))
            };
            match lit {
                Ok((tok, j)) => if is_punct(ts, j, Punct::Quote) {
                    Ok((tok, j + 1))
                } else {
                    Err(error_at(LexError::UnclosedCharLit, t.location, e.len + 2))
                },
                Err(err) => Err(err),
            }
        } else {
            Err(error_at(LexError::UnclosedCharLit, t.location, t.len + ts[i + 1].len))
        },
        Some(TokenKind::Text) => if ts[i + 1].len > 1 {
            Err(error_at(LexError::CharacterOverflow, t.location, t.len + ts[i + 1].len))
        } else if is_punct(ts, i + 2, Punct::Quote) {
            Ok((joined(ts, i, ts[i + 1].len + 2, Complex::Char), i + 3))
        } else {
            Err(error_at(LexError::UnclosedCharLit, t.location, t.len + ts[i + 1].len))
        },
        Some(TokenKind::Token(Punct::Quote)) => Err(error_at(LexError::EmptyCharLit, t.location, 1)),
        Some(_) => Err(error_at(LexError::UnknownCharacter, ts[i + 1].location, ts[i + 1].len as int)),
        None => Err(error_at(LexError::UnclosedCharLit, t.location, 1)),
    }
}

/// A `#` at `i`: with `#...#"` it opens a raw string that ends at a `"`
/// followed by as many hashes; otherwise it stays.
pub open spec fn hash_step(ts: Seq<Token>, i: int) -> Result<(Token, int), PreprocessorError> {
    let count = hashes(ts, i);
    if is_punct(ts, i + count, Punct::DoubleQuote) {
        match raw_close(ts, i + count + 1, count) {
            Some(p) => Ok((joined(ts, i, ts[p + count].index - ts[i].index + 1, Complex::Str), p + count + 1)),
            None => Err(error_at(LexError::UnclosedStringLit, ts[i].location, ts[i].len as int)),
        }
    } else {
        Ok((ts[i], i + 1))
    }
}

/// One step of the second pass at the token `i`: the token it emits and
/// where it goes on, or the error. `None` where the step would read past
/// the end of the stream (a comment without an end of line after it).
pub open spec fn step(src: Seq<char>, ts: Seq<Token>, i: int) -> Option<Result<(Token, int), PreprocessorError>> {
    let t = ts[i];
    match t.kind {
        TokenKind::Token(Punct::Slash) => if is_punct(ts, i + 1, Punct::Slash) {
            let kind = if is_punct(ts, i + 2, Punct::Slash) {
                Complex::Docstr
            } else if is_punct(ts, i + 2, Punct::Bang) {
                Complex::TlDocstr
            } else {
                Complex::Comment
            };
            let e = line_end(ts, i);
            if e < ts.len() {
                Some(Ok((joined(ts, i, ts[e].index - t.index, kind), e)))
            } else {
                None
            }
        } else {
            Some(Ok((t, i + 1)))
        },
        TokenKind::Token(Punct::Quote) => Some(char_step(src, ts, i)),
        TokenKind::Token(Punct::DoubleQuote) => Some(
            match string_close(ts, i + 1) {
                Some(p) => Ok((joined(ts, i, ts[p].index - t.index + 1, Complex::Str), p + 1)),
                None => Err(error_at(LexError::UnclosedStringLit, t.location, t.len as int)),
            },
        ),
        TokenKind::Token(Punct::Hash) => Some(hash_step(ts, i)),
        _ => Some(Ok((t, i + 1))),
    }
}

/// `pre` in front of the tokens of a successful pass.
pub open spec fn prepend(pre: Seq<Token>, r: Option<Result<Seq<Token>, PreprocessorError>>) -> Option<
    Result<Seq<Token>, PreprocessorError>,
> {
    match r {
        Some(Ok(rest)) => Some(Ok(pre + rest)),
        _ => r,
    }
}

/// The second pass from the `i`-th token on: the steps' tokens in order,
/// or the first error; `None` where a step would read past the end.
pub open spec fn literals_from(src: Seq<char>, ts: Seq<Token>, i: int) -> Option<
    Result<Seq<Token>, PreprocessorError>,
>
    decreases ts.len() - i,
{
    if i < 0 || i >= ts.len() {
        Some(Ok(seq![]))
    } else {
        match step(src, ts, i) {
            None => None,
            Some(Err(e)) => Some(Err(e)),
            Some(Ok((tok, j))) => if i < j <= ts.len() {
                prepend(seq![tok], literals_from(src, ts, j))
            } else {
                None
            },
        }
    }
}


proof fn lemma_line_end_bounds(ts: Seq<Token>, j: int)
    requires
        0 <= j <= ts.len(),
    ensures
        j <= line_end(ts, j) <= ts.len(),
        line_end(ts, j) < ts.len() ==> ts[line_end(ts, j)].kind is Eol,
    decreases ts.len() - j,
{
    if j < ts.len() && !(ts[j].kind is Eol) {
        lemma_line_end_bounds(ts, j + 1);
    }
}

proof fn lemma_hashes_bound(ts: Seq<Token>, j: int)
    requires
        0 <= j <= ts.len(),
    ensures
        hashes(ts, j) <= ts.len() - j,
    decreases ts.len() - j,
{
    if j < ts.len() && ts[j].kind == TokenKind::Token(Punct::Hash) {
        lemma_hashes_bound(ts, j + 1);
    }
}

proof fn lemma_string_close_bounds(ts: Seq<Token>, p: int)
    requires
        0 <= p,
    ensures
        string_close(ts, p) matches Some(q) ==> p <= q < ts.len(),
    decreases ts.len() + 1 - p,
{
    if p < ts.len() && ts[p].kind != TokenKind::Token(Punct::DoubleQuote) {
        if ts[p].kind == TokenKind::Token(Punct::Backslash) {
            lemma_string_close_bounds(ts, p + 2);
        } else {
            lemma_string_close_bounds(ts, p + 1);
        }
    }
}

proof fn lemma_raw_close_bounds(ts: Seq<Token>, p: int, count: nat)
    requires
        0 <= p,
    ensures
        raw_close(ts, p, count) matches Some(q) ==> p <= q < ts.len() && hashes(ts, q + 1) >= count,
    decreases ts.len() + 1 - p,
{
    if p < ts.len() {
        if ts[p].kind == TokenKind::Token(Punct::DoubleQuote) {
            if hashes(ts, p + 1) < count {
                lemma_raw_close_bounds(ts, p + 1, count);
            }
        } else if ts[p].kind == TokenKind::Token(Punct::Backslash) {
            lemma_raw_close_bounds(ts, p + 2, count);
        } else {
            lemma_raw_close_bounds(ts, p + 1, count);
        }
    }
}

fn line_end_exec(tokens: &[Token], j: usize) -> (r: usize)
    requires
        j <= tokens@.len(),
    ensures
        r as int == line_end(tokens@, j as int),
{
    let mut k = j;
    while k < tokens.len() && tokens[k].kind != TokenKind::Eol
        invariant
            j <= k <= tokens@.len(),
            line_end(tokens@, j as int) == line_end(tokens@, k as int),
        decreases tokens@.len() - k,
    {
        k = k + 1;
    }
    k
}

fn string_close_exec(tokens: &[Token], p: usize) -> (r: Option<usize>)
    requires
        p <= tokens@.len(),
    ensures
        match r {
            Some(q) => string_close(tokens@, p as int) == Some(q as int),
            None => string_close(tokens@, p as int) is None,
        },
{
    let mut q = p;
    while q < tokens.len()
        invariant
            q <= tokens@.len(),
            string_close(tokens@, p as int) == string_close(tokens@, q as int),
        decreases tokens@.len() - q,
    {
        if tokens[q].kind == TokenKind::Token(Punct::DoubleQuote) {
            return Some(q);
        } else if tokens[q].kind == TokenKind::Token(Punct::Backslash) {
            if tokens.len() - q >= 2 {
                q = q + 2;
            } else {
                assert(string_close(tokens@, q + 2) is None);
                q = tokens.len();
            }
        } else {
            q = q + 1;
        }
    }
    None
}

fn hashes_exec(tokens: &[Token], j: usize) -> (r: usize)
    requires
        j <= tokens@.len(),
    ensures
        r as nat == hashes(tokens@, j as int),
        j + r <= tokens@.len(),
{
    let mut c: usize = 0;
    while c < tokens.len() - j && tokens[j + c].kind == TokenKind::Token(Punct::Hash)
        invariant
            j + c <= tokens@.len(),
            hashes(tokens@, j as int) == c + hashes(tokens@, j + c),
        decreases tokens@.len() - j - c,
    {
        c = c + 1;
    }
    c
}

fn raw_close_exec(tokens: &[Token], p: usize, count: usize) -> (r: Option<usize>)
    requires
        p <= tokens@.len(),
    ensures
        match r {
            Some(q) => raw_close(tokens@, p as int, count as nat) == Some(q as int),
            None => raw_close(tokens@, p as int, count as nat) is None,
        },
{
    let mut q = p;
    while q < tokens.len()
        invariant
            q <= tokens@.len(),
            raw_close(tokens@, p as int, count as nat) == raw_close(tokens@, q as int, count as nat),
        decreases tokens@.len() - q,
    {
        if tokens[q].kind == TokenKind::Token(Punct::DoubleQuote) {
            if hashes_exec(tokens, q + 1) < count {
                q = q + 1;
            } else {
                return Some(q);
            }
        } else if tokens[q].kind == TokenKind::Token(Punct::Backslash) {
            if tokens.len() - q >= 2 {
                q = q + 2;
            } else {
                assert(raw_close(tokens@, q + 2, count as nat) is None);
                q = tokens.len();
            }
        } else {
            q = q + 1;
        }
    }
    None
}

/// Whether `len` characters of `src` from `start` equal `len` characters of
/// `pat` from `k`.
fn same_at(src: &[char], start: usize, len: usize, pat: &Vec<char>, k: usize) -> (r: bool)
    requires
        start + len <= src@.len(),
        k + len <= pat@.len(),
    ensures
        r == (src@.subrange(start as int, start + len) == pat@.subrange(k as int, k + len)),
{
    let ghost a = src@.subrange(start as int, start + len);
    let ghost b = pat@.subrange(k as int, k + len);
    let mut j: usize = 0;
    while j < len
        invariant
            j <= len,
            start + len <= src@.len(),
            k + len <= pat@.len(),
            start + len <= src.len(),
            k + len <= pat.len(),
            a == src@.subrange(start as int, start + len),
            b == pat@.subrange(k as int, k + len),
            forall|m: int| 0 <= m < j ==> #[trigger] a[m] == b[m],
        decreases len - j,
    {
        if src[start + j] != pat[k + j] {
            assert(a[j as int] != b[j as int]);
            return false;
        }
        j = j + 1;
    }
    assert(a =~= b);
    true
}

/// Whether the text from `start` of length `len` occurs among the escape
/// characters.
fn occurs_in_escapes(src: &[char], start: usize, len: usize) -> (r: bool)
    requires
        start + len <= src@.len(),
    ensures
        r == occurs_in(src@.subrange(start as int, start + len), escape_chars()),
{
    let esc: Vec<char> = vec!['"', '\\', '\'', '0', 'a', 'b', 'f', 'n', 'r', 't', 'v'];
    assert(esc@ =~= escape_chars());
    let ghost t = src@.subrange(start as int, start + len);
    if len > 11 {
        return false;
    }
    let mut k: usize = 0;
    while k + len <= 11
        invariant
            len <= 11,
            k + len <= 12,
            esc@ == escape_chars(),
            t == src@.subrange(start as int, start + len),
            start + len <= src@.len(),
            forall|k2: int| 0 <= k2 < k ==> #[trigger] esc@.subrange(k2, k2 + t.len()) != t,
        decreases 12 - k,
    {
        if same_at(src, start, len, &esc, k) {
            assert(esc@.subrange(k as int, k + t.len()) == t);
            return true;
        }
        k = k + 1;
    }
    false
}

fn error(err: LexError, location: Location, len: usize) -> (e: PreprocessorError)
    ensures
        e == error_at(err, location, len as int),
{
    PreprocessorError { err, location, len }
}

fn char_token(t: &Token, len: usize) -> (r: Token)
    ensures
        r == (Token { index: t.index, len, location: t.location, kind: TokenKind::Complex(Complex::Char) }),
{
    Token { index: t.index, len, location: t.location, kind: TokenKind::Complex(Complex::Char) }
}

/// The step at a quote: a character literal or an error.
fn char_step_exec(src: &[char], tokens: &[Token], i: usize) -> (r: Result<(Token, usize), PreprocessorError>)
    requires
        i < tokens@.len(),
        tokens_in(src@, tokens@),
    ensures
        match r {
            Ok((t, j)) => char_step(src@, tokens@, i as int) == Ok::<(Token, int), PreprocessorError>((t, j as int)),
            Err(e) => char_step(src@, tokens@, i as int) == Err::<(Token, int), PreprocessorError>(e),
        },
{
    let ghost ts = tokens@;
    let n = tokens.len();
    let t = tokens[i];
    assert(ts[i as int].index + ts[i as int].len <= src@.len());
    if n - i < 2 {
        return Err(error(LexError::UnclosedCharLit, t.location, 1));
    }
    let next = tokens[i + 1];
    assert(ts[i + 1].index + ts[i + 1].len <= src@.len());
    match next.kind {
        TokenKind::Token(Punct::Backslash) => {
            if n - i < 3 {
                return Err(error(LexError::UnclosedCharLit, t.location, t.len + next.len));
            }
            let e = tokens[i + 2];
            assert(ts[i + 2].index + ts[i + 2].len <= src@.len());
            let lit: Result<(Token, usize), PreprocessorError> = if occurs_in_escapes(src, e.index, e.len) {
                Ok((char_token(&t, e.len + 3), i + 3))
            } else if e.len == 1 && src[e.index] == 'u' {
                assert(text_of(src@, e) =~= seq!['u']);
                if n - i > 5 && tokens[i + 3].kind == TokenKind::Token(Punct::LBrace)
                    && tokens[i + 4].kind == TokenKind::Complex(Complex::Numeric)
                    && tokens[i + 5].kind == TokenKind::Token(Punct::RBrace) {
                    assert(ts[i + 4].index + ts[i + 4].len <= src@.len());
                    Ok((char_token(&t, tokens[i + 4].len + 6), i + 6))
                } else if n - i > 4 && tokens[i + 3].kind == TokenKind::Token(Punct::LBrace) {
                    Err(error(LexError::ExpectedUnicode, tokens[i + 4].location, tokens[i + 4].len))
                } else {
                    Err(error(LexError::ExpectedUnicode, e.location, e.len))
                }
            } else {
                assert(text_of(src@, e) != seq!['u']) by {
                    if e.len == 1 {
                        assert(text_of(src@, e)[0] == src@[e.index as int]);
                    }
                }
                Err(error(LexError::UnknownCharacter, next.location, e.len + 1))
            };
            match lit {
                Ok((tok, j)) => {
                    if j < n && tokens[j].kind == TokenKind::Token(Punct::Quote) {
                        Ok((tok, j + 1))
                    } else {
                        Err(error(LexError::UnclosedCharLit, t.location, e.len + 2))
                    }
                },
                Err(err) => Err(err),
            }
        },
        TokenKind::Text => {
            if next.len > 1 {
                Err(error(LexError::CharacterOverflow, t.location, t.len + next.len))
            } else if n - i > 2 && tokens[i + 2].kind == TokenKind::Token(Punct::Quote) {
                Ok((char_token(&t, next.len + 2), i + 3))
            } else {
                Err(error(LexError::UnclosedCharLit, t.location, t.len + next.len))
            }
        },
        TokenKind::Token(Punct::Quote) => Err(error(LexError::EmptyCharLit, t.location, 1)),
        _ => Err(error(LexError::UnknownCharacter, next.location, next.len)),
    }
}


/// One step of the second pass at the token `i`.
fn step_exec(src: &[char], tokens: &[Token], i: usize) -> (r: Result<(Token, usize), PreprocessorError>)
    requires
        i < tokens@.len(),
        tokens_in(src@, tokens@),
        sorted(tokens@),
        step(src@, tokens@, i as int) is Some,
    ensures
        match r {
            Ok((t, j)) => step(src@, tokens@, i as int) == Some(
                Ok::<(Token, int), PreprocessorError>((t, j as int)),
            ),
            Err(e) => step(src@, tokens@, i as int) == Some(Err::<(Token, int), PreprocessorError>(e)),
        },
{
    let ghost ts = tokens@;
    let n = tokens.len();
    let t = tokens[i];
    assert(ts[i as int].index + ts[i as int].len <= src@.len());
    match t.kind {
        TokenKind::Token(Punct::Slash) => {
            if n - i > 1 && tokens[i + 1].kind == TokenKind::Token(Punct::Slash) {
                let kind = if n - i > 2 && tokens[i + 2].kind == TokenKind::Token(Punct::Slash) {
                    Complex::Docstr
                } else if n - i > 2 && tokens[i + 2].kind == TokenKind::Token(Punct::Bang) {
                    Complex::TlDocstr
                } else {
                    Complex::Comment
                };
                let e = line_end_exec(tokens, i);
                proof {
                    lemma_line_end_bounds(ts, i as int);
                }
                let end = tokens[e];
                assert(ts[i as int].index <= ts[e as int].index);
                assert(ts[e as int].index + ts[e as int].len <= src@.len());
                Ok((Token { index: t.index, len: end.index - t.index, location: t.location, kind: TokenKind::Complex(kind) }, e))
            } else {
                Ok((t, i + 1))
            }
        },
        TokenKind::Token(Punct::Quote) => char_step_exec(src, tokens, i),
        TokenKind::Token(Punct::DoubleQuote) => {
            match string_close_exec(tokens, i + 1) {
                Some(p) => {
                    proof {
                        lemma_string_close_bounds(ts, i + 1);
                    }
                    let close = tokens[p];
                    assert(ts[i as int].index <= ts[p as int].index);
                    assert(ts[p as int].index + ts[p as int].len <= src@.len());
                    Ok((
                        Token { index: t.index, len: close.index - t.index + 1, location: t.location, kind: TokenKind::Complex(Complex::Str) },
                        p + 1,
                    ))
                },
                None => Err(error(LexError::UnclosedStringLit, t.location, t.len)),
            }
        },
        TokenKind::Token(Punct::Hash) => {
            let count = hashes_exec(tokens, i);
            if i + count < n && tokens[i + count].kind == TokenKind::Token(Punct::DoubleQuote) {
                match raw_close_exec(tokens, i + count + 1, count) {
                    Some(p) => {
                        proof {
                            lemma_raw_close_bounds(ts, i + count + 1, count as nat);
                            lemma_hashes_bound(ts, p + 1);
                        }
                        let close = tokens[p + count];
                        assert(ts[i as int].index <= ts[p + count].index);
                        assert(ts[p + count].index + ts[p + count].len <= src@.len());
                        Ok((
                            Token { index: t.index, len: close.index - t.index + 1, location: t.location, kind: TokenKind::Complex(Complex::Str) },
                            p + count + 1,
                        ))
                    },
                    None => Err(error(LexError::UnclosedStringLit, t.location, t.len)),
                }
            } else {
                Ok((t, i + 1))
            }
        },
        _ => Ok((t, i + 1)),
    }
}

/// Gathers comments, documentation comments, character literals and
/// string literals (plain, and raw with `#`) into single tokens, or reports
/// the first malformed literal.
pub fn merge_literals(src: &[char], tokens: &[Token]) -> (r: Result<Vec<Token>, PreprocessorError>)
    requires
        tokens_in(src@, tokens@),
        sorted(tokens@),
        literals_from(src@, tokens@, 0) is Some,
    ensures
        match r {
            Ok(v) => literals_from(src@, tokens@, 0) == Some(Ok::<Seq<Token>, PreprocessorError>(v@)),
            Err(e) => literals_from(src@, tokens@, 0) == Some(Err::<Seq<Token>, PreprocessorError>(e)),
        },
{
    let mut result: Vec<Token> = Vec::new();
    let mut i: usize = 0;
    while i < tokens.len()
        invariant
            i <= tokens@.len(),
            tokens_in(src@, tokens@),
            sorted(tokens@),
            literals_from(src@, tokens@, 0) == prepend(result@, literals_from(src@, tokens@, i as int)),
            literals_from(src@, tokens@, 0) is Some,
        decreases tokens@.len() - i,
    {
        match step_exec(src, tokens, i) {
            Ok((t, j)) => {
                assert(i < j <= tokens@.len());
                let ghost rest = literals_from(src@, tokens@, j as int);
                assert(prepend(result@, prepend(seq![t], rest)) == prepend(result@.push(t), rest)) by {
                    if let Some(Ok(x)) = rest {
                        assert(result@ + (seq![t] + x) =~= result@.push(t) + x);
                    }
                }
                result.push(t);
                i = j;
            },
            Err(e) => {
                return Err(e);
            },
        }
    }
    assert(result@ + seq![] =~= result@);
    Ok(result)
}


/// After the number pass, no text token with a numeric first character is
/// left: each became a numeric or a float token.
pub proof fn lemma_numbers_joined(src: Seq<char>, ts: Seq<Token>, i: nat)
    ensures
        forall|k: int|
            0 <= k < numbers_from(src, ts, i).len() ==> !numeric_token(
                src,
                #[trigger] numbers_from(src, ts, i)[k],
            ),
    decreases ts.len() - i,
{
    if i < ts.len() {
        let k = i as int;
        if numeric_token(src, ts[k]) {
            if k + 2 < ts.len() && is_punct(ts, k + 1, Punct::Dot) && numeric_token(src, ts[k + 2]) {
                lemma_numbers_joined(src, ts, i + 3);
            } else {
                lemma_numbers_joined(src, ts, i + 1);
            }
        } else {
            lemma_numbers_joined(src, ts, i + 1);
        }
        let out = numbers_from(src, ts, i);
        assert forall|m: int| 0 <= m < out.len() implies !numeric_token(src, #[trigger] out[m]) by {
            if m > 0 {
                if numeric_token(src, ts[k]) && k + 2 < ts.len() && is_punct(ts, k + 1, Punct::Dot)
                    && numeric_token(src, ts[k + 2]) {
                    assert(out[m] == numbers_from(src, ts, i + 3)[m - 1]);
                } else {
                    assert(out[m] == numbers_from(src, ts, i + 1)[m - 1]);
                }
            }
        }
    }
}

/// A number followed by `.` and a number, written without a gap, becomes
/// one float token that covers exactly their text: it starts where the
/// first number starts, ends where the second one ends, and its text is
/// the text of the three tokens in a row. A number that is not followed so
/// becomes a numeric token over its own text.
pub proof fn lemma_numbers_cover(src: Seq<char>, ts: Seq<Token>, i: nat)
    requires
        i < ts.len(),
        numeric_token(src, ts[i as int]),
        src.len() <= usize::MAX,
        forall|j: int| 0 <= j < ts.len() ==> #[trigger] ts[j].index + ts[j].len <= src.len(),
    ensures
        ({
            let k = i as int;
            let out = numbers_from(src, ts, i)[0];
            if k + 2 < ts.len() && is_punct(ts, k + 1, Punct::Dot) && numeric_token(src, ts[k + 2]) {
                &&& out.kind == TokenKind::Complex(Complex::Float)
                &&& out.index == ts[k].index
                &&& (ts[k].index + ts[k].len == ts[k + 1].index && ts[k + 1].len == 1 && ts[k + 1].index + 1
                    == ts[k + 2].index) ==> {
                    &&& out.index + out.len == ts[k + 2].index + ts[k + 2].len
                    &&& text_of(src, out) == text_of(src, ts[k]) + text_of(src, ts[k + 1]) + text_of(src, ts[k + 2])
                }
            } else {
                &&& out.kind == TokenKind::Complex(Complex::Numeric)
                &&& text_of(src, out) == text_of(src, ts[k])
            }
        }),
{
    let k = i as int;
    let out = numbers_from(src, ts, i)[0];
    if k + 2 < ts.len() && is_punct(ts, k + 1, Punct::Dot) && numeric_token(src, ts[k + 2]) {
        if ts[k].index + ts[k].len == ts[k + 1].index && ts[k + 1].len == 1 && ts[k + 1].index + 1 == ts[k + 2].index {
            assert(ts[k + 2].index + ts[k + 2].len <= src.len());
            assert(out.len == ts[k].len + 1 + ts[k + 2].len);
            let whole = text_of(src, ts[k]) + text_of(src, ts[k + 1]) + text_of(src, ts[k + 2]);
            assert forall|m: int| 0 <= m < out.len implies text_of(src, out)[m] == whole[m] by {
                if m < ts[k].len {
                } else if m < ts[k].len + 1 {
                } else {
                }
            }
            assert(text_of(src, out) =~= whole);
        }
    }
}

/// A token that is neither a quote nor a double quote.
pub open spec fn not_quote(t: Token) -> bool {
    t.kind != TokenKind::Token(Punct::Quote) && t.kind != TokenKind::Token(Punct::DoubleQuote)
}

/// When the literal pass succeeds, no quote or double quote token is left:
/// every one of them opened a literal that became a single token.
pub proof fn lemma_literals_closed(src: Seq<char>, ts: Seq<Token>, i: int)
    ensures
        literals_from(src, ts, i) matches Some(Ok(out)) ==> forall|k: int|
            0 <= k < out.len() ==> not_quote(#[trigger] out[k]),
    decreases ts.len() - i,
{
    if 0 <= i < ts.len() {
        match step(src, ts, i) {
            Some(Ok((tok, j))) => {
                if i < j <= ts.len() {
                    lemma_literals_closed(src, ts, j);
                    assert(not_quote(tok)) by {
                        let t = ts[i];
                        if t.kind == TokenKind::Token(Punct::Quote) {
                            match kind_at(ts, i + 1) {
                                Some(TokenKind::Token(Punct::Backslash)) => {},
                                _ => {},
                            }
                        }
                    }
                    if let Some(Ok(rest)) = literals_from(src, ts, j) {
                        let out = seq![tok] + rest;
                        assert forall|k: int| 0 <= k < out.len() implies not_quote(#[trigger] out[k]) by {
                            if k > 0 {
                                assert(out[k] == rest[k - 1]);
                            }
                        }
                    }
                }
            },
            _ => {},
        }
    }
}


/// The binary operator a punctuation token stands for.
pub open spec fn operator_of(p: Punct) -> Option<Operator> {
    match p {
        Punct::Plus => Some(Operator::Add),
        Punct::Minus => Some(Operator::Sub),
        Punct::Star => Some(Operator::Mul),
        Punct::Slash => Some(Operator::Div),
        Punct::Percent => Some(Operator::Mod),
        Punct::EqEq => Some(Operator::Eq),
        Punct::NotEq => Some(Operator::NEq),
        Punct::Greater => Some(Operator::Gr),
        Punct::Less => Some(Operator::Le),
        Punct::GreaterEq => Some(Operator::GrEq),
        Punct::LessEq => Some(Operator::LeEq),
        Punct::AndAnd => Some(Operator::And),
        Punct::OrOr => Some(Operator::Or),
        Punct::Assign => Some(Operator::Assign),
        Punct::PlusEq => Some(Operator::AddAssign),
        Punct::MinusEq => Some(Operator::SubAssign),
        Punct::StarEq => Some(Operator::MulAssign),
        Punct::SlashEq => Some(Operator::DivAssign),
        Punct::PercentEq => Some(Operator::ModAssign),
        _ => None,
    }
}

/// The token is punctuation that stands for an operator.
pub open spec fn is_operator_token(t: Token) -> bool {
    t.kind matches TokenKind::Token(p) && operator_of(p) is Some
}

/// The operator an operator token stands for, at the token's place.
pub fn operator(token: &Token) -> (r: Span<Operator>)
    requires
        is_operator_token(*token),
    ensures
        token.kind matches TokenKind::Token(p) && operator_of(p) == Some(*r.inner),
        r.location == (SpanIndex { index: token.index, len: token.len }),
{
    let op = match token.kind {
        TokenKind::Token(Punct::Plus) => Operator::Add,
        TokenKind::Token(Punct::Minus) => Operator::Sub,
        TokenKind::Token(Punct::Star) => Operator::Mul,
        TokenKind::Token(Punct::Slash) => Operator::Div,
        TokenKind::Token(Punct::Percent) => Operator::Mod,
        TokenKind::Token(Punct::EqEq) => Operator::Eq,
        TokenKind::Token(Punct::NotEq) => Operator::NEq,
        TokenKind::Token(Punct::Greater) => Operator::Gr,
        TokenKind::Token(Punct::Less) => Operator::Le,
        TokenKind::Token(Punct::GreaterEq) => Operator::GrEq,
        TokenKind::Token(Punct::LessEq) => Operator::LeEq,
        TokenKind::Token(Punct::AndAnd) => Operator::And,
        TokenKind::Token(Punct::OrOr) => Operator::Or,
        TokenKind::Token(Punct::Assign) => Operator::Assign,
        TokenKind::Token(Punct::PlusEq) => Operator::AddAssign,
        TokenKind::Token(Punct::MinusEq) => Operator::SubAssign,
        TokenKind::Token(Punct::StarEq) => Operator::MulAssign,
        TokenKind::Token(Punct::SlashEq) => Operator::DivAssign,
        TokenKind::Token(Punct::PercentEq) => Operator::ModAssign,
        _ => vstd::pervasive::unreached(),
    };
    Span::new(op, SpanIndex { index: token.index, len: token.len })
}

/// Every operator is written with exactly one punctuation token.
pub proof fn lemma_operator_tokens(op: Operator)
    ensures
        exists|p: Punct| operator_of(p) == Some(op),
        forall|p: Punct, q: Punct| operator_of(p) == Some(op) && operator_of(q) == Some(op) ==> p == q,
{
    let p = match op {
        Operator::Add => Punct::Plus,
        Operator::Sub => Punct::Minus,
        Operator::Mul => Punct::Star,
        Operator::Div => Punct::Slash,
        Operator::Mod => Punct::Percent,
        Operator::Eq => Punct::EqEq,
        Operator::NEq => Punct::NotEq,
        Operator::Gr => Punct::Greater,
        Operator::Le => Punct::Less,
        Operator::GrEq => Punct::GreaterEq,
        Operator::LeEq => Punct::LessEq,
        Operator::And => Punct::AndAnd,
        Operator::Or => Punct::OrOr,
        Operator::Assign => Punct::Assign,
        Operator::AddAssign => Punct::PlusEq,
        Operator::SubAssign => Punct::MinusEq,
        Operator::MulAssign => Punct::StarEq,
        Operator::DivAssign => Punct::SlashEq,
        Operator::ModAssign => Punct::PercentEq,
    };
    assert(operator_of(p) == Some(op));
}


/// No token is empty, and each ends before any later one begins.
pub open spec fn spread(ts: Seq<Token>) -> bool {
    &&& forall|j: int| 0 <= j < ts.len() ==> (#[trigger] ts[j]).len > 0
    &&& forall|a: int, b: int|
        0 <= a < b < ts.len() ==> #[trigger] ts[a].index + ts[a].len <= #[trigger] ts[b].index
}

proof fn lemma_spread_sorted(ts: Seq<Token>)
    requires
        spread(ts),
    ensures
        sorted(ts),
{
    assert forall|a: int, b: int| 0 <= a <= b < ts.len() implies #[trigger] ts[a].index <= #[trigger] ts[b].index by {
        if a < b {
            assert(ts[a].index + ts[a].len <= ts[b].index);
        }
    }
}

proof fn lemma_numbers_from_spread(src: Seq<char>, ts: Seq<Token>, i: nat)
    requires
        tokens_in(src, ts),
        spread(ts),
        i <= ts.len(),
    ensures
        ({
            let out = numbers_from(src, ts, i);
            &&& out.len() <= ts.len() - i
            &&& spread(out)
            &&& forall|k: int| 0 <= k < out.len() ==> (#[trigger] out[k]).index + out[k].len <= src.len()
            &&& forall|k: int| 0 <= k < out.len() ==> ts[i as int].index <= (#[trigger] out[k]).index
        }),
    decreases ts.len() - i,
{
    if i < ts.len() {
        let k = i as int;
        let next: nat = if numeric_token(src, ts[k]) && k + 2 < ts.len() && is_punct(ts, k + 1, Punct::Dot)
            && numeric_token(src, ts[k + 2]) {
            i + 3
        } else {
            i + 1
        };
        lemma_numbers_from_spread(src, ts, next);
        let out = numbers_from(src, ts, i);
        let rest = numbers_from(src, ts, next);
        let h = out[0];
        assert(out == seq![h] + rest);
        let end_of_head = if next == i + 3 {
            assert(ts[k].index + ts[k].len <= ts[k + 1].index);
            assert(ts[k + 1].index + ts[k + 1].len <= ts[k + 2].index);
            ts[k + 2].index + ts[k + 2].len
        } else {
            ts[k].index + ts[k].len
        };
        assert(h.index == ts[k].index);
        assert(h.index + h.len <= end_of_head);
        assert(end_of_head <= src.len());
        if next < ts.len() {
            assert(ts[next - 1].index + ts[next - 1].len <= ts[next as int].index);
            assert(end_of_head <= ts[next as int].index);
        }
        assert forall|j: int| 0 <= j < out.len() implies (#[trigger] out[j]).len > 0 by {
            if j > 0 {
                assert(out[j] == rest[j - 1]);
            }
        }
        assert forall|a: int, b: int| 0 <= a < b < out.len() implies #[trigger] out[a].index + out[a].len
            <= #[trigger] out[b].index by {
            assert(out[b] == rest[b - 1]);
            if a > 0 {
                assert(out[a] == rest[a - 1]);
            }
        }
        assert forall|j: int| 0 <= j < out.len() implies (#[trigger] out[j]).index + out[j].len <= src.len() by {
            if j > 0 {
                assert(out[j] == rest[j - 1]);
            }
        }
        assert forall|j: int| 0 <= j < out.len() implies ts[k].index <= (#[trigger] out[j]).index by {
            if j > 0 {
                assert(out[j] == rest[j - 1]);
                if next < ts.len() {
                    assert(ts[k].index + ts[k].len <= ts[next as int].index);
                }
            }
        }
    }
}

/// The number pass keeps a stream in order: when the tokens lie inside
/// the source, are not empty and do not overlap, so do the tokens it
/// gives, which the literal pass can then take.
pub proof fn lemma_numbers_keep_order(src: Seq<char>, ts: Seq<Token>)
    requires
        tokens_in(src, ts),
        spread(ts),
    ensures
        tokens_in(src, numbers_from(src, ts, 0)),
        spread(numbers_from(src, ts, 0)),
        sorted(numbers_from(src, ts, 0)),
{
    lemma_numbers_from_spread(src, ts, 0);
    lemma_spread_sorted(numbers_from(src, ts, 0));
}

} // verus!
