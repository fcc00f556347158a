//! Ranges of source text marked for syntax highlighting by an editor.

use crate::lexing::{Complex, Token, TokenKind};
use vstd::prelude::*;

verus! {

/// What a highlighted range is.
#[derive(Debug, Clone, Copy, PartialEq, Eq, Structural)]
pub enum Types {
    Comment,
    Ident,
    Keyword,
    String,
    Number,
    Operator,
    Type,
    SpecialOperator,
    Label,
}

/// A highlighted range: its length, its zero-based line and column, and
/// the number of its kind.
#[derive(Debug, Clone, Copy, PartialEq, Eq, Structural)]
pub struct Span {
    pub len: usize,
    pub line: usize,
    pub column: usize,
    pub ty: u8,
}

/// The number of a kind, in the order the kinds are declared.
pub open spec fn kind_number(t: Types) -> u8 {
    match t {
        Types::Comment => 0,
        Types::Ident => 1,
        Types::Keyword => 2,
        Types::String => 3,
        Types::Number => 4,
        Types::Operator => 5,
        Types::Type => 6,
        Types::SpecialOperator => 7,
        Types::Label => 8,
    }
}

impl Types {
    pub fn number(self) -> (n: u8)
        ensures
            n == kind_number(self),
    {
        match self {
            Types::Comment => 0,
            Types::Ident => 1,
            Types::Keyword => 2,
            Types::String => 3,
            Types::Number => 4,
            Types::Operator => 5,
            Types::Type => 6,
            Types::SpecialOperator => 7,
            Types::Label => 8,
        }
    }
}

/// The kind a compound token is highlighted as: comments of every sort,
/// numbers, and character and string literals.
pub open spec fn complex_kind(c: Complex) -> Types {
    match c {
        Complex::Docstr | Complex::TlDocstr | Complex::Comment => Types::Comment,
        Complex::Numeric | Complex::Float => Types::Number,
        Complex::Char | Complex::Str => Types::String,
    }
}

/// The range of a token, whose line and column count from one, with lines
/// and columns counted from zero.
pub open spec fn token_span(t: Token, ty: Types) -> Span {
    Span {
        len: t.len,
        line: (t.location.line - 1) as usize,
        column: (t.location.column - 1) as usize,
        ty: kind_number(ty),
    }
}

/// The highlighted ranges of the compound tokens among the first `n`
/// tokens, in order; other tokens are not highlighted here.
pub open spec fn token_highlights(ts: Seq<Token>, n: nat) -> Seq<Span>
    decreases n,
{
    if n == 0 || n > ts.len() {
        seq![]
    } else {
        let t = ts[n - 1];
        token_highlights(ts, (n - 1) as nat) + match t.kind {
            TokenKind::Complex(c) => seq![token_span(t, complex_kind(c))],
            _ => seq![],
        }
    }
}

/// Compound tokens have a line and a column counted from one.
pub open spec fn positions_from_one(ts: Seq<Token>) -> bool {
    forall|j: int|
        0 <= j < ts.len() && (#[trigger] ts[j]).kind is Complex ==> ts[j].location.line >= 1
            && ts[j].location.column >= 1
}

impl Token {
    /// The highlighted range of this token as `ty`.
    pub fn span(&self, ty: Types) -> (s: Span)
        requires
            self.location.line >= 1,
            self.location.column >= 1,
        ensures
            s == token_span(*self, ty),
    {
        Span { len: self.len, line: self.location.line - 1, column: self.location.column - 1, ty: ty.number() }
    }
}

/// Appends to `spans` the highlighted ranges of the compound tokens.
pub fn index_tokens(tokens: &Vec<Token>, spans: &mut Vec<Span>)
    requires
        positions_from_one(tokens@),
    ensures
        final(spans)@ == old(spans)@ + token_highlights(tokens@, tokens@.len()),
{
    let ghost start = spans@;
    let mut i: usize = 0;
    while i < tokens.len()
        invariant
            i <= tokens@.len(),
            positions_from_one(tokens@),
            spans@ == start + token_highlights(tokens@, i as nat),
        decreases tokens@.len() - i,
    {
        let token = &tokens[i];
        match token.kind {
            TokenKind::Complex(c) => {
                let ty = match c {
                    Complex::Docstr | Complex::TlDocstr | Complex::Comment => Types::Comment,
                    Complex::Numeric | Complex::Float => Types::Number,
                    Complex::Char | Complex::Str => Types::String,
                };
                spans.push(token.span(ty));
            },
            _ => {},
        }
        assert(spans@ =~= start + token_highlights(tokens@, (i + 1) as nat));
        i = i + 1;
    }
}

} // verus!
