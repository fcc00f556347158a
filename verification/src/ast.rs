//! The syntax tree of the language, as produced by the parser.

use crate::const_value::{decimal, push_decimal, push_str, signed_decimal};
use crate::literal::string_of;
use crate::number::{Number, NumberValue};
use crate::text::chars_of;
use crate::operator::{Operator, UnaryOp};
use crate::span::Span;
use vstd::prelude::*;

verus! {

/// A warning raised while building the syntax tree.
#[derive(Debug, Clone)]
pub enum LoweringWarning {
    IdentifierTooLong(String),
    DivisionByZero,
}

/// The optional `mut` of a declaration.
#[derive(Debug)]
pub struct Mutability(pub Option<Span<()>>);

/// Options of the source formatter (none yet).
#[derive(Debug)]
pub struct FormatOptions {}

/// How a warning reads: `Identifier 'x' is too long`, the identifier padded
/// with spaces to ten characters, or `Division by zero`.
pub open spec fn warning_text(w: LoweringWarning) -> Seq<char> {
    match w {
        LoweringWarning::IdentifierTooLong(ident) => "Identifier '"@ + ident@ + Seq::new(
            (if ident@.len() < 10 {
                10 - ident@.len()
            } else {
                0
            }) as nat,
            |i: int| ' ',
        ) + "' is too long"@,
        LoweringWarning::DivisionByZero => "Division by zero"@,
    }
}

/// Identifiers longer than this many bytes draw a warning.
pub const MAX_IDENTIFIER_BYTES: usize = 30;

impl LoweringWarning {
    /// The warning as text (see `warning_text`).
    pub fn message(&self) -> (r: String)
        ensures
            r@ == warning_text(*self),
    {
        match self {
            LoweringWarning::IdentifierTooLong(ident) => {
                let mut out: Vec<char> = Vec::new();
                push_str(&mut out, "Identifier '");
                let name = chars_of(ident.as_str());
                let n = name.len();
                let ghost before = out@;
                let mut name2 = name;
                out.append(&mut name2);
                let mut k: usize = n;
                while k < 10
                    invariant
                        n == ident@.len(),
                        n <= k,
                        k <= 10 || k == n,
                        out@ == before + ident@ + Seq::new((k - n) as nat, |i: int| ' '),
                    decreases 10 - k,
                {
                    out.push(' ');
                    assert(out@ =~= before + ident@ + Seq::new((k + 1 - n) as nat, |i: int| ' '));
                    k = k + 1;
                }
                assert(out@ =~= before + ident@ + Seq::new(
                    (if ident@.len() < 10 {
                        10 - ident@.len()
                    } else {
                        0
                    }) as nat,
                    |i: int| ' ',
                ));
                push_str(&mut out, "' is too long");
                string_of(out.as_slice())
            },
            LoweringWarning::DivisionByZero => text_of("Division by zero"),
        }
    }
}

fn text_of(s: &str) -> (r: String)
    ensures
        r@ == s@,
{
    s.to_owned()
}

/// The warning an identifier draws: one that is longer than
/// `MAX_IDENTIFIER_BYTES` bytes in UTF-8 is too long.
pub fn identifier_warning(ident: &str) -> (r: Option<LoweringWarning>)
    ensures
        r is Some <==> ident.len() > MAX_IDENTIFIER_BYTES,
        r matches Some(w) ==> w matches LoweringWarning::IdentifierTooLong(s) && s@ == ident@,
{
    if ident.len() > MAX_IDENTIFIER_BYTES {
        Some(LoweringWarning::IdentifierTooLong(text_of(ident)))
    } else {
        None
    }
}

/// `a::b::c`
#[derive(Debug)]
pub struct IdentifierPath {
    pub path: Vec<Span<String>>,
}

/// A generic parameter and the paths of the traits that constrain it.
#[derive(Debug)]
pub struct GenericParameter {
    pub identifier: Span<String>,
    pub constraints: Vec<Span<IdentifierPath>>,
}

/// A path with optional generic arguments, `a::b<T, U>`.
#[derive(Debug)]
pub struct IdentifierLiteral {
    pub path: Span<IdentifierPath>,
    pub generics: Option<Span<Vec<Span<Type>>>>,
}

/// A keyword occurrence; only its location matters.
#[derive(Debug)]
pub struct Keyword(pub Span<()>);

/// A function or structure parameter.
#[derive(Debug)]
pub struct Parameter {
    pub ident: Span<String>,
    pub ty: Span<Type>,
    pub docs: Vec<Span<String>>,
    pub default_value: Option<Span<Expression>>,
}

/// A type expression: `refs` leading `&` and a literal.
#[derive(Debug)]
pub struct Type {
    pub refs: Span<usize>,
    pub literal: Span<TypeLiteral>,
}

#[derive(Debug)]
pub enum TypeLiteral {
    Path(Span<IdentifierPath>, Option<Span<Vec<Span<Type>>>>),
    Struct(Vec<Span<Parameter>>),
    Array(Box<Span<Type>>, Option<Span<Expression>>),
    Tuple(Vec<Span<Type>>),
    Enum(
        Option<Box<Span<Type>>>,
        Option<Span<Expression>>,
        Vec<(Span<String>, Option<Span<Expression>>)>,
    ),
}

#[derive(Debug)]
pub enum Literal {
    Identifier(IdentifierLiteral),
    Structure {
        kw: Keyword,
        ty: Option<Span<IdentifierLiteral>>,
        fields: Vec<Span<(Span<String>, Span<Expression>)>>,
    },
    Number(Number),
    String(String),
    Char(char),
    Array(Vec<Span<Expression>>),
    Tuple(Vec<Span<Expression>>),
}

/// Operations written after a literal.
#[derive(Debug)]
pub enum Postfix {
    Field(Span<String>),
    Call(Vec<Span<Expression>>),
    Index(Span<Expression>),
    Ref,
    Deref,
}

/// A literal with its prefix operators and postfix operations.
#[derive(Debug)]
pub struct Value {
    pub literal: Span<Literal>,
    pub postfix: Vec<Span<Postfix>>,
    pub unary: Vec<Span<UnaryOp>>,
}

#[derive(Debug)]
pub enum Expression {
    Value(Span<Value>),
    Binary { l: Span<Expression>, r: Span<Expression>, op: Span<Operator> },
}

/// An element of the flat operand/operator list that the parser reads
/// before building a tree.
#[derive(Debug)]
pub enum ExprItem {
    Value(Expression),
    Operator(Operator),
}

impl Expression {
    /// A second expression sharing this one's parts.
    pub fn duplicate(&self) -> (e: Expression)
        ensures
            e == *self,
    {
        match self {
            Expression::Value(v) => Expression::Value(v.duplicate()),
            Expression::Binary { l, r, op } => Expression::Binary {
                l: l.duplicate(),
                r: r.duplicate(),
                op: op.duplicate(),
            },
        }
    }
}


/// The symbol of a binary operator (`||` reads `%%`).
pub open spec fn operator_symbol(op: Operator) -> Seq<char> {
    match op {
        Operator::Add => "+"@,
        Operator::Sub => "-"@,
        Operator::Mul => "*"@,
        Operator::Div => "/"@,
        Operator::Mod => "%"@,
        Operator::Eq => "=="@,
        Operator::NEq => "!="@,
        Operator::Gr => ">"@,
        Operator::Le => "<"@,
        Operator::GrEq => ">="@,
        Operator::LeEq => "<="@,
        Operator::And => "&&"@,
        Operator::Or => "%%"@,
        Operator::Assign => "="@,
        Operator::AddAssign => "+="@,
        Operator::SubAssign => "-="@,
        Operator::MulAssign => "*="@,
        Operator::DivAssign => "/="@,
        Operator::ModAssign => "%="@,
    }
}

impl Operator {
    /// The operator's symbol (see `operator_symbol`).
    pub fn stringify(self) -> (r: String)
        ensures
            r@ == operator_symbol(self),
    {
        let s = match self {
            Operator::Add => "+",
            Operator::Sub => "-",
            Operator::Mul => "*",
            Operator::Div => "/",
            Operator::Mod => "%",
            Operator::Eq => "==",
            Operator::NEq => "!=",
            Operator::Gr => ">",
            Operator::Le => "<",
            Operator::GrEq => ">=",
            Operator::LeEq => "<=",
            Operator::And => "&&",
            Operator::Or => "%%",
            Operator::Assign => "=",
            Operator::AddAssign => "+=",
            Operator::SubAssign => "-=",
            Operator::MulAssign => "*=",
            Operator::DivAssign => "/=",
            Operator::ModAssign => "%=",
        };
        text_of(s)
    }
}

/// An integer number in decimal; floats are printed by floating-point code
/// outside this library.
pub open spec fn number_text(n: Number) -> Seq<char> {
    match n.value {
        NumberValue::Int(v) => signed_decimal(v as int),
        NumberValue::Uint(v) => decimal(v as nat),
        NumberValue::Any(v) => decimal(v as nat),
        NumberValue::Float(_) => arbitrary(),
    }
}

fn push_number(out: &mut Vec<char>, n: &Number)
    requires
        !(n.value is Float),
    ensures
        final(out)@ == old(out)@ + number_text(*n),
{
    match n.value {
        NumberValue::Int(k) => {
            if k < 0 {
                out.push('-');
                let m: u128 = if k == i128::MIN {
                    170141183460469231731687303715884105728u128
                } else {
                    (-k) as u128
                };
                push_decimal(out, m);
            } else {
                push_decimal(out, k as u128);
            }
        },
        NumberValue::Uint(k) => push_decimal(out, k),
        NumberValue::Any(k) => push_decimal(out, k),
        NumberValue::Float(_) => vstd::pervasive::unreached(),
    }
}

impl Number {
    /// The number in decimal (see `number_text`).
    pub fn stringify(&self) -> (r: String)
        requires
            !(self.value is Float),
        ensures
            r@ == number_text(*self),
    {
        let mut out: Vec<char> = Vec::new();
        push_number(&mut out, self);
        string_of(out.as_slice())
    }
}

/// How a value is printed: a number literal as its number, anything else
/// as a placeholder.
pub open spec fn value_text(v: Value) -> Seq<char> {
    match *v.literal.inner {
        Literal::Number(n) => number_text(n),
        _ => ":::not implemented:::"@,
    }
}

impl Value {
    /// The value as text (see `value_text`).
    pub fn stringify(&self) -> (r: String)
        requires
            *self.literal.inner matches Literal::Number(n) ==> !(n.value is Float),
        ensures
            r@ == value_text(*self),
    {
        match &*self.literal.inner {
            Literal::Number(n) => n.stringify(),
            _ => text_of(":::not implemented:::"),
        }
    }
}

/// How a type expression is printed: a path with `::` and its generic
/// arguments in `<>`; `struct {x: t y: u = ...; }`; `[t]` or `[t, expr]`;
/// `( t u )`; `enum(...): r { A B = [...] }`. Leading `&` are not shown.
pub open spec fn ast_type_text(t: Type) -> Seq<char>
    decreases t, 0nat,
{
    match *t.literal.inner {
        TypeLiteral::Path(p, generics) => segments_text((*p.inner).path@, (*p.inner).path@.len()) + match generics {
            Some(g) => seq!['<'] + generic_list_text((*g.inner)@, (*g.inner)@.len()) + seq!['>'],
            None => seq![],
        },
        TypeLiteral::Struct(ps) => "struct {"@ + parameters_text(ps@, ps@.len()) + "}"@,
        TypeLiteral::Array(elem, len) => seq!['['] + ast_type_text(*elem.inner) + match len {
            Some(_) => ", expr"@,
            None => seq![],
        } + seq![']'],
        TypeLiteral::Tuple(ts) => seq!['('] + tuple_members_text(ts@, ts@.len()) + " )"@,
        TypeLiteral::Enum(repr, step, variants) => "enum"@ + match step {
            Some(_) => "(...)"@,
            None => seq![],
        } + match repr {
            Some(r) => ": "@ + ast_type_text(*r.inner),
            None => seq![],
        } + " {"@ + variant_names_text(variants@, variants@.len()) + " }"@,
    }
}

/// The first `n` path segments joined with `::`.
pub open spec fn segments_text(s: Seq<Span<String>>, n: nat) -> Seq<char>
    decreases n,
{
    if n == 0 || n > s.len() {
        seq![]
    } else if n == 1 {
        (*s[0].inner)@
    } else {
        segments_text(s, (n - 1) as nat) + "::"@ + (*s[n - 1].inner)@
    }
}

/// The first `n` generic arguments separated by `, `.
pub open spec fn generic_list_text(s: Seq<Span<Type>>, n: nat) -> Seq<char>
    decreases s, n,
{
    if n == 0 || n > s.len() {
        seq![]
    } else if n == 1 {
        ast_type_text(*s[0].inner)
    } else {
        generic_list_text(s, (n - 1) as nat) + ", "@ + ast_type_text(*s[n - 1].inner)
    }
}

/// The first `n` structure fields, each `name: type ` and `= ...; ` when it
/// has a default.
pub open spec fn parameters_text(s: Seq<Span<Parameter>>, n: nat) -> Seq<char>
    decreases s, n,
{
    if n == 0 || n > s.len() {
        seq![]
    } else {
        let p = *s[n - 1].inner;
        parameters_text(s, (n - 1) as nat) + (*p.ident.inner)@ + ": "@ + ast_type_text(*p.ty.inner) + " "@
            + match p.default_value {
            Some(_) => "= ...; "@,
            None => seq![],
        }
    }
}

/// The first `n` tuple members, each after a space.
pub open spec fn tuple_members_text(s: Seq<Span<Type>>, n: nat) -> Seq<char>
    decreases s, n,
{
    if n == 0 || n > s.len() {
        seq![]
    } else {
        tuple_members_text(s, (n - 1) as nat) + " "@ + ast_type_text(*s[n - 1].inner)
    }
}

/// The first `n` enumeration variants, each after a space, with ` = [...]`
/// when it has a value.
pub open spec fn variant_names_text(s: Seq<(Span<String>, Option<Span<Expression>>)>, n: nat) -> Seq<char>
    decreases n,
{
    if n == 0 || n > s.len() {
        seq![]
    } else {
        variant_names_text(s, (n - 1) as nat) + " "@ + (*s[n - 1].0.inner)@ + match s[n - 1].1 {
            Some(_) => " = [...]"@,
            None => seq![],
        }
    }
}


fn push_segments(out: &mut Vec<char>, s: &Vec<Span<String>>)
    ensures
        final(out)@ == old(out)@ + segments_text(s@, s@.len()),
{
    let ghost start = out@;
    let mut i: usize = 0;
    while i < s.len()
        invariant
            i <= s@.len(),
            out@ == start + segments_text(s@, i as nat),
        decreases s@.len() - i,
    {
        if i > 0 {
            push_str(out, "::");
        }
        let seg: &String = &s[i].inner;
        push_str(out, seg.as_str());
        assert(out@ =~= start + segments_text(s@, (i + 1) as nat));
        i = i + 1;
    }
}

fn push_variant_names(out: &mut Vec<char>, s: &Vec<(Span<String>, Option<Span<Expression>>)>)
    ensures
        final(out)@ == old(out)@ + variant_names_text(s@, s@.len()),
{
    let ghost start = out@;
    let mut i: usize = 0;
    while i < s.len()
        invariant
            i <= s@.len(),
            out@ == start + variant_names_text(s@, i as nat),
        decreases s@.len() - i,
    {
        push_str(out, " ");
        let name: &String = &s[i].0.inner;
        push_str(out, name.as_str());
        if s[i].1.is_some() {
            push_str(out, " = [...]");
        }
        assert(out@ =~= start + variant_names_text(s@, (i + 1) as nat));
        i = i + 1;
    }
}

/// Appends how a type expression is printed.
fn push_ast_type(out: &mut Vec<char>, t: &Type)
    ensures
        final(out)@ == old(out)@ + ast_type_text(*t),
    decreases *t, 1nat,
{
    let ghost start = out@;
    match &*t.literal.inner {
        TypeLiteral::Path(p, generics) => {
            push_segments(out, &p.inner.path);
            match generics {
                Some(g) => {
                    out.push('<');
                    push_generic_list(out, &g.inner);
                    out.push('>');
                },
                None => {},
            }
        },
        TypeLiteral::Struct(ps) => {
            push_str(out, "struct {");
            push_parameters(out, ps);
            push_str(out, "}");
        },
        TypeLiteral::Array(elem, len) => {
            out.push('[');
            push_ast_type(out, &elem.inner);
            if len.is_some() {
                push_str(out, ", expr");
            }
            out.push(']');
        },
        TypeLiteral::Tuple(ts) => {
            out.push('(');
            push_tuple_members(out, ts);
            push_str(out, " )");
        },
        TypeLiteral::Enum(repr, step, variants) => {
            push_str(out, "enum");
            if step.is_some() {
                push_str(out, "(...)");
            }
            match repr {
                Some(r) => {
                    push_str(out, ": ");
                    push_ast_type(out, &r.inner);
                },
                None => {},
            }
            push_str(out, " {");
            push_variant_names(out, variants);
            push_str(out, " }");
        },
    }
    assert(out@ =~= start + ast_type_text(*t));
}

fn push_generic_list(out: &mut Vec<char>, s: &Vec<Span<Type>>)
    ensures
        final(out)@ == old(out)@ + generic_list_text(s@, s@.len()),
    decreases *s, 0nat,
{
    let ghost start = out@;
    let mut i: usize = 0;
    while i < s.len()
        invariant
            i <= s@.len(),
            out@ == start + generic_list_text(s@, i as nat),
        decreases s@.len() - i,
    {
        if i > 0 {
            push_str(out, ", ");
        }
        push_ast_type(out, &s[i].inner);
        assert(out@ =~= start + generic_list_text(s@, (i + 1) as nat));
        i = i + 1;
    }
}

fn push_tuple_members(out: &mut Vec<char>, s: &Vec<Span<Type>>)
    ensures
        final(out)@ == old(out)@ + tuple_members_text(s@, s@.len()),
    decreases *s, 0nat,
{
    let ghost start = out@;
    let mut i: usize = 0;
    while i < s.len()
        invariant
            i <= s@.len(),
            out@ == start + tuple_members_text(s@, i as nat),
        decreases s@.len() - i,
    {
        push_str(out, " ");
        push_ast_type(out, &s[i].inner);
        assert(out@ =~= start + tuple_members_text(s@, (i + 1) as nat));
        i = i + 1;
    }
}

fn push_parameters(out: &mut Vec<char>, s: &Vec<Span<Parameter>>)
    ensures
        final(out)@ == old(out)@ + parameters_text(s@, s@.len()),
    decreases *s, 0nat,
{
    let ghost start = out@;
    let mut i: usize = 0;
    while i < s.len()
        invariant
            i <= s@.len(),
            out@ == start + parameters_text(s@, i as nat),
        decreases s@.len() - i,
    {
        let p: &Parameter = &s[i].inner;
        let name: &String = &p.ident.inner;
        push_str(out, name.as_str());
        push_str(out, ": ");
        push_ast_type(out, &p.ty.inner);
        push_str(out, " ");
        if p.default_value.is_some() {
            push_str(out, "= ...; ");
        }
        assert(out@ =~= start + parameters_text(s@, (i + 1) as nat));
        i = i + 1;
    }
}

impl Type {
    /// The type expression as text (see `ast_type_text`).
    pub fn stringify(&self) -> (r: String)
        ensures
            r@ == ast_type_text(*self),
    {
        let mut out: Vec<char> = Vec::new();
        push_ast_type(&mut out, self);
        assert(out@ =~= ast_type_text(*self));
        string_of(out.as_slice())
    }
}

} // verus!
