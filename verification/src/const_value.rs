//! Values of constant expressions, the diagnostics of the constant stage,
//! and the operations on constant values: typing, stepping, defaults,
//! folding and printing.

use crate::ir::AnyObjectKey;
use crate::number::{
    Number, NumberValue, const_apply_numeric_ok, spec_const_apply_numeric,
    spec_const_apply_numeric_to_bool,
};
use crate::operator::Operator;
use crate::literal::string_of;
use crate::primitive::PrimitiveType;
use crate::span::{Span, SpanIndex};
use crate::text::chars_of;
use crate::types::AnyTypeKey;
use vstd::prelude::*;

verus! {

/// A value known at compile time.
#[derive(Debug)]
pub enum ConstValue {
    Structure { fields: Vec<Span<(Span<String>, Span<ConstValue>)>>, ty: Option<AnyTypeKey> },
    Number(Number),
    String(String),
    Char(char),
    Bool(bool),
    EnumVariant { parent: AnyTypeKey, variant: String },
    Array { elements: Vec<Span<ConstValue>>, ty: AnyTypeKey },
    Tuple { elements: Vec<Span<ConstValue>>, ty: AnyTypeKey },
}

/// A diagnostic of the constant stage: the source range and module it
/// concerns, and what it says.
#[derive(Debug)]
pub struct Diagnostic<T> {
    pub span: SpanIndex,
    pub module: usize,
    pub inner: T,
}

/// What can go wrong while lowering and evaluating constants.
#[derive(Debug)]
pub enum Errors {
    IllegalType(AnyObjectKey),
    TypeNotFound(Vec<String>),
    ObjectNotFound(Vec<String>),
    TypeMismatch { expected: AnyTypeKey, got: AnyTypeKey },
    NonConstraintType(AnyObjectKey),
    CouldNotSubstituteType(AnyTypeKey),
    NotConst,
    CanNotApplyConst { op: Operator, left: ConstValue, right: ConstValue },
    EvalModule(Vec<String>, usize),
    UndefinedSelf,
    NonPrimitiveType { got: AnyTypeKey },
    ExpectedNumericConst { got: ConstValue },
    DuplicateIdentifier(String),
    GenericArityMismatch { expected: usize, found: usize },
    FailedTypeInfer,
    UndefinedAutostep(AnyTypeKey),
    UndefinedDefault(AnyTypeKey),
    FailedImplicitCast { from: AnyTypeKey, to: AnyTypeKey },
    ArrayElementCountMismatch { expected: (AnyTypeKey, usize), got: (AnyTypeKey, Option<usize>) },
    ExpectedOptionalResource { ident: String },
    VariableNotFound(String),
    ObjectInaccessibleInBlock(AnyObjectKey),
    ObjectInaccessible(AnyObjectKey),
    ExpectedReturnExpression(usize),
}

/// Warnings of the constant stage.
#[derive(Debug)]
pub enum Warnings {
    VariableUnused { function: usize, var: usize },
}

/// `a` holds the same contents as `b`: the same scalar, the same text, or
/// the same sequence of (shared) elements with the same type.
pub open spec fn same_contents(a: ConstValue, b: ConstValue) -> bool {
    match (a, b) {
        (ConstValue::Structure { fields: f1, ty: t1 }, ConstValue::Structure { fields: f2, ty: t2 }) =>
            f1@ == f2@ && t1 == t2,
        (ConstValue::String(s1), ConstValue::String(s2)) => s1@ == s2@,
        (ConstValue::EnumVariant { parent: p1, variant: v1 }, ConstValue::EnumVariant { parent: p2, variant: v2 }) =>
            p1 == p2 && v1@ == v2@,
        (ConstValue::Array { elements: e1, ty: t1 }, ConstValue::Array { elements: e2, ty: t2 }) =>
            e1@ == e2@ && t1 == t2,
        (ConstValue::Tuple { elements: e1, ty: t1 }, ConstValue::Tuple { elements: e2, ty: t2 }) =>
            e1@ == e2@ && t1 == t2,
        (ConstValue::Number(n1), ConstValue::Number(n2)) => n1 == n2,
        (ConstValue::Char(c1), ConstValue::Char(c2)) => c1 == c2,
        (ConstValue::Bool(b1), ConstValue::Bool(b2)) => b1 == b2,
        _ => false,
    }
}

/// A new vector of spans on the same shared values.
fn duplicate_all<T>(v: &Vec<Span<T>>) -> (r: Vec<Span<T>>)
    ensures
        r@ == v@,
{
    let mut r: Vec<Span<T>> = Vec::new();
    let mut i: usize = 0;
    while i < v.len()
        invariant
            0 <= i <= v@.len(),
            r@ == v@.take(i as int),
        decreases v@.len() - i,
    {
        r.push(v[i].duplicate());
        i = i + 1;
    }
    assert(r@ =~= v@);
    r
}

/// The type a constant has on its own: unsuffixed and signed integers are
/// `i32`, unsigned ones `u32`, floats `f32`; aggregates carry their type.
/// A string, or a structure of unknown type, has none.
pub open spec fn spec_type_of(v: ConstValue) -> Option<AnyTypeKey> {
    match v {
        ConstValue::Bool(_) => Some(AnyTypeKey::Primitive(PrimitiveType::Bool)),
        ConstValue::Char(_) => Some(AnyTypeKey::Primitive(PrimitiveType::Char)),
        ConstValue::Number(n) => match n.value {
            NumberValue::Any(_) => Some(AnyTypeKey::Primitive(PrimitiveType::I32)),
            NumberValue::Int(_) => Some(AnyTypeKey::Primitive(PrimitiveType::I32)),
            NumberValue::Float(_) => Some(AnyTypeKey::Primitive(PrimitiveType::F32)),
            NumberValue::Uint(_) => Some(AnyTypeKey::Primitive(PrimitiveType::U32)),
        },
        ConstValue::Structure { ty, .. } => ty,
        ConstValue::Array { ty, .. } => Some(ty),
        ConstValue::Tuple { ty, .. } => Some(ty),
        ConstValue::EnumVariant { parent, .. } => Some(parent),
        ConstValue::String(_) => None,
    }
}

/// The character after `c` when stepping: the low byte of `c` plus one.
pub open spec fn char_step(c: char) -> char {
    (((c as u32) % 256) + 1) as char
}

/// Stepping is defined and stays in range: integers below their kind's
/// maximum, characters whose low byte is not `0xFF`; never a float.
pub open spec fn autostep_ok(v: ConstValue) -> bool {
    match v {
        ConstValue::Number(n) => match n.value {
            NumberValue::Int(k) => k < i128::MAX,
            NumberValue::Uint(k) => k < u128::MAX,
            NumberValue::Any(k) => k < u128::MAX,
            NumberValue::Float(_) => false,
        },
        ConstValue::Char(c) => (c as u32) % 256 != 255,
        _ => true,
    }
}

/// The value after `v` in an enumeration: numbers count up by one keeping
/// their width, characters step their low byte. Other values have no
/// successor: `Err` with the type, or the failed type inference. Floats
/// are stepped by floating-point addition, which this library does not do.
pub open spec fn spec_autostep(v: ConstValue) -> Result<ConstValue, Errors> {
    match v {
        ConstValue::Number(n) => match n.value {
            NumberValue::Int(k) => Ok(ConstValue::Number(Number { value: NumberValue::Int((k + 1) as i128), size: n.size })),
            NumberValue::Uint(k) => Ok(ConstValue::Number(Number { value: NumberValue::Uint((k + 1) as u128), size: n.size })),
            NumberValue::Any(k) => Ok(ConstValue::Number(Number { value: NumberValue::Any((k + 1) as u128), size: n.size })),
            NumberValue::Float(_) => arbitrary(),
        },
        ConstValue::Char(c) => Ok(ConstValue::Char(char_step(c))),
        _ => match spec_type_of(v) {
            Some(t) => Err(Errors::UndefinedAutostep(t)),
            None => Err(Errors::FailedTypeInfer),
        },
    }
}

/// The zero of a width: an integer kind and a bit count.
pub open spec fn zero_of(value: NumberValue, bits: u32) -> ConstValue {
    ConstValue::Number(Number { value, size: Some(bits) })
}

/// Vector and entity types have no default value.
pub open spec fn has_default(p: PrimitiveType) -> bool {
    !(p is F32x2 || p is F64x2 || p is F32x4 || p is F64x4 || p is EntityRef)
}

/// The decimal digit `d`.
pub open spec fn digit_char(d: int) -> char {
    (d + 48) as char
}

/// The decimal notation of `n`, without leading zeros.
pub open spec fn decimal(n: nat) -> Seq<char>
    decreases n,
{
    if n < 10 {
        seq![digit_char(n as int)]
    } else {
        decimal(n / 10).push(digit_char((n % 10) as int))
    }
}

/// The decimal notation of `n`, with a leading `-` when it is negative.
pub open spec fn signed_decimal(n: int) -> Seq<char> {
    if n < 0 {
        seq!['-'] + decimal((-n) as nat)
    } else {
        decimal(n as nat)
    }
}

/// A float occurs somewhere in `v`.
pub open spec fn has_float(v: ConstValue) -> bool
    decreases v,
{
    match v {
        ConstValue::Number(n) => n.value is Float,
        ConstValue::Structure { fields, .. } => exists|i: int|
            0 <= i < fields@.len() && has_float(*(*#[trigger] fields@[i].inner).1.inner),
        ConstValue::Array { elements, .. } => exists|i: int|
            0 <= i < elements@.len() && has_float(*#[trigger] elements@[i].inner),
        ConstValue::Tuple { elements, .. } => exists|i: int|
            0 <= i < elements@.len() && has_float(*#[trigger] elements@[i].inner),
        _ => false,
    }
}

/// How a constant is printed: integers in decimal, text as it is,
/// characters between single quotes, `true`/`false`, arrays as
/// `[a, b]`, tuples as `(a, b)`, structures as `struct { x: a; y: b }`,
/// and an enumeration variant by its name. (Floats, printed with one
/// decimal, are left to floating-point code outside this library.)
pub open spec fn const_text(v: ConstValue) -> Seq<char>
    decreases v, 0nat,
{
    match v {
        ConstValue::Number(n) => match n.value {
            NumberValue::Int(k) => signed_decimal(k as int),
            NumberValue::Uint(k) => decimal(k as nat),
            NumberValue::Any(k) => decimal(k as nat),
            NumberValue::Float(_) => arbitrary(),
        },
        ConstValue::EnumVariant { variant, .. } => variant@,
        ConstValue::String(s) => s@,
        ConstValue::Char(c) => seq!['\'', c, '\''],
        ConstValue::Bool(b) => if b {
            seq!['t', 'r', 'u', 'e']
        } else {
            seq!['f', 'a', 'l', 's', 'e']
        },
        ConstValue::Array { elements, .. } => seq!['['] + elements_text(elements@, elements@.len()) + seq![']'],
        ConstValue::Tuple { elements, .. } => seq!['('] + elements_text(elements@, elements@.len()) + seq![')'],
        ConstValue::Structure { fields, .. } => seq!['s', 't', 'r', 'u', 'c', 't', ' ', '{', ' ']
            + fields_text(fields@, fields@.len()) + seq![' ', '}'],
    }
}

/// The first `n` elements of `s` printed and separated by `, `.
pub open spec fn elements_text(s: Seq<Span<ConstValue>>, n: nat) -> Seq<char>
    decreases s, n,
{
    if n == 0 || n > s.len() {
        seq![]
    } else if n == 1 {
        const_text(*s[0].inner)
    } else {
        elements_text(s, (n - 1) as nat) + seq![',', ' '] + const_text(*s[n - 1].inner)
    }
}

/// One field printed as `name: value`.
pub open spec fn field_text(f: Span<(Span<String>, Span<ConstValue>)>) -> Seq<char>
    decreases f, 0nat,
{
    (*(*f.inner).0.inner)@ + seq![':', ' '] + const_text(*(*f.inner).1.inner)
}

/// The first `n` fields of `s` printed and separated by `; `.
pub open spec fn fields_text(s: Seq<Span<(Span<String>, Span<ConstValue>)>>, n: nat) -> Seq<char>
    decreases s, n,
{
    if n == 0 || n > s.len() {
        seq![]
    } else if n == 1 {
        field_text(s[0])
    } else {
        fields_text(s, (n - 1) as nat) + seq![';', ' '] + field_text(s[n - 1])
    }
}

fn digit(d: u128) -> (c: char)
    requires
        d < 10,
    ensures
        c == digit_char(d as int),
{
    if d == 0 { '0' } else if d == 1 { '1' } else if d == 2 { '2' } else if d == 3 { '3' }
    else if d == 4 { '4' } else if d == 5 { '5' } else if d == 6 { '6' } else if d == 7 { '7' }
    else if d == 8 { '8' } else { '9' }
}

/// Appends the decimal notation of `n`.
pub(crate) fn push_decimal(out: &mut Vec<char>, n: u128)
    ensures
        final(out)@ == old(out)@ + decimal(n as nat),
    decreases n,
{
    if n >= 10 {
        push_decimal(out, n / 10);
    }
    out.push(digit(n % 10));
}

/// Appends the characters of `s`.
pub(crate) fn push_str(out: &mut Vec<char>, s: &str)
    ensures
        final(out)@ == old(out)@ + s@,
{
    let mut chars = chars_of(s);
    out.append(&mut chars);
}

/// Appends the printed form of `v`.
pub(crate) fn push_text(out: &mut Vec<char>, v: &ConstValue)
    requires
        !has_float(*v),
    ensures
        final(out)@ == old(out)@ + const_text(*v),
    decreases *v, 1nat,
{
    match v {
        ConstValue::Number(n) => match n.value {
            NumberValue::Int(k) => {
                if k < 0 {
                    out.push('-');
                    let m: u128 = if k == i128::MIN {
                        170141183460469231731687303715884105728u128
                    } else {
                        (-k) as u128
                    };
                    push_decimal(out, m);
                } else {
                    push_decimal(out, k as u128);
                }
            },
            NumberValue::Uint(k) => push_decimal(out, k),
            NumberValue::Any(k) => push_decimal(out, k),
            NumberValue::Float(_) => vstd::pervasive::unreached(),
        },
        ConstValue::EnumVariant { variant, .. } => push_str(out, variant.as_str()),
        ConstValue::String(text) => push_str(out, text.as_str()),
        ConstValue::Char(c) => {
            out.push('\'');
            out.push(*c);
            out.push('\'');
        },
        ConstValue::Bool(b) => {
            if *b {
                out.push('t');
                out.push('r');
                out.push('u');
                out.push('e');
            } else {
                out.push('f');
                out.push('a');
                out.push('l');
                out.push('s');
                out.push('e');
            }
        },
        ConstValue::Array { elements, .. } => {
            proof {
                assert forall|j: int| 0 <= j < elements@.len() implies !#[trigger] has_float(
                    *elements@[j].inner,
                ) by {
                    if has_float(*elements@[j].inner) {
                        assert(has_float(*v));
                    }
                }
            }
            out.push('[');
            push_elements(out, elements);
            out.push(']');
        },
        ConstValue::Tuple { elements, .. } => {
            proof {
                assert forall|j: int| 0 <= j < elements@.len() implies !#[trigger] has_float(
                    *elements@[j].inner,
                ) by {
                    if has_float(*elements@[j].inner) {
                        assert(has_float(*v));
                    }
                }
            }
            out.push('(');
            push_elements(out, elements);
            out.push(')');
        },
        ConstValue::Structure { fields, .. } => {
            push_str_struct_open(out);
            push_fields(out, fields);
            out.push(' ');
            out.push('}');
        },
    }
}

fn push_str_struct_open(out: &mut Vec<char>)
    ensures
        final(out)@ == old(out)@ + seq!['s', 't', 'r', 'u', 'c', 't', ' ', '{', ' '],
{
    out.push('s');
    out.push('t');
    out.push('r');
    out.push('u');
    out.push('c');
    out.push('t');
    out.push(' ');
    out.push('{');
    out.push(' ');
}

/// Appends the elements printed and separated by `, `.
fn push_elements(out: &mut Vec<char>, elements: &Vec<Span<ConstValue>>)
    requires
        forall|j: int| 0 <= j < elements@.len() ==> !#[trigger] has_float(*elements@[j].inner),
    ensures
        final(out)@ == old(out)@ + elements_text(elements@, elements@.len()),
    decreases *elements, 0nat,
{
    let ghost start = out@;
    let mut i: usize = 0;
    while i < elements.len()
        invariant
            0 <= i <= elements@.len(),
            out@ == start + elements_text(elements@, i as nat),
            forall|j: int| 0 <= j < elements@.len() ==> !#[trigger] has_float(*elements@[j].inner),
        decreases elements@.len() - i,
    {
        if i > 0 {
            out.push(',');
            out.push(' ');
        }
        proof {
            assert(!has_float(*elements@[i as int].inner));
        }
        push_text(out, &elements[i].inner);
        assert(out@ =~= start + elements_text(elements@, (i + 1) as nat));
        i = i + 1;
    }
}

/// Appends the fields printed as `name: value` and separated by `; `.
fn push_fields(out: &mut Vec<char>, fields: &Vec<Span<(Span<String>, Span<ConstValue>)>>)
    requires
        forall|j: int| 0 <= j < fields@.len() ==> !#[trigger] has_float(*(*fields@[j].inner).1.inner),
    ensures
        final(out)@ == old(out)@ + fields_text(fields@, fields@.len()),
    decreases *fields, 0nat,
{
    let ghost start = out@;
    let mut i: usize = 0;
    while i < fields.len()
        invariant
            0 <= i <= fields@.len(),
            out@ == start + fields_text(fields@, i as nat),
            forall|j: int| 0 <= j < fields@.len() ==> !#[trigger] has_float(*(*fields@[j].inner).1.inner),
        decreases fields@.len() - i,
    {
        if i > 0 {
            out.push(';');
            out.push(' ');
        }
        let field: &(Span<String>, Span<ConstValue>) = &fields[i].inner;
        let name: &String = &field.0.inner;
        assert(*name == *(*fields@[i as int].inner).0.inner);
        push_str(out, name.as_str());
        out.push(':');
        out.push(' ');
        proof {
            assert(!has_float(*(*fields@[i as int].inner).1.inner));
        }
        push_text(out, &field.1.inner);
        assert(field_text(fields@[i as int]) == (*(*fields@[i as int].inner).0.inner)@ + seq![':', ' ']
            + const_text(*(*fields@[i as int].inner).1.inner));
        assert(out@ =~= start + fields_text(fields@, (i + 1) as nat));
        i = i + 1;
    }
}

impl ConstValue {
    /// A copy of this value, sharing its elements.
    pub fn copy(&self) -> (c: ConstValue)
        ensures
            same_contents(c, *self),
    {
        match self {
            ConstValue::Structure { fields, ty } => ConstValue::Structure { fields: duplicate_all(fields), ty: *ty },
            ConstValue::Number(n) => ConstValue::Number(*n),
            ConstValue::String(s) => ConstValue::String(s.clone()),
            ConstValue::Char(c) => ConstValue::Char(*c),
            ConstValue::Bool(b) => ConstValue::Bool(*b),
            ConstValue::EnumVariant { parent, variant } => ConstValue::EnumVariant { parent: *parent, variant: variant.clone() },
            ConstValue::Array { elements, ty } => ConstValue::Array { elements: duplicate_all(elements), ty: *ty },
            ConstValue::Tuple { elements, ty } => ConstValue::Tuple { elements: duplicate_all(elements), ty: *ty },
        }
    }

    /// The printed form of the constant (see `const_text`).
    pub fn stringify(&self) -> (r: String)
        requires
            !has_float(*self),
        ensures
            r@ == const_text(*self),
    {
        let mut out: Vec<char> = Vec::new();
        push_text(&mut out, self);
        assert(out@ =~= const_text(*self));
        string_of(out.as_slice())
    }

    /// The type of the constant, or `FailedTypeInfer` where it has none.
    pub fn type_of(&self) -> (r: Result<AnyTypeKey, Errors>)
        ensures
            match spec_type_of(*self) {
                Some(t) => r == Ok::<AnyTypeKey, Errors>(t),
                None => r matches Err(Errors::FailedTypeInfer),
            },
    {
        match self {
            ConstValue::Bool(_) => Ok(AnyTypeKey::Primitive(PrimitiveType::Bool)),
            ConstValue::Char(_) => Ok(AnyTypeKey::Primitive(PrimitiveType::Char)),
            ConstValue::Number(n) => match n.value {
                NumberValue::Any(_) => Ok(AnyTypeKey::Primitive(PrimitiveType::I32)),
                NumberValue::Int(_) => Ok(AnyTypeKey::Primitive(PrimitiveType::I32)),
                NumberValue::Float(_) => Ok(AnyTypeKey::Primitive(PrimitiveType::F32)),
                NumberValue::Uint(_) => Ok(AnyTypeKey::Primitive(PrimitiveType::U32)),
            },
            ConstValue::Structure { ty: Some(ty), .. } => Ok(*ty),
            ConstValue::Array { ty, .. } => Ok(*ty),
            ConstValue::Tuple { ty, .. } => Ok(*ty),
            ConstValue::EnumVariant { parent, .. } => Ok(*parent),
            _ => Err(Errors::FailedTypeInfer),
        }
    }

    /// The next value of an enumeration after this one.
    pub fn autostep(&self) -> (r: Result<ConstValue, Errors>)
        requires
            autostep_ok(*self),
        ensures
            match (r, spec_autostep(*self)) {
                (Ok(a), Ok(b)) => a == b,
                (Err(Errors::UndefinedAutostep(a)), Err(Errors::UndefinedAutostep(b))) => a == b,
                (Err(Errors::FailedTypeInfer), Err(Errors::FailedTypeInfer)) => true,
                _ => false,
            },
    {
        match self {
            ConstValue::Number(number) => match number.value {
                NumberValue::Int(n) => Ok(ConstValue::Number(Number { value: NumberValue::Int(n + 1), size: number.size })),
                NumberValue::Uint(n) => Ok(ConstValue::Number(Number { value: NumberValue::Uint(n + 1), size: number.size })),
                NumberValue::Any(n) => Ok(ConstValue::Number(Number { value: NumberValue::Any(n + 1), size: number.size })),
                NumberValue::Float(_) => vstd::pervasive::unreached(),
            },
            ConstValue::Char(c) => {
                let low: u32 = (*c as u32) % 256;
                let next: u8 = (low + 1) as u8;
                Ok(ConstValue::Char(next as char))
            },
            _ => match self.type_of() {
                Ok(t) => Err(Errors::UndefinedAutostep(t)),
                Err(e) => Err(e),
            },
        }
    }
}

impl PrimitiveType {
    /// The default value of the type: zero of the type's width for
    /// numbers, the character with code 0, `false`, and the empty tuple for
    /// `()`.
    pub fn default(&self) -> (v: ConstValue)
        requires
            has_default(*self),
        ensures
            match *self {
                PrimitiveType::I8 => v == zero_of(NumberValue::Int(0), 8),
                PrimitiveType::I16 => v == zero_of(NumberValue::Int(0), 16),
                PrimitiveType::I32 => v == zero_of(NumberValue::Int(0), 32),
                PrimitiveType::I64 => v == zero_of(NumberValue::Int(0), 64),
                PrimitiveType::I128 => v == zero_of(NumberValue::Int(0), 128),
                PrimitiveType::U8 => v == zero_of(NumberValue::Uint(0), 8),
                PrimitiveType::U16 => v == zero_of(NumberValue::Uint(0), 16),
                PrimitiveType::U32 => v == zero_of(NumberValue::Uint(0), 32),
                PrimitiveType::U64 => v == zero_of(NumberValue::Uint(0), 64),
                PrimitiveType::U128 => v == zero_of(NumberValue::Uint(0), 128),
                PrimitiveType::F32 => v == zero_of(NumberValue::Float(0), 32),
                PrimitiveType::F64 => v == zero_of(NumberValue::Float(0), 64),
                PrimitiveType::Char => v == ConstValue::Char(0 as char),
                PrimitiveType::Bool => v == ConstValue::Bool(false),
                PrimitiveType::Void => v matches ConstValue::Tuple { elements, ty }
                    && elements@.len() == 0 && ty == AnyTypeKey::Primitive(PrimitiveType::Void),
                _ => false,
            },
    {
        match self {
            PrimitiveType::I8 => ConstValue::Number(Number { value: NumberValue::Int(0), size: Some(8) }),
            PrimitiveType::I16 => ConstValue::Number(Number { value: NumberValue::Int(0), size: Some(16) }),
            PrimitiveType::I32 => ConstValue::Number(Number { value: NumberValue::Int(0), size: Some(32) }),
            PrimitiveType::I64 => ConstValue::Number(Number { value: NumberValue::Int(0), size: Some(64) }),
            PrimitiveType::I128 => ConstValue::Number(Number { value: NumberValue::Int(0), size: Some(128) }),
            PrimitiveType::U8 => ConstValue::Number(Number { value: NumberValue::Uint(0), size: Some(8) }),
            PrimitiveType::U16 => ConstValue::Number(Number { value: NumberValue::Uint(0), size: Some(16) }),
            PrimitiveType::U32 => ConstValue::Number(Number { value: NumberValue::Uint(0), size: Some(32) }),
            PrimitiveType::U64 => ConstValue::Number(Number { value: NumberValue::Uint(0), size: Some(64) }),
            PrimitiveType::U128 => ConstValue::Number(Number { value: NumberValue::Uint(0), size: Some(128) }),
            PrimitiveType::F32 => ConstValue::Number(Number { value: NumberValue::Float(0), size: Some(32) }),
            PrimitiveType::F64 => ConstValue::Number(Number { value: NumberValue::Float(0), size: Some(64) }),
            PrimitiveType::Char => ConstValue::Char(0u8 as char),
            PrimitiveType::Bool => ConstValue::Bool(false),
            PrimitiveType::Void => ConstValue::Tuple {
                elements: Vec::with_capacity(0),
                ty: AnyTypeKey::Primitive(PrimitiveType::Void),
            },
            _ => vstd::pervasive::unreached(),
        }
    }
}

/// The operators that fold two numbers into a number.
pub open spec fn is_arithmetic(op: Operator) -> bool {
    op is Add || op is Sub || op is Mul || op is Div || op is Mod
}

/// The operators that compare two numbers.
pub open spec fn is_comparison(op: Operator) -> bool {
    op is Eq || op is NEq || op is Gr || op is Le || op is GrEq || op is LeEq
}

/// Applying `op` is defined and free of overflow: it is not a logical
/// operator, and arithmetic on two numbers stays in range.
pub open spec fn const_apply_ok(op: Operator, l: ConstValue, r: ConstValue) -> bool {
    &&& !(op is And || op is Or)
    &&& match (l, r) {
        (ConstValue::Number(a), ConstValue::Number(b)) => is_arithmetic(op) ==> const_apply_numeric_ok(
            op,
            a.value,
            b.value,
        ),
        _ => true,
    }
}

/// `l op r` on constants: arithmetic on two numbers gives a number without
/// width, a comparison of two numbers gives a boolean; `None` where the
/// operator does not apply.
pub open spec fn spec_const_apply(op: Operator, l: ConstValue, r: ConstValue) -> Option<ConstValue> {
    match (l, r) {
        (ConstValue::Number(a), ConstValue::Number(b)) => if is_arithmetic(op) {
            match spec_const_apply_numeric(op, a.value, b.value) {
                Some(v) => Some(ConstValue::Number(Number { value: v, size: None })),
                None => None,
            }
        } else if is_comparison(op) {
            match spec_const_apply_numeric_to_bool(op, a.value, b.value) {
                Some(x) => Some(ConstValue::Bool(x)),
                None => None,
            }
        } else {
            None
        },
        _ => None,
    }
}

/// The integer a number stands for (floats aside).
pub open spec fn integer_of(v: NumberValue) -> int {
    match v {
        NumberValue::Uint(u) => u as int,
        NumberValue::Int(i) => i as int,
        NumberValue::Any(a) => a as int,
        NumberValue::Float(_) => 0,
    }
}

/// Two integers of one kind: both signed, both unsigned, or both of no
/// particular kind.
pub open spec fn same_integer_kind(a: NumberValue, b: NumberValue) -> bool {
    (a is Int && b is Int) || (a is Uint && b is Uint) || (a is Any && b is Any)
}

/// Comparing two integers of one kind folds to what the order of the
/// integers says: `<` holds when the left is below the right, `<=` when it
/// is at most the right (so `x <= x` always), `>` and `>=` the other way
/// round, `==` and `!=` by equality; and `<=` holds exactly when `<` or
/// `==` does.
pub proof fn lemma_fold_comparison(a: Number, b: Number)
    requires
        same_integer_kind(a.value, b.value),
    ensures
        ({
            let (l, r) = (ConstValue::Number(a), ConstValue::Number(b));
            let (x, y) = (integer_of(a.value), integer_of(b.value));
            &&& spec_const_apply(Operator::Le, l, r) == Some(ConstValue::Bool(x < y))
            &&& spec_const_apply(Operator::LeEq, l, r) == Some(ConstValue::Bool(x <= y))
            &&& spec_const_apply(Operator::Gr, l, r) == Some(ConstValue::Bool(x > y))
            &&& spec_const_apply(Operator::GrEq, l, r) == Some(ConstValue::Bool(x >= y))
            &&& spec_const_apply(Operator::Eq, l, r) == Some(ConstValue::Bool(x == y))
            &&& spec_const_apply(Operator::NEq, l, r) == Some(ConstValue::Bool(x != y))
            &&& (spec_const_apply(Operator::LeEq, l, r) == Some(ConstValue::Bool(true))) == (spec_const_apply(
                Operator::Le,
                l,
                r,
            ) == Some(ConstValue::Bool(true)) || spec_const_apply(Operator::Eq, l, r) == Some(ConstValue::Bool(true)))
        }),
        spec_const_apply(Operator::LeEq, ConstValue::Number(a), ConstValue::Number(a)) == Some(ConstValue::Bool(true)),
{
}

impl Span<Operator> {
    /// The error reporting that this operator does not apply to the
    /// operands.
    fn cannot_apply(&self, left: &ConstValue, right: &ConstValue, module: usize) -> (e: Diagnostic<
        Errors,
    >)
        ensures
            e.span == self.location,
            e.module == module,
            e.inner matches Errors::CanNotApplyConst { op, left: l2, right: r2 } && op == *self.inner
                && same_contents(l2, *left) && same_contents(r2, *right),
    {
        Diagnostic {
            span: self.location,
            module,
            inner: Errors::CanNotApplyConst { op: *self.inner, left: left.copy(), right: right.copy() },
        }
    }

    /// Evaluates `left op right` on constants. Where the operator does not
    /// apply, the error names the operator and carries copies of both
    /// operands.
    pub fn const_apply(&self, left: &ConstValue, right: &ConstValue, module: usize) -> (r: Result<
        ConstValue,
        Diagnostic<Errors>,
    >)
        requires
            const_apply_ok(*self.inner, *left, *right),
        ensures
            r is Ok <==> spec_const_apply(*self.inner, *left, *right) is Some,
            r matches Ok(v) ==> spec_const_apply(*self.inner, *left, *right) == Some(v),
            r matches Err(e) ==> e.span == self.location && e.module == module && (
            e.inner matches Errors::CanNotApplyConst { op, left: l2, right: r2 } && op
                == *self.inner && same_contents(l2, *left) && same_contents(r2, *right)),
    {
        let op = *self.inner;
        match op {
            Operator::Add | Operator::Sub | Operator::Mul | Operator::Div | Operator::Mod => {
                match (left, right) {
                    (ConstValue::Number(l), ConstValue::Number(r)) => {
                        match self.const_apply_numeric(&l.value, &r.value) {
                            Some(value) => Ok(ConstValue::Number(Number { value, size: None })),
                            None => Err(self.cannot_apply(left, right, module)),
                        }
                    },
                    _ => Err(self.cannot_apply(left, right, module)),
                }
            },
            Operator::Eq | Operator::NEq | Operator::Gr | Operator::Le | Operator::GrEq
            | Operator::LeEq => {
                match (left, right) {
                    (ConstValue::Number(l), ConstValue::Number(r)) => {
                        match self.const_apply_numeric_to_bool(&l.value, &r.value) {
                            Some(value) => Ok(ConstValue::Bool(value)),
                            None => Err(self.cannot_apply(left, right, module)),
                        }
                    },
                    _ => Err(self.cannot_apply(left, right, module)),
                }
            },
            Operator::And | Operator::Or => vstd::pervasive::unreached(),
            _ => Err(self.cannot_apply(left, right, module)),
        }
    }
}

} // verus!
