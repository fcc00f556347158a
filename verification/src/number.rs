//! Numeric values of constant expressions and their folding.

use crate::operator::Operator;
use crate::span::Span;
use vstd::prelude::*;

verus! {

/// The value of a numeric literal. `Float` carries the IEEE-754 bit pattern
/// of a double; this library moves such values around but does no
/// floating-point arithmetic on them.
#[derive(Debug, Clone, Copy, PartialEq, Eq, Structural)]
pub enum NumberValue {
    Float(u64),
    Uint(u128),
    Int(i128),
    Any(u128),
}

/// A numeric literal: its value and the bit width given by its suffix.
#[derive(Debug, Clone, Copy, PartialEq, Eq, Structural)]
pub struct Number {
    pub value: NumberValue,
    pub size: Option<u32>,
}

/// The implicit conversion of `v` to the kind of `to`. Integer kinds convert
/// into each other bit for bit (two's complement); a kind converts to itself
/// unchanged; a float converts to nothing else.
pub open spec fn spec_implicit_cast(v: NumberValue, to: NumberValue) -> Option<NumberValue> {
    match (v, to) {
        (NumberValue::Any(n), NumberValue::Int(_)) => Some(NumberValue::Int(n as i128)),
        (NumberValue::Any(n), NumberValue::Uint(_)) => Some(NumberValue::Uint(n)),
        (NumberValue::Int(n), NumberValue::Any(_)) => Some(NumberValue::Any(n as u128)),
        (NumberValue::Int(n), NumberValue::Uint(_)) => Some(NumberValue::Uint(n as u128)),
        (NumberValue::Uint(n), NumberValue::Int(_)) => Some(NumberValue::Int(n as i128)),
        (NumberValue::Uint(n), NumberValue::Any(_)) => Some(NumberValue::Any(n)),
        (NumberValue::Uint(_), NumberValue::Uint(_)) => Some(v),
        (NumberValue::Any(_), NumberValue::Any(_)) => Some(v),
        (NumberValue::Int(_), NumberValue::Int(_)) => Some(v),
        (NumberValue::Float(_), NumberValue::Float(_)) => Some(v),
        _ => None,
    }
}

/// The conversion needs no floating-point arithmetic: it does not turn an
/// integer into a float.
pub open spec fn cast_is_integral(v: NumberValue, to: NumberValue) -> bool {
    to is Float ==> v is Float
}

/// The exact result of `l op r` on two integers of one kind, when it fits
/// the kind; `None` for division or remainder by zero and for the one
/// signed quotient that does not fit. Remainders are Euclidean
/// (never negative), quotients round toward zero.
pub open spec fn spec_fold(op: Operator, l: NumberValue, r: NumberValue) -> Option<NumberValue> {
    match (op, l, r) {
        (Operator::Add, NumberValue::Any(a), NumberValue::Any(b)) => Some(NumberValue::Any((a + b) as u128)),
        (Operator::Add, NumberValue::Int(a), NumberValue::Int(b)) => Some(NumberValue::Int((a + b) as i128)),
        (Operator::Add, NumberValue::Uint(a), NumberValue::Uint(b)) => Some(NumberValue::Uint((a + b) as u128)),
        (Operator::Sub, NumberValue::Any(a), NumberValue::Any(b)) => Some(NumberValue::Any((a - b) as u128)),
        (Operator::Sub, NumberValue::Int(a), NumberValue::Int(b)) => Some(NumberValue::Int((a - b) as i128)),
        (Operator::Sub, NumberValue::Uint(a), NumberValue::Uint(b)) => Some(NumberValue::Uint((a - b) as u128)),
        (Operator::Mul, NumberValue::Any(a), NumberValue::Any(b)) => Some(NumberValue::Any((a * b) as u128)),
        (Operator::Mul, NumberValue::Int(a), NumberValue::Int(b)) => Some(NumberValue::Int((a * b) as i128)),
        (Operator::Mul, NumberValue::Uint(a), NumberValue::Uint(b)) => Some(NumberValue::Uint((a * b) as u128)),
        (Operator::Div, NumberValue::Any(a), NumberValue::Any(b)) => match a.checked_div(b) {
            Some(q) => Some(NumberValue::Any(q)),
            None => None,
        },
        (Operator::Div, NumberValue::Int(a), NumberValue::Int(b)) => match a.checked_div(b) {
            Some(q) => Some(NumberValue::Int(q)),
            None => None,
        },
        (Operator::Div, NumberValue::Uint(a), NumberValue::Uint(b)) => match a.checked_div(b) {
            Some(q) => Some(NumberValue::Uint(q)),
            None => None,
        },
        (Operator::Mod, NumberValue::Any(a), NumberValue::Any(b)) => match a.checked_rem_euclid(b) {
            Some(q) => Some(NumberValue::Any(q)),
            None => None,
        },
        (Operator::Mod, NumberValue::Int(a), NumberValue::Int(b)) => match a.checked_rem_euclid(b) {
            Some(q) => Some(NumberValue::Int(q)),
            None => None,
        },
        (Operator::Mod, NumberValue::Uint(a), NumberValue::Uint(b)) => match a.checked_rem_euclid(b) {
            Some(q) => Some(NumberValue::Uint(q)),
            None => None,
        },
        _ => None,
    }
}

/// `l op r` for `+`, `-` and `*` stays inside the range of the operands' kind.
pub open spec fn fold_in_range(op: Operator, l: NumberValue, r: NumberValue) -> bool {
    match (op, l, r) {
        (Operator::Add, NumberValue::Any(a), NumberValue::Any(b)) => a + b <= u128::MAX,
        (Operator::Add, NumberValue::Int(a), NumberValue::Int(b)) => i128::MIN <= a + b <= i128::MAX,
        (Operator::Add, NumberValue::Uint(a), NumberValue::Uint(b)) => a + b <= u128::MAX,
        (Operator::Sub, NumberValue::Any(a), NumberValue::Any(b)) => a - b >= 0,
        (Operator::Sub, NumberValue::Int(a), NumberValue::Int(b)) => i128::MIN <= a - b <= i128::MAX,
        (Operator::Sub, NumberValue::Uint(a), NumberValue::Uint(b)) => a - b >= 0,
        (Operator::Mul, NumberValue::Any(a), NumberValue::Any(b)) => a * b <= u128::MAX,
        (Operator::Mul, NumberValue::Int(a), NumberValue::Int(b)) => i128::MIN <= a * b <= i128::MAX,
        (Operator::Mul, NumberValue::Uint(a), NumberValue::Uint(b)) => a * b <= u128::MAX,
        _ => true,
    }
}

/// Folding `l op r`: the right operand is first converted to the kind of
/// the left one. A float on the left is not folded by this library.
pub open spec fn spec_const_apply_numeric(op: Operator, l: NumberValue, r: NumberValue) -> Option<
    NumberValue,
> {
    if l is Float {
        None
    } else {
        match spec_implicit_cast(r, l) {
            Some(r2) => spec_fold(op, l, r2),
            None => None,
        }
    }
}

/// Folding can be done without overflow.
pub open spec fn const_apply_numeric_ok(op: Operator, l: NumberValue, r: NumberValue) -> bool {
    !(l is Float) ==> match spec_implicit_cast(r, l) {
        Some(r2) => fold_in_range(op, l, r2),
        None => true,
    }
}

/// Comparing two integers of one kind; `None` for other operators, for
/// operands of different kinds, and for floats.
pub open spec fn spec_const_apply_numeric_to_bool(op: Operator, l: NumberValue, r: NumberValue) -> Option<bool> {
    match (l, r) {
        (NumberValue::Any(a), NumberValue::Any(b)) => spec_compare(op, a as int, b as int),
        (NumberValue::Int(a), NumberValue::Int(b)) => spec_compare(op, a as int, b as int),
        (NumberValue::Uint(a), NumberValue::Uint(b)) => spec_compare(op, a as int, b as int),
        _ => None,
    }
}

/// A comparison operator applied to two integers.
pub open spec fn spec_compare(op: Operator, a: int, b: int) -> Option<bool> {
    match op {
        Operator::Eq => Some(a == b),
        Operator::NEq => Some(a != b),
        Operator::Le => Some(a < b),
        Operator::LeEq => Some(a <= b),
        Operator::Gr => Some(a > b),
        Operator::GrEq => Some(a >= b),
        _ => None,
    }
}

impl NumberValue {
    /// Converts `self` to the kind of `casts_to`.
    pub fn implicit_cast(&self, casts_to: &NumberValue) -> (r: Option<NumberValue>)
        requires
            cast_is_integral(*self, *casts_to),
        ensures
            r == spec_implicit_cast(*self, *casts_to),
    {
        match (*self, *casts_to) {
            (NumberValue::Any(n), NumberValue::Int(_)) => Some(NumberValue::Int(n as i128)),
            (NumberValue::Any(n), NumberValue::Uint(_)) => Some(NumberValue::Uint(n)),
            (NumberValue::Int(n), NumberValue::Any(_)) => Some(NumberValue::Any(n as u128)),
            (NumberValue::Int(n), NumberValue::Uint(_)) => Some(NumberValue::Uint(n as u128)),
            (NumberValue::Uint(n), NumberValue::Int(_)) => Some(NumberValue::Int(n as i128)),
            (NumberValue::Uint(n), NumberValue::Any(_)) => Some(NumberValue::Any(n)),
            (NumberValue::Uint(_), NumberValue::Uint(_)) => Some(*self),
            (NumberValue::Any(_), NumberValue::Any(_)) => Some(*self),
            (NumberValue::Int(_), NumberValue::Int(_)) => Some(*self),
            (NumberValue::Float(_), NumberValue::Float(_)) => Some(*self),
            _ => None,
        }
    }
}

fn fold(op: Operator, l: NumberValue, r: NumberValue) -> (v: Option<NumberValue>)
    requires
        fold_in_range(op, l, r),
    ensures
        v == spec_fold(op, l, r),
{
    match (op, l, r) {
        (Operator::Add, NumberValue::Any(a), NumberValue::Any(b)) => Some(NumberValue::Any(a + b)),
        (Operator::Add, NumberValue::Int(a), NumberValue::Int(b)) => Some(NumberValue::Int(a + b)),
        (Operator::Add, NumberValue::Uint(a), NumberValue::Uint(b)) => Some(NumberValue::Uint(a + b)),
        (Operator::Sub, NumberValue::Any(a), NumberValue::Any(b)) => Some(NumberValue::Any(a - b)),
        (Operator::Sub, NumberValue::Int(a), NumberValue::Int(b)) => Some(NumberValue::Int(a - b)),
        (Operator::Sub, NumberValue::Uint(a), NumberValue::Uint(b)) => Some(NumberValue::Uint(a - b)),
        (Operator::Mul, NumberValue::Any(a), NumberValue::Any(b)) => Some(NumberValue::Any(a * b)),
        (Operator::Mul, NumberValue::Int(a), NumberValue::Int(b)) => Some(NumberValue::Int(a * b)),
        (Operator::Mul, NumberValue::Uint(a), NumberValue::Uint(b)) => Some(NumberValue::Uint(a * b)),
        (Operator::Div, NumberValue::Any(a), NumberValue::Any(b)) => match a.checked_div(b) {
            Some(q) => Some(NumberValue::Any(q)),
            None => None,
        },
        (Operator::Div, NumberValue::Int(a), NumberValue::Int(b)) => match a.checked_div(b) {
            Some(q) => Some(NumberValue::Int(q)),
            None => None,
        },
        (Operator::Div, NumberValue::Uint(a), NumberValue::Uint(b)) => match a.checked_div(b) {
            Some(q) => Some(NumberValue::Uint(q)),
            None => None,
        },
        (Operator::Mod, NumberValue::Any(a), NumberValue::Any(b)) => match a.checked_rem_euclid(b) {
            Some(q) => Some(NumberValue::Any(q)),
            None => None,
        },
        (Operator::Mod, NumberValue::Int(a), NumberValue::Int(b)) => match a.checked_rem_euclid(b) {
            Some(q) => Some(NumberValue::Int(q)),
            None => None,
        },
        (Operator::Mod, NumberValue::Uint(a), NumberValue::Uint(b)) => match a.checked_rem_euclid(b) {
            Some(q) => Some(NumberValue::Uint(q)),
            None => None,
        },
        _ => None,
    }
}

fn compare(op: Operator, a: i128, b: i128) -> (r: Option<bool>)
    ensures
        r == spec_compare(op, a as int, b as int),
{
    match op {
        Operator::Eq => Some(a == b),
        Operator::NEq => Some(a != b),
        Operator::Le => Some(a < b),
        Operator::LeEq => Some(a <= b),
        Operator::Gr => Some(a > b),
        Operator::GrEq => Some(a >= b),
        _ => None,
    }
}

fn compare_unsigned(op: Operator, a: u128, b: u128) -> (r: Option<bool>)
    ensures
        r == spec_compare(op, a as int, b as int),
{
    match op {
        Operator::Eq => Some(a == b),
        Operator::NEq => Some(a != b),
        Operator::Le => Some(a < b),
        Operator::LeEq => Some(a <= b),
        Operator::Gr => Some(a > b),
        Operator::GrEq => Some(a >= b),
        _ => None,
    }
}

impl Span<Operator> {
    /// Folds `l op r` for the arithmetic operators.
    pub fn const_apply_numeric(&self, l: &NumberValue, r: &NumberValue) -> (v: Option<NumberValue>)
        requires
            const_apply_numeric_ok(*self.inner, *l, *r),
        ensures
            v == spec_const_apply_numeric(*self.inner, *l, *r),
    {
        let op = *self.inner;
        if let NumberValue::Float(_) = l {
            return None;
        }
        match r.implicit_cast(l) {
            Some(r2) => fold(op, *l, r2),
            None => None,
        }
    }

    /// Folds `l op r` for the comparison operators.
    pub fn const_apply_numeric_to_bool(&self, l: &NumberValue, r: &NumberValue) -> (v: Option<bool>)
        ensures
            v == spec_const_apply_numeric_to_bool(*self.inner, *l, *r),
    {
        let op = *self.inner;
        match (*l, *r) {
            (NumberValue::Any(a), NumberValue::Any(b)) => compare_unsigned(op, a, b),
            (NumberValue::Int(a), NumberValue::Int(b)) => compare(op, a, b),
            (NumberValue::Uint(a), NumberValue::Uint(b)) => compare_unsigned(op, a, b),
            _ => None,
        }
    }
}

} // verus!
