//! Folding constant sub-expressions of a syntax tree.

use crate::ast::{Expression, Literal, Value};
use crate::number::{
    const_apply_numeric_ok, spec_const_apply_numeric, Number, NumberValue,
};
use crate::operator::UnaryOp;
use crate::span::{Span, SpanIndex};
use vstd::prelude::*;

verus! {

/// The sign bit of an IEEE-754 double.
pub const SIGN_BIT: u64 = 0x8000_0000_0000_0000u64;

/// The literal of a spanned value.
pub open spec fn literal_of(v: &Span<Value>) -> Literal {
    *v.inner.literal.inner
}

/// The prefix operators of a spanned value, innermost last.
pub open spec fn unary_ops_of(v: &Span<Value>) -> Seq<UnaryOp> {
    unary_ops(*v.inner)
}

/// The prefix operators of a value, innermost last.
pub open spec fn unary_ops(v: Value) -> Seq<UnaryOp> {
    v.unary@.map_values(|s: Span<UnaryOp>| *s.inner)
}

/// Unary minus can be applied to the literal without overflow: it is a
/// signed, untyped or floating number whose negation fits `i128`.
pub open spec fn negatable(lit: Literal) -> bool {
    match lit {
        Literal::Number(n) => match n.value {
            NumberValue::Any(a) => (a as i128) != i128::MIN,
            NumberValue::Int(a) => a != i128::MIN,
            NumberValue::Float(_) => true,
            NumberValue::Uint(_) => false,
        },
        _ => false,
    }
}

/// Unary minus applied to a number literal: an untyped or signed value
/// becomes the signed negation (an untyped value is first read as `i128`),
/// a float has its sign bit flipped; the suffix width is kept.
pub open spec fn negate(lit: Literal) -> Literal {
    match lit {
        Literal::Number(n) => match n.value {
            NumberValue::Any(a) => Literal::Number(
                Number { value: NumberValue::Int((-(a as i128)) as i128), size: n.size },
            ),
            NumberValue::Int(a) => Literal::Number(
                Number { value: NumberValue::Int((-a) as i128), size: n.size },
            ),
            NumberValue::Float(b) => Literal::Number(
                Number { value: NumberValue::Float(b ^ SIGN_BIT), size: n.size },
            ),
            _ => lit,
        },
        _ => lit,
    }
}

/// The literal after applying the prefix operators `ops`, the last one first.
pub open spec fn apply_unary_all(lit: Literal, ops: Seq<UnaryOp>) -> Literal
    decreases ops.len(),
{
    if ops.len() == 0 {
        lit
    } else {
        apply_unary_all(negate(lit), ops.drop_last())
    }
}

/// Every prefix operator is a unary minus that can be applied.
pub open spec fn unary_ok(lit: Literal, ops: Seq<UnaryOp>) -> bool
    decreases ops.len(),
{
    ops.len() == 0 || (ops.last() == UnaryOp::Sub && negatable(lit) && unary_ok(
        negate(lit),
        ops.drop_last(),
    ))
}

/// The number that the expression stands for once folded, if folding turns
/// it into a plain number literal with no postfix operation.
pub open spec fn folded_number(e: Expression) -> Option<Number>
    decreases e,
{
    match e {
        Expression::Value(v) => {
            let lit = if v.inner.unary@.len() == 0 {
                *v.inner.literal.inner
            } else {
                apply_unary_all(*v.inner.literal.inner, unary_ops(*v.inner))
            };
            if v.inner.unary@.len() == 0 && v.inner.postfix@.len() != 0 {
                None
            } else {
                match lit {
                    Literal::Number(n) => Some(n),
                    _ => None,
                }
            }
        },
        Expression::Binary { l, r, op } => match (folded_number(*l.inner), folded_number(*r.inner)) {
            (Some(a), Some(b)) => match spec_const_apply_numeric(*op.inner, a.value, b.value) {
                Some(v) => Some(Number { value: v, size: None }),
                None => None,
            },
            _ => None,
        },
    }
}

/// Folding the expression raises no overflow: prefix operators are
/// applicable and every fold that takes place stays in range.
pub open spec fn reduce_ok(e: Expression) -> bool
    decreases e,
{
    match e {
        Expression::Value(v) => v.inner.unary@.len() == 0 || unary_ok(
            *v.inner.literal.inner,
            unary_ops(*v.inner),
        ),
        Expression::Binary { l, r, op } => {
            &&& reduce_ok(*l.inner)
            &&& reduce_ok(*r.inner)
            &&& match (folded_number(*l.inner), folded_number(*r.inner)) {
                (Some(a), Some(b)) => const_apply_numeric_ok(*op.inner, a.value, b.value),
                _ => true,
            }
        },
    }
}

/// `x` is a plain value at `loc` holding the literal `lit`, with its
/// literal also at `loc`, and no prefix or postfix operator.
pub open spec fn is_plain_value(x: Expression, lit: Literal, loc: SpanIndex) -> bool {
    match x {
        Expression::Value(s) => {
            &&& s.location == loc
            &&& s.inner.literal.location == loc
            &&& *s.inner.literal.inner == lit
            &&& s.inner.postfix@.len() == 0
            &&& s.inner.unary@.len() == 0
        },
        _ => false,
    }
}

/// What folding gives: `None` when the expression is kept as it is. A
/// value with prefix operators becomes the plain value of the literal they
/// produce (postfix operations are dropped), at the value's location. A
/// binary expression whose operands fold to numbers becomes the plain
/// number of their combination, at the operator's location.
pub open spec fn reduces_to(e: Expression, r: Option<Expression>) -> bool {
    match e {
        Expression::Value(v) => if v.inner.unary@.len() == 0 {
            r is None
        } else {
            r matches Some(x) && is_plain_value(
                x,
                apply_unary_all(*v.inner.literal.inner, unary_ops(*v.inner)),
                v.location,
            )
        },
        Expression::Binary { op, .. } => match folded_number(e) {
            Some(n) => r matches Some(x) && is_plain_value(x, Literal::Number(n), op.location),
            None => r is None,
        },
    }
}

proof fn lemma_unary_number(lit: Literal, ops: Seq<UnaryOp>)
    requires
        unary_ok(lit, ops),
        ops.len() > 0,
    ensures
        apply_unary_all(lit, ops) is Number,
    decreases ops.len(),
{
    reveal_with_fuel(apply_unary_all, 2);
    if ops.drop_last().len() > 0 {
        lemma_unary_number(negate(lit), ops.drop_last());
    }
}

fn negate_number(n: Number) -> (m: Number)
    requires
        negatable(Literal::Number(n)),
    ensures
        Literal::Number(m) == negate(Literal::Number(n)),
{
    match n.value {
        NumberValue::Any(a) => Number { value: NumberValue::Int(-(a as i128)), size: n.size },
        NumberValue::Int(a) => Number { value: NumberValue::Int(-a), size: n.size },
        NumberValue::Float(b) => Number { value: NumberValue::Float(b ^ SIGN_BIT), size: n.size },
        NumberValue::Uint(_) => n,
    }
}

impl Expression {
    /// Applies the prefix operators of `v` to its literal, the last one first.
    fn apply_unary(v: &Span<Value>) -> (r: Option<Literal>)
        requires
            v.inner.unary@.len() == 0 || unary_ok(*v.inner.literal.inner, unary_ops(*v.inner)),
        ensures
            v.inner.unary@.len() == 0 ==> r is None,
            v.inner.unary@.len() != 0 ==> r == Some(
                apply_unary_all(*v.inner.literal.inner, unary_ops(*v.inner)),
            ),
    {
        let value: &Value = &v.inner;
        let n = value.unary.len();
        if n == 0 {
            return None;
        }
        let ghost lit0 = literal_of(v);
        let ghost ops = unary_ops_of(v);
        let mut num = match &*value.literal.inner {
            Literal::Number(num) => *num,
            _ => vstd::pervasive::unreached(),
        };
        let mut i = n;
        proof {
            assert(ops.take(n as int) =~= ops);
        }
        while i > 0
            invariant
                0 <= i <= n,
                n == value.unary@.len(),
                ops == unary_ops_of(v),
                ops.len() == n,
                unary_ok(Literal::Number(num), ops.take(i as int)),
                apply_unary_all(lit0, ops) == apply_unary_all(Literal::Number(num), ops.take(i as int)),
            decreases i,
        {
            let ghost pre = ops.take(i as int);
            assert(pre.drop_last() =~= ops.take(i - 1));
            num = negate_number(num);
            i = i - 1;
        }
        Some(Literal::Number(num))
    }
}

/// The number held by an expression that is a value with a number literal
/// and no postfix operation.
pub open spec fn number_of_value(x: Expression) -> Option<Number> {
    match x {
        Expression::Value(s) => if s.inner.postfix@.len() == 0 {
            match *s.inner.literal.inner {
                Literal::Number(n) => Some(n),
                _ => None,
            }
        } else {
            None
        },
        _ => None,
    }
}

/// The expression under a span.
pub open spec fn expr_of(s: &Span<Expression>) -> Expression {
    *s.inner
}

/// The expression after folding: the folded one, or the expression itself when nothing folds.
pub open spec fn result_or(e: Expression, r: Option<Expression>) -> Expression {
    match r {
        Some(x) => x,
        None => e,
    }
}

proof fn lemma_reduced_number(e: Expression, r: Option<Expression>)
    requires
        reduces_to(e, r),
    ensures
        folded_number(e) == number_of_value(result_or(e, r)),
{
}

fn plain_value(lit: Literal, loc: SpanIndex) -> (x: Expression)
    ensures
        is_plain_value(x, lit, loc),
{
    Expression::Value(
        Span::new(Value { literal: Span::new(lit, loc), postfix: Vec::new(), unary: Vec::new() }, loc),
    )
}

impl Expression {
    /// Folds constant parts of the expression. `None` means the expression
    /// stays as it is; see `reduces_to` for what a folded one looks like.
    pub fn const_reduce(&self) -> (r: Option<Expression>)
        requires
            reduce_ok(*self),
        ensures
            reduces_to(*self, r),
        decreases *self,
    {
        match self {
            Expression::Binary { l, r, op } => {
                let lr = l.inner.const_reduce();
                let rr = r.inner.const_reduce();
                proof {
                    lemma_reduced_number(expr_of(l), lr);
                    lemma_reduced_number(expr_of(r), rr);
                }
                let lx: &Expression = match &lr {
                    Some(x) => x,
                    None => &*l.inner,
                };
                let rx: &Expression = match &rr {
                    Some(x) => x,
                    None => &*r.inner,
                };
                match (lx, rx) {
                    (Expression::Value(lv), Expression::Value(rv)) => {
                        match (&*lv.inner.literal.inner, &*rv.inner.literal.inner) {
                            (Literal::Number(ln), Literal::Number(rn)) => {
                                if lv.inner.postfix.len() == 0 && rv.inner.postfix.len() == 0 {
                                    match op.const_apply_numeric(&ln.value, &rn.value) {
                                        Some(value) => Some(
                                            plain_value(
                                                Literal::Number(Number { value, size: None }),
                                                op.location,
                                            ),
                                        ),
                                        None => None,
                                    }
                                } else {
                                    None
                                }
                            },
                            _ => None,
                        }
                    },
                    _ => None,
                }
            },
            Expression::Value(v) => match Self::apply_unary(v) {
                None => None,
                Some(lit) => Some(plain_value(lit, v.location)),
            },
        }
    }
}

} // verus!
