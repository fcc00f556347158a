//! Equality of constant values: two values are equal when they have the
//! same shape and the same contents, wherever in the source their parts
//! were read from.

use crate::const_value::{ConstValue, same_contents};
use crate::span::Span;
use vstd::prelude::*;

verus! {

/// `a` and `b` are the same value: the same scalar or text, or aggregates
/// of the same type whose elements (and field names) are pairwise the same
/// values. Source ranges are not compared.
pub open spec fn same_value(a: ConstValue, b: ConstValue) -> bool
    decreases a,
{
    match a {
        ConstValue::Structure { fields: f1, ty: t1 } => match b {
            ConstValue::Structure { fields: f2, ty: t2 } => t1 == t2 && f1@.len() == f2@.len()
                && forall|i: int|
                0 <= i < f1@.len() ==> (*(*#[trigger] f1@[i].inner).0.inner)@ == (*(*f2@[i].inner).0.inner)@
                    && same_value(*(*f1@[i].inner).1.inner, *(*f2@[i].inner).1.inner),
            _ => false,
        },
        ConstValue::Array { elements: e1, ty: t1 } => match b {
            ConstValue::Array { elements: e2, ty: t2 } => t1 == t2 && e1@.len() == e2@.len()
                && forall|i: int|
                0 <= i < e1@.len() ==> same_value(*(#[trigger] e1@[i]).inner, *e2@[i].inner),
            _ => false,
        },
        ConstValue::Tuple { elements: e1, ty: t1 } => match b {
            ConstValue::Tuple { elements: e2, ty: t2 } => t1 == t2 && e1@.len() == e2@.len()
                && forall|i: int|
                0 <= i < e1@.len() ==> same_value(*(#[trigger] e1@[i]).inner, *e2@[i].inner),
            _ => false,
        },
        ConstValue::Number(n1) => b matches ConstValue::Number(n2) && n1 == n2,
        ConstValue::String(s1) => b matches ConstValue::String(s2) && s1@ == s2@,
        ConstValue::Char(c1) => b matches ConstValue::Char(c2) && c1 == c2,
        ConstValue::Bool(x1) => b matches ConstValue::Bool(x2) && x1 == x2,
        ConstValue::EnumVariant { parent: p1, variant: v1 } => b matches ConstValue::EnumVariant {
            parent: p2,
            variant: v2,
        } && p1 == p2 && v1@ == v2@,
    }
}

/// Every value is the same as itself.
pub proof fn lemma_same_value_reflexive(a: ConstValue)
    ensures
        same_value(a, a),
    decreases a,
{
    match a {
        ConstValue::Structure { fields, .. } => {
            assert forall|i: int| 0 <= i < fields@.len() implies same_value(
                *(*(#[trigger] fields@[i]).inner).1.inner,
                *(*fields@[i].inner).1.inner,
            ) by {
                lemma_same_value_reflexive(*(*fields@[i].inner).1.inner);
            }
        },
        ConstValue::Array { elements, .. } => {
            assert forall|i: int| 0 <= i < elements@.len() implies same_value(
                *(#[trigger] elements@[i]).inner,
                *elements@[i].inner,
            ) by {
                lemma_same_value_reflexive(*elements@[i].inner);
            }
        },
        ConstValue::Tuple { elements, .. } => {
            assert forall|i: int| 0 <= i < elements@.len() implies same_value(
                *(#[trigger] elements@[i]).inner,
                *elements@[i].inner,
            ) by {
                lemma_same_value_reflexive(*elements@[i].inner);
            }
        },
        _ => {},
    }
}

/// A copy (same contents, shared elements) is the same value.
pub proof fn lemma_same_contents_same_value(a: ConstValue, b: ConstValue)
    requires
        same_contents(a, b),
    ensures
        same_value(a, b),
{
    lemma_same_value_reflexive(b);
}

/// Sameness is symmetric.
pub proof fn lemma_same_value_symmetric(a: ConstValue, b: ConstValue)
    requires
        same_value(a, b),
    ensures
        same_value(b, a),
    decreases a,
{
    match (a, b) {
        (ConstValue::Structure { fields: f1, .. }, ConstValue::Structure { fields: f2, .. }) => {
            assert forall|i: int| 0 <= i < f2@.len() implies (*(*#[trigger] f2@[i].inner).0.inner)@ == (*(
            *f1@[i].inner).0.inner)@ && same_value(*(*f2@[i].inner).1.inner, *(*f1@[i].inner).1.inner) by {
                assert((*(*f1@[i].inner).0.inner)@ == (*(*f2@[i].inner).0.inner)@);
                lemma_same_value_symmetric(*(*f1@[i].inner).1.inner, *(*f2@[i].inner).1.inner);
            }
        },
        (ConstValue::Array { elements: e1, .. }, ConstValue::Array { elements: e2, .. }) => {
            assert forall|i: int| 0 <= i < e2@.len() implies same_value(*(#[trigger] e2@[i]).inner, *e1@[i].inner) by {
                assert(same_value(*e1@[i].inner, *e2@[i].inner));
                lemma_same_value_symmetric(*e1@[i].inner, *e2@[i].inner);
            }
        },
        (ConstValue::Tuple { elements: e1, .. }, ConstValue::Tuple { elements: e2, .. }) => {
            assert forall|i: int| 0 <= i < e2@.len() implies same_value(*(#[trigger] e2@[i]).inner, *e1@[i].inner) by {
                assert(same_value(*e1@[i].inner, *e2@[i].inner));
                lemma_same_value_symmetric(*e1@[i].inner, *e2@[i].inner);
            }
        },
        _ => {},
    }
}

/// Sameness is transitive.
pub proof fn lemma_same_value_transitive(a: ConstValue, b: ConstValue, c: ConstValue)
    requires
        same_value(a, b),
        same_value(b, c),
    ensures
        same_value(a, c),
    decreases a,
{
    match (a, b, c) {
        (
            ConstValue::Structure { fields: f1, .. },
            ConstValue::Structure { fields: f2, .. },
            ConstValue::Structure { fields: f3, .. },
        ) => {
            assert forall|i: int| 0 <= i < f1@.len() implies (*(*#[trigger] f1@[i].inner).0.inner)@ == (*(
            *f3@[i].inner).0.inner)@ && same_value(*(*f1@[i].inner).1.inner, *(*f3@[i].inner).1.inner) by {
                assert((*(*f1@[i].inner).0.inner)@ == (*(*f2@[i].inner).0.inner)@);
                assert((*(*f2@[i].inner).0.inner)@ == (*(*f3@[i].inner).0.inner)@);
                lemma_same_value_transitive(
                    *(*f1@[i].inner).1.inner,
                    *(*f2@[i].inner).1.inner,
                    *(*f3@[i].inner).1.inner,
                );
            }
        },
        (
            ConstValue::Array { elements: e1, .. },
            ConstValue::Array { elements: e2, .. },
            ConstValue::Array { elements: e3, .. },
        ) => {
            assert forall|i: int| 0 <= i < e1@.len() implies same_value(*(#[trigger] e1@[i]).inner, *e3@[i].inner) by {
                assert(same_value(*e1@[i].inner, *e2@[i].inner));
                assert(same_value(*e2@[i].inner, *e3@[i].inner));
                lemma_same_value_transitive(*e1@[i].inner, *e2@[i].inner, *e3@[i].inner);
            }
        },
        (
            ConstValue::Tuple { elements: e1, .. },
            ConstValue::Tuple { elements: e2, .. },
            ConstValue::Tuple { elements: e3, .. },
        ) => {
            assert forall|i: int| 0 <= i < e1@.len() implies same_value(*(#[trigger] e1@[i]).inner, *e3@[i].inner) by {
                assert(same_value(*e1@[i].inner, *e2@[i].inner));
                assert(same_value(*e2@[i].inner, *e3@[i].inner));
                lemma_same_value_transitive(*e1@[i].inner, *e2@[i].inner, *e3@[i].inner);
            }
        },
        _ => {},
    }
}

/// A value that is the same as a copy is the same as the value copied.
pub proof fn lemma_same_value_copy(x: ConstValue, a: ConstValue, b: ConstValue)
    requires
        same_value(x, a),
        same_contents(a, b),
    ensures
        same_value(x, b),
{
}

impl ConstValue {
    /// Whether the two values are the same (see `same_value`).
    pub fn equals(&self, other: &ConstValue) -> (r: bool)
        ensures
            r == same_value(*self, *other),
        decreases *self, 1nat,
    {
        match self {
            ConstValue::Structure { fields: f1, ty: t1 } => match other {
                ConstValue::Structure { fields: f2, ty: t2 } => {
                    if *t1 != *t2 || f1.len() != f2.len() {
                        false
                    } else {
                        fields_equal(f1, f2)
                    }
                },
                _ => false,
            },
            ConstValue::Array { elements: e1, ty: t1 } => match other {
                ConstValue::Array { elements: e2, ty: t2 } => {
                    if *t1 != *t2 || e1.len() != e2.len() {
                        false
                    } else {
                        elements_equal(e1, e2)
                    }
                },
                _ => false,
            },
            ConstValue::Tuple { elements: e1, ty: t1 } => match other {
                ConstValue::Tuple { elements: e2, ty: t2 } => {
                    if *t1 != *t2 || e1.len() != e2.len() {
                        false
                    } else {
                        elements_equal(e1, e2)
                    }
                },
                _ => false,
            },
            ConstValue::Number(n1) => match other {
                ConstValue::Number(n2) => *n1 == *n2,
                _ => false,
            },
            ConstValue::String(s1) => match other {
                ConstValue::String(s2) => *s1 == *s2,
                _ => false,
            },
            ConstValue::Char(c1) => match other {
                ConstValue::Char(c2) => *c1 == *c2,
                _ => false,
            },
            ConstValue::Bool(x1) => match other {
                ConstValue::Bool(x2) => *x1 == *x2,
                _ => false,
            },
            ConstValue::EnumVariant { parent: p1, variant: v1 } => match other {
                ConstValue::EnumVariant { parent: p2, variant: v2 } => *p1 == *p2 && *v1 == *v2,
                _ => false,
            },
        }
    }
}

/// Whether two element lists of equal length hold pairwise the same values.
fn elements_equal(e1: &Vec<Span<ConstValue>>, e2: &Vec<Span<ConstValue>>) -> (r: bool)
    requires
        e1@.len() == e2@.len(),
    ensures
        r == forall|i: int| 0 <= i < e1@.len() ==> same_value(*(#[trigger] e1@[i]).inner, *e2@[i].inner),
    decreases *e1, 0nat,
{
    let mut i: usize = 0;
    while i < e1.len()
        invariant
            0 <= i <= e1@.len(),
            e1@.len() == e2@.len(),
            forall|j: int| 0 <= j < i ==> same_value(*(#[trigger] e1@[j]).inner, *e2@[j].inner),
        decreases e1@.len() - i,
    {
        if !e1[i].inner.equals(&e2[i].inner) {
            return false;
        }
        i = i + 1;
    }
    true
}

/// Whether two field lists of equal length have pairwise the same names and
/// the same values.
fn fields_equal(
    f1: &Vec<Span<(Span<String>, Span<ConstValue>)>>,
    f2: &Vec<Span<(Span<String>, Span<ConstValue>)>>,
) -> (r: bool)
    requires
        f1@.len() == f2@.len(),
    ensures
        r == forall|i: int|
            0 <= i < f1@.len() ==> (*(*#[trigger] f1@[i].inner).0.inner)@ == (*(*f2@[i].inner).0.inner)@
                && same_value(*(*f1@[i].inner).1.inner, *(*f2@[i].inner).1.inner),
    decreases *f1, 0nat,
{
    let mut i: usize = 0;
    while i < f1.len()
        invariant
            0 <= i <= f1@.len(),
            f1@.len() == f2@.len(),
            forall|j: int|
                0 <= j < i ==> (*(*#[trigger] f1@[j].inner).0.inner)@ == (*(*f2@[j].inner).0.inner)@
                    && same_value(*(*f1@[j].inner).1.inner, *(*f2@[j].inner).1.inner),
        decreases f1@.len() - i,
    {
        let a: &(Span<String>, Span<ConstValue>) = &f1[i].inner;
        let b: &(Span<String>, Span<ConstValue>) = &f2[i].inner;
        let name_a: &String = &a.0.inner;
        let name_b: &String = &b.0.inner;
        if *name_a != *name_b {
            return false;
        }
        if !a.1.inner.equals(&b.1.inner) {
            return false;
        }
        i = i + 1;
    }
    true
}

} // verus!
