//! Building expression trees from flat operand/operator lists by
//! precedence climbing.

use crate::ast::{ExprItem, Expression};
use crate::reduce::{reduce_ok, reduces_to};
use crate::operator::{spec_associativity, spec_precedence, Associativity, Operator};
use crate::span::{Span, SpanIndex};
use vstd::prelude::*;

verus! {

/// An item as a plain value: what it holds and where it stands.
pub open spec fn item_view(i: Span<ExprItem>) -> (ExprItem, SpanIndex) {
    (*i.inner, i.location)
}

/// The items as plain values.
pub open spec fn items_view(s: Seq<Span<ExprItem>>) -> Seq<(ExprItem, SpanIndex)> {
    s.map_values(|i: Span<ExprItem>| item_view(i))
}

/// The operands and operators of a tree, read left to right.
pub open spec fn flatten(t: Span<Expression>) -> Seq<(ExprItem, SpanIndex)>
    decreases t,
{
    match *t.inner {
        Expression::Value(v) => seq![(ExprItem::Value(Expression::Value(v)), t.location)],
        Expression::Binary { l, r, op } => flatten(l) + seq![
            (ExprItem::Operator(*op.inner), op.location),
        ] + flatten(r),
    }
}

/// Every operator in the tree binds at least as tightly as `m`.
pub open spec fn ops_at_least(t: Span<Expression>, m: int) -> bool
    decreases t,
{
    match *t.inner {
        Expression::Value(_) => true,
        Expression::Binary { l, r, op } => {
            &&& spec_precedence(*op.inner) >= m
            &&& ops_at_least(l, m)
            &&& ops_at_least(r, m)
        },
    }
}

/// The operator at the root of the tree, if it has one.
pub open spec fn root_op(t: Span<Expression>) -> Option<Operator> {
    match *t.inner {
        Expression::Value(_) => None,
        Expression::Binary { op, .. } => Some(*op.inner),
    }
}

/// A left operand whose root is `child` may stand under `op`: it binds
/// tighter, or as tightly and `op` groups to the left.
pub open spec fn fits_left(child: Option<Operator>, op: Operator) -> bool {
    match child {
        None => true,
        Some(c) => spec_precedence(c) > spec_precedence(op) || (spec_precedence(c)
            == spec_precedence(op) && spec_associativity(op) == Associativity::Left),
    }
}

/// A right operand whose root is `child` may stand under `op`: it binds
/// tighter, or as tightly and `op` groups to the right.
pub open spec fn fits_right(child: Option<Operator>, op: Operator) -> bool {
    match child {
        None => true,
        Some(c) => spec_precedence(c) > spec_precedence(op) || (spec_precedence(c)
            == spec_precedence(op) && spec_associativity(op) == Associativity::Right),
    }
}

/// The tree groups its operators by precedence and associativity.
pub open spec fn well_shaped(t: Span<Expression>) -> bool
    decreases t,
{
    match *t.inner {
        Expression::Value(_) => true,
        Expression::Binary { l, r, op } => {
            &&& fits_left(root_op(l), *op.inner)
            &&& fits_right(root_op(r), *op.inner)
            &&& well_shaped(l)
            &&& well_shaped(r)
        },
    }
}

/// Every binary node stands at the location of its left operand.
pub open spec fn located_left(t: Span<Expression>) -> bool
    decreases t,
{
    match *t.inner {
        Expression::Value(_) => true,
        Expression::Binary { l, r, .. } => {
            &&& t.location == l.location
            &&& located_left(l)
            &&& located_left(r)
        },
    }
}

/// An item that may stand in an operand list: operands are plain values.
pub open spec fn item_ok(s: Seq<(ExprItem, SpanIndex)>, i: int) -> bool {
    match s[i].0 {
        ExprItem::Value(e) => e is Value,
        ExprItem::Operator(_) => i + 1 < s.len() && s[i + 1].0 is Value,
    }
}

/// From `pos` on, the list starts with an operand, every operand is a plain
/// value and every operator is followed by an operand.
pub open spec fn well_formed_from(s: Seq<(ExprItem, SpanIndex)>, pos: int) -> bool {
    &&& 0 <= pos < s.len()
    &&& s[pos].0 is Value
    &&& forall|i: int| pos <= i < s.len() ==> #[trigger] item_ok(s, i)
}

/// Reading stops at `pos`: the list ends there, or an operand stands there,
/// or an operator that binds less tightly than `min_prec`.
pub open spec fn stops_at(s: Seq<(ExprItem, SpanIndex)>, pos: int, min_prec: int) -> bool {
    pos == s.len() || match s[pos].0 {
        ExprItem::Value(_) => true,
        ExprItem::Operator(op) => spec_precedence(op) < min_prec,
    }
}

/// The least precedence that the right operand of `op` must have.
pub open spec fn next_min(op: Operator) -> int {
    match spec_associativity(op) {
        Associativity::Left => spec_precedence(op) + 1,
        Associativity::Right => spec_precedence(op) as int,
    }
}

/// Operators of equal precedence group the same way.
pub proof fn lemma_precedence_determines_associativity(a: Operator, b: Operator)
    requires
        spec_precedence(a) == spec_precedence(b),
    ensures
        spec_associativity(a) == spec_associativity(b),
{
}

proof fn lemma_ops_at_least_weaken(t: Span<Expression>, a: int, b: int)
    requires
        ops_at_least(t, a),
        b <= a,
    ensures
        ops_at_least(t, b),
    decreases t,
{
    match *t.inner {
        Expression::Value(_) => {},
        Expression::Binary { l, r, op } => {
            lemma_ops_at_least_weaken(l, a, b);
            lemma_ops_at_least_weaken(r, a, b);
        },
    }
}

/// Reads one expression from `items`, starting at `*pos`, taking in only
/// operators that bind at least as tightly as `min_prec`, and leaves `*pos`
/// on the first item it did not use.
pub fn parse_expression_prec(items: &[Span<ExprItem>], pos: &mut usize, min_prec: u8) -> (r:
    Span<Expression>)
    requires
        well_formed_from(items_view(items@), *old(pos) as int),
    ensures
        *old(pos) < *final(pos) <= items@.len(),
        flatten(r) == items_view(items@).subrange(*old(pos) as int, *final(pos) as int),
        ops_at_least(r, min_prec as int),
        well_shaped(r),
        located_left(r),
        stops_at(items_view(items@), *final(pos) as int, min_prec as int),
    decreases items@.len() - *old(pos),
{
    let ghost vs = items_view(items@);
    let ghost start = *pos as int;
    assert(item_ok(vs, start));
    let first = &items[*pos];
    let mut lhs = match &*first.inner {
        ExprItem::Value(expr) => Span::new(expr.duplicate(), first.location),
        ExprItem::Operator(_) => vstd::pervasive::unreached(),
    };
    *pos = *pos + 1;
    proof {
        assert(flatten(lhs) =~= vs.subrange(start, *pos as int));
    }

    while *pos < items.len()
        invariant_except_break
            vs == items_view(items@),
            start == *old(pos),
            well_formed_from(vs, start),
            start < *pos <= items@.len(),
            flatten(lhs) == vs.subrange(start, *pos as int),
            ops_at_least(lhs, min_prec as int),
            well_shaped(lhs),
            located_left(lhs),
            root_op(lhs) matches Some(p) ==> stops_at(vs, *pos as int, next_min(p)),
        ensures
            start < *pos <= items@.len(),
            flatten(lhs) == vs.subrange(start, *pos as int),
            ops_at_least(lhs, min_prec as int),
            well_shaped(lhs),
            located_left(lhs),
            stops_at(vs, *pos as int, min_prec as int),
        decreases items@.len() - *pos,
    {
        let op_item = &items[*pos];
        let op = match &*op_item.inner {
            ExprItem::Operator(op) => *op,
            ExprItem::Value(_) => {
                break;
            },
        };
        let prec = op.precedence();
        if prec < min_prec {
            break;
        }
        let ghost op_pos = *pos as int;
        assert(item_ok(vs, op_pos));
        *pos = *pos + 1;
        let next_min_prec = match op.associativity() {
            Associativity::Left => prec + 1,
            Associativity::Right => prec,
        };
        proof {
            assert forall|i: int| *pos <= i < vs.len() implies #[trigger] item_ok(vs, i) by {
                assert(item_ok(vs, i));
            }
        }
        let rhs = parse_expression_prec(items, pos, next_min_prec);
        proof {
            lemma_ops_at_least_weaken(rhs, next_min_prec as int, min_prec as int);
            if let Some(p) = root_op(lhs) {
                if spec_precedence(p) == spec_precedence(op) {
                    lemma_precedence_determines_associativity(p, op);
                }
            }
        }
        let loc = lhs.location;
        let op_span = Span::new(op, op_item.location);
        lhs = Span::new(Expression::Binary { l: lhs, r: rhs, op: op_span }, loc);
        proof {
            assert(flatten(lhs) =~= vs.subrange(start, *pos as int));
        }
    }
    lhs
}

/// The least precedence that an operator in the left operand of `op` may
/// have.
pub open spec fn left_min(op: Operator) -> int {
    match spec_associativity(op) {
        Associativity::Left => spec_precedence(op) as int,
        Associativity::Right => spec_precedence(op) + 1,
    }
}

/// The item is no operator, or an operator binding at least as tightly as `m`.
pub open spec fn binds_at_least(item: ExprItem, m: int) -> bool {
    match item {
        ExprItem::Operator(o) => spec_precedence(o) >= m,
        ExprItem::Value(_) => true,
    }
}

proof fn lemma_flatten_len(t: Span<Expression>)
    ensures
        flatten(t).len() >= 1,
        flatten(t).len() % 2 == 1,
        (flatten(t).len() == 1) == (*t.inner is Value),
    decreases t,
{
    match *t.inner {
        Expression::Value(_) => {},
        Expression::Binary { l, r, .. } => {
            lemma_flatten_len(l);
            lemma_flatten_len(r);
        },
    }
}

proof fn lemma_root_binds_loosest(t: Span<Expression>)
    requires
        well_shaped(t),
        root_op(t) is Some,
    ensures
        ops_at_least(t, spec_precedence(root_op(t)->0) as int),
    decreases t,
{
    match *t.inner {
        Expression::Value(_) => {},
        Expression::Binary { l, r, op } => {
            let p = spec_precedence(*op.inner) as int;
            assert(root_op(t)->0 == *op.inner);
            if root_op(l) is Some {
                lemma_root_binds_loosest(l);
                lemma_ops_at_least_weaken(l, spec_precedence(root_op(l)->0) as int, p);
            }
            if root_op(r) is Some {
                lemma_root_binds_loosest(r);
                lemma_ops_at_least_weaken(r, spec_precedence(root_op(r)->0) as int, p);
            }
            assert(ops_at_least(l, p));
            assert(ops_at_least(r, p));
        },
    }
}

proof fn lemma_operand_bounds(t: Span<Expression>, l: Span<Expression>, r: Span<Expression>, op: Operator)
    requires
        well_shaped(t),
        *t.inner matches Expression::Binary { l: tl, r: tr, op: top } && tl == l && tr == r && *top.inner == op,
    ensures
        ops_at_least(l, left_min(op)),
        ops_at_least(r, next_min(op)),
{
    if root_op(l) is Some {
        lemma_root_binds_loosest(l);
        lemma_ops_at_least_weaken(l, spec_precedence(root_op(l)->0) as int, left_min(op));
    }
    if root_op(r) is Some {
        lemma_root_binds_loosest(r);
        lemma_ops_at_least_weaken(r, spec_precedence(root_op(r)->0) as int, next_min(op));
    }
}

proof fn lemma_ops_at_least_items(t: Span<Expression>, m: int, i: int)
    requires
        ops_at_least(t, m),
        0 <= i < flatten(t).len(),
    ensures
        binds_at_least(flatten(t)[i].0, m),
    decreases t,
{
    match *t.inner {
        Expression::Value(_) => {},
        Expression::Binary { l, r, op } => {
            let fl = flatten(l);
            let mid = seq![(ExprItem::Operator(*op.inner), op.location)];
            assert(flatten(t) == fl + mid + flatten(r));
            if i < fl.len() {
                lemma_ops_at_least_items(l, m, i);
                assert(flatten(t)[i] == fl[i]);
            } else if i > fl.len() {
                lemma_ops_at_least_items(r, m, i - fl.len() - 1);
                assert(flatten(t)[i] == flatten(r)[i - fl.len() - 1]);
            }
        },
    }
}

/// A list of operands and operators has only one tree that groups it by
/// precedence and associativity and keeps each node at its left operand's
/// location: the tree that parsing builds is determined by the list.
pub proof fn lemma_parse_unique(t1: Span<Expression>, t2: Span<Expression>)
    requires
        flatten(t1) == flatten(t2),
        well_shaped(t1),
        well_shaped(t2),
        located_left(t1),
        located_left(t2),
    ensures
        t1 == t2,
    decreases t1,
{
    lemma_flatten_len(t1);
    lemma_flatten_len(t2);
    let f = flatten(t1);
    match *t1.inner {
        Expression::Value(v1) => {
            match *t2.inner {
                Expression::Value(v2) => {
                    assert(f[0] == (ExprItem::Value(Expression::Value(v1)), t1.location));
                    assert(flatten(t2)[0] == (ExprItem::Value(Expression::Value(v2)), t2.location));
                },
                Expression::Binary { .. } => {},
            }
        },
        Expression::Binary { l: l1, r: r1, op: op1 } => {
            match *t2.inner {
                Expression::Value(_) => {},
                Expression::Binary { l: l2, r: r2, op: op2 } => {
                    let p1 = *op1.inner;
                    let p2 = *op2.inner;
                    let k1 = flatten(l1).len() as int;
                    let k2 = flatten(l2).len() as int;
                    let m1 = seq![(ExprItem::Operator(p1), op1.location)];
                    let m2 = seq![(ExprItem::Operator(p2), op2.location)];
                    assert(f == flatten(l1) + m1 + flatten(r1));
                    assert(f == flatten(l2) + m2 + flatten(r2));
                    lemma_flatten_len(l1);
                    lemma_flatten_len(l2);
                    lemma_flatten_len(r1);
                    lemma_flatten_len(r2);
                    assert(f[k1] == (ExprItem::Operator(p1), op1.location));
                    assert(f[k2] == (ExprItem::Operator(p2), op2.location));
                    lemma_operand_bounds(t1, l1, r1, p1);
                    lemma_operand_bounds(t2, l2, r2, p2);
                    if k1 < k2 {
                        lemma_ops_at_least_items(r1, next_min(p1), k2 - k1 - 1);
                        assert(f[k2] == flatten(r1)[k2 - k1 - 1]);
                        lemma_ops_at_least_items(l2, left_min(p2), k1);
                        assert(f[k1] == flatten(l2)[k1]);
                        if spec_precedence(p1) == spec_precedence(p2) {
                            lemma_precedence_determines_associativity(p1, p2);
                        }
                        assert(false);
                    } else if k2 < k1 {
                        lemma_ops_at_least_items(r2, next_min(p2), k1 - k2 - 1);
                        assert(f[k1] == flatten(r2)[k1 - k2 - 1]);
                        lemma_ops_at_least_items(l1, left_min(p1), k2);
                        assert(f[k2] == flatten(l1)[k2]);
                        if spec_precedence(p1) == spec_precedence(p2) {
                            lemma_precedence_determines_associativity(p1, p2);
                        }
                        assert(false);
                    }
                    assert(flatten(l1) =~= f.subrange(0, k1));
                    assert(flatten(l2) =~= f.subrange(0, k1));
                    assert(flatten(r1) =~= f.subrange(k1 + 1, f.len() as int));
                    assert(flatten(r2) =~= f.subrange(k1 + 1, f.len() as int));
                    lemma_parse_unique(l1, l2);
                    lemma_parse_unique(r1, r2);
                },
            }
        },
    }
}

/// `+` or `-`.
pub open spec fn additive(op: Operator) -> bool {
    op is Add || op is Sub
}

/// `*`, `/` or `%`.
pub open spec fn multiplicative(op: Operator) -> bool {
    op is Mul || op is Div || op is Mod
}

/// The tree that parsing builds is the one that groups the list by
/// precedence and associativity (see `parsed_tree`): any such tree is it.
pub proof fn lemma_parsed_tree_is(t: Span<Expression>)
    requires
        well_shaped(t),
        located_left(t),
    ensures
        parsed_tree(flatten(t)) == t,
{
    let c = parsed_tree(flatten(t));
    assert(flatten(t) == flatten(t) && well_shaped(t) && located_left(t));
    lemma_parse_unique(c, t);
}

/// A product binds tighter than a sum or difference: for all operands `a`,
/// `b`, `c`, the list `a + b * c` (and likewise with `-` for `+` and `/` or
/// `%` for `*`) parses as `a + (b * c)`, whichever side the product
/// stands: `a * b + c` parses as `(a * b) + c`.
pub proof fn lemma_products_bind_tighter(
    a: Span<Expression>,
    b: Span<Expression>,
    c: Span<Expression>,
    add: Span<Operator>,
    mul: Span<Operator>,
    inner: Span<Expression>,
    t: Span<Expression>,
    inner2: Span<Expression>,
    t2: Span<Expression>,
)
    requires
        *a.inner is Value,
        *b.inner is Value,
        *c.inner is Value,
        additive(*add.inner),
        multiplicative(*mul.inner),
        *inner.inner == (Expression::Binary { l: b, r: c, op: mul }),
        inner.location == b.location,
        *t.inner == (Expression::Binary { l: a, r: inner, op: add }),
        t.location == a.location,
        *inner2.inner == (Expression::Binary { l: a, r: b, op: mul }),
        inner2.location == a.location,
        *t2.inner == (Expression::Binary { l: inner2, r: c, op: add }),
        t2.location == a.location,
    ensures
        flatten(t) == seq![
            (ExprItem::Value(*a.inner), a.location),
            (ExprItem::Operator(*add.inner), add.location),
            (ExprItem::Value(*b.inner), b.location),
            (ExprItem::Operator(*mul.inner), mul.location),
            (ExprItem::Value(*c.inner), c.location),
        ],
        parsed_tree(flatten(t)) == t,
        parsed_tree(flatten(t2)) == t2,
{
    assert(flatten(a) == seq![(ExprItem::Value(*a.inner), a.location)]);
    assert(flatten(b) == seq![(ExprItem::Value(*b.inner), b.location)]);
    assert(flatten(c) == seq![(ExprItem::Value(*c.inner), c.location)]);
    assert(flatten(inner) == flatten(b) + seq![(ExprItem::Operator(*mul.inner), mul.location)] + flatten(c));
    assert(flatten(t) == flatten(a) + seq![(ExprItem::Operator(*add.inner), add.location)] + flatten(inner));
    assert(flatten(t) =~= seq![
        (ExprItem::Value(*a.inner), a.location),
        (ExprItem::Operator(*add.inner), add.location),
        (ExprItem::Value(*b.inner), b.location),
        (ExprItem::Operator(*mul.inner), mul.location),
        (ExprItem::Value(*c.inner), c.location),
    ]);
    assert(well_shaped(a) && well_shaped(b) && well_shaped(c));
    assert(located_left(a) && located_left(b) && located_left(c));
    assert(well_shaped(inner));
    assert(located_left(inner));
    assert(well_shaped(t));
    assert(located_left(t));
    lemma_parsed_tree_is(t);
    assert(well_shaped(inner2));
    assert(located_left(inner2));
    assert(well_shaped(t2));
    assert(located_left(t2));
    lemma_parsed_tree_is(t2);
}

/// Sums and differences group to the left: for all operands, `a - b + c`
/// parses as `(a - b) + c` and `a + b - c` as `(a + b) - c`.
pub proof fn lemma_sums_group_left(
    a: Span<Expression>,
    b: Span<Expression>,
    c: Span<Expression>,
    first: Span<Operator>,
    second: Span<Operator>,
    inner: Span<Expression>,
    t: Span<Expression>,
)
    requires
        *a.inner is Value,
        *b.inner is Value,
        *c.inner is Value,
        additive(*first.inner),
        additive(*second.inner),
        *inner.inner == (Expression::Binary { l: a, r: b, op: first }),
        inner.location == a.location,
        *t.inner == (Expression::Binary { l: inner, r: c, op: second }),
        t.location == a.location,
    ensures
        parsed_tree(flatten(t)) == t,
{
    assert(well_shaped(a) && well_shaped(b) && well_shaped(c));
    assert(located_left(a) && located_left(b) && located_left(c));
    assert(well_shaped(inner));
    assert(located_left(inner));
    assert(well_shaped(t));
    assert(located_left(t));
    lemma_parsed_tree_is(t);
}

/// The list alternates operands and operators, starting and ending with an
/// operand, and every operand is a plain value.
pub open spec fn alternating(s: Seq<(ExprItem, SpanIndex)>) -> bool {
    &&& s.len() % 2 == 1
    &&& forall|i: int|
        0 <= i < s.len() ==> #[trigger] item_alternates(s, i)
}

/// The item at `i` is an operand at even places and an operator at odd ones.
pub open spec fn item_alternates(s: Seq<(ExprItem, SpanIndex)>, i: int) -> bool {
    if i % 2 == 0 {
        s[i].0 matches ExprItem::Value(e) && e is Value
    } else {
        s[i].0 is Operator
    }
}

/// The tree that groups the list by precedence and associativity.
pub open spec fn parsed_tree(s: Seq<(ExprItem, SpanIndex)>) -> Span<Expression> {
    choose|t: Span<Expression>| flatten(t) == s && well_shaped(t) && located_left(t)
}

/// Parses a whole alternating list of operands and operators and folds the
/// constant parts of the result.
pub fn expression(items: &[Span<ExprItem>]) -> (r: Span<Expression>)
    requires
        alternating(items_view(items@)),
        reduce_ok(*parsed_tree(items_view(items@)).inner),
    ensures
        ({
            let t = parsed_tree(items_view(items@));
            &&& r.location == t.location
            &&& (reduces_to(*t.inner, Some(*r.inner)) || (reduces_to(*t.inner, None)
                && *r.inner == *t.inner))
        }),
{
    let ghost vs = items_view(items@);
    proof {
        assert(item_alternates(vs, 0));
        assert forall|i: int| 0 <= i < vs.len() implies #[trigger] item_ok(vs, i) by {
            assert(item_alternates(vs, i));
            if i % 2 == 1 {
                assert(item_alternates(vs, i + 1));
            }
        }
    }
    let mut pos: usize = 0;
    let expr = parse_expression_prec(items, &mut pos, 0);
    proof {
        lemma_flatten_len(expr);
        if pos < vs.len() {
            assert(item_alternates(vs, pos as int));
        }
        assert(vs.subrange(0, vs.len() as int) =~= vs);
        let t = parsed_tree(vs);
        assert(flatten(expr) == vs && well_shaped(expr) && located_left(expr));
        lemma_parse_unique(t, expr);
    }
    match expr.inner.const_reduce() {
        Some(reduced) => Span::new(reduced, expr.location),
        None => expr,
    }
}

} // verus!
