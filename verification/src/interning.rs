//! Growing the type store: its tables only ever get longer, and a type is
//! added only when no equal entry is there yet, so equal types share one
//! key.

use crate::const_value::ConstValue;
use crate::types::{
    AnyTypeKey, ArrayType, ConstraintType, FunctionType, MorphedType, NamedTypeType, RefType, StructType, TupleType, Types,
    all_valid, entries_valid, ranked, refers, valid_key, wf,
};
use crate::value_eq::{
    lemma_same_value_reflexive, lemma_same_value_symmetric, lemma_same_value_transitive, same_value,
};
use vstd::prelude::*;

verus! {

/// `s` is a prefix of `t`.
pub open spec fn prefix<A>(s: Seq<A>, t: Seq<A>) -> bool {
    s.len() <= t.len() && forall|i: int| 0 <= i < s.len() ==> #[trigger] t[i] == s[i]
}

/// Every table of `a` is a prefix of the same table of `b`: `b` holds all
/// the entries of `a`, under the same keys.
pub open spec fn extends(a: Types, b: Types) -> bool {
    &&& prefix(a.functions@, b.functions@)
    &&& prefix(a.constraints@, b.constraints@)
    &&& prefix(a.generics@, b.generics@)
    &&& prefix(a.polymorphs@, b.polymorphs@)
    &&& prefix(a.morphs@, b.morphs@)
    &&& prefix(a.structures@, b.structures@)
    &&& prefix(a.enums@, b.enums@)
    &&& prefix(a.arrays@, b.arrays@)
    &&& prefix(a.tuples@, b.tuples@)
    &&& prefix(a.traits@, b.traits@)
    &&& prefix(a.references@, b.references@)
    &&& prefix(a.modules@, b.modules@)
    &&& prefix(a.named@, b.named@)
}

/// A store extends itself.
pub proof fn lemma_extends_refl(a: Types)
    ensures
        extends(a, a),
{
}

/// Extending is transitive.
pub proof fn lemma_extends_trans(a: Types, b: Types, c: Types)
    requires
        extends(a, b),
        extends(b, c),
    ensures
        extends(a, c),
{
    assert forall|i: int| 0 <= i < a.functions@.len() implies #[trigger] c.functions@[i] == a.functions@[i] by {
        assert(b.functions@[i] == a.functions@[i]);
    }
    assert forall|i: int| 0 <= i < a.constraints@.len() implies #[trigger] c.constraints@[i] == a.constraints@[i] by {
        assert(b.constraints@[i] == a.constraints@[i]);
    }
    assert forall|i: int| 0 <= i < a.generics@.len() implies #[trigger] c.generics@[i] == a.generics@[i] by {
        assert(b.generics@[i] == a.generics@[i]);
    }
    assert forall|i: int| 0 <= i < a.polymorphs@.len() implies #[trigger] c.polymorphs@[i] == a.polymorphs@[i] by {
        assert(b.polymorphs@[i] == a.polymorphs@[i]);
    }
    assert forall|i: int| 0 <= i < a.morphs@.len() implies #[trigger] c.morphs@[i] == a.morphs@[i] by {
        assert(b.morphs@[i] == a.morphs@[i]);
    }
    assert forall|i: int| 0 <= i < a.structures@.len() implies #[trigger] c.structures@[i] == a.structures@[i] by {
        assert(b.structures@[i] == a.structures@[i]);
    }
    assert forall|i: int| 0 <= i < a.enums@.len() implies #[trigger] c.enums@[i] == a.enums@[i] by {
        assert(b.enums@[i] == a.enums@[i]);
    }
    assert forall|i: int| 0 <= i < a.arrays@.len() implies #[trigger] c.arrays@[i] == a.arrays@[i] by {
        assert(b.arrays@[i] == a.arrays@[i]);
    }
    assert forall|i: int| 0 <= i < a.tuples@.len() implies #[trigger] c.tuples@[i] == a.tuples@[i] by {
        assert(b.tuples@[i] == a.tuples@[i]);
    }
    assert forall|i: int| 0 <= i < a.traits@.len() implies #[trigger] c.traits@[i] == a.traits@[i] by {
        assert(b.traits@[i] == a.traits@[i]);
    }
    assert forall|i: int| 0 <= i < a.references@.len() implies #[trigger] c.references@[i] == a.references@[i] by {
        assert(b.references@[i] == a.references@[i]);
    }
    assert forall|i: int| 0 <= i < a.modules@.len() implies #[trigger] c.modules@[i] == a.modules@[i] by {
        assert(b.modules@[i] == a.modules@[i]);
    }
    assert forall|i: int| 0 <= i < a.named@.len() implies #[trigger] c.named@[i] == a.named@[i] by {
        assert(b.named@[i] == a.named@[i]);
    }
}

/// A key of a store is a key of every store that extends it.
pub proof fn lemma_extends_valid(a: Types, b: Types, k: AnyTypeKey)
    requires
        extends(a, b),
        valid_key(a, k),
    ensures
        valid_key(b, k),
{
}

/// A key of a store mentions the same types in every store that extends
/// it.
pub proof fn lemma_extends_refers(a: Types, b: Types, k: AnyTypeKey, c: AnyTypeKey)
    requires
        extends(a, b),
        valid_key(a, k),
    ensures
        refers(b, k, c) == refers(a, k, c),
{
    match k {
        AnyTypeKey::Function(i) => {
            assert(b.functions@[i as int] == a.functions@[i as int]);
        },
        AnyTypeKey::Array(i) => {
            assert(b.arrays@[i as int] == a.arrays@[i as int]);
        },
        AnyTypeKey::Tuple(i) => {
            assert(b.tuples@[i as int] == a.tuples@[i as int]);
        },
        AnyTypeKey::Struct(i) => {
            assert(b.structures@[i as int] == a.structures@[i as int]);
        },
        AnyTypeKey::Enum(i) => {
            assert(b.enums@[i as int] == a.enums@[i as int]);
        },
        AnyTypeKey::Reference(i) => {
            assert(b.references@[i as int] == a.references@[i as int]);
        },
        AnyTypeKey::Named(i) => {
            assert(b.named@[i as int] == a.named@[i as int]);
        },
        AnyTypeKey::Morphed(i) => {
            assert(b.morphs@[i as int] == a.morphs@[i as int]);
        },
        AnyTypeKey::Polymorph(i) => {
            assert(b.polymorphs@[i as int] == a.polymorphs@[i as int]);
        },
        _ => {},
    }
}

/// The highest rank among the keys of `s` (0 for none).
pub open spec fn rank_max(r: spec_fn(AnyTypeKey) -> nat, s: Seq<AnyTypeKey>) -> nat
    decreases s.len(),
{
    if s.len() == 0 {
        0
    } else {
        let m = rank_max(r, s.drop_last());
        if m > r(s.last()) {
            m
        } else {
            r(s.last())
        }
    }
}

proof fn lemma_rank_max(r: spec_fn(AnyTypeKey) -> nat, s: Seq<AnyTypeKey>)
    ensures
        forall|i: int| 0 <= i < s.len() ==> r(#[trigger] s[i]) <= rank_max(r, s),
    decreases s.len(),
{
    if s.len() > 0 {
        lemma_rank_max(r, s.drop_last());
        assert forall|i: int| 0 <= i < s.len() implies r(#[trigger] s[i]) <= rank_max(r, s) by {
            if i < s.len() - 1 {
                assert(s[i] == s.drop_last()[i]);
            }
        }
    }
}

/// Adding one entry, `nk`, whose mentioned types are all among `children`
/// (keys of the well-formed store before), keeps the store well formed:
/// the new entry ranks above everything it mentions.
proof fn lemma_added_entry_keeps_wf(a: Types, b: Types, nk: AnyTypeKey, children: Seq<AnyTypeKey>)
    requires
        wf(a),
        extends(a, b),
        !valid_key(a, nk),
        forall|k: AnyTypeKey| #[trigger] valid_key(b, k) ==> valid_key(a, k) || k == nk,
        forall|c: AnyTypeKey| #[trigger] refers(b, nk, c) ==> children.contains(c),
        all_valid(a, children),
        b.generics@ == a.generics@,
        b.constraints@ == a.constraints@,
        b.polymorphs@ == a.polymorphs@,
    ensures
        wf(b),
{
    let r = choose|r: spec_fn(AnyTypeKey) -> nat| ranked(a, r);
    assert(ranked(a, r));
    lemma_rank_max(r, children);
    let top: nat = rank_max(r, children) + 1;
    let r2 = |k: AnyTypeKey| if k == nk { top } else { r(k) };
    assert forall|k: AnyTypeKey, c: AnyTypeKey| valid_key(b, k) && #[trigger] refers(b, k, c) implies r2(c) < r2(k)
        && valid_key(b, c) by {
        if k == nk {
            assert(children.contains(c));
            let idx = choose|idx: int| 0 <= idx < children.len() && children[idx] == c;
            assert(valid_key(a, children[idx]));
            lemma_extends_valid(a, b, c);
        } else {
            assert(valid_key(a, k));
            lemma_extends_refers(a, b, k, c);
            assert(refers(a, k, c));
            assert(valid_key(a, c));
            lemma_extends_valid(a, b, c);
        }
    }
    assert(ranked(b, r2));
    assert(entries_valid(b));
}

/// After `j`, the index an entry `x` got in a table: the first index of an
/// equal entry that was there already (and the table is unchanged), or the
/// end of the table, where `x` was added.
pub open spec fn interned<T>(before: Seq<T>, after: Seq<T>, x: T, j: int, same: spec_fn(T, T) -> bool) -> bool {
    &&& 0 <= j <= before.len()
    &&& forall|i: int| 0 <= i < j ==> !same(#[trigger] before[i], x)
    &&& j < before.len() ==> same(before[j], x) && after == before
    &&& j == before.len() ==> after == before.push(x)
}

/// Equal function types: the same result and parameters.
pub open spec fn same_function(a: FunctionType, b: FunctionType) -> bool {
    a.returns == b.returns && a.parameters@ == b.parameters@
}

/// Equal array types.
pub open spec fn same_array(a: ArrayType, b: ArrayType) -> bool {
    a.element_type == b.element_type && a.size == b.size
}

/// Equal tuple types.
pub open spec fn same_tuple(a: TupleType, b: TupleType) -> bool {
    a.parameters@ == b.parameters@
}

/// Equal default values of a field: none on both sides, or the same value.
pub open spec fn same_default(a: Option<ConstValue>, b: Option<ConstValue>) -> bool {
    match (a, b) {
        (None, None) => true,
        (Some(x), Some(y)) => same_value(x, y),
        _ => false,
    }
}

/// Equal structure types: field by field the same name, type and default.
pub open spec fn same_struct(a: StructType, b: StructType) -> bool {
    &&& a.parameters@.len() == b.parameters@.len()
    &&& forall|i: int|
        0 <= i < a.parameters@.len() ==> (#[trigger] a.parameters@[i]).0@ == b.parameters@[i].0@
            && a.parameters@[i].1 == b.parameters@[i].1 && same_default(a.parameters@[i].2, b.parameters@[i].2)
}

/// Equal aliases: the same name for the same type.
pub open spec fn same_named(a: NamedTypeType, b: NamedTypeType) -> bool {
    a.name@ == b.name@ && a.repr == b.repr
}

/// Equal instantiations.
pub open spec fn same_morph(a: MorphedType, b: MorphedType) -> bool {
    a.parent == b.parent && a.this == b.this && a.arguments@ == b.arguments@
}

proof fn lemma_same_default_symmetric(a: Option<ConstValue>, b: Option<ConstValue>)
    requires
        same_default(a, b),
    ensures
        same_default(b, a),
{
    if let (Some(x), Some(y)) = (a, b) {
        lemma_same_value_symmetric(x, y);
    }
}

proof fn lemma_same_default_transitive(a: Option<ConstValue>, b: Option<ConstValue>, c: Option<ConstValue>)
    requires
        same_default(a, b),
        same_default(b, c),
    ensures
        same_default(a, c),
{
    if let (Some(x), Some(y), Some(z)) = (a, b, c) {
        lemma_same_value_transitive(x, y, z);
    }
}

/// Defaults that are the same as a third are the same.
pub proof fn lemma_same_default_common(a: Option<ConstValue>, b: Option<ConstValue>, c: Option<ConstValue>)
    requires
        same_default(a, c),
        same_default(b, c),
    ensures
        same_default(a, b),
{
    lemma_same_default_symmetric(b, c);
    lemma_same_default_transitive(a, c, b);
}

proof fn lemma_same_struct_transitive(a: StructType, b: StructType, c: StructType)
    requires
        same_struct(a, b),
        same_struct(b, c),
    ensures
        same_struct(a, c),
{
    assert forall|i: int| 0 <= i < a.parameters@.len() implies (#[trigger] a.parameters@[i]).0@ == c.parameters@[i].0@
        && a.parameters@[i].1 == c.parameters@[i].1 && same_default(a.parameters@[i].2, c.parameters@[i].2) by {
        assert(a.parameters@[i].0@ == b.parameters@[i].0@ && a.parameters@[i].1 == b.parameters@[i].1 && same_default(
            a.parameters@[i].2,
            b.parameters@[i].2,
        ));
        assert(b.parameters@[i].0@ == c.parameters@[i].0@ && b.parameters@[i].1 == c.parameters@[i].1 && same_default(
            b.parameters@[i].2,
            c.parameters@[i].2,
        ));
        lemma_same_default_transitive(a.parameters@[i].2, b.parameters@[i].2, c.parameters@[i].2);
    }
}

proof fn lemma_same_struct_reflexive(a: StructType)
    ensures
        same_struct(a, a),
{
    assert forall|i: int| 0 <= i < a.parameters@.len() implies same_default(
        (#[trigger] a.parameters@[i]).2,
        a.parameters@[i].2,
    ) by {
        if let Some(v) = a.parameters@[i].2 {
            lemma_same_value_reflexive(v);
        }
    }
}

/// Whether two key lists are equal.
pub fn keys_equal(a: &Vec<AnyTypeKey>, b: &Vec<AnyTypeKey>) -> (r: bool)
    ensures
        r == (a@ == b@),
{
    if a.len() != b.len() {
        return false;
    }
    let mut i: usize = 0;
    while i < a.len()
        invariant
            0 <= i <= a@.len(),
            a@.len() == b@.len(),
            forall|j: int| 0 <= j < i ==> a@[j] == b@[j],
        decreases a@.len() - i,
    {
        if a[i] != b[i] {
            assert(a@[i as int] != b@[i as int]);
            return false;
        }
        i = i + 1;
    }
    assert(a@ =~= b@);
    true
}

/// Whether two field defaults are equal (see `same_default`).
fn defaults_equal(a: &Option<ConstValue>, b: &Option<ConstValue>) -> (r: bool)
    ensures
        r == same_default(*a, *b),
{
    match (a, b) {
        (None, None) => true,
        (Some(x), Some(y)) => x.equals(y),
        _ => false,
    }
}

/// Whether two structure types are equal (see `same_struct`).
fn structs_equal(a: &StructType, b: &StructType) -> (r: bool)
    ensures
        r == same_struct(*a, *b),
{
    if a.parameters.len() != b.parameters.len() {
        return false;
    }
    let mut i: usize = 0;
    while i < a.parameters.len()
        invariant
            0 <= i <= a.parameters@.len(),
            a.parameters@.len() == b.parameters@.len(),
            forall|j: int|
                0 <= j < i ==> (#[trigger] a.parameters@[j]).0@ == b.parameters@[j].0@
                    && a.parameters@[j].1 == b.parameters@[j].1 && same_default(a.parameters@[j].2, b.parameters@[j].2),
        decreases a.parameters@.len() - i,
    {
        let x = &a.parameters[i];
        let y = &b.parameters[i];
        if x.0 != y.0 || x.1 != y.1 || !defaults_equal(&x.2, &y.2) {
            return false;
        }
        i = i + 1;
    }
    true
}

/// The function type `f` in the store: the key of an equal one, or of `f`
/// added at the end of the table.
pub fn push_function(types: &mut Types, f: FunctionType) -> (j: usize)
    requires
        wf(*old(types)),
        valid_key(*old(types), f.returns),
        all_valid(*old(types), f.parameters@),
    ensures
        extends(*old(types), *final(types)),
        wf(*final(types)),
        interned(old(types).functions@, final(types).functions@, f, j as int, |a, b| same_function(a, b)),
        same_function(final(types).functions@[j as int], f),
        forall|i: int| 0 <= i < j ==> !same_function(#[trigger] final(types).functions@[i], final(types).functions@[j as int]),
{
    let ghost before = *types;
    let mut i: usize = 0;
    while i < types.functions.len()
        invariant
            *types == before,
            wf(before),
            0 <= i <= types.functions@.len(),
            forall|m: int| 0 <= m < i ==> !same_function(#[trigger] types.functions@[m], f),
        decreases types.functions@.len() - i,
    {
        if types.functions[i].returns == f.returns && keys_equal(&types.functions[i].parameters, &f.parameters) {
            return i;
        }
        i = i + 1;
    }
    let j = types.functions.len();
    let ghost children = seq![f.returns] + f.parameters@;
    types.functions.push(f);
    proof {
        let nk = AnyTypeKey::Function(j);
        assert forall|c: AnyTypeKey| #[trigger] refers(*types, nk, c) implies children.contains(c) by {
            assert(types.functions@[j as int] == f);
            if c == f.returns {
                assert(children[0] == c);
            } else {
                let idx = choose|idx: int| 0 <= idx < f.parameters@.len() && f.parameters@[idx] == c;
                assert(children[idx + 1] == c);
            }
        }
        assert forall|c: AnyTypeKey| children.contains(c) implies valid_key(before, c) by {
            let idx = choose|idx: int| 0 <= idx < children.len() && children[idx] == c;
            if idx > 0 {
                assert(f.parameters@[idx - 1] == c);
            }
        }
        assert(all_valid(before, children));
        lemma_added_entry_keeps_wf(before, *types, nk, children);
    }
    j
}

/// The array type `a` in the store (see `push_function`).
pub fn push_array(types: &mut Types, a: ArrayType) -> (j: usize)
    requires
        wf(*old(types)),
        valid_key(*old(types), a.element_type),
    ensures
        extends(*old(types), *final(types)),
        wf(*final(types)),
        interned(old(types).arrays@, final(types).arrays@, a, j as int, |x, y| same_array(x, y)),
        same_array(final(types).arrays@[j as int], a),
        forall|i: int| 0 <= i < j ==> !same_array(#[trigger] final(types).arrays@[i], final(types).arrays@[j as int]),
{
    let ghost before = *types;
    let mut i: usize = 0;
    while i < types.arrays.len()
        invariant
            *types == before,
            wf(before),
            0 <= i <= types.arrays@.len(),
            forall|m: int| 0 <= m < i ==> !same_array(#[trigger] types.arrays@[m], a),
        decreases types.arrays@.len() - i,
    {
        if types.arrays[i].element_type == a.element_type && types.arrays[i].size == a.size {
            return i;
        }
        i = i + 1;
    }
    let j = types.arrays.len();
    let ghost children = seq![a.element_type];
    types.arrays.push(a);
    proof {
        let nk = AnyTypeKey::Array(j);
        assert forall|c: AnyTypeKey| #[trigger] refers(*types, nk, c) implies children.contains(c) by {
            assert(types.arrays@[j as int] == a);
            assert(children[0] == c);
        }
        lemma_added_entry_keeps_wf(before, *types, nk, children);
    }
    j
}

/// The tuple type `t` in the store (see `push_function`).
pub fn push_tuple(types: &mut Types, t: TupleType) -> (j: usize)
    requires
        wf(*old(types)),
        all_valid(*old(types), t.parameters@),
    ensures
        extends(*old(types), *final(types)),
        wf(*final(types)),
        interned(old(types).tuples@, final(types).tuples@, t, j as int, |x, y| same_tuple(x, y)),
        same_tuple(final(types).tuples@[j as int], t),
        forall|i: int| 0 <= i < j ==> !same_tuple(#[trigger] final(types).tuples@[i], final(types).tuples@[j as int]),
{
    let ghost before = *types;
    let mut i: usize = 0;
    while i < types.tuples.len()
        invariant
            *types == before,
            wf(before),
            0 <= i <= types.tuples@.len(),
            forall|m: int| 0 <= m < i ==> !same_tuple(#[trigger] types.tuples@[m], t),
        decreases types.tuples@.len() - i,
    {
        if keys_equal(&types.tuples[i].parameters, &t.parameters) {
            return i;
        }
        i = i + 1;
    }
    let j = types.tuples.len();
    let ghost children = t.parameters@;
    types.tuples.push(t);
    proof {
        let nk = AnyTypeKey::Tuple(j);
        assert forall|c: AnyTypeKey| #[trigger] refers(*types, nk, c) implies children.contains(c) by {
            assert(types.tuples@[j as int] == t);
        }
        lemma_added_entry_keeps_wf(before, *types, nk, children);
    }
    j
}

/// The structure type `s` in the store (see `push_function`).
pub fn push_struct(types: &mut Types, s: StructType) -> (j: usize)
    requires
        wf(*old(types)),
        forall|i: int| 0 <= i < s.parameters@.len() ==> valid_key(*old(types), (#[trigger] s.parameters@[i]).1),
    ensures
        extends(*old(types), *final(types)),
        wf(*final(types)),
        interned(old(types).structures@, final(types).structures@, s, j as int, |x, y| same_struct(x, y)),
        same_struct(final(types).structures@[j as int], s),
        forall|i: int| 0 <= i < j ==> !same_struct(#[trigger] final(types).structures@[i], final(types).structures@[j as int]),
{
    let ghost before = *types;
    let mut i: usize = 0;
    while i < types.structures.len()
        invariant
            *types == before,
            wf(before),
            0 <= i <= types.structures@.len(),
            forall|m: int| 0 <= m < i ==> !same_struct(#[trigger] types.structures@[m], s),
        decreases types.structures@.len() - i,
    {
        if structs_equal(&types.structures[i], &s) {
            proof {
                assert forall|m: int| 0 <= m < i implies !same_struct(
                    #[trigger] types.structures@[m],
                    types.structures@[i as int],
                ) by {
                    if same_struct(types.structures@[m], types.structures@[i as int]) {
                        lemma_same_struct_transitive(types.structures@[m], types.structures@[i as int], s);
                    }
                }
            }
            return i;
        }
        i = i + 1;
    }
    let j = types.structures.len();
    proof {
        lemma_same_struct_reflexive(s);
    }
    let ghost children = s.parameters@.map_values(|p: (String, AnyTypeKey, Option<ConstValue>)| p.1);
    types.structures.push(s);
    proof {
        let nk = AnyTypeKey::Struct(j);
        assert forall|c: AnyTypeKey| #[trigger] refers(*types, nk, c) implies children.contains(c) by {
            assert(types.structures@[j as int] == s);
            let idx = choose|idx: int|
                0 <= idx < s.parameters@.len() && (#[trigger] s.parameters@[idx]).1 == c;
            assert(children[idx] == c);
        }
        assert forall|c: AnyTypeKey| children.contains(c) implies valid_key(before, c) by {
            let idx = choose|idx: int| 0 <= idx < children.len() && children[idx] == c;
            assert(s.parameters@[idx].1 == c);
        }
        assert(all_valid(before, children));
        lemma_added_entry_keeps_wf(before, *types, nk, children);
    }
    j
}

/// The alias `n` in the store (see `push_function`).
pub fn push_named(types: &mut Types, n: NamedTypeType) -> (j: usize)
    requires
        wf(*old(types)),
        valid_key(*old(types), n.repr),
    ensures
        extends(*old(types), *final(types)),
        wf(*final(types)),
        interned(old(types).named@, final(types).named@, n, j as int, |x, y| same_named(x, y)),
        same_named(final(types).named@[j as int], n),
        forall|i: int| 0 <= i < j ==> !same_named(#[trigger] final(types).named@[i], final(types).named@[j as int]),
{
    let ghost before = *types;
    let mut i: usize = 0;
    while i < types.named.len()
        invariant
            *types == before,
            wf(before),
            0 <= i <= types.named@.len(),
            forall|m: int| 0 <= m < i ==> !same_named(#[trigger] types.named@[m], n),
        decreases types.named@.len() - i,
    {
        if types.named[i].name == n.name && types.named[i].repr == n.repr {
            return i;
        }
        i = i + 1;
    }
    let j = types.named.len();
    let ghost children = seq![n.repr];
    types.named.push(n);
    proof {
        let nk = AnyTypeKey::Named(j);
        assert forall|c: AnyTypeKey| #[trigger] refers(*types, nk, c) implies children.contains(c) by {
            assert(types.named@[j as int] == n);
            assert(children[0] == c);
        }
        lemma_added_entry_keeps_wf(before, *types, nk, children);
    }
    j
}

/// The reference type `r` in the store (see `push_function`).
pub fn push_reference(types: &mut Types, r: RefType) -> (j: usize)
    requires
        wf(*old(types)),
        valid_key(*old(types), r.inner),
    ensures
        extends(*old(types), *final(types)),
        wf(*final(types)),
        interned(old(types).references@, final(types).references@, r, j as int, |x: RefType, y: RefType| x.inner == y.inner),
        final(types).references@[j as int].inner == r.inner,
        forall|i: int| 0 <= i < j ==> (#[trigger] final(types).references@[i]).inner != final(types).references@[j as int].inner,
{
    let ghost before = *types;
    let mut i: usize = 0;
    while i < types.references.len()
        invariant
            *types == before,
            wf(before),
            0 <= i <= types.references@.len(),
            forall|m: int| 0 <= m < i ==> (#[trigger] types.references@[m]).inner != r.inner,
        decreases types.references@.len() - i,
    {
        if types.references[i].inner == r.inner {
            return i;
        }
        i = i + 1;
    }
    let j = types.references.len();
    let ghost children = seq![r.inner];
    types.references.push(r);
    proof {
        let nk = AnyTypeKey::Reference(j);
        assert forall|c: AnyTypeKey| #[trigger] refers(*types, nk, c) implies children.contains(c) by {
            assert(types.references@[j as int] == r);
            assert(children[0] == c);
        }
        lemma_added_entry_keeps_wf(before, *types, nk, children);
    }
    j
}

/// The instantiation `m` in the store (see `push_function`).
pub fn push_morph(types: &mut Types, m: MorphedType) -> (j: usize)
    requires
        wf(*old(types)),
        valid_key(*old(types), m.this),
        all_valid(*old(types), m.arguments@),
    ensures
        extends(*old(types), *final(types)),
        wf(*final(types)),
        interned(old(types).morphs@, final(types).morphs@, m, j as int, |x, y| same_morph(x, y)),
        same_morph(final(types).morphs@[j as int], m),
        forall|i: int| 0 <= i < j ==> !same_morph(#[trigger] final(types).morphs@[i], final(types).morphs@[j as int]),
{
    let ghost before = *types;
    let mut i: usize = 0;
    while i < types.morphs.len()
        invariant
            *types == before,
            wf(before),
            0 <= i <= types.morphs@.len(),
            forall|k: int| 0 <= k < i ==> !same_morph(#[trigger] types.morphs@[k], m),
        decreases types.morphs@.len() - i,
    {
        if types.morphs[i].parent == m.parent && types.morphs[i].this == m.this && keys_equal(
            &types.morphs[i].arguments,
            &m.arguments,
        ) {
            return i;
        }
        i = i + 1;
    }
    let j = types.morphs.len();
    let ghost children = seq![m.this] + m.arguments@;
    types.morphs.push(m);
    proof {
        let nk = AnyTypeKey::Morphed(j);
        assert forall|c: AnyTypeKey| #[trigger] refers(*types, nk, c) implies children.contains(c) by {
            assert(types.morphs@[j as int] == m);
            if c == m.this {
                assert(children[0] == c);
            } else {
                let idx = choose|idx: int| 0 <= idx < m.arguments@.len() && m.arguments@[idx] == c;
                assert(children[idx + 1] == c);
            }
        }
        assert forall|c: AnyTypeKey| children.contains(c) implies valid_key(before, c) by {
            let idx = choose|idx: int| 0 <= idx < children.len() && children[idx] == c;
            if idx > 0 {
                assert(m.arguments@[idx - 1] == c);
            }
        }
        assert(all_valid(before, children));
        lemma_added_entry_keeps_wf(before, *types, nk, children);
    }
    j
}


/// The constraint table as the trait lists of its entries.
pub open spec fn constraint_lists(t: Seq<ConstraintType>) -> Seq<Seq<usize>> {
    t.map_values(|c: ConstraintType| c.constraints@)
}

/// The first index from `i` on of an entry equal to `x`, or the length of
/// `t` if there is none.
pub open spec fn first_list(t: Seq<Seq<usize>>, x: Seq<usize>, i: nat) -> nat
    decreases t.len() - i,
{
    if i >= t.len() {
        t.len()
    } else if t[i as int] == x {
        i
    } else {
        first_list(t, x, i + 1)
    }
}

/// `t` with `x` added at the end, unless an equal entry is there.
pub open spec fn intern_list(t: Seq<Seq<usize>>, x: Seq<usize>) -> Seq<Seq<usize>> {
    if first_list(t, x, 0) < t.len() {
        t
    } else {
        t.push(x)
    }
}

proof fn lemma_first_list(t: Seq<Seq<usize>>, x: Seq<usize>, i: nat, j: nat)
    requires
        i <= j <= t.len(),
        forall|m: int| i <= m < j ==> t[m] != x,
        j < t.len() ==> t[j as int] == x,
    ensures
        first_list(t, x, i) == j,
    decreases j - i,
{
    if i < j {
        lemma_first_list(t, x, i + 1, j);
    }
}

/// Whether two trait lists are equal.
fn lists_equal(a: &Vec<usize>, b: &Vec<usize>) -> (r: bool)
    ensures
        r == (a@ == b@),
{
    if a.len() != b.len() {
        return false;
    }
    let mut i: usize = 0;
    while i < a.len()
        invariant
            a@.len() == b@.len(),
            0 <= i <= a@.len(),
            forall|m: int| 0 <= m < i ==> a@[m] == b@[m],
        decreases a@.len() - i,
    {
        if a[i] != b[i] {
            return false;
        }
        i = i + 1;
    }
    assert(a@ =~= b@);
    true
}

/// The constraint `c` in the store: the index of the first entry with the
/// same traits, in the same order, or of `c` added at the end; nothing
/// else changes.
pub fn push_constraint(types: &mut Types, c: ConstraintType) -> (j: usize)
    ensures
        constraint_lists(final(types).constraints@) == intern_list(constraint_lists(old(types).constraints@), c.constraints@),
        j == first_list(constraint_lists(old(types).constraints@), c.constraints@, 0),
        *final(types) == (Types { constraints: final(types).constraints, ..*old(types) }),
{
    let ghost t = constraint_lists(types.constraints@);
    let ghost x = c.constraints@;
    let mut i: usize = 0;
    while i < types.constraints.len()
        invariant
            t == constraint_lists(types.constraints@),
            x == c.constraints@,
            *types == *old(types),
            0 <= i <= types.constraints@.len(),
            forall|m: int| 0 <= m < i ==> #[trigger] t[m] != x,
        decreases types.constraints@.len() - i,
    {
        if lists_equal(&types.constraints[i].constraints, &c.constraints) {
            proof {
                lemma_first_list(t, x, 0, i as nat);
            }
            return i;
        }
        i = i + 1;
    }
    let j = types.constraints.len();
    proof {
        lemma_first_list(t, x, 0, j as nat);
    }
    types.constraints.push(c);
    assert(constraint_lists(types.constraints@) =~= t.push(x));
    j
}

} // verus!
