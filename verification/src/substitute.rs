//! Substituting types for generic parameters: the type is rebuilt with
//! every generic parameter that has a substitute replaced by it, and the
//! rebuilt types are added to the store (or found there).

use crate::const_value::{ConstValue, Errors};
use crate::interning::{
    extends, interned, lemma_extends_refl, lemma_extends_trans, lemma_extends_valid, push_array, push_function,
    lemma_same_default_common, push_morph, push_named, push_reference, push_struct, push_tuple, same_array,
    same_default, same_function,
    same_morph, same_named, same_struct, same_tuple,
};
use crate::types::{
    AnyTypeKey, ArrayType, FunctionType, MorphedType, NamedTypeType, RefType, StructType, TupleType, Types,
    all_valid, fields_below, keys_below, lemma_refers_lower, refers, type_rank, valid_key, wf,
};
use crate::value_eq::{lemma_same_contents_same_value, lemma_same_value_reflexive, same_value};
use vstd::prelude::*;

verus! {

/// The substitute for the generic parameter `g`: the type paired with the
/// first occurrence of `g` at position `i` or later.
pub open spec fn substitute_from(subs: Seq<(usize, AnyTypeKey)>, g: usize, i: int) -> Option<AnyTypeKey>
    decreases subs.len() - i,
{
    if i < 0 || i >= subs.len() {
        None
    } else if subs[i].0 == g {
        Some(subs[i].1)
    } else {
        substitute_from(subs, g, i + 1)
    }
}

/// The substitute for the generic parameter `g`: the type paired with its
/// first occurrence in `subs`.
pub open spec fn substitute_for(subs: Seq<(usize, AnyTypeKey)>, g: usize) -> Option<AnyTypeKey> {
    substitute_from(subs, g, 0)
}

/// The first type, in the order substitution visits them, into which
/// nothing can be substituted: a trait or a module. Parameters are
/// visited before results, fields and members in order, and an alias,
/// an instantiation, a reference, an array or a polymorphic type through
/// the type it is made of.
pub open spec fn blocker(types: Types, k: AnyTypeKey) -> Option<AnyTypeKey>
    decreases type_rank(types, k), 1nat, 0nat,
    when wf(types) && valid_key(types, k)
{
    match k {
        AnyTypeKey::Primitive(_) | AnyTypeKey::Enum(_) | AnyTypeKey::Generic(_) => None,
        AnyTypeKey::Trait(_) | AnyTypeKey::ModuleRef(_) => Some(k),
        AnyTypeKey::Function(i) => {
            let f = types.functions@[i as int];
            proof {
                lemma_refers_lower(types, k, f.returns);
            }
            match keys_blocker(types, f.parameters@, f.parameters@.len(), type_rank(types, k)) {
                Some(b) => Some(b),
                None => blocker(types, f.returns),
            }
        },
        AnyTypeKey::Array(i) => {
            let e = types.arrays@[i as int].element_type;
            proof {
                lemma_refers_lower(types, k, e);
            }
            blocker(types, e)
        },
        AnyTypeKey::Tuple(i) => {
            let ps = types.tuples@[i as int].parameters@;
            keys_blocker(types, ps, ps.len(), type_rank(types, k))
        },
        AnyTypeKey::Struct(i) => {
            let ps = types.structures@[i as int].parameters@;
            fields_blocker(types, ps, ps.len(), type_rank(types, k))
        },
        AnyTypeKey::Named(i) => {
            let r = types.named@[i as int].repr;
            proof {
                lemma_refers_lower(types, k, r);
            }
            blocker(types, r)
        },
        AnyTypeKey::Morphed(i) => {
            let t = types.morphs@[i as int].this;
            proof {
                lemma_refers_lower(types, k, t);
            }
            blocker(types, t)
        },
        AnyTypeKey::Reference(i) => {
            let t = types.references@[i as int].inner;
            proof {
                lemma_refers_lower(types, k, t);
            }
            blocker(types, t)
        },
        AnyTypeKey::Polymorph(i) => {
            let t = types.polymorphs@[i as int].inner;
            proof {
                lemma_refers_lower(types, k, t);
            }
            blocker(types, t)
        },
    }
}

/// The first blocker (see `blocker`) among the first `n` keys of `ks`.
pub open spec fn keys_blocker(types: Types, ks: Seq<AnyTypeKey>, n: nat, bound: nat) -> Option<AnyTypeKey>
    decreases bound, 0nat, n,
    when wf(types) && keys_below(types, ks, n, bound)
{
    if n == 0 {
        None
    } else {
        match keys_blocker(types, ks, (n - 1) as nat, bound) {
            Some(b) => Some(b),
            None => blocker(types, ks[n - 1]),
        }
    }
}

/// The first blocker among the types of the first `n` fields.
pub open spec fn fields_blocker(
    types: Types,
    ps: Seq<(String, AnyTypeKey, Option<ConstValue>)>,
    n: nat,
    bound: nat,
) -> Option<AnyTypeKey>
    decreases bound, 0nat, n,
    when wf(types) && fields_below(types, ps, n, bound)
{
    if n == 0 {
        None
    } else {
        match fields_blocker(types, ps, (n - 1) as nat, bound) {
            Some(b) => Some(b),
            None => blocker(types, ps[n - 1].1),
        }
    }
}

/// The types that instantiate a polymorphic type: the substitutes, in
/// order.
pub open spec fn substitute_values(subs: Seq<(usize, AnyTypeKey)>) -> Seq<AnyTypeKey> {
    subs.map_values(|p: (usize, AnyTypeKey)| p.1)
}

/// `r`, a key of `new`, is the type `k` of `old` with the substitutes of
/// `subs` put in: a primitive or an enumeration stays; a generic
/// parameter becomes its substitute, if it has one; a function, array,
/// tuple, structure, alias or reference becomes one of the same kind made
/// of the substituted parts (names, sizes and defaults kept); an
/// instantiation becomes its substituted body; and a polymorphic type
/// becomes its substituted body instantiated with the substitutes. A
/// rebuilt type is the first entry of its table equal to it.
pub open spec fn substituted(
    new: Types,
    r: AnyTypeKey,
    old: Types,
    k: AnyTypeKey,
    subs: Seq<(usize, AnyTypeKey)>,
) -> bool
    decreases type_rank(old, k), 1nat, 0nat,
    when wf(old) && valid_key(old, k)
{
    match k {
        AnyTypeKey::Primitive(_) | AnyTypeKey::Enum(_) => r == k,
        AnyTypeKey::Generic(g) => r == match substitute_for(subs, g) {
            Some(s) => s,
            None => k,
        },
        AnyTypeKey::Trait(_) | AnyTypeKey::ModuleRef(_) => false,
        AnyTypeKey::Function(i) => {
            let f = old.functions@[i as int];
            proof {
                lemma_refers_lower(old, k, f.returns);
            }
            &&& r matches AnyTypeKey::Function(j)
            &&& j < new.functions@.len()
            &&& forall|m: int| 0 <= m < j ==> !same_function(#[trigger] new.functions@[m], new.functions@[j as int])
            &&& new.functions@[j as int].parameters@.len() == f.parameters@.len()
            &&& keys_substituted(
                new,
                new.functions@[j as int].parameters@,
                old,
                f.parameters@,
                f.parameters@.len(),
                type_rank(old, k),
                subs,
            )
            &&& substituted(new, new.functions@[j as int].returns, old, f.returns, subs)
        },
        AnyTypeKey::Array(i) => {
            let a = old.arrays@[i as int];
            proof {
                lemma_refers_lower(old, k, a.element_type);
            }
            &&& r matches AnyTypeKey::Array(j)
            &&& j < new.arrays@.len()
            &&& forall|m: int| 0 <= m < j ==> !same_array(#[trigger] new.arrays@[m], new.arrays@[j as int])
            &&& new.arrays@[j as int].size == a.size
            &&& substituted(new, new.arrays@[j as int].element_type, old, a.element_type, subs)
        },
        AnyTypeKey::Tuple(i) => {
            let ps = old.tuples@[i as int].parameters@;
            &&& r matches AnyTypeKey::Tuple(j)
            &&& j < new.tuples@.len()
            &&& forall|m: int| 0 <= m < j ==> !same_tuple(#[trigger] new.tuples@[m], new.tuples@[j as int])
            &&& new.tuples@[j as int].parameters@.len() == ps.len()
            &&& keys_substituted(new, new.tuples@[j as int].parameters@, old, ps, ps.len(), type_rank(old, k), subs)
        },
        AnyTypeKey::Struct(i) => {
            let ps = old.structures@[i as int].parameters@;
            &&& r matches AnyTypeKey::Struct(j)
            &&& j < new.structures@.len()
            &&& forall|m: int| 0 <= m < j ==> !same_struct(#[trigger] new.structures@[m], new.structures@[j as int])
            &&& new.structures@[j as int].parameters@.len() == ps.len()
            &&& fields_substituted(
                new,
                new.structures@[j as int].parameters@,
                old,
                ps,
                ps.len(),
                type_rank(old, k),
                subs,
            )
        },
        AnyTypeKey::Named(i) => {
            let a = old.named@[i as int];
            proof {
                lemma_refers_lower(old, k, a.repr);
            }
            &&& r matches AnyTypeKey::Named(j)
            &&& j < new.named@.len()
            &&& forall|m: int| 0 <= m < j ==> !same_named(#[trigger] new.named@[m], new.named@[j as int])
            &&& new.named@[j as int].name@ == a.name@
            &&& substituted(new, new.named@[j as int].repr, old, a.repr, subs)
        },
        AnyTypeKey::Reference(i) => {
            let t = old.references@[i as int].inner;
            proof {
                lemma_refers_lower(old, k, t);
            }
            &&& r matches AnyTypeKey::Reference(j)
            &&& j < new.references@.len()
            &&& forall|m: int| 0 <= m < j ==> (#[trigger] new.references@[m]).inner != new.references@[j as int].inner
            &&& substituted(new, new.references@[j as int].inner, old, t, subs)
        },
        AnyTypeKey::Morphed(i) => {
            let t = old.morphs@[i as int].this;
            proof {
                lemma_refers_lower(old, k, t);
            }
            substituted(new, r, old, t, subs)
        },
        AnyTypeKey::Polymorph(i) => {
            let t = old.polymorphs@[i as int].inner;
            proof {
                lemma_refers_lower(old, k, t);
            }
            &&& r matches AnyTypeKey::Morphed(j)
            &&& j < new.morphs@.len()
            &&& forall|m: int| 0 <= m < j ==> !same_morph(#[trigger] new.morphs@[m], new.morphs@[j as int])
            &&& new.morphs@[j as int].parent == i
            &&& new.morphs@[j as int].arguments@ == substitute_values(subs)
            &&& substituted(new, new.morphs@[j as int].this, old, t, subs)
        },
    }
}

/// The first `n` keys of `rs` are the first `n` keys of `ks`, substituted.
pub open spec fn keys_substituted(
    new: Types,
    rs: Seq<AnyTypeKey>,
    old: Types,
    ks: Seq<AnyTypeKey>,
    n: nat,
    bound: nat,
    subs: Seq<(usize, AnyTypeKey)>,
) -> bool
    decreases bound, 0nat, n,
    when wf(old) && keys_below(old, ks, n, bound)
{
    if n == 0 {
        true
    } else {
        keys_substituted(new, rs, old, ks, (n - 1) as nat, bound, subs) && substituted(
            new,
            rs[n - 1],
            old,
            ks[n - 1],
            subs,
        )
    }
}

/// The first `n` fields of `qs` are the first `n` fields of `ps` with the
/// same names and defaults and their types substituted.
pub open spec fn fields_substituted(
    new: Types,
    qs: Seq<(String, AnyTypeKey, Option<ConstValue>)>,
    old: Types,
    ps: Seq<(String, AnyTypeKey, Option<ConstValue>)>,
    n: nat,
    bound: nat,
    subs: Seq<(usize, AnyTypeKey)>,
) -> bool
    decreases bound, 0nat, n,
    when wf(old) && fields_below(old, ps, n, bound)
{
    if n == 0 {
        true
    } else {
        &&& fields_substituted(new, qs, old, ps, (n - 1) as nat, bound, subs)
        &&& qs[n - 1].0@ == ps[n - 1].0@
        &&& same_default(qs[n - 1].2, ps[n - 1].2)
        &&& substituted(new, qs[n - 1].1, old, ps[n - 1].1, subs)
    }
}

/// The keys of a well-formed store's entry of kind `Function`, `Tuple`,
/// ... lie below the entry's rank.
proof fn lemma_keys_below(old: Types, k: AnyTypeKey, ks: Seq<AnyTypeKey>)
    requires
        wf(old),
        valid_key(old, k),
        forall|j: int| 0 <= j < ks.len() ==> refers(old, k, #[trigger] ks[j]),
    ensures
        keys_below(old, ks, ks.len(), type_rank(old, k)),
{
    assert forall|j: int| 0 <= j < ks.len() implies valid_key(old, #[trigger] ks[j]) && type_rank(old, ks[j])
        < type_rank(old, k) by {
        lemma_refers_lower(old, k, ks[j]);
    }
}

/// The field types of a structure entry lie below the entry's rank.
proof fn lemma_fields_below(old: Types, k: AnyTypeKey, ps: Seq<(String, AnyTypeKey, Option<ConstValue>)>)
    requires
        wf(old),
        valid_key(old, k),
        forall|j: int| 0 <= j < ps.len() ==> refers(old, k, (#[trigger] ps[j]).1),
    ensures
        fields_below(old, ps, ps.len(), type_rank(old, k)),
{
    assert forall|j: int| 0 <= j < ps.len() implies valid_key(old, (#[trigger] ps[j]).1) && type_rank(old, ps[j].1)
        < type_rank(old, k) by {
        lemma_refers_lower(old, k, ps[j].1);
    }
}

/// A relation that holds in a store holds in every store that extends it.
pub proof fn lemma_substituted_extends(
    a: Types,
    b: Types,
    r: AnyTypeKey,
    old: Types,
    k: AnyTypeKey,
    subs: Seq<(usize, AnyTypeKey)>,
)
    requires
        wf(old),
        valid_key(old, k),
        extends(a, b),
        substituted(a, r, old, k, subs),
    ensures
        substituted(b, r, old, k, subs),
    decreases type_rank(old, k), 1nat, 0nat,
{
    match k {
        AnyTypeKey::Function(i) => {
            let f = old.functions@[i as int];
            lemma_refers_lower(old, k, f.returns);
            let j = r->Function_0;
            assert(b.functions@[j as int] == a.functions@[j as int]);
            assert forall|m: int| 0 <= m < f.parameters@.len() implies refers(old, k, #[trigger] f.parameters@[m]) by {
                assert(f.parameters@.contains(f.parameters@[m]));
            }
            lemma_keys_below(old, k, f.parameters@);
            lemma_keys_substituted_extends(
                a,
                b,
                a.functions@[j as int].parameters@,
                old,
                f.parameters@,
                f.parameters@.len(),
                type_rank(old, k),
                subs,
            );
            lemma_substituted_extends(a, b, a.functions@[j as int].returns, old, f.returns, subs);
        },
        AnyTypeKey::Array(i) => {
            let e = old.arrays@[i as int].element_type;
            lemma_refers_lower(old, k, e);
            let j = r->Array_0;
            assert(b.arrays@[j as int] == a.arrays@[j as int]);
            lemma_substituted_extends(a, b, a.arrays@[j as int].element_type, old, e, subs);
        },
        AnyTypeKey::Tuple(i) => {
            let ps = old.tuples@[i as int].parameters@;
            let j = r->Tuple_0;
            assert(b.tuples@[j as int] == a.tuples@[j as int]);
            assert forall|m: int| 0 <= m < ps.len() implies refers(old, k, #[trigger] ps[m]) by {
                assert(ps.contains(ps[m]));
            }
            lemma_keys_below(old, k, ps);
            lemma_keys_substituted_extends(a, b, a.tuples@[j as int].parameters@, old, ps, ps.len(), type_rank(old, k), subs);
        },
        AnyTypeKey::Struct(i) => {
            let ps = old.structures@[i as int].parameters@;
            let j = r->Struct_0;
            assert(b.structures@[j as int] == a.structures@[j as int]);
            lemma_fields_below(old, k, ps);
            lemma_fields_substituted_extends(
                a,
                b,
                a.structures@[j as int].parameters@,
                old,
                ps,
                ps.len(),
                type_rank(old, k),
                subs,
            );
        },
        AnyTypeKey::Named(i) => {
            let t = old.named@[i as int].repr;
            lemma_refers_lower(old, k, t);
            let j = r->Named_0;
            assert(b.named@[j as int] == a.named@[j as int]);
            lemma_substituted_extends(a, b, a.named@[j as int].repr, old, t, subs);
        },
        AnyTypeKey::Reference(i) => {
            let t = old.references@[i as int].inner;
            lemma_refers_lower(old, k, t);
            let j = r->Reference_0;
            assert(b.references@[j as int] == a.references@[j as int]);
            lemma_substituted_extends(a, b, a.references@[j as int].inner, old, t, subs);
        },
        AnyTypeKey::Morphed(i) => {
            let t = old.morphs@[i as int].this;
            lemma_refers_lower(old, k, t);
            lemma_substituted_extends(a, b, r, old, t, subs);
        },
        AnyTypeKey::Polymorph(i) => {
            let t = old.polymorphs@[i as int].inner;
            lemma_refers_lower(old, k, t);
            let j = r->Morphed_0;
            assert(b.morphs@[j as int] == a.morphs@[j as int]);
            lemma_substituted_extends(a, b, a.morphs@[j as int].this, old, t, subs);
        },
        _ => {},
    }
}

proof fn lemma_keys_substituted_extends(
    a: Types,
    b: Types,
    rs: Seq<AnyTypeKey>,
    old: Types,
    ks: Seq<AnyTypeKey>,
    n: nat,
    bound: nat,
    subs: Seq<(usize, AnyTypeKey)>,
)
    requires
        wf(old),
        keys_below(old, ks, n, bound),
        extends(a, b),
        keys_substituted(a, rs, old, ks, n, bound, subs),
    ensures
        keys_substituted(b, rs, old, ks, n, bound, subs),
    decreases bound, 0nat, n,
{
    if n > 0 {
        lemma_keys_substituted_extends(a, b, rs, old, ks, (n - 1) as nat, bound, subs);
        lemma_substituted_extends(a, b, rs[n - 1], old, ks[n - 1], subs);
    }
}

proof fn lemma_fields_substituted_extends(
    a: Types,
    b: Types,
    qs: Seq<(String, AnyTypeKey, Option<ConstValue>)>,
    old: Types,
    ps: Seq<(String, AnyTypeKey, Option<ConstValue>)>,
    n: nat,
    bound: nat,
    subs: Seq<(usize, AnyTypeKey)>,
)
    requires
        wf(old),
        fields_below(old, ps, n, bound),
        extends(a, b),
        fields_substituted(a, qs, old, ps, n, bound, subs),
    ensures
        fields_substituted(b, qs, old, ps, n, bound, subs),
    decreases bound, 0nat, n,
{
    if n > 0 {
        lemma_fields_substituted_extends(a, b, qs, old, ps, (n - 1) as nat, bound, subs);
        lemma_substituted_extends(a, b, qs[n - 1].1, old, ps[n - 1].1, subs);
    }
}

/// The recursive relation over the first `n` keys is the relation key by
/// key.
proof fn lemma_keys_substituted_forall(
    new: Types,
    rs: Seq<AnyTypeKey>,
    old: Types,
    ks: Seq<AnyTypeKey>,
    n: nat,
    bound: nat,
    subs: Seq<(usize, AnyTypeKey)>,
)
    requires
        wf(old),
        keys_below(old, ks, n, bound),
    ensures
        keys_substituted(new, rs, old, ks, n, bound, subs) <==> forall|j: int|
            0 <= j < n ==> substituted(new, #[trigger] rs[j], old, ks[j], subs),
    decreases n,
{
    if n > 0 {
        lemma_keys_substituted_forall(new, rs, old, ks, (n - 1) as nat, bound, subs);
    }
}

/// The recursive relation over the first `n` fields is the relation field
/// by field.
proof fn lemma_fields_substituted_forall(
    new: Types,
    qs: Seq<(String, AnyTypeKey, Option<ConstValue>)>,
    old: Types,
    ps: Seq<(String, AnyTypeKey, Option<ConstValue>)>,
    n: nat,
    bound: nat,
    subs: Seq<(usize, AnyTypeKey)>,
)
    requires
        wf(old),
        fields_below(old, ps, n, bound),
    ensures
        fields_substituted(new, qs, old, ps, n, bound, subs) <==> forall|j: int|
            0 <= j < n ==> (#[trigger] qs[j]).0@ == ps[j].0@ && same_default(qs[j].2, ps[j].2) && substituted(
                new,
                qs[j].1,
                old,
                ps[j].1,
                subs,
            ),
    decreases n,
{
    if n > 0 {
        lemma_fields_substituted_forall(new, qs, old, ps, (n - 1) as nat, bound, subs);
    }
}

/// Once a blocker is found among the first `m` keys, it is the first one
/// among any longer prefix; while none is, the keys have none.
proof fn lemma_keys_blocker(old: Types, ks: Seq<AnyTypeKey>, m: nat, n: nat, bound: nat)
    requires
        wf(old),
        keys_below(old, ks, n, bound),
        m <= n,
    ensures
        keys_blocker(old, ks, m, bound) is Some ==> keys_blocker(old, ks, n, bound) == keys_blocker(
            old,
            ks,
            m,
            bound,
        ),
    decreases n - m,
{
    if m < n {
        lemma_keys_blocker(old, ks, m, (n - 1) as nat, bound);
    }
}

/// As `lemma_keys_blocker`, for fields.
proof fn lemma_fields_blocker(
    old: Types,
    ps: Seq<(String, AnyTypeKey, Option<ConstValue>)>,
    m: nat,
    n: nat,
    bound: nat,
)
    requires
        wf(old),
        fields_below(old, ps, n, bound),
        m <= n,
    ensures
        fields_blocker(old, ps, m, bound) is Some ==> fields_blocker(old, ps, n, bound) == fields_blocker(
            old,
            ps,
            m,
            bound,
        ),
    decreases n - m,
{
    if m < n {
        lemma_fields_blocker(old, ps, m, (n - 1) as nat, bound);
    }
}

/// In one store, a type with given substitutes has one substituted key:
/// substitution rebuilds equal types under equal keys.
pub proof fn lemma_substituted_unique(
    new: Types,
    r1: AnyTypeKey,
    r2: AnyTypeKey,
    old: Types,
    k: AnyTypeKey,
    subs: Seq<(usize, AnyTypeKey)>,
)
    requires
        wf(old),
        valid_key(old, k),
        substituted(new, r1, old, k, subs),
        substituted(new, r2, old, k, subs),
    ensures
        r1 == r2,
    decreases type_rank(old, k), 1nat, 0nat,
{
    match k {
        AnyTypeKey::Function(i) => {
            let f = old.functions@[i as int];
            lemma_refers_lower(old, k, f.returns);
            let j1 = r1->Function_0;
            let j2 = r2->Function_0;
            let e1 = new.functions@[j1 as int];
            let e2 = new.functions@[j2 as int];
            assert forall|m: int| 0 <= m < f.parameters@.len() implies refers(old, k, #[trigger] f.parameters@[m]) by {
                assert(f.parameters@.contains(f.parameters@[m]));
            }
            lemma_keys_below(old, k, f.parameters@);
            lemma_keys_substituted_unique(
                new,
                e1.parameters@,
                e2.parameters@,
                old,
                f.parameters@,
                f.parameters@.len(),
                type_rank(old, k),
                subs,
            );
            assert(e1.parameters@ =~= e2.parameters@);
            lemma_substituted_unique(new, e1.returns, e2.returns, old, f.returns, subs);
            assert(same_function(e1, e2));
            assert(same_function(e2, e1));
        },
        AnyTypeKey::Array(i) => {
            let a = old.arrays@[i as int];
            lemma_refers_lower(old, k, a.element_type);
            let j1 = r1->Array_0;
            let j2 = r2->Array_0;
            lemma_substituted_unique(
                new,
                new.arrays@[j1 as int].element_type,
                new.arrays@[j2 as int].element_type,
                old,
                a.element_type,
                subs,
            );
            assert(same_array(new.arrays@[j1 as int], new.arrays@[j2 as int]));
            assert(same_array(new.arrays@[j2 as int], new.arrays@[j1 as int]));
        },
        AnyTypeKey::Tuple(i) => {
            let ps = old.tuples@[i as int].parameters@;
            let j1 = r1->Tuple_0;
            let j2 = r2->Tuple_0;
            let e1 = new.tuples@[j1 as int];
            let e2 = new.tuples@[j2 as int];
            assert forall|m: int| 0 <= m < ps.len() implies refers(old, k, #[trigger] ps[m]) by {
                assert(ps.contains(ps[m]));
            }
            lemma_keys_below(old, k, ps);
            lemma_keys_substituted_unique(new, e1.parameters@, e2.parameters@, old, ps, ps.len(), type_rank(old, k), subs);
            assert(e1.parameters@ =~= e2.parameters@);
            assert(same_tuple(e1, e2));
            assert(same_tuple(e2, e1));
        },
        AnyTypeKey::Struct(i) => {
            let ps = old.structures@[i as int].parameters@;
            let j1 = r1->Struct_0;
            let j2 = r2->Struct_0;
            let e1 = new.structures@[j1 as int];
            let e2 = new.structures@[j2 as int];
            lemma_fields_below(old, k, ps);
            lemma_fields_substituted_forall(new, e1.parameters@, old, ps, ps.len(), type_rank(old, k), subs);
            lemma_fields_substituted_forall(new, e2.parameters@, old, ps, ps.len(), type_rank(old, k), subs);
            assert forall|m: int| 0 <= m < e1.parameters@.len() implies (#[trigger] e1.parameters@[m]).0@
                == e2.parameters@[m].0@ && e1.parameters@[m].1 == e2.parameters@[m].1 && same_default(
                e1.parameters@[m].2,
                e2.parameters@[m].2,
            ) by {
                lemma_substituted_unique(new, e1.parameters@[m].1, e2.parameters@[m].1, old, ps[m].1, subs);
                lemma_same_default_common(e1.parameters@[m].2, e2.parameters@[m].2, ps[m].2);
            }
            assert(same_struct(e1, e2));
            assert forall|m: int| 0 <= m < e2.parameters@.len() implies (#[trigger] e2.parameters@[m]).0@
                == e1.parameters@[m].0@ && e2.parameters@[m].1 == e1.parameters@[m].1 && same_default(
                e2.parameters@[m].2,
                e1.parameters@[m].2,
            ) by {
                lemma_substituted_unique(new, e1.parameters@[m].1, e2.parameters@[m].1, old, ps[m].1, subs);
                lemma_same_default_common(e2.parameters@[m].2, e1.parameters@[m].2, ps[m].2);
            }
            assert(same_struct(e2, e1));
        },
        AnyTypeKey::Named(i) => {
            let a = old.named@[i as int];
            lemma_refers_lower(old, k, a.repr);
            let j1 = r1->Named_0;
            let j2 = r2->Named_0;
            lemma_substituted_unique(new, new.named@[j1 as int].repr, new.named@[j2 as int].repr, old, a.repr, subs);
            assert(same_named(new.named@[j1 as int], new.named@[j2 as int]));
            assert(same_named(new.named@[j2 as int], new.named@[j1 as int]));
        },
        AnyTypeKey::Reference(i) => {
            let t = old.references@[i as int].inner;
            lemma_refers_lower(old, k, t);
            let j1 = r1->Reference_0;
            let j2 = r2->Reference_0;
            lemma_substituted_unique(new, new.references@[j1 as int].inner, new.references@[j2 as int].inner, old, t, subs);
        },
        AnyTypeKey::Morphed(i) => {
            let t = old.morphs@[i as int].this;
            lemma_refers_lower(old, k, t);
            lemma_substituted_unique(new, r1, r2, old, t, subs);
        },
        AnyTypeKey::Polymorph(i) => {
            let t = old.polymorphs@[i as int].inner;
            lemma_refers_lower(old, k, t);
            let j1 = r1->Morphed_0;
            let j2 = r2->Morphed_0;
            lemma_substituted_unique(new, new.morphs@[j1 as int].this, new.morphs@[j2 as int].this, old, t, subs);
            assert(same_morph(new.morphs@[j1 as int], new.morphs@[j2 as int]));
            assert(same_morph(new.morphs@[j2 as int], new.morphs@[j1 as int]));
        },
        _ => {},
    }
}

proof fn lemma_keys_substituted_unique(
    new: Types,
    rs1: Seq<AnyTypeKey>,
    rs2: Seq<AnyTypeKey>,
    old: Types,
    ks: Seq<AnyTypeKey>,
    n: nat,
    bound: nat,
    subs: Seq<(usize, AnyTypeKey)>,
)
    requires
        wf(old),
        keys_below(old, ks, n, bound),
        keys_substituted(new, rs1, old, ks, n, bound, subs),
        keys_substituted(new, rs2, old, ks, n, bound, subs),
    ensures
        forall|j: int| 0 <= j < n ==> #[trigger] rs1[j] == rs2[j],
    decreases bound, 0nat, n,
{
    if n > 0 {
        lemma_keys_substituted_unique(new, rs1, rs2, old, ks, (n - 1) as nat, bound, subs);
        lemma_substituted_unique(new, rs1[n - 1], rs2[n - 1], old, ks[n - 1], subs);
    }
}

/// The relation does not depend on which of two stores, one extending the
/// other, the substituted type is read from.
pub proof fn lemma_substituted_old(
    new: Types,
    r: AnyTypeKey,
    s0: Types,
    s1: Types,
    k: AnyTypeKey,
    subs: Seq<(usize, AnyTypeKey)>,
)
    requires
        wf(s0),
        wf(s1),
        extends(s0, s1),
        valid_key(s0, k),
        substituted(new, r, s0, k, subs),
    ensures
        substituted(new, r, s1, k, subs),
    decreases type_rank(s0, k), 1nat, 0nat,
{
    lemma_extends_valid(s0, s1, k);
    match k {
        AnyTypeKey::Function(i) => {
            let f = s0.functions@[i as int];
            assert(s1.functions@[i as int] == f);
            lemma_refers_lower(s0, k, f.returns);
            lemma_refers_lower(s1, k, f.returns);
            let e = new.functions@[r->Function_0 as int];
            assert forall|m: int| 0 <= m < f.parameters@.len() implies refers(s0, k, #[trigger] f.parameters@[m])
                && refers(s1, k, f.parameters@[m]) by {
                assert(f.parameters@.contains(f.parameters@[m]));
            }
            lemma_keys_below(s0, k, f.parameters@);
            lemma_keys_below(s1, k, f.parameters@);
            lemma_keys_substituted_old(
                new,
                e.parameters@,
                s0,
                s1,
                f.parameters@,
                f.parameters@.len(),
                type_rank(s0, k),
                type_rank(s1, k),
                subs,
            );
            lemma_substituted_old(new, e.returns, s0, s1, f.returns, subs);
        },
        AnyTypeKey::Array(i) => {
            let a = s0.arrays@[i as int];
            assert(s1.arrays@[i as int] == a);
            lemma_refers_lower(s0, k, a.element_type);
            lemma_refers_lower(s1, k, a.element_type);
            lemma_substituted_old(new, new.arrays@[r->Array_0 as int].element_type, s0, s1, a.element_type, subs);
        },
        AnyTypeKey::Tuple(i) => {
            let ps = s0.tuples@[i as int].parameters@;
            assert(s1.tuples@[i as int] == s0.tuples@[i as int]);
            let e = new.tuples@[r->Tuple_0 as int];
            assert forall|m: int| 0 <= m < ps.len() implies refers(s0, k, #[trigger] ps[m]) && refers(s1, k, ps[m]) by {
                assert(ps.contains(ps[m]));
            }
            lemma_keys_below(s0, k, ps);
            lemma_keys_below(s1, k, ps);
            lemma_keys_substituted_old(
                new,
                e.parameters@,
                s0,
                s1,
                ps,
                ps.len(),
                type_rank(s0, k),
                type_rank(s1, k),
                subs,
            );
        },
        AnyTypeKey::Struct(i) => {
            let ps = s0.structures@[i as int].parameters@;
            assert(s1.structures@[i as int] == s0.structures@[i as int]);
            let e = new.structures@[r->Struct_0 as int];
            lemma_fields_below(s0, k, ps);
            lemma_fields_below(s1, k, ps);
            lemma_fields_substituted_forall(new, e.parameters@, s0, ps, ps.len(), type_rank(s0, k), subs);
            lemma_fields_substituted_forall(new, e.parameters@, s1, ps, ps.len(), type_rank(s1, k), subs);
            assert forall|m: int| 0 <= m < ps.len() implies substituted(
                new,
                (#[trigger] e.parameters@[m]).1,
                s1,
                ps[m].1,
                subs,
            ) by {
                lemma_substituted_old(new, e.parameters@[m].1, s0, s1, ps[m].1, subs);
            }
        },
        AnyTypeKey::Named(i) => {
            let a = s0.named@[i as int];
            assert(s1.named@[i as int] == a);
            lemma_refers_lower(s0, k, a.repr);
            lemma_refers_lower(s1, k, a.repr);
            lemma_substituted_old(new, new.named@[r->Named_0 as int].repr, s0, s1, a.repr, subs);
        },
        AnyTypeKey::Reference(i) => {
            let t = s0.references@[i as int].inner;
            assert(s1.references@[i as int] == s0.references@[i as int]);
            lemma_refers_lower(s0, k, t);
            lemma_refers_lower(s1, k, t);
            lemma_substituted_old(new, new.references@[r->Reference_0 as int].inner, s0, s1, t, subs);
        },
        AnyTypeKey::Morphed(i) => {
            let t = s0.morphs@[i as int].this;
            assert(s1.morphs@[i as int] == s0.morphs@[i as int]);
            lemma_refers_lower(s0, k, t);
            lemma_refers_lower(s1, k, t);
            lemma_substituted_old(new, r, s0, s1, t, subs);
        },
        AnyTypeKey::Polymorph(i) => {
            let t = s0.polymorphs@[i as int].inner;
            assert(s1.polymorphs@[i as int] == s0.polymorphs@[i as int]);
            lemma_refers_lower(s0, k, t);
            lemma_refers_lower(s1, k, t);
            lemma_substituted_old(new, new.morphs@[r->Morphed_0 as int].this, s0, s1, t, subs);
        },
        _ => {},
    }
}

proof fn lemma_keys_substituted_old(
    new: Types,
    rs: Seq<AnyTypeKey>,
    s0: Types,
    s1: Types,
    ks: Seq<AnyTypeKey>,
    n: nat,
    b0: nat,
    b1: nat,
    subs: Seq<(usize, AnyTypeKey)>,
)
    requires
        wf(s0),
        wf(s1),
        extends(s0, s1),
        keys_below(s0, ks, n, b0),
        keys_below(s1, ks, n, b1),
        keys_substituted(new, rs, s0, ks, n, b0, subs),
    ensures
        keys_substituted(new, rs, s1, ks, n, b1, subs),
    decreases b0, 0nat, n,
{
    if n > 0 {
        lemma_keys_substituted_old(new, rs, s0, s1, ks, (n - 1) as nat, b0, b1, subs);
        lemma_substituted_old(new, rs[n - 1], s0, s1, ks[n - 1], subs);
    }
}

/// Substituting a type again, with the same substitutes, in the store a
/// substitution left behind, gives the same key: the rebuilt types are
/// found there, not added a second time.
pub proof fn lemma_substitute_again(
    s0: Types,
    s1: Types,
    s2: Types,
    k: AnyTypeKey,
    subs: Seq<(usize, AnyTypeKey)>,
    r1: AnyTypeKey,
    r2: AnyTypeKey,
)
    requires
        wf(s0),
        wf(s1),
        valid_key(s0, k),
        extends(s0, s1),
        extends(s1, s2),
        substituted(s1, r1, s0, k, subs),
        substituted(s2, r2, s1, k, subs),
    ensures
        r1 == r2,
{
    lemma_extends_valid(s0, s1, k);
    lemma_substituted_extends(s1, s2, r1, s0, k, subs);
    lemma_substituted_old(s2, r1, s0, s1, k, subs);
    lemma_substituted_unique(s2, r1, r2, s1, k, subs);
}

/// What the substitution helpers need: both stores well formed, the
/// current one grown from the one substitution started on, and every
/// substitute a key of that one.
pub open spec fn substitution_ready(orig: Types, cur: Types, subs: Seq<(usize, AnyTypeKey)>) -> bool {
    &&& wf(orig)
    &&& wf(cur)
    &&& extends(orig, cur)
    &&& forall|i: int| 0 <= i < subs.len() ==> valid_key(orig, #[trigger] subs[i].1)
}

/// A field's default `c` was copied from `d`.
pub open spec fn copied_default(c: Option<ConstValue>, d: Option<ConstValue>) -> bool {
    match (c, d) {
        (None, None) => true,
        (Some(x), Some(y)) => crate::const_value::same_contents(x, y),
        _ => false,
    }
}

proof fn lemma_copied_default(e: Option<ConstValue>, c: Option<ConstValue>, d: Option<ConstValue>)
    requires
        copied_default(c, d),
    ensures
        same_default(c, d),
        same_default(e, c) ==> same_default(e, d),
{
    match (c, d) {
        (Some(x), Some(y)) => {
            lemma_same_contents_same_value(x, y);
            if let Some(z) = e {
                if same_value(z, x) {
                    crate::value_eq::lemma_same_value_copy(z, x, y);
                }
            }
        },
        _ => {},
    }
}

/// `src` holds the fields of `ps`: the same names and types, and copied
/// defaults.
pub open spec fn copied_fields(
    src: Seq<(String, AnyTypeKey, Option<ConstValue>)>,
    ps: Seq<(String, AnyTypeKey, Option<ConstValue>)>,
) -> bool {
    &&& src.len() == ps.len()
    &&& forall|j: int|
        0 <= j < src.len() ==> (#[trigger] src[j]).0@ == ps[j].0@ && src[j].1 == ps[j].1 && copied_default(
            src[j].2,
            ps[j].2,
        )
}

proof fn lemma_copied_default_trans(a: Option<ConstValue>, b: Option<ConstValue>, c: Option<ConstValue>)
    requires
        copied_default(a, b),
        copied_default(b, c),
    ensures
        copied_default(a, c),
{
}

/// A copy of the fields of a structure.
fn copy_fields(ps: &Vec<(String, AnyTypeKey, Option<ConstValue>)>) -> (r: Vec<
    (String, AnyTypeKey, Option<ConstValue>),
>)
    ensures
        copied_fields(r@, ps@),
{
    let mut r: Vec<(String, AnyTypeKey, Option<ConstValue>)> = Vec::new();
    let mut i: usize = 0;
    while i < ps.len()
        invariant
            0 <= i <= ps@.len(),
            r@.len() == i,
            forall|j: int|
                0 <= j < i ==> (#[trigger] r@[j]).0@ == ps@[j].0@ && r@[j].1 == ps@[j].1 && copied_default(
                    r@[j].2,
                    ps@[j].2,
                ),
        decreases ps@.len() - i,
    {
        let name = ps[i].0.clone();
        let default = match &ps[i].2 {
            Some(v) => Some(v.copy()),
            None => None,
        };
        r.push((name, ps[i].1, default));
        i = i + 1;
    }
    r
}

/// The substitute for the generic parameter `g`, if it has one.
fn lookup_substitute(subs: &Vec<(usize, AnyTypeKey)>, g: usize) -> (r: Option<AnyTypeKey>)
    ensures
        r == substitute_for(subs@, g),
{
    let mut i: usize = 0;
    while i < subs.len()
        invariant
            0 <= i <= subs@.len(),
            substitute_from(subs@, g, 0) == substitute_from(subs@, g, i as int),
        decreases subs@.len() - i,
    {
        if subs[i].0 == g {
            return Some(subs[i].1);
        }
        i = i + 1;
    }
    None
}

/// A copy of a list of keys.
fn copy_keys(v: &Vec<AnyTypeKey>) -> (r: Vec<AnyTypeKey>)
    ensures
        r@ == v@,
{
    let mut r: Vec<AnyTypeKey> = Vec::new();
    let mut i: usize = 0;
    while i < v.len()
        invariant
            0 <= i <= v@.len(),
            r@ == v@.take(i as int),
        decreases v@.len() - i,
    {
        r.push(v[i]);
        i = i + 1;
    }
    assert(r@ =~= v@);
    r
}

/// The substitutes, in order.
fn substitutes_of(subs: &Vec<(usize, AnyTypeKey)>) -> (r: Vec<AnyTypeKey>)
    ensures
        r@ == substitute_values(subs@),
{
    let mut r: Vec<AnyTypeKey> = Vec::new();
    let mut i: usize = 0;
    while i < subs.len()
        invariant
            0 <= i <= subs@.len(),
            r@ == substitute_values(subs@.take(i as int)),
        decreases subs@.len() - i,
    {
        r.push(subs[i].1);
        assert(substitute_values(subs@.take((i + 1) as int)) =~= substitute_values(subs@.take(i as int)).push(
            subs@[i as int].1,
        ));
        i = i + 1;
    }
    assert(subs@.take(subs@.len() as int) =~= subs@);
    r
}

/// The keys of `ks` substituted one after the other, in order.
fn substitute_keys(
    ks: &Vec<AnyTypeKey>,
    types: &mut Types,
    subs: &Vec<(usize, AnyTypeKey)>,
    Ghost(orig): Ghost<Types>,
    Ghost(bound): Ghost<nat>,
) -> (r: Result<Vec<AnyTypeKey>, Errors>)
    requires
        substitution_ready(orig, *old(types), subs@),
        keys_below(orig, ks@, ks@.len(), bound),
    ensures
        extends(*old(types), *final(types)),
        wf(*final(types)),
        match r {
            Ok(v) => {
                &&& keys_blocker(orig, ks@, ks@.len(), bound) is None
                &&& v@.len() == ks@.len()
                &&& all_valid(*final(types), v@)
                &&& keys_substituted(*final(types), v@, orig, ks@, ks@.len(), bound, subs@)
            },
            Err(e) => keys_blocker(orig, ks@, ks@.len(), bound) matches Some(b) && e == Errors::CouldNotSubstituteType(b),
        },
    decreases bound, 0nat,
{
    let ghost start = *types;
    let mut out: Vec<AnyTypeKey> = Vec::new();
    let mut i: usize = 0;
    while i < ks.len()
        invariant
            substitution_ready(orig, *types, subs@),
            keys_below(orig, ks@, ks@.len(), bound),
            extends(start, *types),
            start == *old(types),
            0 <= i <= ks@.len(),
            out@.len() == i,
            all_valid(*types, out@),
            forall|j: int| 0 <= j < i ==> substituted(*types, #[trigger] out@[j], orig, ks@[j], subs@),
            keys_blocker(orig, ks@, i as nat, bound) is None,
        decreases ks@.len() - i,
    {
        let ghost prev = *types;
        let k = ks[i];
        match subst_key(k, types, subs, Ghost(orig)) {
            Ok(t) => {
                proof {
                    lemma_extends_trans(start, prev, *types);
                    lemma_extends_trans(orig, prev, *types);
                    assert forall|j: int| 0 <= j < i implies substituted(*types, #[trigger] out@[j], orig, ks@[j], subs@) by {
                        lemma_substituted_extends(prev, *types, out@[j], orig, ks@[j], subs@);
                    }
                    assert forall|j: int| 0 <= j < i implies valid_key(*types, #[trigger] out@[j]) by {
                        lemma_extends_valid(prev, *types, out@[j]);
                    }
                }
                out.push(t);
            },
            Err(e) => {
                proof {
                    lemma_extends_trans(start, prev, *types);
                    lemma_keys_blocker(orig, ks@, (i + 1) as nat, ks@.len(), bound);
                }
                return Err(e);
            },
        }
        i = i + 1;
    }
    proof {
        lemma_keys_substituted_forall(*types, out@, orig, ks@, ks@.len(), bound, subs@);
    }
    Ok(out)
}

/// The fields of `ps` with their types substituted, in order; names are
/// cloned and defaults copied.
fn substitute_fields(
    src: &Vec<(String, AnyTypeKey, Option<ConstValue>)>,
    types: &mut Types,
    subs: &Vec<(usize, AnyTypeKey)>,
    Ghost(orig): Ghost<Types>,
    Ghost(ps): Ghost<Seq<(String, AnyTypeKey, Option<ConstValue>)>>,
    Ghost(bound): Ghost<nat>,
) -> (r: Result<Vec<(String, AnyTypeKey, Option<ConstValue>)>, Errors>)
    requires
        substitution_ready(orig, *old(types), subs@),
        fields_below(orig, ps, ps.len(), bound),
        copied_fields(src@, ps),
    ensures
        extends(*old(types), *final(types)),
        wf(*final(types)),
        match r {
            Ok(v) => {
                &&& fields_blocker(orig, ps, ps.len(), bound) is None
                &&& v@.len() == ps.len()
                &&& forall|j: int| 0 <= j < v@.len() ==> {
                    &&& valid_key(*final(types), (#[trigger] v@[j]).1)
                    &&& v@[j].0@ == ps[j].0@
                    &&& copied_default(v@[j].2, ps[j].2)
                    &&& substituted(*final(types), v@[j].1, orig, ps[j].1, subs@)
                }
            },
            Err(e) => fields_blocker(orig, ps, ps.len(), bound) matches Some(b) && e == Errors::CouldNotSubstituteType(b),
        },
    decreases bound, 0nat,
{
    let ghost start = *types;
    let mut out: Vec<(String, AnyTypeKey, Option<ConstValue>)> = Vec::new();
    let mut i: usize = 0;
    while i < src.len()
        invariant
            substitution_ready(orig, *types, subs@),
            fields_below(orig, ps, ps.len(), bound),
            copied_fields(src@, ps),
            extends(start, *types),
            start == *old(types),
            0 <= i <= ps.len(),
            out@.len() == i,
            forall|j: int| 0 <= j < i ==> {
                &&& valid_key(*types, (#[trigger] out@[j]).1)
                &&& out@[j].0@ == ps[j].0@
                &&& copied_default(out@[j].2, ps[j].2)
                &&& substituted(*types, out@[j].1, orig, ps[j].1, subs@)
            },
            fields_blocker(orig, ps, i as nat, bound) is None,
        decreases src@.len() - i,
    {
        let ghost prev = *types;
        let k = src[i].1;
        match subst_key(k, types, subs, Ghost(orig)) {
            Ok(t) => {
                proof {
                    lemma_extends_trans(start, prev, *types);
                    lemma_extends_trans(orig, prev, *types);
                    assert forall|j: int| 0 <= j < i implies {
                        &&& valid_key(*types, (#[trigger] out@[j]).1)
                        &&& substituted(*types, out@[j].1, orig, ps[j].1, subs@)
                    } by {
                        lemma_extends_valid(prev, *types, out@[j].1);
                        lemma_substituted_extends(prev, *types, out@[j].1, orig, ps[j].1, subs@);
                    }
                }
                let name = src[i].0.clone();
                let default = match &src[i].2 {
                    Some(v) => Some(v.copy()),
                    None => None,
                };
                proof {
                    lemma_copied_default_trans(default, src@[i as int].2, ps[i as int].2);
                }
                out.push((name, t, default));
            },
            Err(e) => {
                proof {
                    lemma_extends_trans(start, prev, *types);
                    lemma_fields_blocker(orig, ps, (i + 1) as nat, ps.len(), bound);
                }
                return Err(e);
            },
        }
        i = i + 1;
    }
    Ok(out)
}

/// Substituting into a primitive, an enumeration, a generic parameter, a
/// trait or a module builds no type: the store is left as it is.
pub open spec fn leaves_store(k: AnyTypeKey) -> bool {
    k is Primitive || k is Enum || k is Generic || k is Trait || k is ModuleRef
}

/// `k` with the substitutes put in (see `substituted` and `blocker`);
/// `orig` is the store substitution started on.
fn subst_key(k: AnyTypeKey, types: &mut Types, subs: &Vec<(usize, AnyTypeKey)>, Ghost(orig): Ghost<Types>) -> (r:
    Result<AnyTypeKey, Errors>)
    requires
        substitution_ready(orig, *old(types), subs@),
        valid_key(orig, k),
    ensures
        extends(*old(types), *final(types)),
        wf(*final(types)),
        leaves_store(k) ==> *final(types) == *old(types),
        match r {
            Ok(t) => blocker(orig, k) is None && valid_key(*final(types), t) && substituted(
                *final(types),
                t,
                orig,
                k,
                subs@,
            ),
            Err(e) => blocker(orig, k) matches Some(b) && e == Errors::CouldNotSubstituteType(b),
        },
    decreases type_rank(orig, k), 1nat,
{
    let ghost start = *types;
    proof {
        lemma_extends_refl(start);
        lemma_extends_valid(orig, start, k);
    }
    match k {
        AnyTypeKey::Primitive(_) | AnyTypeKey::Enum(_) => Ok(k),
        AnyTypeKey::Trait(_) | AnyTypeKey::ModuleRef(_) => Err(Errors::CouldNotSubstituteType(k)),
        AnyTypeKey::Generic(g) => match lookup_substitute(subs, g) {
            Some(s) => {
                proof {
                    lemma_substitute_found(subs@, g, 0);
                    lemma_extends_valid(orig, start, s);
                }
                Ok(s)
            },
            None => Ok(k),
        },
        AnyTypeKey::Function(i) => {
            assert(types.functions@[i as int] == orig.functions@[i as int]);
            let params = copy_keys(&types.functions[i].parameters);
            let result_key = types.functions[i].returns;
            proof {
                assert forall|m: int| 0 <= m < params@.len() implies refers(orig, k, #[trigger] params@[m]) by {
                    assert(params@.contains(params@[m]));
                }
                lemma_keys_below(orig, k, params@);
                lemma_refers_lower(orig, k, result_key);
            }
            let new_params = match substitute_keys(&params, types, subs, Ghost(orig), Ghost(type_rank(orig, k))) {
                Ok(v) => v,
                Err(e) => {
                    return Err(e);
                },
            };
            let ghost mid = *types;
            proof {
                lemma_extends_trans(orig, start, mid);
            }
            let new_returns = match subst_key(result_key, types, subs, Ghost(orig)) {
                Ok(t) => t,
                Err(e) => {
                    return Err(e);
                },
            };
            let ghost cur = *types;
            let ghost new_params_view = new_params@;
            proof {
                lemma_extends_trans(start, mid, cur);
                lemma_keys_substituted_extends(
                    mid,
                    cur,
                    new_params@,
                    orig,
                    params@,
                    params@.len(),
                    type_rank(orig, k),
                    subs@,
                );
                assert forall|m: int| 0 <= m < new_params@.len() implies valid_key(cur, #[trigger] new_params@[m]) by {
                    lemma_extends_valid(mid, cur, new_params@[m]);
                }
            }
            let cand = FunctionType { returns: new_returns, parameters: new_params };
            let j = push_function(types, cand);
            proof {
                lemma_extends_trans(start, cur, *types);
                assert(types.functions@[j as int].returns == new_returns);
                assert(types.functions@[j as int].parameters@ == new_params_view);
                lemma_keys_substituted_extends(
                    cur,
                    *types,
                    new_params_view,
                    orig,
                    params@,
                    params@.len(),
                    type_rank(orig, k),
                    subs@,
                );
                lemma_substituted_extends(cur, *types, new_returns, orig, result_key, subs@);
            }
            Ok(AnyTypeKey::Function(j))
        },
        AnyTypeKey::Array(i) => {
            assert(types.arrays@[i as int] == orig.arrays@[i as int]);
            let element = types.arrays[i].element_type;
            let size = types.arrays[i].size;
            proof {
                lemma_refers_lower(orig, k, element);
            }
            let t = match subst_key(element, types, subs, Ghost(orig)) {
                Ok(t) => t,
                Err(e) => {
                    return Err(e);
                },
            };
            let ghost cur = *types;
            let j = push_array(types, ArrayType { element_type: t, size });
            proof {
                lemma_extends_trans(start, cur, *types);
                assert(types.arrays@[j as int].element_type == t);
                lemma_substituted_extends(cur, *types, t, orig, element, subs@);
            }
            Ok(AnyTypeKey::Array(j))
        },
        AnyTypeKey::Tuple(i) => {
            assert(types.tuples@[i as int] == orig.tuples@[i as int]);
            let params = copy_keys(&types.tuples[i].parameters);
            proof {
                assert forall|m: int| 0 <= m < params@.len() implies refers(orig, k, #[trigger] params@[m]) by {
                    assert(params@.contains(params@[m]));
                }
                lemma_keys_below(orig, k, params@);
            }
            let new_params = match substitute_keys(&params, types, subs, Ghost(orig), Ghost(type_rank(orig, k))) {
                Ok(v) => v,
                Err(e) => {
                    return Err(e);
                },
            };
            let ghost cur = *types;
            let ghost view = new_params@;
            let j = push_tuple(types, TupleType { parameters: new_params });
            proof {
                lemma_extends_trans(start, cur, *types);
                assert(types.tuples@[j as int].parameters@ == view);
                lemma_keys_substituted_extends(
                    cur,
                    *types,
                    view,
                    orig,
                    params@,
                    params@.len(),
                    type_rank(orig, k),
                    subs@,
                );
            }
            Ok(AnyTypeKey::Tuple(j))
        },
        AnyTypeKey::Struct(i) => {
            assert(types.structures@[i as int] == orig.structures@[i as int]);
            let ghost ps = orig.structures@[i as int].parameters@;
            proof {
                lemma_fields_below(orig, k, ps);
            }
            let src = copy_fields(&types.structures[i].parameters);
            let fields = match substitute_fields(&src, types, subs, Ghost(orig), Ghost(ps), Ghost(type_rank(orig, k))) {
                Ok(v) => v,
                Err(e) => {
                    return Err(e);
                },
            };
            let ghost cur = *types;
            let ghost view = fields@;
            let cand = StructType { parameters: fields };
            let ghost cand_view = cand;
            proof {
                assert forall|m: int| 0 <= m < cand_view.parameters@.len() implies same_default(
                    (#[trigger] cand_view.parameters@[m]).2,
                    cand_view.parameters@[m].2,
                ) by {
                    if let Some(v) = cand_view.parameters@[m].2 {
                        lemma_same_value_reflexive(v);
                    }
                }
                assert(same_struct(cand_view, cand_view));
            }
            let j = push_struct(types, cand);
            proof {
                lemma_extends_trans(start, cur, *types);
                let qs = types.structures@[j as int].parameters@;
                assert(same_struct(types.structures@[j as int], cand_view));
                assert forall|m: int| 0 <= m < qs.len() implies (#[trigger] qs[m]).0@ == ps[m].0@ && same_default(
                    qs[m].2,
                    ps[m].2,
                ) && substituted(*types, qs[m].1, orig, ps[m].1, subs@) by {
                    assert(qs[m].0@ == view[m].0@);
                    assert(qs[m].1 == view[m].1);
                    lemma_copied_default(qs[m].2, view[m].2, ps[m].2);
                    lemma_substituted_extends(cur, *types, view[m].1, orig, ps[m].1, subs@);
                }
                lemma_fields_substituted_forall(*types, qs, orig, ps, ps.len(), type_rank(orig, k), subs@);
            }
            Ok(AnyTypeKey::Struct(j))
        },
        AnyTypeKey::Named(i) => {
            assert(types.named@[i as int] == orig.named@[i as int]);
            let repr = types.named[i].repr;
            let name = types.named[i].name.clone();
            proof {
                lemma_refers_lower(orig, k, repr);
            }
            let t = match subst_key(repr, types, subs, Ghost(orig)) {
                Ok(t) => t,
                Err(e) => {
                    return Err(e);
                },
            };
            let ghost cur = *types;
            let ghost name_view = name@;
            let j = push_named(types, NamedTypeType { name, repr: t });
            proof {
                lemma_extends_trans(start, cur, *types);
                assert(types.named@[j as int].repr == t);
                assert(types.named@[j as int].name@ == name_view);
                lemma_substituted_extends(cur, *types, t, orig, repr, subs@);
            }
            Ok(AnyTypeKey::Named(j))
        },
        AnyTypeKey::Reference(i) => {
            assert(types.references@[i as int] == orig.references@[i as int]);
            let inner = types.references[i].inner;
            proof {
                lemma_refers_lower(orig, k, inner);
            }
            let t = match subst_key(inner, types, subs, Ghost(orig)) {
                Ok(t) => t,
                Err(e) => {
                    return Err(e);
                },
            };
            let ghost cur = *types;
            let j = push_reference(types, RefType { inner: t });
            proof {
                lemma_extends_trans(start, cur, *types);
                assert(types.references@[j as int].inner == t);
                lemma_substituted_extends(cur, *types, t, orig, inner, subs@);
            }
            Ok(AnyTypeKey::Reference(j))
        },
        AnyTypeKey::Morphed(i) => {
            assert(types.morphs@[i as int] == orig.morphs@[i as int]);
            let this = types.morphs[i].this;
            proof {
                lemma_refers_lower(orig, k, this);
            }
            subst_key(this, types, subs, Ghost(orig))
        },
        AnyTypeKey::Polymorph(i) => {
            assert(types.polymorphs@[i as int] == orig.polymorphs@[i as int]);
            let inner = types.polymorphs[i].inner;
            proof {
                lemma_refers_lower(orig, k, inner);
            }
            let t = match subst_key(inner, types, subs, Ghost(orig)) {
                Ok(t) => t,
                Err(e) => {
                    return Err(e);
                },
            };
            let ghost cur = *types;
            let arguments = substitutes_of(subs);
            proof {
                assert forall|m: int| 0 <= m < arguments@.len() implies valid_key(cur, #[trigger] arguments@[m]) by {
                    assert(arguments@[m] == subs@[m].1);
                    lemma_extends_valid(orig, cur, subs@[m].1);
                }
            }
            let j = push_morph(types, MorphedType { arguments, parent: i, this: t });
            proof {
                lemma_extends_trans(start, cur, *types);
                assert(types.morphs@[j as int].this == t);
                lemma_substituted_extends(cur, *types, t, orig, inner, subs@);
            }
            Ok(AnyTypeKey::Morphed(j))
        },
    }
}

/// A substitute that is found is one of the substitutes.
proof fn lemma_substitute_found(subs: Seq<(usize, AnyTypeKey)>, g: usize, i: int)
    requires
        0 <= i,
    ensures
        substitute_from(subs, g, i) matches Some(s) ==> exists|m: int| 0 <= m < subs.len() && #[trigger] subs[m].1 == s,
    decreases subs.len() - i,
{
    if i < subs.len() && subs[i].0 != g {
        lemma_substitute_found(subs, g, i + 1);
    }
}

impl AnyTypeKey {
    /// This type with `substitutions` put in for generic parameters (see
    /// `substituted`): the rebuilt types are added to the store unless an
    /// equal one is there. A trait or module met on the way
    /// (see `blocker`) cannot be substituted into, and is reported.
    pub fn substitute_many(&self, types: &mut Types, substitutions: &Vec<(usize, AnyTypeKey)>) -> (r: Result<
        AnyTypeKey,
        Errors,
    >)
        requires
            wf(*old(types)),
            valid_key(*old(types), *self),
            forall|i: int| 0 <= i < substitutions@.len() ==> valid_key(*old(types), #[trigger] substitutions@[i].1),
        ensures
            extends(*old(types), *final(types)),
            wf(*final(types)),
            leaves_store(*self) ==> *final(types) == *old(types),
            match r {
                Ok(t) => blocker(*old(types), *self) is None && valid_key(*final(types), t) && substituted(
                    *final(types),
                    t,
                    *old(types),
                    *self,
                    substitutions@,
                ),
                Err(e) => blocker(*old(types), *self) matches Some(b) && e == Errors::CouldNotSubstituteType(b),
            },
    {
        proof {
            lemma_extends_refl(*types);
        }
        subst_key(*self, types, substitutions, Ghost(*types))
    }
}

} // verus!
