//! Keys of the type store: every type is a primitive or an index into one
//! of the store's tables.

use crate::const_value::{
    ConstValue, Errors, const_text, decimal, has_float, push_decimal, push_str, push_text,
};
use crate::ir::AnyObjectKey;
use crate::literal::string_of;
use crate::primitive::primitive_name;
use crate::primitive::PrimitiveType;
use vstd::prelude::*;

verus! {

/// A type: a primitive one, or the index of an entry in one of the tables
/// of the type store (functions, arrays, tuples, structures, enums,
/// traits, references, named types, modules, polymorphic types, generic
/// parameters, instantiated polymorphic types).
#[derive(Debug, Clone, Copy, PartialEq, Eq, Hash, Structural)]
pub enum AnyTypeKey {
    Primitive(PrimitiveType),
    Function(usize),
    Array(usize),
    Tuple(usize),
    Struct(usize),
    Enum(usize),
    Trait(usize),
    Reference(usize),
    Named(usize),
    ModuleRef(usize),
    Polymorph(usize),
    Generic(usize),
    Morphed(usize),
}


/// `function(params): returns`
#[derive(Debug)]
pub struct FunctionType {
    pub returns: AnyTypeKey,
    pub parameters: Vec<AnyTypeKey>,
}

/// `[element; size]`, or `[element]` of unknown length.
#[derive(Debug)]
pub struct ArrayType {
    pub element_type: AnyTypeKey,
    pub size: Option<usize>,
}

#[derive(Debug)]
pub struct TupleType {
    pub parameters: Vec<AnyTypeKey>,
}

#[derive(Debug)]
pub struct TraitType {
    pub ident: String,
}

/// Fields with their types and default values.
#[derive(Debug)]
pub struct StructType {
    pub parameters: Vec<(String, AnyTypeKey, Option<ConstValue>)>,
}

/// Variants with their values, stored as `repr`.
#[derive(Debug)]
pub struct EnumType {
    pub repr: AnyTypeKey,
    pub variants: Vec<(String, ConstValue)>,
}

/// A set of traits (indices into the trait table) that a type must have.
#[derive(Debug)]
pub struct ConstraintType {
    pub constraints: Vec<usize>,
}

/// A polymorphic type (`parent`, an index into the polymorph table)
/// instantiated with `arguments`; `this` is the resulting type.
#[derive(Debug)]
pub struct MorphedType {
    pub parent: usize,
    pub this: AnyTypeKey,
    pub arguments: Vec<AnyTypeKey>,
}

/// A type alias: a name standing for `repr`.
#[derive(Debug)]
pub struct NamedTypeType {
    pub name: String,
    pub repr: AnyTypeKey,
}

/// A generic parameter and its constraint (an index into the constraint
/// table).
#[derive(Debug)]
pub struct GenericType {
    pub constraint: usize,
    pub ident: String,
}

/// A type with generic parameters (indices into the generic table).
#[derive(Debug)]
pub struct PolymorphType {
    pub parameters: Vec<usize>,
    pub inner: AnyTypeKey,
}

/// `&inner`
#[derive(Debug)]
pub struct RefType {
    pub inner: AnyTypeKey,
}

/// A module: its path, and the objects its names stand for (each name
/// once).
#[derive(Debug)]
pub struct Module {
    pub path: Vec<String>,
    pub symbol_map: Vec<(String, AnyObjectKey)>,
}

/// The type store: one table per kind of type; an `AnyTypeKey` indexes
/// into the table of its kind.
#[derive(Debug)]
pub struct Types {
    pub functions: Vec<FunctionType>,
    pub constraints: Vec<ConstraintType>,
    pub generics: Vec<GenericType>,
    pub polymorphs: Vec<PolymorphType>,
    pub morphs: Vec<MorphedType>,
    pub structures: Vec<StructType>,
    pub enums: Vec<EnumType>,
    pub arrays: Vec<ArrayType>,
    pub tuples: Vec<TupleType>,
    pub traits: Vec<TraitType>,
    pub references: Vec<RefType>,
    pub modules: Vec<Module>,
    pub named: Vec<NamedTypeType>,
}

/// The key names an entry of the store.
pub open spec fn valid_key(types: Types, k: AnyTypeKey) -> bool {
    match k {
        AnyTypeKey::Primitive(_) => true,
        AnyTypeKey::Function(i) => i < types.functions@.len(),
        AnyTypeKey::Array(i) => i < types.arrays@.len(),
        AnyTypeKey::Tuple(i) => i < types.tuples@.len(),
        AnyTypeKey::Struct(i) => i < types.structures@.len(),
        AnyTypeKey::Enum(i) => i < types.enums@.len(),
        AnyTypeKey::Trait(i) => i < types.traits@.len(),
        AnyTypeKey::Reference(i) => i < types.references@.len(),
        AnyTypeKey::Named(i) => i < types.named@.len(),
        AnyTypeKey::ModuleRef(i) => i < types.modules@.len(),
        AnyTypeKey::Polymorph(i) => i < types.polymorphs@.len(),
        AnyTypeKey::Generic(i) => i < types.generics@.len(),
        AnyTypeKey::Morphed(i) => i < types.morphs@.len(),
    }
}

/// The entry of `k` mentions the type `c`: a parameter or result of a
/// function, the element of an array, a member of a tuple, the type of a
/// structure field, the representation of an enumeration or alias, the
/// target of a reference, the result or an argument of an instantiation,
/// or the body of a polymorphic type.
pub open spec fn refers(types: Types, k: AnyTypeKey, c: AnyTypeKey) -> bool {
    match k {
        AnyTypeKey::Function(i) => c == types.functions@[i as int].returns
            || types.functions@[i as int].parameters@.contains(c),
        AnyTypeKey::Array(i) => c == types.arrays@[i as int].element_type,
        AnyTypeKey::Tuple(i) => types.tuples@[i as int].parameters@.contains(c),
        AnyTypeKey::Struct(i) => exists|j: int|
            0 <= j < types.structures@[i as int].parameters@.len()
                && (#[trigger] types.structures@[i as int].parameters@[j]).1 == c,
        AnyTypeKey::Enum(i) => c == types.enums@[i as int].repr,
        AnyTypeKey::Reference(i) => c == types.references@[i as int].inner,
        AnyTypeKey::Named(i) => c == types.named@[i as int].repr,
        AnyTypeKey::Morphed(i) => c == types.morphs@[i as int].this
            || types.morphs@[i as int].arguments@.contains(c),
        AnyTypeKey::Polymorph(i) => c == types.polymorphs@[i as int].inner,
        _ => false,
    }
}

/// `r` ranks the store: every entry mentions only types of lower rank.
pub open spec fn ranked(types: Types, r: spec_fn(AnyTypeKey) -> nat) -> bool {
    forall|k: AnyTypeKey, c: AnyTypeKey|
        valid_key(types, k) && #[trigger] refers(types, k, c) ==> r(c) < r(k)
}

/// Every index stored in an entry names an entry of the right table.
pub open spec fn entries_valid(types: Types) -> bool {
    &&& forall|k: AnyTypeKey, c: AnyTypeKey|
        valid_key(types, k) && #[trigger] refers(types, k, c) ==> valid_key(types, c)
    &&& forall|i: int| 0 <= i < types.generics@.len()
        ==> #[trigger] types.generics@[i].constraint < types.constraints@.len()
    &&& forall|i: int, j: int|
        0 <= i < types.constraints@.len() && 0 <= j < types.constraints@[i].constraints@.len()
            ==> #[trigger] types.constraints@[i].constraints@[j] < types.traits@.len()
    &&& forall|i: int, j: int|
        0 <= i < types.polymorphs@.len() && 0 <= j < types.polymorphs@[i].parameters@.len()
            ==> #[trigger] types.polymorphs@[i].parameters@[j] < types.generics@.len()
}

/// A well-formed store: its indices are valid and no type mentions
/// itself, directly or through other types.
pub open spec fn wf(types: Types) -> bool {
    &&& entries_valid(types)
    &&& exists|r: spec_fn(AnyTypeKey) -> nat| ranked(types, r)
}

/// A rank of the key in a well-formed store.
pub open spec fn type_rank(types: Types, k: AnyTypeKey) -> nat {
    (choose|r: spec_fn(AnyTypeKey) -> nat| ranked(types, r))(k)
}

/// In a well-formed store a mentioned type is valid and has a lower rank.
pub proof fn lemma_refers_lower(types: Types, k: AnyTypeKey, c: AnyTypeKey)
    requires
        wf(types),
        valid_key(types, k),
        refers(types, k, c),
    ensures
        valid_key(types, c),
        type_rank(types, c) < type_rank(types, k),
{
    let r = choose|r: spec_fn(AnyTypeKey) -> nat| ranked(types, r);
    assert(ranked(types, r));
}

/// What an alias or an instantiation stands for; `None` for other types.
pub open spec fn spec_unwrap(types: Types, k: AnyTypeKey) -> Option<AnyTypeKey> {
    match k {
        AnyTypeKey::Named(i) => Some(types.named@[i as int].repr),
        AnyTypeKey::Morphed(i) => Some(types.morphs@[i as int].this),
        _ => None,
    }
}

/// The type reached by unwrapping aliases and instantiations until neither
/// is left.
pub open spec fn spec_unwrap_full(types: Types, k: AnyTypeKey) -> AnyTypeKey
    decreases type_rank(types, k),
    when wf(types) && valid_key(types, k)
{
    match spec_unwrap(types, k) {
        Some(n) => {
            proof {
                lemma_refers_lower(types, k, n);
            }
            spec_unwrap_full(types, n)
        },
        None => k,
    }
}

/// Whether a value of type `got` is accepted where `expect` is expected:
/// equal keys are; arrays whose element types check and whose lengths
/// agree (an expected array of unknown length takes any), and references
/// whose targets check; otherwise an expected alias or instantiation is
/// unwrapped and tried again, and what is left is a mismatch.
pub open spec fn spec_check(types: Types, got: AnyTypeKey, expect: AnyTypeKey) -> Result<(), Errors>
    decreases type_rank(types, got) + type_rank(types, expect),
    when wf(types) && valid_key(types, got) && valid_key(types, expect)
{
    if expect == got {
        Ok(())
    } else {
        let equals: Result<bool, Errors> = match (expect, got) {
            (AnyTypeKey::Array(e), AnyTypeKey::Array(g)) => {
                let ea = types.arrays@[e as int];
                let ga = types.arrays@[g as int];
                proof {
                    lemma_refers_lower(types, expect, ea.element_type);
                    lemma_refers_lower(types, got, ga.element_type);
                }
                match spec_check(types, ga.element_type, ea.element_type) {
                    Err(x) => Err(x),
                    Ok(_) => match (ea.size, ga.size) {
                        (None, _) => Ok(true),
                        (Some(x), Some(y)) => if x == y {
                            Ok(true)
                        } else {
                            Err(Errors::ArrayElementCountMismatch {
                                expected: (ea.element_type, x),
                                got: (ga.element_type, Some(y)),
                            })
                        },
                        (Some(x), None) => Err(Errors::ArrayElementCountMismatch {
                            expected: (ea.element_type, x),
                            got: (ga.element_type, None),
                        }),
                    },
                }
            },
            (AnyTypeKey::Reference(e), AnyTypeKey::Reference(g)) => {
                let ei = types.references@[e as int].inner;
                let gi = types.references@[g as int].inner;
                proof {
                    lemma_refers_lower(types, expect, ei);
                    lemma_refers_lower(types, got, gi);
                }
                match spec_check(types, gi, ei) {
                    Err(x) => Err(x),
                    Ok(_) => Ok(true),
                }
            },
            _ => Ok(false),
        };
        match equals {
            Err(x) => Err(x),
            Ok(true) => Ok(()),
            Ok(false) => match spec_unwrap(types, expect) {
                Some(exp) => {
                    proof {
                        lemma_refers_lower(types, expect, exp);
                    }
                    spec_check(types, got, exp)
                },
                None => Err(Errors::TypeMismatch { expected: expect, got }),
            },
        }
    }
}

/// Every type is accepted where it is itself expected.
pub proof fn lemma_check_reflexive(types: Types, t: AnyTypeKey)
    requires
        wf(types),
        valid_key(types, t),
    ensures
        spec_check(types, t, t) == Ok::<(), Errors>(()),
{
}

/// Two different arrays whose element types check: an expected array of
/// unknown length takes any, one of known length takes only an array of
/// that length and reports any other length.
pub proof fn lemma_check_arrays(types: Types, e: usize, g: usize)
    requires
        wf(types),
        valid_key(types, AnyTypeKey::Array(e)),
        valid_key(types, AnyTypeKey::Array(g)),
        e != g,
        spec_check(types, types.arrays@[g as int].element_type, types.arrays@[e as int].element_type) is Ok,
    ensures
        types.arrays@[e as int].size is None ==> spec_check(types, AnyTypeKey::Array(g), AnyTypeKey::Array(e)) is Ok,
        types.arrays@[e as int].size matches Some(n) ==> spec_check(types, AnyTypeKey::Array(g), AnyTypeKey::Array(e)) == match types.arrays@[g as int].size {
            Some(m) => if m == n {
                Ok::<(), Errors>(())
            } else {
                Err(Errors::ArrayElementCountMismatch {
                    expected: (types.arrays@[e as int].element_type, n),
                    got: (types.arrays@[g as int].element_type, Some(m)),
                })
            },
            None => Err(Errors::ArrayElementCountMismatch {
                expected: (types.arrays@[e as int].element_type, n),
                got: (types.arrays@[g as int].element_type, None),
            }),
        },
{
    lemma_refers_lower(types, AnyTypeKey::Array(e), types.arrays@[e as int].element_type);
    lemma_refers_lower(types, AnyTypeKey::Array(g), types.arrays@[g as int].element_type);
}

/// A type that differs from the expected one, where the expected one is no
/// alias or instantiation and the two are not both arrays or both
/// references, is a mismatch.
pub proof fn lemma_check_mismatch(types: Types, got: AnyTypeKey, expect: AnyTypeKey)
    requires
        wf(types),
        valid_key(types, got),
        valid_key(types, expect),
        got != expect,
        !(expect is Named || expect is Morphed),
        !(expect is Array && got is Array),
        !(expect is Reference && got is Reference),
    ensures
        spec_check(types, got, expect) == Err::<(), Errors>(Errors::TypeMismatch { expected: expect, got }),
{
}

/// `n` keys of `ks` are valid and ranked below `bound`.
pub open spec fn keys_below(types: Types, ks: Seq<AnyTypeKey>, n: nat, bound: nat) -> bool {
    &&& n <= ks.len()
    &&& forall|j: int| 0 <= j < n ==> valid_key(types, #[trigger] ks[j]) && type_rank(types, ks[j]) < bound
}

/// The field types among the first `n` fields are valid and ranked below
/// `bound`.
pub open spec fn fields_below(
    types: Types,
    ps: Seq<(String, AnyTypeKey, Option<ConstValue>)>,
    n: nat,
    bound: nat,
) -> bool {
    &&& n <= ps.len()
    &&& forall|j: int| 0 <= j < n ==> valid_key(types, (#[trigger] ps[j]).1) && type_rank(types, ps[j].1) < bound
}

/// How a type is written: primitives by name; `function(a, b): r`;
/// `[t; n]` or `[t]`; `&t`; `(a, b)`; `struct { x: t = v; }`;
/// `t<a, b>` for an instantiation; `<T: A + B>t` for a polymorphic type;
/// `T: A + B` (or `T`) for a generic parameter; `enum: r { x: v; }`;
/// traits and aliases by name; modules by their path joined with `::`.
pub open spec fn type_text(types: Types, k: AnyTypeKey) -> Seq<char>
    decreases type_rank(types, k), 1nat, 0nat,
    when wf(types) && valid_key(types, k)
{
    match k {
        AnyTypeKey::Primitive(p) => primitive_name(p),
        AnyTypeKey::Function(i) => {
            let f = types.functions@[i as int];
            proof {
                lemma_refers_lower(types, k, f.returns);
            }
            seq!['f', 'u', 'n', 'c', 't', 'i', 'o', 'n', '('] + keys_text(
                types,
                f.parameters@,
                f.parameters@.len(),
                type_rank(types, k),
            ) + seq![')', ':', ' '] + type_text(types, f.returns)
        },
        AnyTypeKey::Array(i) => {
            let a = types.arrays@[i as int];
            proof {
                lemma_refers_lower(types, k, a.element_type);
            }
            seq!['['] + type_text(types, a.element_type) + match a.size {
                Some(n) => seq![';', ' '] + decimal(n as nat),
                None => seq![],
            } + seq![']']
        },
        AnyTypeKey::Reference(i) => {
            let inner = types.references@[i as int].inner;
            proof {
                lemma_refers_lower(types, k, inner);
            }
            seq!['&'] + type_text(types, inner)
        },
        AnyTypeKey::Tuple(i) => {
            let ps = types.tuples@[i as int].parameters@;
            seq!['('] + keys_text(types, ps, ps.len(), type_rank(types, k)) + seq![')']
        },
        AnyTypeKey::Struct(i) => {
            let ps = types.structures@[i as int].parameters@;
            seq!['s', 't', 'r', 'u', 'c', 't', ' ', '{', ' '] + fields_text(types, ps, ps.len(), type_rank(types, k))
                + seq!['}']
        },
        AnyTypeKey::Morphed(i) => {
            let m = types.morphs@[i as int];
            proof {
                lemma_refers_lower(types, k, m.this);
            }
            type_text(types, m.this) + seq!['<'] + keys_text(types, m.arguments@, m.arguments@.len(), type_rank(types, k))
                + seq!['>']
        },
        AnyTypeKey::Polymorph(i) => {
            let pm = types.polymorphs@[i as int];
            proof {
                lemma_refers_lower(types, k, pm.inner);
            }
            seq!['<'] + generics_text(types, pm.parameters@, pm.parameters@.len()) + seq!['>'] + type_text(
                types,
                pm.inner,
            )
        },
        AnyTypeKey::Generic(i) => generic_text(types, i as int),
        AnyTypeKey::Enum(i) => {
            let e = types.enums@[i as int];
            proof {
                lemma_refers_lower(types, k, e.repr);
            }
            seq!['e', 'n', 'u', 'm', ':', ' '] + type_text(types, e.repr) + seq![' ', '{', ' '] + variants_text(
                e.variants@,
                e.variants@.len(),
            ) + seq!['}']
        },
        AnyTypeKey::Trait(i) => types.traits@[i as int].ident@,
        AnyTypeKey::ModuleRef(i) => path_text(types.modules@[i as int].path@, types.modules@[i as int].path@.len()),
        AnyTypeKey::Named(i) => types.named@[i as int].name@,
    }
}

/// The first `n` types of `ks`, separated by `, `.
pub open spec fn keys_text(types: Types, ks: Seq<AnyTypeKey>, n: nat, bound: nat) -> Seq<char>
    decreases bound, 0nat, n,
    when wf(types) && keys_below(types, ks, n, bound)
{
    if n == 0 {
        seq![]
    } else if n == 1 {
        type_text(types, ks[0])
    } else {
        keys_text(types, ks, (n - 1) as nat, bound) + seq![',', ' '] + type_text(types, ks[n - 1])
    }
}

/// One structure field: `name: type`, ` = value` when it has a default, and
/// `; `.
pub open spec fn field_text(types: Types, p: (String, AnyTypeKey, Option<ConstValue>), bound: nat) -> Seq<char>
    decreases bound, 0nat, 0nat,
    when wf(types) && valid_key(types, p.1) && type_rank(types, p.1) < bound
{
    p.0@ + seq![':', ' '] + type_text(types, p.1) + match p.2 {
        Some(v) => seq![' ', '=', ' '] + const_text(v),
        None => seq![],
    } + seq![';', ' ']
}

/// The first `n` structure fields, one after the other.
pub open spec fn fields_text(
    types: Types,
    ps: Seq<(String, AnyTypeKey, Option<ConstValue>)>,
    n: nat,
    bound: nat,
) -> Seq<char>
    decreases bound, 0nat, n + 1,
    when wf(types) && fields_below(types, ps, n, bound)
{
    if n == 0 {
        seq![]
    } else {
        fields_text(types, ps, (n - 1) as nat, bound) + field_text(types, ps[n - 1], bound)
    }
}

/// The first `n` enumeration variants, each as `name: value; `.
pub open spec fn variants_text(vs: Seq<(String, ConstValue)>, n: nat) -> Seq<char>
    decreases n,
{
    if n == 0 || n > vs.len() {
        seq![]
    } else {
        variants_text(vs, (n - 1) as nat) + vs[n - 1].0@ + seq![':', ' '] + const_text(vs[n - 1].1) + seq![';', ' ']
    }
}

/// The first `n` path segments joined with `::`.
pub open spec fn path_text(path: Seq<String>, n: nat) -> Seq<char>
    decreases n,
{
    if n == 0 || n > path.len() {
        seq![]
    } else if n == 1 {
        path[0]@
    } else {
        path_text(path, (n - 1) as nat) + seq![':', ':'] + path[n - 1]@
    }
}

/// The names of the first `n` traits of a constraint joined with ` + `.
pub open spec fn constraint_text(types: Types, cs: Seq<usize>, n: nat) -> Seq<char>
    decreases n,
{
    if n == 0 || n > cs.len() {
        seq![]
    } else if n == 1 {
        types.traits@[cs[0] as int].ident@
    } else {
        constraint_text(types, cs, (n - 1) as nat) + seq![' ', '+', ' '] + types.traits@[cs[n - 1] as int].ident@
    }
}

/// A generic parameter: its name, followed by `: ` and its constraint when
/// the constraint names any trait.
pub open spec fn generic_value_text(types: Types, g: GenericType) -> Seq<char> {
    let cs = types.constraints@[g.constraint as int].constraints@;
    let c = constraint_text(types, cs, cs.len());
    if c.len() == 0 {
        g.ident@
    } else {
        g.ident@ + seq![':', ' '] + c
    }
}

/// The generic parameter with index `i`.
pub open spec fn generic_text(types: Types, i: int) -> Seq<char> {
    generic_value_text(types, types.generics@[i])
}

/// One more than the highest rank among the first `n` keys.
pub open spec fn ranks_bound(types: Types, ks: Seq<AnyTypeKey>, n: nat) -> nat
    decreases n,
{
    if n == 0 || n > ks.len() {
        0
    } else {
        let b = ranks_bound(types, ks, (n - 1) as nat);
        let r = type_rank(types, ks[n - 1]) + 1;
        if b > r {
            b
        } else {
            r
        }
    }
}

proof fn lemma_ranks_bound(types: Types, ks: Seq<AnyTypeKey>, n: nat)
    requires
        n <= ks.len(),
    ensures
        forall|j: int| 0 <= j < n ==> type_rank(types, #[trigger] ks[j]) < ranks_bound(types, ks, n),
    decreases n,
{
    if n > 0 {
        lemma_ranks_bound(types, ks, (n - 1) as nat);
    }
}

/// One more than the highest rank among the types of the first `n`
/// fields.
pub open spec fn field_ranks_bound(types: Types, ps: Seq<(String, AnyTypeKey, Option<ConstValue>)>, n: nat) -> nat
    decreases n,
{
    if n == 0 || n > ps.len() {
        0
    } else {
        let b = field_ranks_bound(types, ps, (n - 1) as nat);
        let r = type_rank(types, ps[n - 1].1) + 1;
        if b > r {
            b
        } else {
            r
        }
    }
}

proof fn lemma_field_ranks_bound(types: Types, ps: Seq<(String, AnyTypeKey, Option<ConstValue>)>, n: nat)
    requires
        n <= ps.len(),
    ensures
        forall|j: int| 0 <= j < n ==> type_rank(types, (#[trigger] ps[j]).1) < field_ranks_bound(types, ps, n),
    decreases n,
{
    if n > 0 {
        lemma_field_ranks_bound(types, ps, (n - 1) as nat);
    }
}

/// The first `n` generic parameters (indices into the generic table)
/// separated by `, `.
pub open spec fn generics_text(types: Types, ps: Seq<usize>, n: nat) -> Seq<char>
    decreases n,
{
    if n == 0 || n > ps.len() {
        seq![]
    } else if n == 1 {
        generic_text(types, ps[0] as int)
    } else {
        generics_text(types, ps, (n - 1) as nat) + seq![',', ' '] + generic_text(types, ps[n - 1] as int)
    }
}

/// No structure default and no enumeration value holds a float.
pub open spec fn float_free(types: Types) -> bool {
    &&& forall|i: int, j: int|
        0 <= i < types.structures@.len() && 0 <= j < types.structures@[i].parameters@.len()
            ==> match (#[trigger] types.structures@[i].parameters@[j]).2 {
            Some(v) => !has_float(v),
            None => true,
        }
    &&& forall|i: int, j: int|
        0 <= i < types.enums@.len() && 0 <= j < types.enums@[i].variants@.len()
            ==> !has_float((#[trigger] types.enums@[i].variants@[j]).1)
}


fn push_chars2(out: &mut Vec<char>, a: char, b: char)
    ensures
        final(out)@ == old(out)@ + seq![a, b],
{
    out.push(a);
    out.push(b);
}

fn push_chars3(out: &mut Vec<char>, a: char, b: char, c: char)
    ensures
        final(out)@ == old(out)@ + seq![a, b, c],
{
    out.push(a);
    out.push(b);
    out.push(c);
}

/// Appends how the type `k` is written.
fn push_type_text(out: &mut Vec<char>, types: &Types, k: AnyTypeKey)
    requires
        wf(*types),
        float_free(*types),
        valid_key(*types, k),
    ensures
        final(out)@ == old(out)@ + type_text(*types, k),
    decreases type_rank(*types, k), 1nat, 0nat,
{
    let ghost start = out@;
    match k {
        AnyTypeKey::Primitive(p) => push_str(out, p.stringify()),
        AnyTypeKey::Function(i) => {
            let f = &types.functions[i];
            proof {
                lemma_refers_lower(*types, k, f.returns);
                assert forall|j: int| 0 <= j < f.parameters@.len() implies valid_key(*types, #[trigger] f.parameters@[j])
                    && type_rank(*types, f.parameters@[j]) < type_rank(*types, k) by {
                    assert(f.parameters@.contains(f.parameters@[j]));
                    lemma_refers_lower(*types, k, f.parameters@[j]);
                }
            }
            push_str_function_open(out);
            push_keys(out, types, &f.parameters, Ghost(type_rank(*types, k)));
            push_chars3(out, ')', ':', ' ');
            push_type_text(out, types, f.returns);
        },
        AnyTypeKey::Array(i) => {
            let a = &types.arrays[i];
            proof {
                lemma_refers_lower(*types, k, a.element_type);
            }
            out.push('[');
            push_type_text(out, types, a.element_type);
            match a.size {
                Some(n) => {
                    push_chars2(out, ';', ' ');
                    push_decimal(out, n as u128);
                },
                None => {},
            }
            out.push(']');
        },
        AnyTypeKey::Reference(i) => {
            let inner = types.references[i].inner;
            proof {
                lemma_refers_lower(*types, k, inner);
            }
            out.push('&');
            push_type_text(out, types, inner);
        },
        AnyTypeKey::Tuple(i) => {
            let t = &types.tuples[i];
            proof {
                assert forall|j: int| 0 <= j < t.parameters@.len() implies valid_key(*types, #[trigger] t.parameters@[j])
                    && type_rank(*types, t.parameters@[j]) < type_rank(*types, k) by {
                    assert(t.parameters@.contains(t.parameters@[j]));
                    lemma_refers_lower(*types, k, t.parameters@[j]);
                }
            }
            out.push('(');
            push_keys(out, types, &t.parameters, Ghost(type_rank(*types, k)));
            out.push(')');
        },
        AnyTypeKey::Struct(i) => {
            let st = &types.structures[i];
            proof {
                assert forall|j: int| 0 <= j < st.parameters@.len() implies valid_key(*types, (#[trigger] st.parameters@[j]).1)
                    && type_rank(*types, st.parameters@[j].1) < type_rank(*types, k) by {
                    assert(refers(*types, k, st.parameters@[j].1));
                    lemma_refers_lower(*types, k, st.parameters@[j].1);
                }
                assert forall|j: int| 0 <= j < st.parameters@.len() implies match (#[trigger] st.parameters@[j]).2 {
                    Some(v) => !has_float(v),
                    None => true,
                } by {
                    assert(types.structures@[i as int].parameters@[j] == st.parameters@[j]);
                }
            }
            push_str_struct_open(out);
            push_fields(out, types, &st.parameters, Ghost(type_rank(*types, k)));
            out.push('}');
        },
        AnyTypeKey::Morphed(i) => {
            let m = &types.morphs[i];
            proof {
                lemma_refers_lower(*types, k, m.this);
                assert forall|j: int| 0 <= j < m.arguments@.len() implies valid_key(*types, #[trigger] m.arguments@[j])
                    && type_rank(*types, m.arguments@[j]) < type_rank(*types, k) by {
                    assert(m.arguments@.contains(m.arguments@[j]));
                    lemma_refers_lower(*types, k, m.arguments@[j]);
                }
            }
            push_type_text(out, types, m.this);
            out.push('<');
            push_keys(out, types, &m.arguments, Ghost(type_rank(*types, k)));
            out.push('>');
        },
        AnyTypeKey::Polymorph(i) => {
            let pm = &types.polymorphs[i];
            proof {
                lemma_refers_lower(*types, k, pm.inner);
            }
            out.push('<');
            push_generics(out, types, &pm.parameters);
            out.push('>');
            push_type_text(out, types, pm.inner);
        },
        AnyTypeKey::Generic(i) => push_generic(out, types, i),
        AnyTypeKey::Enum(i) => {
            let e = &types.enums[i];
            proof {
                lemma_refers_lower(*types, k, e.repr);
            }
            push_str_enum_open(out);
            push_type_text(out, types, e.repr);
            push_chars3(out, ' ', '{', ' ');
            push_variants(out, &e.variants);
            out.push('}');
        },
        AnyTypeKey::Trait(i) => push_str(out, types.traits[i].ident.as_str()),
        AnyTypeKey::ModuleRef(i) => push_path(out, &types.modules[i].path),
        AnyTypeKey::Named(i) => push_str(out, types.named[i].name.as_str()),
    }
    assert(out@ =~= start + type_text(*types, k));
}

fn push_str_function_open(out: &mut Vec<char>)
    ensures
        final(out)@ == old(out)@ + seq!['f', 'u', 'n', 'c', 't', 'i', 'o', 'n', '('],
{
    push_chars3(out, 'f', 'u', 'n');
    push_chars3(out, 'c', 't', 'i');
    push_chars3(out, 'o', 'n', '(');
    assert(out@ =~= old(out)@ + seq!['f', 'u', 'n', 'c', 't', 'i', 'o', 'n', '(']);
}

fn push_str_struct_open(out: &mut Vec<char>)
    ensures
        final(out)@ == old(out)@ + seq!['s', 't', 'r', 'u', 'c', 't', ' ', '{', ' '],
{
    push_chars3(out, 's', 't', 'r');
    push_chars3(out, 'u', 'c', 't');
    push_chars3(out, ' ', '{', ' ');
    assert(out@ =~= old(out)@ + seq!['s', 't', 'r', 'u', 'c', 't', ' ', '{', ' ']);
}

fn push_str_enum_open(out: &mut Vec<char>)
    ensures
        final(out)@ == old(out)@ + seq!['e', 'n', 'u', 'm', ':', ' '],
{
    push_chars3(out, 'e', 'n', 'u');
    push_chars3(out, 'm', ':', ' ');
    assert(out@ =~= old(out)@ + seq!['e', 'n', 'u', 'm', ':', ' ']);
}

/// Appends the types `ks` separated by `, `.
fn push_keys(out: &mut Vec<char>, types: &Types, ks: &Vec<AnyTypeKey>, Ghost(bound): Ghost<nat>)
    requires
        wf(*types),
        float_free(*types),
        keys_below(*types, ks@, ks@.len(), bound),
    ensures
        final(out)@ == old(out)@ + keys_text(*types, ks@, ks@.len(), bound),
    decreases bound, 0nat, ks@.len(),
{
    let ghost start = out@;
    let mut i: usize = 0;
    while i < ks.len()
        invariant
            i <= ks@.len(),
            wf(*types),
            float_free(*types),
            keys_below(*types, ks@, ks@.len(), bound),
            out@ == start + keys_text(*types, ks@, i as nat, bound),
        decreases ks@.len() - i,
    {
        if i > 0 {
            push_chars2(out, ',', ' ');
        }
        assert(valid_key(*types, ks@[i as int]) && type_rank(*types, ks@[i as int]) < bound);
        push_type_text(out, types, ks[i]);
        assert(keys_below(*types, ks@, (i + 1) as nat, bound));
        assert(out@ =~= start + keys_text(*types, ks@, (i + 1) as nat, bound));
        i = i + 1;
    }
}

/// Appends the structure fields, each as `name: type = value; `.
fn push_fields(
    out: &mut Vec<char>,
    types: &Types,
    ps: &Vec<(String, AnyTypeKey, Option<ConstValue>)>,
    Ghost(bound): Ghost<nat>,
)
    requires
        wf(*types),
        float_free(*types),
        fields_below(*types, ps@, ps@.len(), bound),
        forall|j: int| 0 <= j < ps@.len() ==> match (#[trigger] ps@[j]).2 {
            Some(v) => !has_float(v),
            None => true,
        },
    ensures
        final(out)@ == old(out)@ + fields_text(*types, ps@, ps@.len(), bound),
    decreases bound, 0nat, ps@.len() + 1,
{
    let ghost start = out@;
    let mut i: usize = 0;
    while i < ps.len()
        invariant
            i <= ps@.len(),
            wf(*types),
            float_free(*types),
            fields_below(*types, ps@, ps@.len(), bound),
            forall|j: int| 0 <= j < ps@.len() ==> match (#[trigger] ps@[j]).2 {
                Some(v) => !has_float(v),
                None => true,
            },
            out@ == start + fields_text(*types, ps@, i as nat, bound),
        decreases ps@.len() - i,
    {
        let field = &ps[i];
        let ghost before = out@;
        assert(valid_key(*types, ps@[i as int].1) && type_rank(*types, ps@[i as int].1) < bound);
        push_str(out, field.0.as_str());
        push_chars2(out, ':', ' ');
        push_type_text(out, types, field.1);
        match &field.2 {
            Some(v) => {
                push_chars3(out, ' ', '=', ' ');
                push_text(out, v);
            },
            None => {},
        }
        push_chars2(out, ';', ' ');
        assert(out@ =~= before + field_text(*types, ps@[i as int], bound));
        assert(fields_below(*types, ps@, (i + 1) as nat, bound));
        assert(out@ =~= start + fields_text(*types, ps@, (i + 1) as nat, bound));
        i = i + 1;
    }
}

/// Appends the enumeration variants, each as `name: value; `.
fn push_variants(out: &mut Vec<char>, vs: &Vec<(String, ConstValue)>)
    requires
        forall|j: int| 0 <= j < vs@.len() ==> !has_float((#[trigger] vs@[j]).1),
    ensures
        final(out)@ == old(out)@ + variants_text(vs@, vs@.len()),
{
    let ghost start = out@;
    let mut i: usize = 0;
    while i < vs.len()
        invariant
            i <= vs@.len(),
            forall|j: int| 0 <= j < vs@.len() ==> !has_float((#[trigger] vs@[j]).1),
            out@ == start + variants_text(vs@, i as nat),
        decreases vs@.len() - i,
    {
        let v = &vs[i];
        assert(!has_float(vs@[i as int].1));
        push_str(out, v.0.as_str());
        push_chars2(out, ':', ' ');
        push_text(out, &v.1);
        push_chars2(out, ';', ' ');
        assert(out@ =~= start + variants_text(vs@, (i + 1) as nat));
        i = i + 1;
    }
}

/// Appends the path segments joined with `::`.
fn push_path(out: &mut Vec<char>, path: &Vec<String>)
    ensures
        final(out)@ == old(out)@ + path_text(path@, path@.len()),
{
    let ghost start = out@;
    let mut i: usize = 0;
    while i < path.len()
        invariant
            i <= path@.len(),
            out@ == start + path_text(path@, i as nat),
        decreases path@.len() - i,
    {
        if i > 0 {
            push_chars2(out, ':', ':');
        }
        push_str(out, path[i].as_str());
        assert(out@ =~= start + path_text(path@, (i + 1) as nat));
        i = i + 1;
    }
}

/// Appends the names of the traits `cs` joined with ` + `.
fn push_constraint(out: &mut Vec<char>, types: &Types, cs: &Vec<usize>)
    requires
        forall|j: int| 0 <= j < cs@.len() ==> #[trigger] cs@[j] < types.traits@.len(),
    ensures
        final(out)@ == old(out)@ + constraint_text(*types, cs@, cs@.len()),
{
    let ghost start = out@;
    let mut i: usize = 0;
    while i < cs.len()
        invariant
            i <= cs@.len(),
            forall|j: int| 0 <= j < cs@.len() ==> #[trigger] cs@[j] < types.traits@.len(),
            out@ == start + constraint_text(*types, cs@, i as nat),
        decreases cs@.len() - i,
    {
        if i > 0 {
            push_chars3(out, ' ', '+', ' ');
        }
        assert(cs@[i as int] < types.traits@.len());
        push_str(out, types.traits[cs[i]].ident.as_str());
        assert(out@ =~= start + constraint_text(*types, cs@, (i + 1) as nat));
        i = i + 1;
    }
}

/// Appends a generic parameter: its name and, when not empty, `: ` and its
/// constraint.
fn push_generic(out: &mut Vec<char>, types: &Types, i: usize)
    requires
        entries_valid(*types),
        i < types.generics@.len(),
    ensures
        final(out)@ == old(out)@ + generic_text(*types, i as int),
{
    assert(types.generics@[i as int].constraint < types.constraints@.len());
    push_generic_value(out, types, &types.generics[i]);
}

fn push_generic_value(out: &mut Vec<char>, types: &Types, g: &GenericType)
    requires
        entries_valid(*types),
        g.constraint < types.constraints@.len(),
    ensures
        final(out)@ == old(out)@ + generic_value_text(*types, *g),
{
    let cs = &types.constraints[g.constraint].constraints;
    assert(forall|j: int| 0 <= j < cs@.len() ==> #[trigger] cs@[j] < types.traits@.len()) by {
        assert(forall|j: int| 0 <= j < cs@.len() ==> types.constraints@[g.constraint as int].constraints@[j] == cs@[j]);
    }
    let mut c: Vec<char> = Vec::new();
    push_constraint(&mut c, types, cs);
    assert(c@ =~= constraint_text(*types, cs@, cs@.len()));
    push_str(out, g.ident.as_str());
    if c.len() > 0 {
        push_chars2(out, ':', ' ');
        out.append(&mut c);
    }
}

/// Appends the generic parameters `ps` separated by `, `.
fn push_generics(out: &mut Vec<char>, types: &Types, ps: &Vec<usize>)
    requires
        entries_valid(*types),
        forall|j: int| 0 <= j < ps@.len() ==> #[trigger] ps@[j] < types.generics@.len(),
    ensures
        final(out)@ == old(out)@ + generics_text(*types, ps@, ps@.len()),
{
    let ghost start = out@;
    let mut i: usize = 0;
    while i < ps.len()
        invariant
            i <= ps@.len(),
            entries_valid(*types),
            forall|j: int| 0 <= j < ps@.len() ==> #[trigger] ps@[j] < types.generics@.len(),
            out@ == start + generics_text(*types, ps@, i as nat),
        decreases ps@.len() - i,
    {
        if i > 0 {
            push_chars2(out, ',', ' ');
        }
        assert(ps@[i as int] < types.generics@.len());
        push_generic(out, types, ps[i]);
        assert(out@ =~= start + generics_text(*types, ps@, (i + 1) as nat));
        i = i + 1;
    }
}

/// Every key in `ks` names an entry of the store.
pub open spec fn all_valid(types: Types, ks: Seq<AnyTypeKey>) -> bool {
    forall|j: int| 0 <= j < ks.len() ==> valid_key(types, #[trigger] ks[j])
}

/// How a function type is written: `function(a, b): r`.
pub open spec fn function_text(types: Types, f: FunctionType) -> Seq<char> {
    let ps = f.parameters@;
    seq!['f', 'u', 'n', 'c', 't', 'i', 'o', 'n', '('] + keys_text(types, ps, ps.len(), ranks_bound(types, ps, ps.len()))
        + seq![')', ':', ' '] + type_text(types, f.returns)
}

impl FunctionType {
    pub fn stringify(&self, types: &Types) -> (r: String)
        requires
            wf(*types),
            float_free(*types),
            valid_key(*types, self.returns),
            all_valid(*types, self.parameters@),
        ensures
            r@ == function_text(*types, *self),
    {
        let ghost ps = self.parameters@;
        proof {
            lemma_ranks_bound(*types, ps, ps.len());
        }
        let mut out: Vec<char> = Vec::new();
        push_str_function_open(&mut out);
        push_keys(&mut out, types, &self.parameters, Ghost(ranks_bound(*types, ps, ps.len())));
        push_chars3(&mut out, ')', ':', ' ');
        push_type_text(&mut out, types, self.returns);
        assert(out@ =~= function_text(*types, *self));
        string_of(out.as_slice())
    }
}

/// How a structure type is written: `struct { x: t = v; y: u; }`.
pub open spec fn struct_text(types: Types, st: StructType) -> Seq<char> {
    let ps = st.parameters@;
    seq!['s', 't', 'r', 'u', 'c', 't', ' ', '{', ' '] + fields_text(types, ps, ps.len(), field_ranks_bound(types, ps, ps.len()))
        + seq!['}']
}

impl StructType {
    pub fn stringify(&self, types: &Types) -> (r: String)
        requires
            wf(*types),
            float_free(*types),
            forall|j: int| 0 <= j < self.parameters@.len() ==> valid_key(*types, (#[trigger] self.parameters@[j]).1),
            forall|j: int| 0 <= j < self.parameters@.len() ==> match (#[trigger] self.parameters@[j]).2 {
                Some(v) => !has_float(v),
                None => true,
            },
        ensures
            r@ == struct_text(*types, *self),
    {
        let ghost ps = self.parameters@;
        proof {
            lemma_field_ranks_bound(*types, ps, ps.len());
        }
        let mut out: Vec<char> = Vec::new();
        push_str_struct_open(&mut out);
        push_fields(&mut out, types, &self.parameters, Ghost(field_ranks_bound(*types, ps, ps.len())));
        out.push('}');
        assert(out@ =~= struct_text(*types, *self));
        string_of(out.as_slice())
    }
}

/// How an enumeration type is written: `enum: r { x: v; }`.
pub open spec fn enum_text(types: Types, e: EnumType) -> Seq<char> {
    seq!['e', 'n', 'u', 'm', ':', ' '] + type_text(types, e.repr) + seq![' ', '{', ' '] + variants_text(e.variants@, e.variants@.len())
        + seq!['}']
}

impl EnumType {
    pub fn stringify(&self, types: &Types) -> (r: String)
        requires
            wf(*types),
            float_free(*types),
            valid_key(*types, self.repr),
            forall|j: int| 0 <= j < self.variants@.len() ==> !has_float((#[trigger] self.variants@[j]).1),
        ensures
            r@ == enum_text(*types, *self),
    {
        let mut out: Vec<char> = Vec::new();
        push_str_enum_open(&mut out);
        push_type_text(&mut out, types, self.repr);
        push_chars3(&mut out, ' ', '{', ' ');
        push_variants(&mut out, &self.variants);
        out.push('}');
        assert(out@ =~= enum_text(*types, *self));
        string_of(out.as_slice())
    }
}

impl Module {
    /// A module with the given path and no names yet.
    pub fn new(path: Vec<String>) -> (m: Module)
        ensures
            m.path == path,
            m.symbol_map@.len() == 0,
    {
        Module { path, symbol_map: Vec::new() }
    }

    /// The module's path joined with `::`.
    pub fn stringify(&self) -> (r: String)
        ensures
            r@ == path_text(self.path@, self.path@.len()),
    {
        let mut out: Vec<char> = Vec::new();
        push_path(&mut out, &self.path);
        assert(out@ =~= path_text(self.path@, self.path@.len()));
        string_of(out.as_slice())
    }
}

impl NamedTypeType {
    /// The alias's name.
    pub fn stringify(&self, _types: &Types) -> (r: String)
        ensures
            r@ == self.name@,
    {
        self.name.clone()
    }
}

impl RefType {
    /// `&inner`
    pub fn stringify(&self, types: &Types) -> (r: String)
        requires
            wf(*types),
            float_free(*types),
            valid_key(*types, self.inner),
        ensures
            r@ == seq!['&'] + type_text(*types, self.inner),
    {
        let mut out: Vec<char> = Vec::new();
        out.push('&');
        push_type_text(&mut out, types, self.inner);
        string_of(out.as_slice())
    }
}

/// How an array type is written: `[t; n]`, or `[t]` without a length.
pub open spec fn array_text(types: Types, a: ArrayType) -> Seq<char> {
    seq!['['] + type_text(types, a.element_type) + match a.size {
        Some(n) => seq![';', ' '] + decimal(n as nat),
        None => seq![],
    } + seq![']']
}

impl ArrayType {
    pub fn stringify(&self, types: &Types) -> (r: String)
        requires
            wf(*types),
            float_free(*types),
            valid_key(*types, self.element_type),
        ensures
            r@ == array_text(*types, *self),
    {
        let mut out: Vec<char> = Vec::new();
        out.push('[');
        push_type_text(&mut out, types, self.element_type);
        match self.size {
            Some(n) => {
                push_chars2(&mut out, ';', ' ');
                push_decimal(&mut out, n as u128);
            },
            None => {},
        }
        out.push(']');
        assert(out@ =~= array_text(*types, *self));
        string_of(out.as_slice())
    }
}

/// How a tuple type is written: `(a, b)`.
pub open spec fn tuple_text(types: Types, t: TupleType) -> Seq<char> {
    let ps = t.parameters@;
    seq!['('] + keys_text(types, ps, ps.len(), ranks_bound(types, ps, ps.len())) + seq![')']
}

impl TupleType {
    pub fn stringify(&self, types: &Types) -> (r: String)
        requires
            wf(*types),
            float_free(*types),
            all_valid(*types, self.parameters@),
        ensures
            r@ == tuple_text(*types, *self),
    {
        let ghost ps = self.parameters@;
        proof {
            lemma_ranks_bound(*types, ps, ps.len());
        }
        let mut out: Vec<char> = Vec::new();
        out.push('(');
        push_keys(&mut out, types, &self.parameters, Ghost(ranks_bound(*types, ps, ps.len())));
        out.push(')');
        assert(out@ =~= tuple_text(*types, *self));
        string_of(out.as_slice())
    }
}

impl TraitType {
    /// The trait's name.
    pub fn stringify(&self) -> (r: String)
        ensures
            r@ == self.ident@,
    {
        self.ident.clone()
    }
}

impl ConstraintType {
    /// The names of the traits joined with ` + `.
    pub fn stringify(&self, types: &Types) -> (r: String)
        requires
            forall|j: int| 0 <= j < self.constraints@.len() ==> #[trigger] self.constraints@[j] < types.traits@.len(),
        ensures
            r@ == constraint_text(*types, self.constraints@, self.constraints@.len()),
    {
        let mut out: Vec<char> = Vec::new();
        push_constraint(&mut out, types, &self.constraints);
        assert(out@ =~= constraint_text(*types, self.constraints@, self.constraints@.len()));
        string_of(out.as_slice())
    }
}

/// How an instantiation is written: `t<a, b>`.
pub open spec fn morphed_text(types: Types, m: MorphedType) -> Seq<char> {
    let ps = m.arguments@;
    type_text(types, m.this) + seq!['<'] + keys_text(types, ps, ps.len(), ranks_bound(types, ps, ps.len())) + seq!['>']
}

impl MorphedType {
    pub fn stringify(&self, types: &Types) -> (r: String)
        requires
            wf(*types),
            float_free(*types),
            valid_key(*types, self.this),
            all_valid(*types, self.arguments@),
        ensures
            r@ == morphed_text(*types, *self),
    {
        let ghost ps = self.arguments@;
        proof {
            lemma_ranks_bound(*types, ps, ps.len());
        }
        let mut out: Vec<char> = Vec::new();
        push_type_text(&mut out, types, self.this);
        out.push('<');
        push_keys(&mut out, types, &self.arguments, Ghost(ranks_bound(*types, ps, ps.len())));
        out.push('>');
        assert(out@ =~= morphed_text(*types, *self));
        string_of(out.as_slice())
    }
}

/// How a polymorphic type is written: `<T, U: A>t`.
pub open spec fn polymorph_text(types: Types, pm: PolymorphType) -> Seq<char> {
    seq!['<'] + generics_text(types, pm.parameters@, pm.parameters@.len()) + seq!['>'] + type_text(types, pm.inner)
}

impl PolymorphType {
    pub fn stringify(&self, types: &Types) -> (r: String)
        requires
            wf(*types),
            float_free(*types),
            valid_key(*types, self.inner),
            forall|j: int| 0 <= j < self.parameters@.len() ==> #[trigger] self.parameters@[j] < types.generics@.len(),
        ensures
            r@ == polymorph_text(*types, *self),
    {
        let mut out: Vec<char> = Vec::new();
        out.push('<');
        push_generics(&mut out, types, &self.parameters);
        out.push('>');
        push_type_text(&mut out, types, self.inner);
        assert(out@ =~= polymorph_text(*types, *self));
        string_of(out.as_slice())
    }
}

impl GenericType {
    pub fn stringify(&self, types: &Types) -> (r: String)
        requires
            entries_valid(*types),
            self.constraint < types.constraints@.len(),
        ensures
            r@ == generic_value_text(*types, *self),
    {
        let mut out: Vec<char> = Vec::new();
        push_generic_value(&mut out, types, self);
        assert(out@ =~= generic_value_text(*types, *self));
        string_of(out.as_slice())
    }
}

/// A type is accepted wherever a type that unwraps to it is expected: an
/// alias of it, an instantiation whose result it is, or a chain of these.
pub proof fn lemma_check_accepts_unwrapped(types: Types, got: AnyTypeKey, expect: AnyTypeKey)
    requires
        wf(types),
        valid_key(types, got),
        valid_key(types, expect),
        spec_unwrap_full(types, expect) == got,
    ensures
        spec_check(types, got, expect) == Ok::<(), Errors>(()),
    decreases type_rank(types, expect),
{
    if expect != got {
        match spec_unwrap(types, expect) {
            Some(n) => {
                lemma_refers_lower(types, expect, n);
                lemma_check_accepts_unwrapped(types, got, n);
            },
            None => {},
        }
    }
}

/// A store with every table empty.
pub open spec fn empty_store(t: Types) -> bool {
    &&& t.functions@.len() == 0
    &&& t.constraints@.len() == 0
    &&& t.generics@.len() == 0
    &&& t.polymorphs@.len() == 0
    &&& t.morphs@.len() == 0
    &&& t.structures@.len() == 0
    &&& t.enums@.len() == 0
    &&& t.arrays@.len() == 0
    &&& t.tuples@.len() == 0
    &&& t.traits@.len() == 0
    &&& t.references@.len() == 0
    &&& t.modules@.len() == 0
    &&& t.named@.len() == 0
}

impl Default for Types {
    fn default() -> (t: Types)
        ensures
            empty_store(t),
    {
        Types {
            functions: Vec::new(),
            constraints: Vec::new(),
            generics: Vec::new(),
            polymorphs: Vec::new(),
            morphs: Vec::new(),
            structures: Vec::new(),
            enums: Vec::new(),
            arrays: Vec::new(),
            tuples: Vec::new(),
            traits: Vec::new(),
            references: Vec::new(),
            modules: Vec::new(),
            named: Vec::new(),
        }
    }
}

/// The trait every type has, and the constraint that asks only for it.
#[derive(Debug)]
pub struct AutoTypes {
    pub any_trt: usize,
    pub any_conr: usize,
}

impl AutoTypes {
    /// Adds the trait `Any` and the constraint made of it to the store.
    pub fn new(types: &mut Types) -> (a: AutoTypes)
        ensures
            a.any_trt == old(types).traits@.len(),
            a.any_conr == old(types).constraints@.len(),
            final(types).traits@.len() == old(types).traits@.len() + 1,
            final(types).traits@.take(a.any_trt as int) == old(types).traits@,
            final(types).traits@[a.any_trt as int].ident@ == seq!['A', 'n', 'y'],
            final(types).constraints@.len() == old(types).constraints@.len() + 1,
            final(types).constraints@.take(a.any_conr as int) == old(types).constraints@,
            final(types).constraints@[a.any_conr as int].constraints@ == seq![a.any_trt],
            final(types).functions == old(types).functions,
            final(types).generics == old(types).generics,
            final(types).polymorphs == old(types).polymorphs,
            final(types).morphs == old(types).morphs,
            final(types).structures == old(types).structures,
            final(types).enums == old(types).enums,
            final(types).arrays == old(types).arrays,
            final(types).tuples == old(types).tuples,
            final(types).references == old(types).references,
            final(types).modules == old(types).modules,
            final(types).named == old(types).named,
    {
        let any_trt = types.traits.len();
        let ident = string_of(&['A', 'n', 'y']);
        types.traits.push(TraitType { ident });
        let any_conr = types.constraints.len();
        let mut cs: Vec<usize> = Vec::new();
        cs.push(any_trt);
        types.constraints.push(ConstraintType { constraints: cs });
        assert(types.traits@.take(any_trt as int) =~= old(types).traits@);
        assert(types.constraints@.take(any_conr as int) =~= old(types).constraints@);
        AutoTypes { any_trt, any_conr }
    }
}

impl AnyTypeKey {
    /// What an alias or an instantiation stands for.
    pub fn unwrap(self, types: &Types) -> (r: Option<AnyTypeKey>)
        requires
            valid_key(*types, self),
        ensures
            r == spec_unwrap(*types, self),
    {
        match self {
            AnyTypeKey::Named(key) => Some(types.named[key].repr),
            AnyTypeKey::Morphed(key) => Some(types.morphs[key].this),
            _ => None,
        }
    }

    /// Unwraps aliases and instantiations until neither is left: the
    /// result is no alias and no instantiation.
    pub fn unwrap_full(self, types: &Types) -> (r: AnyTypeKey)
        requires
            wf(*types),
            valid_key(*types, self),
        ensures
            r == spec_unwrap_full(*types, self),
            spec_unwrap(*types, r) is None,
            valid_key(*types, r),
    {
        let mut this = self;
        loop
            invariant
                wf(*types),
                valid_key(*types, this),
                spec_unwrap_full(*types, self) == spec_unwrap_full(*types, this),
            decreases type_rank(*types, this),
        {
            match this.unwrap(types) {
                Some(new) => {
                    proof {
                        lemma_refers_lower(*types, this, new);
                    }
                    this = new;
                },
                None => {
                    return this;
                },
            }
        }
    }
    /// Checks that a value of type `self` is accepted where `expect` is
    /// expected (see `spec_check`).
    pub fn check(&self, types: &Types, expect: &AnyTypeKey) -> (r: Result<(), Errors>)
        requires
            wf(*types),
            valid_key(*types, *self),
            valid_key(*types, *expect),
        ensures
            r == spec_check(*types, *self, *expect),
        decreases type_rank(*types, *self) + type_rank(*types, *expect),
    {
        if *expect == *self {
            return Ok(());
        }
        let equals: bool = match (*expect, *self) {
            (AnyTypeKey::Array(e), AnyTypeKey::Array(g)) => {
                let ea = &types.arrays[e];
                let ga = &types.arrays[g];
                proof {
                    lemma_refers_lower(*types, *expect, ea.element_type);
                    lemma_refers_lower(*types, *self, ga.element_type);
                }
                match ga.element_type.check(types, &ea.element_type) {
                    Err(x) => {
                        return Err(x);
                    },
                    Ok(_) => {},
                }
                match (ea.size, ga.size) {
                    (None, _) => true,
                    (Some(x), Some(y)) => {
                        if x == y {
                            true
                        } else {
                            return Err(Errors::ArrayElementCountMismatch {
                                expected: (ea.element_type, x),
                                got: (ga.element_type, Some(y)),
                            });
                        }
                    },
                    (Some(x), None) => {
                        return Err(Errors::ArrayElementCountMismatch {
                            expected: (ea.element_type, x),
                            got: (ga.element_type, None),
                        });
                    },
                }
            },
            (AnyTypeKey::Reference(e), AnyTypeKey::Reference(g)) => {
                let ei = types.references[e].inner;
                let gi = types.references[g].inner;
                proof {
                    lemma_refers_lower(*types, *expect, ei);
                    lemma_refers_lower(*types, *self, gi);
                }
                match gi.check(types, &ei) {
                    Err(x) => {
                        return Err(x);
                    },
                    Ok(_) => true,
                }
            },
            _ => false,
        };
        if equals {
            Ok(())
        } else {
            match expect.unwrap(types) {
                Some(exp) => {
                    proof {
                        lemma_refers_lower(*types, *expect, exp);
                    }
                    self.check(types, &exp)
                },
                None => Err(Errors::TypeMismatch { expected: *expect, got: *self }),
            }
        }
    }
    /// How the type is written (see `type_text`).
    pub fn stringify(&self, types: &Types) -> (r: String)
        requires
            wf(*types),
            float_free(*types),
            valid_key(*types, *self),
        ensures
            r@ == type_text(*types, *self),
    {
        let mut out: Vec<char> = Vec::new();
        push_type_text(&mut out, types, *self);
        assert(out@ =~= type_text(*types, *self));
        string_of(out.as_slice())
    }
}

} // verus!
