//! Pieces of lowering declarations: checking a constant against the type
//! it is declared with, and the scopes of generic parameters.

use crate::ast::{GenericParameter, IdentifierPath};
use crate::const_value::{ConstValue, Diagnostic, Errors};
use crate::init_state::InitState;
use crate::ir::AnyObjectKey;
use crate::interning::{constraint_lists, first_list, intern_list, push_constraint};
use crate::names::{Context, TraitObj, distinct_names, insert_name, lookup_name, named};
use crate::number::{Number, NumberValue};
use crate::primitive::{PrimitiveType, spec_float_size, spec_number_size};
use crate::span::Span;
use crate::types::{AnyTypeKey, ConstraintType, GenericType, Types};
use vstd::prelude::*;

verus! {

/// Whether the number `n` fits the primitive type `p`: a number of no
/// particular kind fits a numeric type, or a type whose width is the
/// number's (so an unsized one fits a type without width too); a float or
/// an integer fits only a float type, of its own width if it has one.
pub open spec fn number_fits(p: PrimitiveType, n: Number) -> bool {
    match n.value {
        NumberValue::Any(_) => spec_number_size(p) is Some || spec_number_size(p) == n.size,
        _ => match n.size {
            None => spec_float_size(p) is Some,
            Some(s) => spec_float_size(p) == Some(s),
        },
    }
}

/// The number once checked against `p`: a float or integer without a
/// width takes the width of the float type it fits.
pub open spec fn number_sized(p: PrimitiveType, n: Number) -> Number {
    match n.value {
        NumberValue::Any(_) => n,
        _ => if n.size is None && spec_float_size(p) is Some {
            Number { value: n.value, size: spec_float_size(p) }
        } else {
            n
        },
    }
}

impl Context {
    /// Whether the constant `value` fits the type `ty`: a character fits
    /// `char`; a number fits a primitive type as `number_fits` says, and
    /// takes a width as `number_sized` says; nothing else fits.
    pub fn type_check_const_value(&self, value: &mut ConstValue, ty: &AnyTypeKey) -> (r: bool)
        ensures
            match (*ty, *old(value)) {
                (AnyTypeKey::Primitive(p), ConstValue::Char(_)) => r == (p == PrimitiveType::Char) && *final(value)
                    == *old(value),
                (AnyTypeKey::Primitive(p), ConstValue::Number(n)) => r == number_fits(p, n) && *final(value)
                    == ConstValue::Number(if r {
                    number_sized(p, n)
                } else {
                    n
                }),
                _ => !r && *final(value) == *old(value),
            },
    {
        let p = match ty {
            AnyTypeKey::Primitive(p) => *p,
            _ => {
                return false;
            },
        };
        let n = match value {
            ConstValue::Char(_) => {
                return p == PrimitiveType::Char;
            },
            ConstValue::Number(n) => *n,
            _ => {
                return false;
            },
        };
        match n.value {
            NumberValue::Any(_) => p.is_numeric() || p.number_size() == n.size,
            _ => match n.size {
                None => match p.float_size() {
                    Some(s) => {
                        *value = ConstValue::Number(Number { value: n.value, size: Some(s) });
                        true
                    },
                    None => false,
                },
                Some(size) => match p.float_size() {
                    Some(s) => size == s,
                    None => false,
                },
            },
        }
    }
}

/// The generic parameters in scope, innermost scope last, each with its
/// constraint (an index into the constraint table).
#[derive(Debug)]
pub struct GenericContext {
    pub scopes: Vec<Vec<(String, usize)>>,
}

/// The constraint of the first parameter named `name` in `scope` at index
/// `i` or later.
pub open spec fn scope_find(scope: Seq<(String, usize)>, name: Seq<char>, i: int) -> Option<usize>
    decreases scope.len() - i,
{
    if i < 0 || i >= scope.len() {
        None
    } else if scope[i].0@ == name {
        Some(scope[i].1)
    } else {
        scope_find(scope, name, i + 1)
    }
}

/// The constraint of the generic parameter `name` in the first `n`
/// scopes, the innermost (last) one searched first.
pub open spec fn generic_in(scopes: Seq<Vec<(String, usize)>>, name: Seq<char>, n: nat) -> Option<usize>
    decreases n,
{
    if n == 0 || n > scopes.len() {
        None
    } else {
        match scope_find(scopes[n - 1]@, name, 0) {
            Some(c) => Some(c),
            None => generic_in(scopes, name, (n - 1) as nat),
        }
    }
}

/// The object the first name of a constraint path stands for in the
/// module.
pub open spec fn constraint_object(ctx: Context, module: usize, path: Span<IdentifierPath>) -> Option<AnyObjectKey> {
    named(ctx.types.modules@[module as int].symbol_map@, (*path.inner.path@[0].inner)@)
}

/// The constraint path has a first name, and the module binds it to a
/// trait.
pub open spec fn names_trait(ctx: Context, module: usize, path: Span<IdentifierPath>) -> bool {
    &&& path.inner.path@.len() > 0
    &&& constraint_object(ctx, module, path) matches Some(AnyObjectKey::Trait(k))
    &&& k < ctx.objects.traits@.len()
}

/// The entry in the trait table of the trait a constraint path names, once
/// the trait has one.
pub open spec fn path_trait(ctx: Context, module: usize, path: Span<IdentifierPath>) -> Option<usize> {
    match ctx.objects.traits@[constraint_object(ctx, module, path)->Some_0->Trait_0 as int].data.ty {
        InitState::Done(t) => Some(t),
        InitState::Progress(t) => Some(t),
        InitState::Uninitialized => None,
    }
}

/// The generic parameters of a declaration, if it has any.
pub open spec fn parameters_of(generics: Option<Span<Vec<Span<GenericParameter>>>>) -> Seq<Span<GenericParameter>> {
    match generics {
        Some(g) => (*g.inner)@,
        None => Seq::empty(),
    }
}

/// Every constraint path of every parameter names a trait of the module.
pub open spec fn scope_resolvable(ctx: Context, module: usize, ps: Seq<Span<GenericParameter>>) -> bool {
    forall|i: int, j: int|
        0 <= i < ps.len() && 0 <= j < (*ps[i].inner).constraints@.len() ==> names_trait(
            ctx,
            module,
            #[trigger] (*ps[i].inner).constraints@[j],
        )
}

/// Every constraint of the parameter has its trait's entry.
pub open spec fn parameter_known(ctx: Context, module: usize, p: GenericParameter) -> bool {
    forall|j: int| 0 <= j < p.constraints@.len() ==> (#[trigger] path_trait(ctx, module, p.constraints@[j])) is Some
}

/// The number of the first `n` parameters that have constraints.
pub open spec fn constrained_count(ps: Seq<Span<GenericParameter>>, n: nat) -> nat
    decreases n,
{
    if n == 0 || n > ps.len() {
        0
    } else {
        constrained_count(ps, (n - 1) as nat) + if (*ps[n - 1].inner).constraints@.len() > 0 {
            1nat
        } else {
            0nat
        }
    }
}

/// The constraint parameter `i` gets: the one every type meets if it has
/// no constraints, else the entry added for it, after the `base` entries
/// there were and those added for the parameters before it.
pub open spec fn parameter_constraint(ctx: Context, ps: Seq<Span<GenericParameter>>, i: int, base: nat) -> usize {
    if (*ps[i].inner).constraints@.len() == 0 {
        ctx.auto_types.any_conr
    } else {
        (base + constrained_count(ps, i as nat)) as usize
    }
}

/// Inner scopes hide outer ones: in the scopes with `scope` entered last,
/// a name is found in `scope` if it is there, and as before otherwise.
pub proof fn lemma_innermost_scope_first(scopes: Seq<Vec<(String, usize)>>, scope: Vec<(String, usize)>, name: Seq<char>)
    ensures
        generic_in(scopes.push(scope), name, scopes.len() + 1) == match scope_find(scope@, name, 0) {
            Some(c) => Some(c),
            None => generic_in(scopes, name, scopes.len()),
        },
{
    let pushed = scopes.push(scope);
    assert(pushed[scopes.len() as int] == scope);
    lemma_generic_in_prefix(scopes, scope, name, scopes.len());
}

proof fn lemma_generic_in_prefix(scopes: Seq<Vec<(String, usize)>>, scope: Vec<(String, usize)>, name: Seq<char>, n: nat)
    requires
        n <= scopes.len(),
    ensures
        generic_in(scopes.push(scope), name, n) == generic_in(scopes, name, n),
    decreases n,
{
    if n > 0 {
        assert(scopes.push(scope)[n - 1] == scopes[n - 1]);
        lemma_generic_in_prefix(scopes, scope, name, (n - 1) as nat);
    }
}

proof fn lemma_constrained_count_grows(ps: Seq<Span<GenericParameter>>, k: nat, i: nat)
    requires
        k < i <= ps.len(),
        (*ps[k as int].inner).constraints@.len() > 0,
    ensures
        constrained_count(ps, k) + 1 <= constrained_count(ps, i),
    decreases i - k,
{
    if i > k + 1 {
        lemma_constrained_count_grows(ps, k, (i - 1) as nat);
    }
}

impl GenericContext {
    /// The constraint of the generic parameter `ident` (see `generic_in`).
    pub fn find_generic(&self, ident: &String) -> (r: Option<&usize>)
        ensures
            match generic_in(self.scopes@, ident@, self.scopes@.len()) {
                Some(c) => r matches Some(k) && *k == c,
                None => r is None,
            },
    {
        let mut n: usize = self.scopes.len();
        while n > 0
            invariant
                n <= self.scopes@.len(),
                generic_in(self.scopes@, ident@, self.scopes@.len()) == generic_in(self.scopes@, ident@, n as nat),
            decreases n,
        {
            let scope = &self.scopes[n - 1];
            let mut i: usize = 0;
            while i < scope.len()
                invariant
                    0 < n <= self.scopes@.len(),
                    *scope == self.scopes@[n - 1],
                    generic_in(self.scopes@, ident@, self.scopes@.len()) == generic_in(self.scopes@, ident@, n as nat),
                    i <= scope@.len(),
                    scope_find(scope@, ident@, 0) == scope_find(scope@, ident@, i as int),
                decreases scope@.len() - i,
            {
                if scope[i].0 == *ident {
                    return Some(&scope[i].1);
                }
                i = i + 1;
            }
            n = n - 1;
        }
        None
    }

    /// Leaves the innermost scope.
    pub fn pop_scope(&mut self)
        requires
            old(self).scopes@.len() > 0,
        ensures
            final(self).scopes@ == old(self).scopes@.drop_last(),
    {
        self.scopes.pop();
    }

    /// Enters a scope holding the generic parameters `generics` (an empty
    /// one if there are none): each parameter gets, in order, the
    /// constraint made of the traits its constraint paths name (added to
    /// the constraint table), or the constraint every type meets if it
    /// has none. A trait whose entry is not made yet is reported, at the
    /// parameter, and no scope is entered.
    pub fn push_scope(
        &mut self,
        generics: &Option<Span<Vec<Span<GenericParameter>>>>,
        ctx: &mut Context,
        mod_key: &usize,
    ) -> (r: Result<(), Diagnostic<Errors>>)
        requires
            *mod_key < old(ctx).types.modules@.len(),
            scope_resolvable(*old(ctx), *mod_key, parameters_of(*generics)),
        ensures
            final(ctx).types.modules == old(ctx).types.modules,
            final(ctx).objects == old(ctx).objects,
            final(ctx).auto_types == old(ctx).auto_types,
            final(ctx).types.constraints@.len() >= old(ctx).types.constraints@.len(),
            forall|c: int| 0 <= c < old(ctx).types.constraints@.len() ==> #[trigger] final(ctx).types.constraints@[c]
                == old(ctx).types.constraints@[c],
            match r {
                Ok(()) => {
                    let ps = parameters_of(*generics);
                    let base = old(ctx).types.constraints@.len();
                    &&& forall|i: int| 0 <= i < ps.len() ==> parameter_known(*old(ctx), *mod_key, #[trigger] *ps[i].inner)
                    &&& final(self).scopes@.len() == old(self).scopes@.len() + 1
                    &&& final(self).scopes@.drop_last() == old(self).scopes@
                    &&& final(self).scopes@.last()@.len() == ps.len()
                    &&& forall|i: int|
                        0 <= i < ps.len() ==> (#[trigger] final(self).scopes@.last()@[i]).0@ == (*(*ps[i].inner).identifier.inner)@
                            && final(self).scopes@.last()@[i].1 == parameter_constraint(*old(ctx), ps, i, base)
                    &&& final(ctx).types.constraints@.len() == base + constrained_count(ps, ps.len())
                    &&& forall|i: int|
                        0 <= i < ps.len() && (*ps[i].inner).constraints@.len() > 0 ==> {
                            let cs = final(ctx).types.constraints@[(base + constrained_count(ps, i as nat)) as int].constraints@;
                            &&& cs.len() == (*ps[i].inner).constraints@.len()
                            &&& forall|j: int|
                                0 <= j < cs.len() ==> Some(#[trigger] cs[j]) == path_trait(
                                    *old(ctx),
                                    *mod_key,
                                    (*ps[i].inner).constraints@[j],
                                )
                        }
                },
                Err(e) => {
                    let ps = parameters_of(*generics);
                    &&& final(self).scopes == old(self).scopes
                    &&& exists|i: int, j: int|
                        0 <= i < ps.len() && 0 <= j < (*ps[i].inner).constraints@.len() && (forall|k: int|
                            0 <= k < i ==> parameter_known(*old(ctx), *mod_key, #[trigger] *ps[k].inner)) && (forall|k: int|
                            0 <= k < j ==> (#[trigger] path_trait(*old(ctx), *mod_key, (*ps[i].inner).constraints@[k])) is Some)
                            && path_trait(*old(ctx), *mod_key, #[trigger] (*ps[i].inner).constraints@[j]) is None && e == (
                        Diagnostic {
                            inner: Errors::NonConstraintType(
                                constraint_object(*old(ctx), *mod_key, (*ps[i].inner).constraints@[j])->Some_0,
                            ),
                            span: (*ps[i].inner).identifier.location,
                            module: *mod_key,
                        })
                },
            },
    {
        let ghost c0 = *ctx;
        let ghost ps = parameters_of(*generics);
        let ghost base = ctx.types.constraints@.len();
        match generics {
            None => {
                self.scopes.push(Vec::new());
                Ok(())
            },
            Some(declared) => {
                let params: &Vec<Span<GenericParameter>> = &declared.inner;
                let mut scope: Vec<(String, usize)> = Vec::new();
                let mut i: usize = 0;
                while i < params.len()
                    invariant
                        c0 == *old(ctx),
                        *self == *old(self),
                        ps == parameters_of(*generics),
                        ps == params@,
                        0 <= i <= params@.len(),
                        *mod_key < c0.types.modules@.len(),
                        scope_resolvable(c0, *mod_key, ps),
                        ctx.types.modules == c0.types.modules,
                        ctx.objects == c0.objects,
                        ctx.auto_types == c0.auto_types,
                        base == c0.types.constraints@.len(),
                        ctx.types.constraints@.len() == base + constrained_count(ps, i as nat),
                        forall|c: int| 0 <= c < base ==> #[trigger] ctx.types.constraints@[c] == c0.types.constraints@[c],
                        forall|k: int| 0 <= k < i ==> parameter_known(c0, *mod_key, #[trigger] *ps[k].inner),
                        scope@.len() == i,
                        forall|k: int|
                            0 <= k < i ==> (#[trigger] scope@[k]).0@ == (*(*ps[k].inner).identifier.inner)@ && scope@[k].1
                                == parameter_constraint(c0, ps, k, base),
                        forall|k: int|
                            0 <= k < i && (*ps[k].inner).constraints@.len() > 0 ==> {
                                let cs = ctx.types.constraints@[(base + constrained_count(ps, k as nat)) as int].constraints@;
                                &&& cs.len() == (*ps[k].inner).constraints@.len()
                                &&& forall|j: int|
                                    0 <= j < cs.len() ==> Some(#[trigger] cs[j]) == path_trait(
                                        c0,
                                        *mod_key,
                                        (*ps[k].inner).constraints@[j],
                                    )
                            },
                    decreases params@.len() - i,
                {
                    let generic: &GenericParameter = &params[i].inner;
                    let mut traits: Vec<usize> = Vec::new();
                    let mut j: usize = 0;
                    while j < generic.constraints.len()
                        invariant
                            c0 == *old(ctx),
                            *self == *old(self),
                            ps == parameters_of(*generics),
                            ps == params@,
                            0 <= i < params@.len(),
                            *generic == *ps[i as int].inner,
                            ctx.auto_types == c0.auto_types,
                            base == c0.types.constraints@.len(),
                            ctx.types.constraints@.len() == base + constrained_count(ps, i as nat),
                            forall|c: int| 0 <= c < base ==> #[trigger] ctx.types.constraints@[c] == c0.types.constraints@[c],
                            forall|k: int| 0 <= k < i ==> parameter_known(c0, *mod_key, #[trigger] *ps[k].inner),
                            0 <= j <= generic.constraints@.len(),
                            *mod_key < c0.types.modules@.len(),
                            scope_resolvable(c0, *mod_key, ps),
                            ctx.types.modules == c0.types.modules,
                            ctx.objects == c0.objects,
                            traits@.len() == j,
                            forall|k: int|
                                0 <= k < j ==> Some(#[trigger] traits@[k]) == path_trait(c0, *mod_key, generic.constraints@[k]),
                        decreases generic.constraints@.len() - j,
                    {
                        let constr_path: &Span<IdentifierPath> = &generic.constraints[j];
                        proof {
                            assert(names_trait(c0, *mod_key, (*ps[i as int].inner).constraints@[j as int]));
                        }
                        let first: &String = &constr_path.inner.path[0].inner;
                        let obj_key = lookup_name(&ctx.types.modules[*mod_key].symbol_map, first);
                        let trt_key = match obj_key {
                            Some(AnyObjectKey::Trait(k)) => k,
                            _ => vstd::pervasive::unreached(),
                        };
                        let ty = match ctx.objects.traits[trt_key].data.ty {
                            InitState::Done(t) => t,
                            InitState::Progress(t) => t,
                            InitState::Uninitialized => {
                                let e = Diagnostic {
                                    inner: Errors::NonConstraintType(AnyObjectKey::Trait(trt_key)),
                                    span: generic.identifier.location,
                                    module: *mod_key,
                                };
                                proof {
                                    assert(path_trait(c0, *mod_key, (*ps[i as int].inner).constraints@[j as int]) is None);
                                    assert forall|k: int| 0 <= k < j implies (#[trigger] path_trait(
                                        c0,
                                        *mod_key,
                                        (*ps[i as int].inner).constraints@[k],
                                    )) is Some by {
                                        assert(Some(traits@[k]) == path_trait(c0, *mod_key, generic.constraints@[k]));
                                    }
                                }
                                return Err(e);
                            },
                        };
                        traits.push(ty);
                        j = j + 1;
                    }
                    proof {
                        assert forall|k: int| 0 <= k < generic.constraints@.len() implies (#[trigger] path_trait(
                            c0,
                            *mod_key,
                            generic.constraints@[k],
                        )) is Some by {
                            assert(Some(traits@[k]) == path_trait(c0, *mod_key, generic.constraints@[k]));
                        }
                        assert(parameter_known(c0, *mod_key, *ps[i as int].inner));
                    }
                    let ghost before = ctx.types.constraints@;
                    let ghost traits_view = traits@;
                    let key = if traits.len() == 0 {
                        ctx.auto_types.any_conr
                    } else {
                        let k = ctx.types.constraints.len();
                        ctx.types.constraints.push(ConstraintType { constraints: traits });
                        k
                    };
                    proof {
                        assert(constrained_count(ps, (i + 1) as nat) == constrained_count(ps, i as nat) + if (
                        *ps[i as int].inner).constraints@.len() > 0 {
                            1nat
                        } else {
                            0nat
                        });
                        assert forall|k: int| 0 <= k < i && (*ps[k].inner).constraints@.len() > 0 implies (base
                            + constrained_count(ps, k as nat)) < before.len() by {
                            lemma_constrained_count_grows(ps, k as nat, i as nat);
                        }
                        if traits_view.len() > 0 {
                            assert(ctx.types.constraints@[(base + constrained_count(ps, i as nat)) as int].constraints@
                                == traits_view);
                        }
                    }
                    let name: &String = &generic.identifier.inner;
                    scope.push((name.clone(), key));
                    i = i + 1;
                }
                self.scopes.push(scope);
                Ok(())
            },
        }
    }
}


/// The trait entries the constraint paths of `p` name, in order.
pub open spec fn parameter_traits(ctx: Context, module: usize, p: GenericParameter) -> Seq<usize> {
    Seq::new(p.constraints@.len(), |j: int| path_trait(ctx, module, p.constraints@[j])->Some_0)
}

/// What entering a scope for the first `n` of the parameters `ps` makes
/// of `ctx`: the constraint table (as trait lists), where each parameter's
/// list of traits is added unless an equal one is there; the entries added
/// to the generic table, a name and a constraint for each parameter; and
/// the names the scope binds, each to the entry of its parameter (of
/// parameters with one name, the last).
pub open spec fn scope_entered(ctx: Context, module: usize, ps: Seq<Span<GenericParameter>>, n: nat) -> (
    Seq<Seq<usize>>,
    Seq<(Seq<char>, usize)>,
    Map<Seq<char>, usize>,
)
    decreases n,
{
    if n == 0 || n > ps.len() {
        (constraint_lists(ctx.types.constraints@), Seq::empty(), Map::empty())
    } else {
        let prev = scope_entered(ctx, module, ps, (n - 1) as nat);
        let p = *ps[n - 1].inner;
        let x = parameter_traits(ctx, module, p);
        let name = (*p.identifier.inner)@;
        (
            intern_list(prev.0, x),
            prev.1.push((name, first_list(prev.0, x, 0) as usize)),
            prev.2.insert(name, (ctx.types.generics@.len() + n - 1) as usize),
        )
    }
}

/// `after` is `before` with the constraint and generic tables grown as
/// entering the first `n` parameters `ps` grows them (see
/// `scope_entered`), and nothing else of the store, the objects, the types
/// every program has or the warnings changed.
pub open spec fn tables_entered(before: Context, after: Context, module: usize, ps: Seq<Span<GenericParameter>>, n: nat) -> bool {
    let e = scope_entered(before, module, ps, n);
    let base = before.types.generics@.len();
    &&& after.types == (Types { constraints: after.types.constraints, generics: after.types.generics, ..before.types })
    &&& after.objects == before.objects
    &&& after.auto_types == before.auto_types
    &&& after.diagnostics == before.diagnostics
    &&& constraint_lists(after.types.constraints@) == e.0
    &&& after.types.generics@.len() == base + n
    &&& forall|m: int| 0 <= m < base ==> #[trigger] after.types.generics@[m] == before.types.generics@[m]
    &&& forall|m: int|
        base <= m < base + n ==> (#[trigger] after.types.generics@[m]).ident@ == e.1[m - base].0
            && after.types.generics@[m].constraint == e.1[m - base].1
}

/// The scope binds exactly the names of `binds`, each once.
pub open spec fn scope_binds(scope: Seq<(String, usize)>, binds: Map<Seq<char>, usize>) -> bool {
    &&& distinct_names(scope)
    &&& forall|name: Seq<char>| #[trigger] named(scope, name) == if binds.contains_key(name) {
        Some(binds[name])
    } else {
        None
    }
}

/// `after` is `before` with a scope entered for the first `n` parameters
/// `ps`: the tables grown (see `tables_entered`) and one scope more, which
/// binds their names.
pub open spec fn scope_outcome(before: Context, after: Context, module: usize, ps: Seq<Span<GenericParameter>>, n: nat) -> bool {
    &&& tables_entered(before, after, module, ps, n)
    &&& after.generic_ctx.scopes@.len() == before.generic_ctx.scopes@.len() + 1
    &&& after.generic_ctx.scopes@.drop_last() == before.generic_ctx.scopes@
    &&& scope_binds(after.generic_ctx.scopes@.last()@, scope_entered(before, module, ps, n).2)
}

proof fn lemma_scope_entered_len(ctx: Context, module: usize, ps: Seq<Span<GenericParameter>>, n: nat)
    requires
        n <= ps.len(),
    ensures
        scope_entered(ctx, module, ps, n).1.len() == n,
    decreases n,
{
    if n > 0 {
        lemma_scope_entered_len(ctx, module, ps, (n - 1) as nat);
    }
}

impl Context {
    /// Enters a new scope of generic parameters and returns its key (the
    /// number of scopes before). Each parameter of `generics`, in order,
    /// gets the constraint made of the traits its constraint paths name
    /// (interned in the constraint table), a new entry in the generic
    /// table, and its name in the scope. A trait whose entry is not made
    /// yet is reported, at the parameter; the scope stays entered with the
    /// parameters before it.
    pub fn push_generic_scope(
        &mut self,
        generics: &Option<Span<Vec<Span<GenericParameter>>>>,
        mod_key: &usize,
    ) -> (r: Result<usize, Diagnostic<Errors>>)
        requires
            *mod_key < old(self).types.modules@.len(),
            scope_resolvable(*old(self), *mod_key, parameters_of(*generics)),
        ensures
            match r {
                Ok(key) => {
                    let ps = parameters_of(*generics);
                    &&& key == old(self).generic_ctx.scopes@.len()
                    &&& forall|i: int| 0 <= i < ps.len() ==> parameter_known(*old(self), *mod_key, #[trigger] *ps[i].inner)
                    &&& scope_outcome(*old(self), *final(self), *mod_key, ps, ps.len())
                },
                Err(e) => {
                    let ps = parameters_of(*generics);
                    exists|i: int, j: int|
                        0 <= i < ps.len() && 0 <= j < (*ps[i].inner).constraints@.len() && (forall|k: int|
                            0 <= k < i ==> parameter_known(*old(self), *mod_key, #[trigger] *ps[k].inner)) && (forall|k: int|
                            0 <= k < j ==> (#[trigger] path_trait(*old(self), *mod_key, (*ps[i].inner).constraints@[k])) is Some)
                            && path_trait(*old(self), *mod_key, #[trigger] (*ps[i].inner).constraints@[j]) is None && e == (
                        Diagnostic {
                            inner: Errors::NonConstraintType(
                                constraint_object(*old(self), *mod_key, (*ps[i].inner).constraints@[j])->Some_0,
                            ),
                            span: (*ps[i].inner).identifier.location,
                            module: *mod_key,
                        }) && scope_outcome(*old(self), *final(self), *mod_key, ps, i as nat)
                },
            },
    {
        let ghost c0 = *self;
        let ghost ps = parameters_of(*generics);
        let key = self.generic_ctx.scopes.len();
        let mut scope: Vec<(String, usize)> = Vec::new();
        proof {
            assert(tables_entered(c0, *self, *mod_key, ps, 0));
            assert(scope_binds(scope@, scope_entered(c0, *mod_key, ps, 0).2));
        }
        match generics {
            None => {},
            Some(declared) => {
                let params: &Vec<Span<GenericParameter>> = &declared.inner;
                let mut i: usize = 0;
                while i < params.len()
                    invariant
                        c0 == *old(self),
                        ps == parameters_of(*generics),
                        ps == params@,
                        0 <= i <= params@.len(),
                        *mod_key < c0.types.modules@.len(),
                        scope_resolvable(c0, *mod_key, ps),
                        self.generic_ctx == c0.generic_ctx,
                        key == c0.generic_ctx.scopes@.len(),
                        forall|k: int| 0 <= k < i ==> parameter_known(c0, *mod_key, #[trigger] *ps[k].inner),
                        tables_entered(c0, *self, *mod_key, ps, i as nat),
                        scope_binds(scope@, scope_entered(c0, *mod_key, ps, i as nat).2),
                    decreases params@.len() - i,
                {
                    let generic: &GenericParameter = &params[i].inner;
                    let mut traits: Vec<usize> = Vec::new();
                    let mut j: usize = 0;
                    while j < generic.constraints.len()
                        invariant
                            c0 == *old(self),
                            ps == parameters_of(*generics),
                            ps == params@,
                            0 <= i < params@.len(),
                            *generic == *ps[i as int].inner,
                            *mod_key < c0.types.modules@.len(),
                            scope_resolvable(c0, *mod_key, ps),
                            self.generic_ctx == c0.generic_ctx,
                            forall|k: int| 0 <= k < i ==> parameter_known(c0, *mod_key, #[trigger] *ps[k].inner),
                            tables_entered(c0, *self, *mod_key, ps, i as nat),
                            scope_binds(scope@, scope_entered(c0, *mod_key, ps, i as nat).2),
                            0 <= j <= generic.constraints@.len(),
                            traits@.len() == j,
                            forall|k: int|
                                0 <= k < j ==> Some(#[trigger] traits@[k]) == path_trait(c0, *mod_key, generic.constraints@[k]),
                        decreases generic.constraints@.len() - j,
                    {
                        let constr_path: &Span<IdentifierPath> = &generic.constraints[j];
                        proof {
                            assert(names_trait(c0, *mod_key, (*ps[i as int].inner).constraints@[j as int]));
                        }
                        let first: &String = &constr_path.inner.path[0].inner;
                        let obj_key = lookup_name(&self.types.modules[*mod_key].symbol_map, first);
                        let trt_key = match obj_key {
                            Some(AnyObjectKey::Trait(k)) => k,
                            _ => vstd::pervasive::unreached(),
                        };
                        let ty = match self.objects.traits[trt_key].data.ty {
                            InitState::Done(t) => t,
                            InitState::Progress(t) => t,
                            InitState::Uninitialized => {
                                let e = Diagnostic {
                                    inner: Errors::NonConstraintType(AnyObjectKey::Trait(trt_key)),
                                    span: generic.identifier.location,
                                    module: *mod_key,
                                };
                                proof {
                                    assert(path_trait(c0, *mod_key, (*ps[i as int].inner).constraints@[j as int]) is None);
                                    assert forall|k: int| 0 <= k < j implies (#[trigger] path_trait(
                                        c0,
                                        *mod_key,
                                        (*ps[i as int].inner).constraints@[k],
                                    )) is Some by {
                                        assert(Some(traits@[k]) == path_trait(c0, *mod_key, generic.constraints@[k]));
                                    }
                                }
                                self.generic_ctx.scopes.push(scope);
                                proof {
                                    assert(self.generic_ctx.scopes@.drop_last() =~= c0.generic_ctx.scopes@);
                                    assert(scope_outcome(c0, *self, *mod_key, ps, i as nat));
                                }
                                return Err(e);
                            },
                        };
                        traits.push(ty);
                        j = j + 1;
                    }
                    proof {
                        assert forall|k: int| 0 <= k < generic.constraints@.len() implies (#[trigger] path_trait(
                            c0,
                            *mod_key,
                            generic.constraints@[k],
                        )) is Some by {
                            assert(Some(traits@[k]) == path_trait(c0, *mod_key, generic.constraints@[k]));
                        }
                        assert(parameter_known(c0, *mod_key, *ps[i as int].inner));
                        assert(traits@ =~= parameter_traits(c0, *mod_key, *generic));
                    }
                    let ghost s_before = *self;
                    let constraint = push_constraint(&mut self.types, ConstraintType { constraints: traits });
                    let name: &String = &generic.identifier.inner;
                    let gen_key = self.types.generics.len();
                    self.types.generics.push(GenericType { constraint, ident: name.clone() });
                    insert_name(&mut scope, name.clone(), gen_key);
                    proof {
                        let e = scope_entered(c0, *mod_key, ps, (i + 1) as nat);
                        let prev = scope_entered(c0, *mod_key, ps, i as nat);
                        lemma_scope_entered_len(c0, *mod_key, ps, i as nat);
                        lemma_scope_entered_len(c0, *mod_key, ps, (i + 1) as nat);
                        assert(e.0 == intern_list(prev.0, parameter_traits(c0, *mod_key, *generic)));
                        assert(e.2 == prev.2.insert(name@, gen_key));
                        assert(e.1 == prev.1.push((name@, constraint)));
                        assert forall|m: int|
                            c0.types.generics@.len() <= m < c0.types.generics@.len() + i + 1 implies (
                            #[trigger] self.types.generics@[m]).ident@ == e.1[m - c0.types.generics@.len()].0
                                && self.types.generics@[m].constraint == e.1[m - c0.types.generics@.len()].1 by {
                            if m < c0.types.generics@.len() + i {
                                assert(self.types.generics@[m] == s_before.types.generics@[m]);
                            }
                        }
                        assert(tables_entered(c0, *self, *mod_key, ps, (i + 1) as nat));
                    }
                    i = i + 1;
                }
            },
        }
        self.generic_ctx.scopes.push(scope);
        proof {
            assert(self.generic_ctx.scopes@.drop_last() =~= c0.generic_ctx.scopes@);
        }
        Ok(key)
    }
}

} // verus!
