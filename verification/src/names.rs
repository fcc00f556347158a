//! The objects a program declares and the names modules give them: what a
//! name stands for, who may use an object, and how a path of names is
//! followed from module to module.

use crate::ast::IdentifierPath;
use crate::const_value::{ConstValue, Diagnostic, Errors, Warnings};
use crate::init_state::InitState;
use crate::ir::AnyObjectKey;
use crate::objects::{AccessModifiers, AnyObject, FunctionObj};
use crate::span::{Span, SpanIndex};
use crate::types::{AnyTypeKey, AutoTypes, Types};
use vstd::prelude::*;

verus! {

/// An imported module, by its index in the module table.
#[derive(Debug)]
pub struct ImportObj {
    pub module: usize,
}

/// A constant: its value and its type, once known.
#[derive(Debug)]
pub struct ConstObj {
    pub value: InitState<ConstValue, ()>,
    pub ty: InitState<AnyTypeKey, ()>,
}

/// A type alias: its entry in the alias table, its generic scope, and the
/// constants declared in it, by name.
#[derive(Debug)]
pub struct TypeAliasObj {
    pub ty: InitState<usize>,
    pub generics: InitState<usize, ()>,
    pub constants: Vec<(String, usize)>,
}

/// A trait, by its entry in the trait table.
#[derive(Debug)]
pub struct TraitObj {
    pub ty: InitState<usize>,
}

/// A component and its type.
#[derive(Debug)]
pub struct ComponentObj {
    pub ty: InitState<AnyTypeKey, ()>,
}

/// A resource: its type, whether it may be absent, and its default value.
#[derive(Debug)]
pub struct ResourceObj {
    pub ty: InitState<AnyTypeKey, ()>,
    pub optional: bool,
    pub default: InitState<Option<ConstValue>, ()>,
}

/// The objects of a program, one table per kind; an `AnyObjectKey`
/// indexes into the table of its kind.
#[derive(Debug)]
pub struct Objects {
    pub imports: Vec<AnyObject<ImportObj>>,
    pub constants: Vec<AnyObject<ConstObj>>,
    pub types: Vec<AnyObject<TypeAliasObj>>,
    pub traits: Vec<AnyObject<TraitObj>>,
    pub components: Vec<AnyObject<ComponentObj>>,
    pub functions: Vec<AnyObject<FunctionObj>>,
    pub resources: Vec<AnyObject<ResourceObj>>,
}

impl Default for Objects {
    fn default() -> (o: Objects)
        ensures
            o.imports@.len() == 0,
            o.constants@.len() == 0,
            o.types@.len() == 0,
            o.traits@.len() == 0,
            o.components@.len() == 0,
            o.functions@.len() == 0,
            o.resources@.len() == 0,
    {
        Objects {
            imports: Vec::new(),
            constants: Vec::new(),
            types: Vec::new(),
            traits: Vec::new(),
            components: Vec::new(),
            functions: Vec::new(),
            resources: Vec::new(),
        }
    }
}

/// The warnings gathered while lowering.
#[derive(Debug)]
pub struct Diagnostics {
    pub warnings: Vec<Diagnostic<Warnings>>,
}

impl Default for Diagnostics {
    fn default() -> (d: Diagnostics)
        ensures
            d.warnings@.len() == 0,
    {
        Diagnostics { warnings: Vec::new() }
    }
}

/// The generic parameters in scope while declarations are lowered: the
/// scopes entered, innermost last, each binding names to entries of the
/// generic table.
#[derive(Debug)]
pub struct GenericScopes {
    pub scopes: Vec<Vec<(String, usize)>>,
}

/// What the stages of lowering share: the type store, the objects, the
/// types every program has, the warnings so far, and the generic
/// parameters in scope.
#[derive(Debug)]
pub struct Context {
    pub types: Types,
    pub objects: Objects,
    pub auto_types: AutoTypes,
    pub diagnostics: Diagnostics,
    pub generic_ctx: GenericScopes,
}

/// Where a path of names has led so far: to a module, or to an object.
#[derive(Debug, Clone, Copy, PartialEq, Eq, Structural)]
pub enum PathNode {
    Module(usize),
    Object(AnyObjectKey),
}

/// `a::b::c`, then `::*` (every name of the module reached), `::{...}`
/// (several selectors below it) or ` as name`.
#[derive(Debug)]
pub struct PathSelector {
    pub path: IdentifierPath,
    pub ends_on: Option<Span<PathSelectorEndOptions>>,
}

/// How a selector ends.
#[derive(Debug)]
pub enum PathSelectorEndOptions {
    All,
    Group(Vec<Span<PathSelector>>),
    Alias(Span<String>),
}

/// What the last entry named `name` stands for, if any: later entries
/// hide earlier ones.
pub open spec fn named<V>(entries: Seq<(String, V)>, name: Seq<char>) -> Option<V>
    decreases entries.len(),
{
    if entries.len() == 0 {
        None
    } else if entries.last().0@ == name {
        Some(entries.last().1)
    } else {
        named(entries.drop_last(), name)
    }
}

/// No name occurs twice.
pub open spec fn distinct_names<V>(entries: Seq<(String, V)>) -> bool {
    forall|i: int, j: int| 0 <= i < j < entries.len() ==> (#[trigger] entries[i]).0@ != (#[trigger] entries[j]).0@
}

/// What `name` stands for among `entries` (see `named`).
pub fn lookup_name<V: Copy>(entries: &Vec<(String, V)>, name: &String) -> (r: Option<V>)
    ensures
        r == named(entries@, name@),
{
    let mut i: usize = entries.len();
    assert(entries@.take(entries@.len() as int) =~= entries@);
    while i > 0
        invariant
            i <= entries@.len(),
            named(entries@, name@) == named(entries@.take(i as int), name@),
        decreases i,
    {
        let ghost prefix = entries@.take(i as int);
        assert(prefix.drop_last() =~= entries@.take(i - 1));
        if entries[i - 1].0 == *name {
            return Some(entries[i - 1].1);
        }
        i = i - 1;
    }
    None
}

proof fn lemma_named_push<V>(entries: Seq<(String, V)>, e: (String, V), n: Seq<char>)
    ensures
        named(entries.push(e), n) == if n == e.0@ {
            Some(e.1)
        } else {
            named(entries, n)
        },
{
    assert(entries.push(e).drop_last() =~= entries);
}

proof fn lemma_named_update<V>(entries: Seq<(String, V)>, idx: int, e: (String, V), n: Seq<char>)
    requires
        0 <= idx < entries.len(),
        entries[idx].0@ == e.0@,
        forall|j: int| idx < j < entries.len() ==> (#[trigger] entries[j]).0@ != e.0@,
    ensures
        named(entries.update(idx, e), n) == if n == e.0@ {
            Some(e.1)
        } else {
            named(entries, n)
        },
    decreases entries.len(),
{
    let u = entries.update(idx, e);
    if idx == entries.len() - 1 {
        assert(u.drop_last() =~= entries.drop_last());
    } else {
        assert(u.drop_last() =~= entries.drop_last().update(idx, e));
        assert(entries.last() == entries[entries.len() - 1]);
        lemma_named_update(entries.drop_last(), idx, e, n);
    }
}

/// Gives `name` the meaning `value`: the entry of that name is replaced,
/// or a new one is added at the end.
pub fn insert_name<V>(entries: &mut Vec<(String, V)>, name: String, value: V)
    ensures
        forall|n: Seq<char>| #[trigger] named(final(entries)@, n) == if n == name@ {
            Some(value)
        } else {
            named(old(entries)@, n)
        },
        distinct_names(old(entries)@) ==> distinct_names(final(entries)@),
        final(entries)@.len() >= old(entries)@.len(),
        forall|j: int|
            0 <= j < final(entries)@.len() ==> (#[trigger] final(entries)@[j]).1 == value || (j < old(entries)@.len()
                && final(entries)@[j] == old(entries)@[j]),
{
    let mut i: usize = entries.len();
    while i > 0
        invariant
            i <= entries@.len(),
            entries@ == old(entries)@,
            forall|j: int| i <= j < entries@.len() ==> (#[trigger] entries@[j]).0@ != name@,
        decreases i,
    {
        if entries[i - 1].0 == name {
            let ghost e = (name, value);
            let ghost before = entries@;
            entries.set(i - 1, (name, value));
            proof {
                assert forall|n: Seq<char>| #[trigger] named(entries@, n) == if n == name@ {
                    Some(value)
                } else {
                    named(before, n)
                } by {
                    lemma_named_update(before, i - 1, e, n);
                }
                assert(entries@ == before.update(i - 1, e));
            }
            return;
        }
        i = i - 1;
    }
    let ghost before = entries@;
    let ghost e = (name, value);
    entries.push((name, value));
    proof {
        assert forall|n: Seq<char>| #[trigger] named(entries@, n) == if n == name@ {
            Some(value)
        } else {
            named(before, n)
        } by {
            lemma_named_push(before, e, n);
        }
    }
}

/// The object key names an entry of its table.
pub open spec fn valid_object(objects: Objects, k: AnyObjectKey) -> bool {
    match k {
        AnyObjectKey::Import(i) => i < objects.imports@.len(),
        AnyObjectKey::Const(i) => i < objects.constants@.len(),
        AnyObjectKey::Type(i) => i < objects.types@.len(),
        AnyObjectKey::Trait(i) => i < objects.traits@.len(),
        AnyObjectKey::Component(i) => i < objects.components@.len(),
        AnyObjectKey::Function(i) => i < objects.functions@.len(),
        AnyObjectKey::Resource(i) => i < objects.resources@.len(),
    }
}

/// The name an object was declared with.
pub open spec fn object_identifier(objects: Objects, k: AnyObjectKey) -> String {
    match k {
        AnyObjectKey::Import(i) => objects.imports@[i as int].identifier,
        AnyObjectKey::Const(i) => objects.constants@[i as int].identifier,
        AnyObjectKey::Type(i) => objects.types@[i as int].identifier,
        AnyObjectKey::Trait(i) => objects.traits@[i as int].identifier,
        AnyObjectKey::Component(i) => objects.components@[i as int].identifier,
        AnyObjectKey::Function(i) => objects.functions@[i as int].identifier,
        AnyObjectKey::Resource(i) => objects.resources@[i as int].identifier,
    }
}

/// Who may use an object.
pub open spec fn object_access(objects: Objects, k: AnyObjectKey) -> AccessModifiers {
    match k {
        AnyObjectKey::Import(i) => objects.imports@[i as int].access,
        AnyObjectKey::Const(i) => objects.constants@[i as int].access,
        AnyObjectKey::Type(i) => objects.types@[i as int].access,
        AnyObjectKey::Trait(i) => objects.traits@[i as int].access,
        AnyObjectKey::Component(i) => objects.components@[i as int].access,
        AnyObjectKey::Function(i) => objects.functions@[i as int].access,
        AnyObjectKey::Resource(i) => objects.resources@[i as int].access,
    }
}

/// The module an object was declared in.
pub open spec fn object_module(objects: Objects, k: AnyObjectKey) -> usize {
    match k {
        AnyObjectKey::Import(i) => objects.imports@[i as int].module,
        AnyObjectKey::Const(i) => objects.constants@[i as int].module,
        AnyObjectKey::Type(i) => objects.types@[i as int].module,
        AnyObjectKey::Trait(i) => objects.traits@[i as int].module,
        AnyObjectKey::Component(i) => objects.components@[i as int].module,
        AnyObjectKey::Function(i) => objects.functions@[i as int].module,
        AnyObjectKey::Resource(i) => objects.resources@[i as int].module,
    }
}

/// The object's type is known (an import has none to know).
pub open spec fn type_known(objects: Objects, k: AnyObjectKey) -> bool {
    match k {
        AnyObjectKey::Import(_) => true,
        AnyObjectKey::Const(i) => objects.constants@[i as int].data.ty is Done,
        AnyObjectKey::Type(i) => objects.types@[i as int].data.ty is Done,
        AnyObjectKey::Trait(i) => objects.traits@[i as int].data.ty is Done,
        AnyObjectKey::Component(i) => objects.components@[i as int].data.ty is Done,
        AnyObjectKey::Function(i) => objects.functions@[i as int].data.type_of is Done,
        AnyObjectKey::Resource(i) => objects.resources@[i as int].data.ty is Done,
    }
}

/// The type of an object: that of a constant, component or resource; the
/// trait, alias or function type it declares; an import has none.
pub open spec fn object_type(objects: Objects, k: AnyObjectKey) -> Result<AnyTypeKey, Errors> {
    match k {
        AnyObjectKey::Import(_) => Err(Errors::FailedTypeInfer),
        AnyObjectKey::Const(i) => Ok(objects.constants@[i as int].data.ty->Done_0),
        AnyObjectKey::Type(i) => Ok(AnyTypeKey::Named(objects.types@[i as int].data.ty->Done_0)),
        AnyObjectKey::Trait(i) => Ok(AnyTypeKey::Trait(objects.traits@[i as int].data.ty->Done_0)),
        AnyObjectKey::Component(i) => Ok(objects.components@[i as int].data.ty->Done_0),
        AnyObjectKey::Function(i) => Ok(AnyTypeKey::Function(objects.functions@[i as int].data.type_of->Done_0)),
        AnyObjectKey::Resource(i) => Ok(objects.resources@[i as int].data.ty->Done_0),
    }
}

impl AnyObjectKey {
    /// The name the object was declared with.
    pub fn ident<'a>(&self, ctx: &'a Context) -> (r: &'a String)
        requires
            valid_object(ctx.objects, *self),
        ensures
            *r == object_identifier(ctx.objects, *self),
    {
        match self {
            AnyObjectKey::Import(key) => &ctx.objects.imports[*key].identifier,
            AnyObjectKey::Const(key) => &ctx.objects.constants[*key].identifier,
            AnyObjectKey::Type(key) => &ctx.objects.types[*key].identifier,
            AnyObjectKey::Trait(key) => &ctx.objects.traits[*key].identifier,
            AnyObjectKey::Component(key) => &ctx.objects.components[*key].identifier,
            AnyObjectKey::Function(key) => &ctx.objects.functions[*key].identifier,
            AnyObjectKey::Resource(key) => &ctx.objects.resources[*key].identifier,
        }
    }

    /// Who may use the object.
    pub fn access(&self, ctx: &Context) -> (r: AccessModifiers)
        requires
            valid_object(ctx.objects, *self),
        ensures
            r == object_access(ctx.objects, *self),
    {
        match self {
            AnyObjectKey::Import(key) => ctx.objects.imports[*key].access,
            AnyObjectKey::Const(key) => ctx.objects.constants[*key].access,
            AnyObjectKey::Type(key) => ctx.objects.types[*key].access,
            AnyObjectKey::Trait(key) => ctx.objects.traits[*key].access,
            AnyObjectKey::Component(key) => ctx.objects.components[*key].access,
            AnyObjectKey::Function(key) => ctx.objects.functions[*key].access,
            AnyObjectKey::Resource(key) => ctx.objects.resources[*key].access,
        }
    }

    /// The module the object was declared in.
    pub fn module(&self, ctx: &Context) -> (r: usize)
        requires
            valid_object(ctx.objects, *self),
        ensures
            r == object_module(ctx.objects, *self),
    {
        match self {
            AnyObjectKey::Import(key) => ctx.objects.imports[*key].module,
            AnyObjectKey::Const(key) => ctx.objects.constants[*key].module,
            AnyObjectKey::Type(key) => ctx.objects.types[*key].module,
            AnyObjectKey::Trait(key) => ctx.objects.traits[*key].module,
            AnyObjectKey::Component(key) => ctx.objects.components[*key].module,
            AnyObjectKey::Function(key) => ctx.objects.functions[*key].module,
            AnyObjectKey::Resource(key) => ctx.objects.resources[*key].module,
        }
    }

    /// The object's type (see `object_type`); `FailedTypeInfer` for an
    /// import.
    pub fn type_of(&self, ctx: &Context) -> (r: Result<AnyTypeKey, Errors>)
        requires
            valid_object(ctx.objects, *self),
            type_known(ctx.objects, *self),
        ensures
            r == object_type(ctx.objects, *self),
    {
        match self {
            AnyObjectKey::Const(key) => Ok(*ctx.objects.constants[*key].data.ty.get_done()),
            AnyObjectKey::Trait(key) => Ok(AnyTypeKey::Trait(*ctx.objects.traits[*key].data.ty.get_done())),
            AnyObjectKey::Component(key) => Ok(*ctx.objects.components[*key].data.ty.get_done()),
            AnyObjectKey::Function(key) => Ok(AnyTypeKey::Function(*ctx.objects.functions[*key].data.type_of.get_done())),
            AnyObjectKey::Resource(key) => Ok(*ctx.objects.resources[*key].data.ty.get_done()),
            AnyObjectKey::Type(key) => Ok(AnyTypeKey::Named(*ctx.objects.types[*key].data.ty.get_done())),
            AnyObjectKey::Import(_) => Err(Errors::FailedTypeInfer),
        }
    }
}

/// Code in `module` may use the object: one of the module's own, or one
/// that is not private.
pub open spec fn accessible(objects: Objects, module: usize, key: AnyObjectKey) -> bool {
    object_module(objects, key) == module || object_access(objects, key) != AccessModifiers::Private
}

/// `e` reports that the names `path` were not found, in `module`, at
/// `span`.
pub open spec fn not_found(e: Diagnostic<Errors>, path: Seq<Seq<char>>, module: usize, span: SpanIndex) -> bool {
    &&& e.inner matches Errors::ObjectNotFound(v) && v@.len() == path.len() && forall|i: int|
        0 <= i < path.len() ==> (#[trigger] v@[i])@ == path[i]
    &&& e.module == module
    &&& e.span == span
}

/// Every name of every module stands for an object of the tables, every
/// import names a module, and every constant named in an alias is one of
/// the constants.
pub open spec fn names_valid(ctx: Context) -> bool {
    &&& forall|m: int, j: int|
        0 <= m < ctx.types.modules@.len() && 0 <= j < ctx.types.modules@[m].symbol_map@.len() ==> valid_object(
            ctx.objects,
            (#[trigger] ctx.types.modules@[m].symbol_map@[j]).1,
        )
    &&& forall|i: int|
        0 <= i < ctx.objects.imports@.len() ==> (#[trigger] ctx.objects.imports@[i]).data.module
            < ctx.types.modules@.len()
    &&& forall|t: int, j: int|
        0 <= t < ctx.objects.types@.len() && 0 <= j < ctx.objects.types@[t].data.constants@.len() ==> (
        #[trigger] ctx.objects.types@[t].data.constants@[j]).1 < ctx.objects.constants@.len()
}

/// A path node that can be followed further: a module of the table, or a
/// type alias among the objects.
pub open spec fn followable(ctx: Context, node: PathNode) -> bool {
    match node {
        PathNode::Module(k) => k < ctx.types.modules@.len(),
        PathNode::Object(AnyObjectKey::Type(t)) => t < ctx.objects.types@.len(),
        PathNode::Object(_) => false,
    }
}

/// Where the name `name` leads from `current`: in a module, to the module
/// an import names or to the object the name stands for; in a type alias,
/// to the constant of that name. `None` where there is no such name.
pub open spec fn next_stop(ctx: Context, name: Seq<char>, current: PathNode) -> Option<PathNode> {
    match current {
        PathNode::Module(key) => match named(ctx.types.modules@[key as int].symbol_map@, name) {
            Some(AnyObjectKey::Import(o)) => Some(PathNode::Module(ctx.objects.imports@[o as int].data.module)),
            Some(k) => Some(PathNode::Object(k)),
            None => None,
        },
        PathNode::Object(AnyObjectKey::Type(t)) => match named(ctx.objects.types@[t as int].data.constants@, name) {
            Some(c) => Some(PathNode::Object(AnyObjectKey::Const(c))),
            None => None,
        },
        PathNode::Object(_) => None,
    }
}

/// The module an unknown name is reported in: the module searched, or,
/// inside a type alias, the module the path is resolved from.
pub open spec fn reported_in(current: PathNode, module: usize) -> usize {
    match current {
        PathNode::Module(key) => key,
        PathNode::Object(_) => module,
    }
}

/// Where a path walk ends.
pub enum Walk {
    /// At this node.
    Reached(PathNode),
    /// At the name with this index, which is unknown.
    Missing(int),
    /// At a node that cannot be followed further (not a module or alias).
    Stuck,
}

/// Following the first `n` names of `path` from `start`.
pub open spec fn walk(ctx: Context, start: PathNode, path: Seq<Span<String>>, n: nat) -> Walk
    decreases n,
{
    if n == 0 {
        Walk::Reached(start)
    } else {
        match walk(ctx, start, path, (n - 1) as nat) {
            Walk::Reached(node) => if !followable(ctx, node) {
                Walk::Stuck
            } else {
                match next_stop(ctx, (*path[n - 1].inner)@, node) {
                    Some(next) => Walk::Reached(next),
                    None => Walk::Missing(n - 1),
                }
            },
            other => other,
        }
    }
}

/// The node the walk is at before the name with index `i`.
pub open spec fn walk_before(ctx: Context, start: PathNode, path: Seq<Span<String>>, i: nat) -> PathNode {
    match walk(ctx, start, path, i) {
        Walk::Reached(node) => node,
        _ => start,
    }
}

impl Context {
    /// Whether code in `module` may use `key`; an object of another module
    /// that is private is reported as inaccessible at the selector.
    pub fn check_access(&self, module: usize, selector: &Span<PathSelector>, key: AnyObjectKey) -> (r: Result<
        (),
        Diagnostic<Errors>,
    >)
        requires
            valid_object(self.objects, key),
        ensures
            r is Ok <==> accessible(self.objects, module, key),
            r matches Err(e) ==> e == (Diagnostic {
                inner: Errors::ObjectInaccessible(key),
                module,
                span: selector.location,
            }),
    {
        if module == key.module(self) {
            return Ok(());
        }
        match key.access(self) {
            AccessModifiers::Private => Err(Diagnostic {
                inner: Errors::ObjectInaccessible(key),
                module,
                span: selector.location,
            }),
            AccessModifiers::Public => Ok(()),
            AccessModifiers::PublicModule => Ok(()),
            AccessModifiers::PublicProject => Ok(()),
        }
    }

    /// Where the name `next` leads from `current` (see `next_stop`); an
    /// unknown name is reported with its location, in the module searched
    /// (inside a type alias: in `module`).
    pub fn resolve_next_static_stop_of_path(&self, next: &Span<String>, current: &PathNode, module: &usize) -> (r:
        Result<PathNode, Diagnostic<Errors>>)
        requires
            names_valid(*self),
            followable(*self, *current),
        ensures
            match next_stop(*self, (*next.inner)@, *current) {
                Some(node) => r == Ok::<PathNode, Diagnostic<Errors>>(node),
                None => r matches Err(e) && not_found(
                    e,
                    seq![(*next.inner)@],
                    reported_in(*current, *module),
                    next.location,
                ),
            },
    {
        let name: &String = &next.inner;
        match current {
            PathNode::Module(key) => {
                let found = lookup_name(&self.types.modules[*key].symbol_map, name);
                match found {
                    Some(AnyObjectKey::Import(obj_key)) => {
                        proof {
                            lemma_named_in(self.types.modules@[*key as int].symbol_map@, name@);
                        }
                        Ok(PathNode::Module(self.objects.imports[obj_key].data.module))
                    },
                    Some(any_key) => Ok(PathNode::Object(any_key)),
                    None => Err(not_found_error(name, *key, next.location)),
                }
            },
            PathNode::Object(key) => match key {
                AnyObjectKey::Type(type_key) => {
                    let found = lookup_name(&self.objects.types[*type_key].data.constants, name);
                    match found {
                        Some(v) => Ok(PathNode::Object(AnyObjectKey::Const(v))),
                        None => Err(not_found_error(name, *module, next.location)),
                    }
                },
                _ => vstd::pervasive::unreached(),
            },
        }
    }

    /// Follows the names of the selector's path from `module_key`: the node
    /// reached, with the last name (an empty name at no location for an
    /// empty path), or the first unknown name reported.
    pub fn resolve_selector_target(&self, module_key: usize, selector: &Span<PathSelector>) -> (r: Result<
        (PathNode, Span<String>),
        Diagnostic<Errors>,
    >)
        requires
            names_valid(*self),
            module_key < self.types.modules@.len(),
            !(walk(*self, PathNode::Module(module_key), selector.inner.path.path@, selector.inner.path.path@.len())
                is Stuck),
        ensures
            match walk(*self, PathNode::Module(module_key), selector.inner.path.path@, selector.inner.path.path@.len()) {
                Walk::Reached(node) => r matches Ok((n, ident)) && n == node && (if selector.inner.path.path@.len()
                    == 0 {
                    (*ident.inner)@.len() == 0 && ident.location == (SpanIndex { index: 0, len: 0 })
                } else {
                    ident == selector.inner.path.path@.last()
                }),
                Walk::Missing(i) => r matches Err(e) && not_found(
                    e,
                    seq![(*selector.inner.path.path@[i].inner)@],
                    reported_in(walk_before(*self, PathNode::Module(module_key), selector.inner.path.path@, i as nat), module_key),
                    selector.inner.path.path@[i].location,
                ),
                Walk::Stuck => false,
            },
    {
        let path = &selector.inner.path.path;
        let ghost start = PathNode::Module(module_key);
        let mut node = PathNode::Module(module_key);
        let mut ident: Span<String> = Span::new(String::new(), SpanIndex { index: 0, len: 0 });
        let mut i: usize = 0;
        proof {
            lemma_walk_stuck_stays(*self, start, path@, 0, path@.len());
        }
        while i < path.len()
            invariant
                names_valid(*self),
                module_key < self.types.modules@.len(),
                path@ == selector.inner.path.path@,
                start == PathNode::Module(module_key),
                0 <= i <= path@.len(),
                walk(*self, start, path@, i as nat) == Walk::Reached(node),
                !(walk(*self, start, path@, path@.len()) is Stuck),
                i == 0 ==> (*ident.inner)@.len() == 0 && ident.location == (SpanIndex { index: 0, len: 0 }),
                i > 0 ==> ident == path@[i - 1],
            decreases path@.len() - i,
        {
            proof {
                lemma_walk_prefix(*self, start, path@, (i + 1) as nat, path@.len());
            }
            let next = &path[i];
            match self.resolve_next_static_stop_of_path(next, &node, &module_key) {
                Ok(n) => {
                    node = n;
                    ident = next.duplicate();
                },
                Err(e) => {
                    proof {
                        assert(walk(*self, start, path@, (i + 1) as nat) == Walk::Missing(i as int));
                        lemma_walk_missing_stays(*self, start, path@, (i + 1) as nat, path@.len());
                    }
                    return Err(e);
                },
            }
            i = i + 1;
        }
        Ok((node, ident))
    }
}

/// The error for an unknown name.
fn not_found_error(name: &String, module: usize, span: SpanIndex) -> (e: Diagnostic<Errors>)
    ensures
        not_found(e, seq![name@], module, span),
{
    let mut v: Vec<String> = Vec::new();
    v.push(name.clone());
    Diagnostic { inner: Errors::ObjectNotFound(v), module, span }
}

/// A name that stands for something stands for the object of one of the
/// entries.
proof fn lemma_named_in<V>(entries: Seq<(String, V)>, name: Seq<char>)
    ensures
        named(entries, name) matches Some(v) ==> exists|j: int| 0 <= j < entries.len() && #[trigger] entries[j].1 == v,
    decreases entries.len(),
{
    if entries.len() > 0 {
        lemma_named_in(entries.drop_last(), name);
        if entries.last().0@ != name {
            if let Some(v) = named(entries.drop_last(), name) {
                let j = choose|j: int| 0 <= j < entries.drop_last().len() && #[trigger] entries.drop_last()[j].1 == v;
                assert(entries[j].1 == v);
            }
        } else {
            assert(entries[entries.len() - 1].1 == entries.last().1);
        }
    }
}

/// A walk that got stuck or missed a name stays so on a longer path.
proof fn lemma_walk_stuck_stays(ctx: Context, start: PathNode, path: Seq<Span<String>>, m: nat, n: nat)
    requires
        m <= n,
    ensures
        walk(ctx, start, path, m) is Stuck ==> walk(ctx, start, path, n) is Stuck,
    decreases n - m,
{
    if m < n {
        lemma_walk_stuck_stays(ctx, start, path, m, (n - 1) as nat);
    }
}

proof fn lemma_walk_missing_stays(ctx: Context, start: PathNode, path: Seq<Span<String>>, m: nat, n: nat)
    requires
        m <= n,
    ensures
        walk(ctx, start, path, m) is Missing ==> walk(ctx, start, path, n) == walk(ctx, start, path, m),
    decreases n - m,
{
    if m < n {
        lemma_walk_missing_stays(ctx, start, path, m, (n - 1) as nat);
    }
}

/// A walk that does not get stuck on the whole path does not on a prefix.
proof fn lemma_walk_prefix(ctx: Context, start: PathNode, path: Seq<Span<String>>, m: nat, n: nat)
    requires
        m <= n,
        !(walk(ctx, start, path, n) is Stuck),
    ensures
        !(walk(ctx, start, path, m) is Stuck),
{
    lemma_walk_stuck_stays(ctx, start, path, m, n);
}

} // verus!
