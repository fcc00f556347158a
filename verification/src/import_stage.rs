//! The first stage of lowering: every module of the program gets an entry
//! of the module table, and every declaration an object, bound under its
//! name in its module; imports are resolved to the modules they name.

use crate::ast::IdentifierPath;
use crate::const_value::{Diagnostic, Errors};
use crate::init_state::InitState;
use crate::ir::AnyObjectKey;
use crate::literal::string_of;
use crate::interning::prefix;
use crate::names::{
    names_valid, next_stop, valid_object, PathNode,
    ComponentObj, ConstObj, Context, ImportObj, ResourceObj, TraitObj, TypeAliasObj, distinct_names, insert_name,
    named,
};
use crate::objects::{AccessModifiers, AnyObject, FunctionObj, IrCache};
use crate::primitive::PrimitiveType;
use crate::span::Span;
use crate::types::{AnyTypeKey, Module, NamedTypeType, TraitType};
use std::collections::HashMap;
use vstd::prelude::*;

verus! {

/// A declaration of a module, as far as this stage reads it: its kind,
/// its name and who may use it (an import: the path of the module and
/// the name it is imported under, if not its last segment; a function:
/// how many generic parameters it has; a resource: whether it may be
/// absent). Uses, implementations and systems are left to later stages.
#[derive(Debug)]
pub enum Declaration {
    Using,
    Import { path: Span<IdentifierPath>, alias: Option<Span<String>>, access: AccessModifiers },
    Resource { ident: Span<String>, access: AccessModifiers, optional: bool },
    Function { ident: Span<String>, access: AccessModifiers, generics: usize },
    Component { ident: Span<String>, access: AccessModifiers },
    TypeImpl,
    TraitImpl,
    Trait { ident: Span<String>, access: AccessModifiers },
    Type { ident: Span<String>, access: AccessModifiers },
    System,
    Const { ident: Span<String>, access: AccessModifiers },
}

/// A module of the program: its path and its declarations.
#[derive(Debug)]
pub struct ModuleSource {
    pub path: Vec<String>,
    pub objects: Vec<Declaration>,
}

/// The kinds of object a declaration makes.
#[derive(Debug, Clone, Copy, PartialEq, Eq, Structural)]
pub enum ObjectKind {
    Import,
    Resource,
    Function,
    Component,
    Trait,
    Type,
    Const,
}

/// The kind of object the declaration makes, if it makes one.
pub open spec fn kind_of(d: Declaration) -> Option<ObjectKind> {
    match d {
        Declaration::Import { .. } => Some(ObjectKind::Import),
        Declaration::Resource { .. } => Some(ObjectKind::Resource),
        Declaration::Function { .. } => Some(ObjectKind::Function),
        Declaration::Component { .. } => Some(ObjectKind::Component),
        Declaration::Trait { .. } => Some(ObjectKind::Trait),
        Declaration::Type { .. } => Some(ObjectKind::Type),
        Declaration::Const { .. } => Some(ObjectKind::Const),
        _ => None,
    }
}

/// The texts of a list of names.
pub open spec fn texts(p: Seq<String>) -> Seq<Seq<char>> {
    p.map_values(|s: String| s@)
}

/// The texts of the names of a path.
pub open spec fn path_texts(p: Seq<Span<String>>) -> Seq<Seq<char>> {
    p.map_values(|s: Span<String>| (*s.inner)@)
}

/// The path of the module an import names: after a leading `mod`, the rest
/// of the path from the root; otherwise the path beside the importing
/// module (its own path without the last name) followed by the import's.
pub open spec fn import_target(current: Seq<Seq<char>>, raw: Seq<Seq<char>>) -> Seq<Seq<char>> {
    if raw.len() > 0 && raw[0] == seq!['m', 'o', 'd'] {
        raw.subrange(1, raw.len() as int)
    } else {
        (if current.len() > 0 {
            current.drop_last()
        } else {
            current
        }) + raw
    }
}

/// The name a declaration is bound under: an import's alias, or the last
/// name of its path; other objects' own names.
pub open spec fn binding_name(d: Declaration) -> Seq<char> {
    match d {
        Declaration::Import { path, alias, .. } => match alias {
            Some(a) => (*a.inner)@,
            None => (*path.inner.path@.last().inner)@,
        },
        Declaration::Resource { ident, .. } => (*ident.inner)@,
        Declaration::Function { ident, .. } => (*ident.inner)@,
        Declaration::Component { ident, .. } => (*ident.inner)@,
        Declaration::Trait { ident, .. } => (*ident.inner)@,
        Declaration::Type { ident, .. } => (*ident.inner)@,
        Declaration::Const { ident, .. } => (*ident.inner)@,
        _ => Seq::empty(),
    }
}

/// The number of declarations of kind `k` among the first `n` of `ds`.
pub open spec fn count_kind(ds: Seq<Declaration>, k: ObjectKind, n: nat) -> nat
    decreases n,
{
    if n == 0 || n > ds.len() {
        0
    } else {
        count_kind(ds, k, (n - 1) as nat) + if kind_of(ds[n - 1]) == Some(k) {
            1nat
        } else {
            0nat
        }
    }
}

/// The number of declarations of kind `k` in the first `m` modules.
pub open spec fn count_modules(ast: Seq<ModuleSource>, k: ObjectKind, m: nat) -> nat
    decreases m,
{
    if m == 0 || m > ast.len() {
        0
    } else {
        count_modules(ast, k, (m - 1) as nat) + count_kind(ast[m - 1].objects@, k, ast[m - 1].objects@.len())
    }
}

/// The number of declarations of kind `k` before declaration `d` of module
/// `m`, all modules in order.
pub open spec fn count_before(ast: Seq<ModuleSource>, k: ObjectKind, m: nat, d: nat) -> nat {
    count_modules(ast, k, m) + count_kind(ast[m as int].objects@, k, d)
}

/// The sizes of the object tables (and of the trait and alias tables)
/// before the stage.
pub struct Bases {
    pub modules: nat,
    pub imports: nat,
    pub resources: nat,
    pub functions: nat,
    pub components: nat,
    pub traits: nat,
    pub types: nat,
    pub constants: nat,
    pub trait_types: nat,
    pub named_types: nat,
}

/// The sizes of the tables of `ctx`.
pub open spec fn bases_of(ctx: Context) -> Bases {
    Bases {
        modules: ctx.types.modules@.len(),
        imports: ctx.objects.imports@.len(),
        resources: ctx.objects.resources@.len(),
        functions: ctx.objects.functions@.len(),
        components: ctx.objects.components@.len(),
        traits: ctx.objects.traits@.len(),
        types: ctx.objects.types@.len(),
        constants: ctx.objects.constants@.len(),
        trait_types: ctx.types.traits@.len(),
        named_types: ctx.types.named@.len(),
    }
}

/// The size of the table of kind `k`.
pub open spec fn base_of(b: Bases, k: ObjectKind) -> nat {
    match k {
        ObjectKind::Import => b.imports,
        ObjectKind::Resource => b.resources,
        ObjectKind::Function => b.functions,
        ObjectKind::Component => b.components,
        ObjectKind::Trait => b.traits,
        ObjectKind::Type => b.types,
        ObjectKind::Const => b.constants,
    }
}

/// The key of the object of kind `k` with index `i` in its table.
pub open spec fn object_key(k: ObjectKind, i: nat) -> AnyObjectKey {
    match k {
        ObjectKind::Import => AnyObjectKey::Import(i as usize),
        ObjectKind::Resource => AnyObjectKey::Resource(i as usize),
        ObjectKind::Function => AnyObjectKey::Function(i as usize),
        ObjectKind::Component => AnyObjectKey::Component(i as usize),
        ObjectKind::Trait => AnyObjectKey::Trait(i as usize),
        ObjectKind::Type => AnyObjectKey::Type(i as usize),
        ObjectKind::Const => AnyObjectKey::Const(i as usize),
    }
}

/// The key the stage gives declaration `d` of module `m`: objects of each
/// kind are numbered in the order of the modules and of their
/// declarations, after the objects there were.
pub open spec fn declared_key(ast: Seq<ModuleSource>, b: Bases, m: nat, d: nat) -> AnyObjectKey {
    let k = kind_of(ast[m as int].objects@[d as int])->Some_0;
    object_key(k, base_of(b, k) + count_before(ast, k, m, d))
}

/// What the first `n` declarations of module `m` bind `name` to: the key
/// of the last one bound under that name.
pub open spec fn module_binding(ast: Seq<ModuleSource>, b: Bases, m: nat, name: Seq<char>, n: nat) -> Option<
    AnyObjectKey,
>
    decreases n,
{
    if n == 0 || n > ast[m as int].objects@.len() {
        None
    } else {
        let d = ast[m as int].objects@[n - 1];
        if kind_of(d) is Some && binding_name(d) == name {
            Some(declared_key(ast, b, m, (n - 1) as nat))
        } else {
            module_binding(ast, b, m, name, (n - 1) as nat)
        }
    }
}

/// The index of the module whose path is `p`, if there is one.
pub open spec fn module_with_path(ast: Seq<ModuleSource>, p: Seq<Seq<char>>) -> Option<int> {
    if exists|i: int| 0 <= i < ast.len() && texts(#[trigger] ast[i].path@) == p {
        Some(choose|i: int| 0 <= i < ast.len() && texts(#[trigger] ast[i].path@) == p)
    } else {
        None
    }
}

/// Declaration `d` of module `m` is an import of a path that names no
/// module.
pub open spec fn unresolved(ast: Seq<ModuleSource>, m: int, d: int) -> bool {
    match ast[m].objects@[d] {
        Declaration::Import { path, .. } => module_with_path(
            ast,
            import_target(texts(ast[m].path@), path_texts(path.inner.path@)),
        ) is None,
        _ => false,
    }
}

/// Some declaration before declaration `d` of module `m` (all modules in
/// order) is an unresolved import.
pub open spec fn unresolved_before(ast: Seq<ModuleSource>, m: int, d: int) -> bool {
    exists|i: int, j: int|
        0 <= i < ast.len() && 0 <= j < ast[i].objects@.len() && (i < m || (i == m && j < d)) && #[trigger] unresolved(
            ast,
            i,
            j,
        )
}

/// The stage can run: the module paths are distinct (they name the
/// modules) and every import path has a last name.
pub open spec fn sources_ok(ast: Seq<ModuleSource>) -> bool {
    &&& forall|i: int, j: int| 0 <= i < j < ast.len() ==> texts(#[trigger] ast[i].path@) != texts(#[trigger] ast[j].path@)
    &&& forall|m: int, d: int|
        0 <= m < ast.len() && 0 <= d < ast[m].objects@.len() ==> (#[trigger] ast[m].objects@[d] matches Declaration::Import {
            path,
            ..
        } ==> path.inner.path@.len() > 0)
}

/// Who may use what the declaration makes.
pub open spec fn access_of(d: Declaration) -> AccessModifiers {
    match d {
        Declaration::Import { access, .. } => access,
        Declaration::Resource { access, .. } => access,
        Declaration::Function { access, .. } => access,
        Declaration::Component { access, .. } => access,
        Declaration::Trait { access, .. } => access,
        Declaration::Type { access, .. } => access,
        Declaration::Const { access, .. } => access,
        _ => AccessModifiers::Private,
    }
}

/// The object `o` carries the name, access, declaration index and module
/// of declaration `d` (index `di`) of the module with key `mk`.
pub open spec fn header<T>(o: AnyObject<T>, d: Declaration, mk: nat, di: nat) -> bool {
    &&& o.identifier@ == binding_name(d)
    &&& o.access == access_of(d)
    &&& o.ast_object == Some(di as usize)
    &&& o.module == mk
}

/// The path of the module an import declaration names.
pub open spec fn import_path(ast: Seq<ModuleSource>, m: int, d: int) -> Seq<Seq<char>> {
    match ast[m].objects@[d] {
        Declaration::Import { path, .. } => import_target(texts(ast[m].path@), path_texts(path.inner.path@)),
        _ => Seq::empty(),
    }
}

/// Declaration `d` of module `m` has its object in `ctx`, under the key
/// `declared_key` gives it, with everything that is not known yet left
/// uninitialized; a trait also has its entry in the trait table, and a
/// type alias a place in the alias table (a `()` alias under its name
/// until the alias is lowered).
pub open spec fn registered(ctx: Context, ast: Seq<ModuleSource>, b: Bases, m: nat, d: nat) -> bool {
    let decl = ast[m as int].objects@[d as int];
    let mk = b.modules + m;
    match kind_of(decl) {
        None => true,
        Some(k) => {
            let i = base_of(b, k) + count_before(ast, k, m, d);
            match k {
                ObjectKind::Import => {
                    &&& i < ctx.objects.imports@.len()
                    &&& header(ctx.objects.imports@[i as int], decl, mk, d)
                    &&& module_with_path(ast, import_path(ast, m as int, d as int)) is Some
                    &&& ctx.objects.imports@[i as int].data.module == b.modules + module_with_path(
                        ast,
                        import_path(ast, m as int, d as int),
                    )->Some_0
                },
                ObjectKind::Resource => {
                    &&& i < ctx.objects.resources@.len()
                    &&& header(ctx.objects.resources@[i as int], decl, mk, d)
                    &&& ctx.objects.resources@[i as int].data.ty is Uninitialized
                    &&& ctx.objects.resources@[i as int].data.default is Uninitialized
                    &&& ctx.objects.resources@[i as int].data.optional == decl->Resource_optional
                },
                ObjectKind::Function => {
                    let f = ctx.objects.functions@[i as int].data;
                    &&& i < ctx.objects.functions@.len()
                    &&& header(ctx.objects.functions@[i as int], decl, mk, d)
                    &&& f.return_type is Uninitialized
                    &&& f.params@.len() == 0
                    &&& f.generics@.len() == 0
                    &&& f.type_of is Uninitialized
                    &&& f.generic_scope is Uninitialized
                    &&& match f.ir {
                        IrCache::Single(s) => decl->Function_generics == 0 && s is Uninitialized,
                        IrCache::Polymorphic(c) => decl->Function_generics != 0 && c@ == Map::<
                            AnyTypeKey,
                            InitState<usize>,
                        >::empty(),
                    }
                },
                ObjectKind::Component => {
                    &&& i < ctx.objects.components@.len()
                    &&& header(ctx.objects.components@[i as int], decl, mk, d)
                    &&& ctx.objects.components@[i as int].data.ty is Uninitialized
                },
                ObjectKind::Trait => {
                    let t = b.trait_types + count_before(ast, k, m, d);
                    &&& i < ctx.objects.traits@.len()
                    &&& header(ctx.objects.traits@[i as int], decl, mk, d)
                    &&& t < ctx.types.traits@.len()
                    &&& ctx.objects.traits@[i as int].data.ty == InitState::<usize, usize>::Progress(t as usize)
                    &&& ctx.types.traits@[t as int].ident@ == binding_name(decl)
                },
                ObjectKind::Type => {
                    let t = b.named_types + count_before(ast, k, m, d);
                    let a = ctx.objects.types@[i as int].data;
                    &&& i < ctx.objects.types@.len()
                    &&& header(ctx.objects.types@[i as int], decl, mk, d)
                    &&& t < ctx.types.named@.len()
                    &&& a.ty == InitState::<usize, usize>::Progress(t as usize)
                    &&& a.generics is Uninitialized
                    &&& a.constants@.len() == 0
                    &&& ctx.types.named@[t as int].name@ == binding_name(decl)
                    &&& ctx.types.named@[t as int].repr == AnyTypeKey::Primitive(PrimitiveType::Void)
                },
                ObjectKind::Const => {
                    &&& i < ctx.objects.constants@.len()
                    &&& header(ctx.objects.constants@[i as int], decl, mk, d)
                    &&& ctx.objects.constants@[i as int].data.value is Uninitialized
                    &&& ctx.objects.constants@[i as int].data.ty is Uninitialized
                },
            }
        },
    }
}

/// Whether two lists of names are the same.
fn same_names(a: &Vec<String>, b: &Vec<String>) -> (r: bool)
    ensures
        r == (texts(a@) == texts(b@)),
{
    if a.len() != b.len() {
        return false;
    }
    let mut i: usize = 0;
    while i < a.len()
        invariant
            0 <= i <= a@.len(),
            a@.len() == b@.len(),
            forall|j: int| 0 <= j < i ==> a@[j]@ == b@[j]@,
        decreases a@.len() - i,
    {
        if a[i] != b[i] {
            assert(texts(a@)[i as int] != texts(b@)[i as int]);
            return false;
        }
        i = i + 1;
    }
    assert(texts(a@) =~= texts(b@));
    true
}

/// A copy of a list of names.
fn copy_names(a: &Vec<String>) -> (r: Vec<String>)
    ensures
        texts(r@) == texts(a@),
        r@.len() == a@.len(),
{
    let mut r: Vec<String> = Vec::new();
    let mut i: usize = 0;
    while i < a.len()
        invariant
            0 <= i <= a@.len(),
            r@.len() == i,
            forall|j: int| 0 <= j < i ==> r@[j]@ == a@[j]@,
        decreases a@.len() - i,
    {
        r.push(a[i].clone());
        i = i + 1;
    }
    assert(texts(r@) =~= texts(a@));
    r
}

/// The names of a path.
fn path_names(p: &IdentifierPath) -> (r: Vec<String>)
    ensures
        texts(r@) == path_texts(p.path@),
{
    let mut r: Vec<String> = Vec::new();
    let mut i: usize = 0;
    while i < p.path.len()
        invariant
            0 <= i <= p.path@.len(),
            r@.len() == i,
            forall|j: int| 0 <= j < i ==> r@[j]@ == (*p.path@[j].inner)@,
        decreases p.path@.len() - i,
    {
        let name: &String = &p.path[i].inner;
        r.push(name.clone());
        i = i + 1;
    }
    assert(texts(r@) =~= path_texts(p.path@));
    r
}

/// The path of the module an import of `raw` from the module at `current`
/// names (see `import_target`).
fn import_target_of(current: &Vec<String>, raw: &Vec<String>) -> (r: Vec<String>)
    ensures
        texts(r@) == import_target(texts(current@), texts(raw@)),
{
    let root = string_of(&['m', 'o', 'd']);
    if raw.len() > 0 && raw[0] == root {
        let mut r: Vec<String> = Vec::new();
        let mut i: usize = 1;
        while i < raw.len()
            invariant
                1 <= i <= raw@.len(),
                r@.len() == i - 1,
                forall|j: int| 0 <= j < i - 1 ==> r@[j]@ == raw@[j + 1]@,
            decreases raw@.len() - i,
        {
            r.push(raw[i].clone());
            i = i + 1;
        }
        assert(texts(r@) =~= texts(raw@).subrange(1, raw@.len() as int));
        r
    } else {
        let mut r = copy_names(current);
        if r.len() > 0 {
            r.pop();
        }
        let ghost head = r@;
        assert(texts(head) =~= if texts(current@).len() > 0 {
            texts(current@).drop_last()
        } else {
            texts(current@)
        });
        let mut i: usize = 0;
        while i < raw.len()
            invariant
                0 <= i <= raw@.len(),
                r@.len() == head.len() + i,
                forall|j: int| 0 <= j < head.len() ==> r@[j] == head[j],
                forall|j: int| 0 <= j < i ==> r@[head.len() + j]@ == raw@[j]@,
            decreases raw@.len() - i,
        {
            r.push(raw[i].clone());
            i = i + 1;
        }
        assert(texts(r@) =~= texts(head) + texts(raw@));
        r
    }
}

/// The number of declarations of kind `k` the stage has handled at
/// declaration `d` of module `m`.
pub open spec fn count_done(ast: Seq<ModuleSource>, k: ObjectKind, m: nat, d: nat) -> nat {
    if m < ast.len() {
        count_before(ast, k, m, d)
    } else {
        count_modules(ast, k, ast.len())
    }
}

/// Declaration `j` of module `i` comes before declaration `d` of module
/// `m`.
pub open spec fn done_before(ast: Seq<ModuleSource>, i: int, j: int, m: int, d: int) -> bool {
    0 <= i < ast.len() && 0 <= j < ast[i].objects@.len() && (i < m || (i == m && j < d))
}

/// The object table of kind `k` has `n` entries, the first `base` of
/// them those of `old`.
pub open spec fn table_grown(ctx: Context, old: Context, k: ObjectKind, n: nat) -> bool {
    match k {
        ObjectKind::Import => ctx.objects.imports@.len() == n && forall|i: int|
            0 <= i < old.objects.imports@.len() ==> #[trigger] ctx.objects.imports@[i] == old.objects.imports@[i],
        ObjectKind::Resource => ctx.objects.resources@.len() == n && forall|i: int|
            0 <= i < old.objects.resources@.len() ==> #[trigger] ctx.objects.resources@[i] == old.objects.resources@[i],
        ObjectKind::Function => ctx.objects.functions@.len() == n && forall|i: int|
            0 <= i < old.objects.functions@.len() ==> #[trigger] ctx.objects.functions@[i] == old.objects.functions@[i],
        ObjectKind::Component => ctx.objects.components@.len() == n && forall|i: int|
            0 <= i < old.objects.components@.len() ==> #[trigger] ctx.objects.components@[i]
                == old.objects.components@[i],
        ObjectKind::Trait => ctx.objects.traits@.len() == n && forall|i: int|
            0 <= i < old.objects.traits@.len() ==> #[trigger] ctx.objects.traits@[i] == old.objects.traits@[i],
        ObjectKind::Type => ctx.objects.types@.len() == n && forall|i: int|
            0 <= i < old.objects.types@.len() ==> #[trigger] ctx.objects.types@[i] == old.objects.types@[i],
        ObjectKind::Const => ctx.objects.constants@.len() == n && forall|i: int|
            0 <= i < old.objects.constants@.len() ==> #[trigger] ctx.objects.constants@[i] == old.objects.constants@[i],
    }
}

/// The state of `ctx`, started from `old`, once the stage has handled the
/// declarations before declaration `d` of module `m`: one module entry per
/// source module after the old ones, with its path, and with its names
/// bound as its handled declarations bind them; every handled declaration
/// registered (see `registered`), after the old entries of each table;
/// the rest of the store as it was.
pub open spec fn staged(ctx: Context, old: Context, ast: Seq<ModuleSource>, m: nat, d: nat) -> bool {
    let b = bases_of(old);
    &&& ctx.types.modules@.len() == b.modules + ast.len()
    &&& forall|i: int| 0 <= i < b.modules ==> #[trigger] ctx.types.modules@[i] == old.types.modules@[i]
    &&& forall|i: int|
        0 <= i < ast.len() ==> texts(#[trigger] ctx.types.modules@[b.modules + i].path@) == texts(ast[i].path@)
    &&& forall|i: int, n: Seq<char>|
        0 <= i < ast.len() ==> #[trigger] named(ctx.types.modules@[b.modules + i].symbol_map@, n) == if i < m {
            module_binding(ast, b, i as nat, n, ast[i].objects@.len())
        } else if i == m {
            module_binding(ast, b, i as nat, n, d)
        } else {
            None
        }
    &&& forall|k: ObjectKind| #[trigger] table_grown(ctx, old, k, base_of(b, k) + count_done(ast, k, m, d))
    &&& ctx.types.traits@.len() == b.trait_types + count_done(ast, ObjectKind::Trait, m, d)
    &&& forall|i: int| 0 <= i < b.trait_types ==> #[trigger] ctx.types.traits@[i] == old.types.traits@[i]
    &&& ctx.types.named@.len() == b.named_types + count_done(ast, ObjectKind::Type, m, d)
    &&& forall|i: int| 0 <= i < b.named_types ==> #[trigger] ctx.types.named@[i] == old.types.named@[i]
    &&& forall|i: int, j: int|
        done_before(ast, i, j, m as int, d as int) ==> #[trigger] registered(ctx, ast, b, i as nat, j as nat)
    &&& forall|i: int, j: int|
        0 <= i < ast.len() && 0 <= j < ctx.types.modules@[b.modules + i].symbol_map@.len() ==> valid_object(
            ctx.objects,
            (#[trigger] ctx.types.modules@[b.modules + i].symbol_map@[j]).1,
        )
    &&& forall|i: int|
        b.imports <= i < ctx.objects.imports@.len() ==> (#[trigger] ctx.objects.imports@[i]).data.module
            < ctx.types.modules@.len()
    &&& forall|t: int|
        b.types <= t < ctx.objects.types@.len() ==> (#[trigger] ctx.objects.types@[t]).data.constants@.len() == 0
    &&& ctx.types.functions == old.types.functions
    &&& ctx.types.constraints == old.types.constraints
    &&& ctx.types.generics == old.types.generics
    &&& ctx.types.polymorphs == old.types.polymorphs
    &&& ctx.types.morphs == old.types.morphs
    &&& ctx.types.structures == old.types.structures
    &&& ctx.types.enums == old.types.enums
    &&& ctx.types.arrays == old.types.arrays
    &&& ctx.types.tuples == old.types.tuples
    &&& ctx.types.references == old.types.references
    &&& ctx.auto_types == old.auto_types
    &&& ctx.diagnostics == old.diagnostics
}

/// `e` reports the import (declaration `d` of module `m`) of a path that
/// names no module: the names of the path as written, in the importing
/// module, at the path.
pub open spec fn import_error(e: Diagnostic<Errors>, ast: Seq<ModuleSource>, b: Bases, m: int, d: int) -> bool {
    match ast[m].objects@[d] {
        Declaration::Import { path, .. } => {
            &&& e.inner matches Errors::ObjectNotFound(v) && texts(v@) == path_texts(path.inner.path@)
            &&& e.module == b.modules + m
            &&& e.span == path.location
        },
        _ => false,
    }
}

/// Every object table of `c2`, and its trait and alias tables, start with
/// those of `c1`.
pub open spec fn grown(c1: Context, c2: Context) -> bool {
    &&& prefix(c1.objects.imports@, c2.objects.imports@)
    &&& prefix(c1.objects.resources@, c2.objects.resources@)
    &&& prefix(c1.objects.functions@, c2.objects.functions@)
    &&& prefix(c1.objects.components@, c2.objects.components@)
    &&& prefix(c1.objects.traits@, c2.objects.traits@)
    &&& prefix(c1.objects.types@, c2.objects.types@)
    &&& prefix(c1.objects.constants@, c2.objects.constants@)
    &&& prefix(c1.types.traits@, c2.types.traits@)
    &&& prefix(c1.types.named@, c2.types.named@)
}

proof fn lemma_registered_kept(c1: Context, c2: Context, ast: Seq<ModuleSource>, b: Bases, i: nat, j: nat)
    requires
        grown(c1, c2),
        registered(c1, ast, b, i, j),
    ensures
        registered(c2, ast, b, i, j),
{
    let decl = ast[i as int].objects@[j as int];
    if let Some(k) = kind_of(decl) {
        let x = base_of(b, k) + count_before(ast, k, i, j);
        match k {
            ObjectKind::Import => {
                assert(c2.objects.imports@[x as int] == c1.objects.imports@[x as int]);
            },
            ObjectKind::Resource => {
                assert(c2.objects.resources@[x as int] == c1.objects.resources@[x as int]);
            },
            ObjectKind::Function => {
                assert(c2.objects.functions@[x as int] == c1.objects.functions@[x as int]);
            },
            ObjectKind::Component => {
                assert(c2.objects.components@[x as int] == c1.objects.components@[x as int]);
            },
            ObjectKind::Trait => {
                let t = b.trait_types + count_before(ast, k, i, j);
                assert(c2.objects.traits@[x as int] == c1.objects.traits@[x as int]);
                assert(c2.types.traits@[t as int] == c1.types.traits@[t as int]);
            },
            ObjectKind::Type => {
                let t = b.named_types + count_before(ast, k, i, j);
                assert(c2.objects.types@[x as int] == c1.objects.types@[x as int]);
                assert(c2.types.named@[t as int] == c1.types.named@[t as int]);
            },
            ObjectKind::Const => {
                assert(c2.objects.constants@[x as int] == c1.objects.constants@[x as int]);
            },
        }
    }
}

/// Handling one declaration that makes an object takes the stage from
/// declaration `d` of module `m` to the next.
proof fn lemma_step(c0: Context, c1: Context, c2: Context, old: Context, ast: Seq<ModuleSource>, m: nat, d: nat)
    requires
        staged(c0, old, ast, m, d),
        m < ast.len(),
        d < ast[m as int].objects@.len(),
        kind_of(ast[m as int].objects@[d as int]) is Some,
        grown(c0, c2),
        forall|k: ObjectKind| #[trigger] table_grown(c1, old, k, base_of(bases_of(old), k) + count_done(ast, k, m, d + 1)),
        c2.objects == c1.objects,
        c2.types.traits@.len() == bases_of(old).trait_types + count_done(ast, ObjectKind::Trait, m, d + 1),
        c2.types.named@.len() == bases_of(old).named_types + count_done(ast, ObjectKind::Type, m, d + 1),
        registered(c2, ast, bases_of(old), m, d),
        c2.types.modules@.len() == c0.types.modules@.len(),
        forall|i: int|
            0 <= i < c0.types.modules@.len() && i != bases_of(old).modules + m ==> #[trigger] c2.types.modules@[i]
                == c0.types.modules@[i],
        c2.types.modules@[(bases_of(old).modules + m) as int].path == c0.types.modules@[(bases_of(old).modules + m) as int].path,
        forall|j: int|
            0 <= j < c2.types.modules@[(bases_of(old).modules + m) as int].symbol_map@.len() ==> (
            #[trigger] c2.types.modules@[(bases_of(old).modules + m) as int].symbol_map@[j]).1 == declared_key(
                ast,
                bases_of(old),
                m,
                d,
            ) || (j < c0.types.modules@[(bases_of(old).modules + m) as int].symbol_map@.len()
                && c2.types.modules@[(bases_of(old).modules + m) as int].symbol_map@[j]
                == c0.types.modules@[(bases_of(old).modules + m) as int].symbol_map@[j]),
        forall|n: Seq<char>| #[trigger] named(c2.types.modules@[(bases_of(old).modules + m) as int].symbol_map@, n) == if n
            == binding_name(ast[m as int].objects@[d as int]) {
            Some(declared_key(ast, bases_of(old), m, d))
        } else {
            named(c0.types.modules@[(bases_of(old).modules + m) as int].symbol_map@, n)
        },
        c2.types.functions == old.types.functions,
        c2.types.constraints == old.types.constraints,
        c2.types.generics == old.types.generics,
        c2.types.polymorphs == old.types.polymorphs,
        c2.types.morphs == old.types.morphs,
        c2.types.structures == old.types.structures,
        c2.types.enums == old.types.enums,
        c2.types.arrays == old.types.arrays,
        c2.types.tuples == old.types.tuples,
        c2.types.references == old.types.references,
        c2.auto_types == old.auto_types,
        c2.diagnostics == old.diagnostics,
    ensures
        staged(c2, old, ast, m, d + 1),
{
    let b = bases_of(old);
    assert forall|k: ObjectKind| #[trigger] table_grown(c2, old, k, base_of(b, k) + count_done(ast, k, m, d + 1)) by {
        assert(table_grown(c1, old, k, base_of(b, k) + count_done(ast, k, m, d + 1)));
    }
    assert forall|i: int, j: int| done_before(ast, i, j, m as int, (d + 1) as int) implies #[trigger] registered(
        c2,
        ast,
        b,
        i as nat,
        j as nat,
    ) by {
        if !(i == m && j == d) {
            assert(done_before(ast, i, j, m as int, d as int));
            lemma_registered_kept(c0, c2, ast, b, i as nat, j as nat);
        }
    }
    assert forall|i: int, n: Seq<char>| 0 <= i < ast.len() implies #[trigger] named(
        c2.types.modules@[b.modules + i].symbol_map@,
        n,
    ) == if i < m {
        module_binding(ast, b, i as nat, n, ast[i].objects@.len())
    } else if i == m {
        module_binding(ast, b, i as nat, n, (d + 1) as nat)
    } else {
        None
    } by {
        if i != m {
            assert(c2.types.modules@[b.modules + i] == c0.types.modules@[b.modules + i]);
        }
    }
    assert forall|i: int| 0 <= i < ast.len() implies texts(#[trigger] c2.types.modules@[b.modules + i].path@) == texts(
        ast[i].path@,
    ) by {
        if i != m {
            assert(c2.types.modules@[b.modules + i] == c0.types.modules@[b.modules + i]);
        }
    }
    assert forall|i: int| 0 <= i < b.modules implies #[trigger] c2.types.modules@[i] == old.types.modules@[i] by {
        assert(c2.types.modules@[i] == c0.types.modules@[i]);
    }
    assert forall|i: int| 0 <= i < b.trait_types implies #[trigger] c2.types.traits@[i] == old.types.traits@[i] by {
        assert(c2.types.traits@[i] == c0.types.traits@[i]);
    }
    assert forall|i: int| 0 <= i < b.named_types implies #[trigger] c2.types.named@[i] == old.types.named@[i] by {
        assert(c2.types.named@[i] == c0.types.named@[i]);
    }
    let decl = ast[m as int].objects@[d as int];
    let k = kind_of(decl)->Some_0;
    assert(registered(c2, ast, b, m, d));
    assert forall|i: int, j: int|
        0 <= i < ast.len() && 0 <= j < c2.types.modules@[b.modules + i].symbol_map@.len() implies valid_object(
        c2.objects,
        (#[trigger] c2.types.modules@[b.modules + i].symbol_map@[j]).1,
    ) by {
        let e = c2.types.modules@[b.modules + i].symbol_map@[j];
        if i != m {
            assert(c2.types.modules@[b.modules + i] == c0.types.modules@[b.modules + i]);
            assert(valid_object(c0.objects, c0.types.modules@[b.modules + i].symbol_map@[j].1));
        } else if e.1 != declared_key(ast, b, m, d) {
            assert(valid_object(c0.objects, c0.types.modules@[b.modules + i].symbol_map@[j].1));
        }
    }
    assert forall|i: int| b.imports <= i < c2.objects.imports@.len() implies (
    #[trigger] c2.objects.imports@[i]).data.module < c2.types.modules@.len() by {
        if i < c0.objects.imports@.len() {
            assert(c2.objects.imports@[i] == c0.objects.imports@[i]);
        } else {
            assert(table_grown(c0, old, ObjectKind::Import, base_of(b, ObjectKind::Import) + count_done(ast, ObjectKind::Import, m, d)));
            assert(table_grown(c2, old, ObjectKind::Import, base_of(b, ObjectKind::Import) + count_done(ast, ObjectKind::Import, m, d + 1)));
            if k != ObjectKind::Import {
                assert(count_done(ast, ObjectKind::Import, m, d + 1) == count_done(ast, ObjectKind::Import, m, d));
            }
            assert(k == ObjectKind::Import);
            let p = import_path(ast, m as int, d as int);
            assert(exists|x: int| 0 <= x < ast.len() && texts(#[trigger] ast[x].path@) == p);
        }
    }
    assert forall|t: int| b.types <= t < c2.objects.types@.len() implies (#[trigger] c2.objects.types@[t]).data.constants@.len()
        == 0 by {
        if t < c0.objects.types@.len() {
            assert(c2.objects.types@[t] == c0.objects.types@[t]);
        } else {
            assert(table_grown(c0, old, ObjectKind::Type, base_of(b, ObjectKind::Type) + count_done(ast, ObjectKind::Type, m, d)));
            assert(table_grown(c2, old, ObjectKind::Type, base_of(b, ObjectKind::Type) + count_done(ast, ObjectKind::Type, m, d + 1)));
            if k != ObjectKind::Type {
                assert(count_done(ast, ObjectKind::Type, m, d + 1) == count_done(ast, ObjectKind::Type, m, d));
            }
            assert(k == ObjectKind::Type);
        }
    }
}

/// A declaration that makes no object leaves the state as it is, one
/// declaration further.
proof fn lemma_skip(c0: Context, old: Context, ast: Seq<ModuleSource>, m: nat, d: nat)
    requires
        staged(c0, old, ast, m, d),
        m < ast.len(),
        d < ast[m as int].objects@.len(),
        kind_of(ast[m as int].objects@[d as int]) is None,
    ensures
        staged(c0, old, ast, m, d + 1),
{
    let b = bases_of(old);
    assert forall|k: ObjectKind| #[trigger] table_grown(c0, old, k, base_of(b, k) + count_done(ast, k, m, d + 1)) by {
        assert(count_done(ast, k, m, d + 1) == count_done(ast, k, m, d));
        assert(table_grown(c0, old, k, base_of(b, k) + count_done(ast, k, m, d)));
    }
    assert(count_done(ast, ObjectKind::Trait, m, d + 1) == count_done(ast, ObjectKind::Trait, m, d));
    assert(count_done(ast, ObjectKind::Type, m, d + 1) == count_done(ast, ObjectKind::Type, m, d));
    assert forall|i: int, j: int| done_before(ast, i, j, m as int, (d + 1) as int) implies #[trigger] registered(
        c0,
        ast,
        b,
        i as nat,
        j as nat,
    ) by {
        if !(i == m && j == d) {
            assert(done_before(ast, i, j, m as int, d as int));
        }
    }
}

/// Once the last declaration of module `m` is handled, the stage is at
/// the start of the next module.
proof fn lemma_next_module(c: Context, old: Context, ast: Seq<ModuleSource>, m: nat)
    requires
        staged(c, old, ast, m, ast[m as int].objects@.len()),
        m < ast.len(),
    ensures
        staged(c, old, ast, m + 1, 0),
{
    let b = bases_of(old);
    let len = ast[m as int].objects@.len();
    assert forall|k: ObjectKind| #[trigger] table_grown(c, old, k, base_of(b, k) + count_done(ast, k, m + 1, 0)) by {
        assert(count_done(ast, k, m + 1, 0) == count_done(ast, k, m, len));
        assert(table_grown(c, old, k, base_of(b, k) + count_done(ast, k, m, len)));
    }
    assert(count_done(ast, ObjectKind::Trait, m + 1, 0) == count_done(ast, ObjectKind::Trait, m, len));
    assert(count_done(ast, ObjectKind::Type, m + 1, 0) == count_done(ast, ObjectKind::Type, m, len));
    assert forall|i: int, j: int| done_before(ast, i, j, (m + 1) as int, 0) implies #[trigger] registered(
        c,
        ast,
        b,
        i as nat,
        j as nat,
    ) by {
        assert(done_before(ast, i, j, m as int, len as int));
    }
    assert forall|i: int, n: Seq<char>| 0 <= i < ast.len() implies #[trigger] named(
        c.types.modules@[b.modules + i].symbol_map@,
        n,
    ) == if i < m + 1 {
        module_binding(ast, b, i as nat, n, ast[i].objects@.len())
    } else if i == m + 1 {
        module_binding(ast, b, i as nat, n, 0)
    } else {
        None
    } by {
    }
}

/// After the stage, every name stands for an object, every import for a
/// module, and every alias constant for a constant, if that was so
/// before: paths can be followed in the new state.
pub proof fn lemma_staged_names_valid(ctx: Context, old: Context, ast: Seq<ModuleSource>)
    requires
        staged(ctx, old, ast, ast.len(), 0),
        names_valid(old),
    ensures
        names_valid(ctx),
{
    let b = bases_of(old);
    let n = ast.len();
    assert forall|k: ObjectKind| base_of(b, k) <= #[trigger] base_of(bases_of(ctx), k) by {
        assert(table_grown(ctx, old, k, base_of(b, k) + count_done(ast, k, n, 0)));
    }
    assert(base_of(b, ObjectKind::Import) <= base_of(bases_of(ctx), ObjectKind::Import));
    assert(base_of(b, ObjectKind::Resource) <= base_of(bases_of(ctx), ObjectKind::Resource));
    assert(base_of(b, ObjectKind::Function) <= base_of(bases_of(ctx), ObjectKind::Function));
    assert(base_of(b, ObjectKind::Component) <= base_of(bases_of(ctx), ObjectKind::Component));
    assert(base_of(b, ObjectKind::Trait) <= base_of(bases_of(ctx), ObjectKind::Trait));
    assert(base_of(b, ObjectKind::Type) <= base_of(bases_of(ctx), ObjectKind::Type));
    assert(base_of(b, ObjectKind::Const) <= base_of(bases_of(ctx), ObjectKind::Const));
    assert forall|m: int, j: int|
        0 <= m < ctx.types.modules@.len() && 0 <= j < ctx.types.modules@[m].symbol_map@.len() implies valid_object(
        ctx.objects,
        (#[trigger] ctx.types.modules@[m].symbol_map@[j]).1,
    ) by {
        if m < b.modules {
            assert(ctx.types.modules@[m] == old.types.modules@[m]);
            assert(valid_object(old.objects, old.types.modules@[m].symbol_map@[j].1));
        } else {
            let i = m - b.modules;
            assert(ctx.types.modules@[b.modules + i] == ctx.types.modules@[m]);
        }
    }
    assert forall|i: int| 0 <= i < ctx.objects.imports@.len() implies (#[trigger] ctx.objects.imports@[i]).data.module
        < ctx.types.modules@.len() by {
        if i < b.imports {
            assert(table_grown(ctx, old, ObjectKind::Import, base_of(b, ObjectKind::Import) + count_done(ast, ObjectKind::Import, n, 0)));
            assert(ctx.objects.imports@[i] == old.objects.imports@[i]);
            assert(old.objects.imports@[i].data.module < old.types.modules@.len());
        }
    }
    assert forall|t: int, j: int|
        0 <= t < ctx.objects.types@.len() && 0 <= j < ctx.objects.types@[t].data.constants@.len() implies (
        #[trigger] ctx.objects.types@[t].data.constants@[j]).1 < ctx.objects.constants@.len() by {
        if t < b.types {
            assert(table_grown(ctx, old, ObjectKind::Type, base_of(b, ObjectKind::Type) + count_done(ast, ObjectKind::Type, n, 0)));
            assert(ctx.objects.types@[t] == old.objects.types@[t]);
            assert(old.objects.types@[t].data.constants@[j].1 < old.objects.constants@.len());
        }
    }
}

/// The last declaration of a name in a module is what the module binds
/// the name to.
proof fn lemma_last_binding(ast: Seq<ModuleSource>, b: Bases, m: nat, d: nat, n: nat)
    requires
        m < ast.len(),
        d < n <= ast[m as int].objects@.len(),
        kind_of(ast[m as int].objects@[d as int]) is Some,
        forall|e: int|
            d < e < ast[m as int].objects@.len() && (#[trigger] kind_of(ast[m as int].objects@[e])) is Some
                ==> binding_name(ast[m as int].objects@[e]) != binding_name(ast[m as int].objects@[d as int]),
    ensures
        module_binding(ast, b, m, binding_name(ast[m as int].objects@[d as int]), n) == Some(declared_key(ast, b, m, d)),
    decreases n,
{
    if n > d + 1 {
        lemma_last_binding(ast, b, m, d, (n - 1) as nat);
        let e = ast[m as int].objects@[n - 1];
        if kind_of(e) is Some {
            assert(binding_name(e) != binding_name(ast[m as int].objects@[d as int]));
        }
    }
}

/// After the stage, a name declared in a module (by its last declaration
/// there) leads from the module to what was declared: for an import, to
/// the module imported; otherwise to the declared object.
pub proof fn lemma_staged_lookup(ctx: Context, old: Context, ast: Seq<ModuleSource>, m: nat, d: nat)
    requires
        staged(ctx, old, ast, ast.len(), 0),
        m < ast.len(),
        d < ast[m as int].objects@.len(),
        kind_of(ast[m as int].objects@[d as int]) is Some,
        forall|e: int|
            d < e < ast[m as int].objects@.len() && (#[trigger] kind_of(ast[m as int].objects@[e])) is Some
                ==> binding_name(ast[m as int].objects@[e]) != binding_name(ast[m as int].objects@[d as int]),
    ensures
        next_stop(ctx, binding_name(ast[m as int].objects@[d as int]), PathNode::Module((bases_of(old).modules + m) as usize))
            == if kind_of(ast[m as int].objects@[d as int]) == Some(ObjectKind::Import) {
            Some(
                PathNode::Module(
                    (bases_of(old).modules + module_with_path(ast, import_path(ast, m as int, d as int))->Some_0) as usize,
                ),
            )
        } else {
            Some(PathNode::Object(declared_key(ast, bases_of(old), m, d)))
        },
{
    let b = bases_of(old);
    let name = binding_name(ast[m as int].objects@[d as int]);
    lemma_last_binding(ast, b, m, d, ast[m as int].objects@.len());
    assert(named(ctx.types.modules@[(b.modules + m) as int].symbol_map@, name) == module_binding(
        ast,
        b,
        m,
        name,
        ast[m as int].objects@.len(),
    ));
    assert(ctx.types.modules.len() == ctx.types.modules@.len());
    let key = (b.modules + m) as usize;
    assert(key as int == b.modules + m);
    let i: int = m as int;
    let j: int = d as int;
    assert(done_before(ast, i, j, ast.len() as int, 0));
    assert(registered(ctx, ast, b, i as nat, j as nat));
    assert(i as nat == m && j as nat == d);
    assert(registered(ctx, ast, b, m, d));
    let decl = ast[m as int].objects@[d as int];
    let k = kind_of(decl)->Some_0;
    let idx = base_of(b, k) + count_before(ast, k, m, d);
    assert(named(ctx.types.modules@[key as int].symbol_map@, name) == Some(declared_key(ast, b, m, d)));
    if k == ObjectKind::Import {
        assert(idx < ctx.objects.imports@.len());
        assert(ctx.objects.imports.len() == ctx.objects.imports@.len());
        assert(declared_key(ast, b, m, d) == AnyObjectKey::Import(idx as usize));
        assert((idx as usize) as int == idx);
    } else {
        assert(!(declared_key(ast, b, m, d) is Import));
    }
}

/// The index of the source module whose path is `p`, if any.
fn find_module(ast: &Vec<ModuleSource>, p: &Vec<String>) -> (r: Option<usize>)
    requires
        sources_ok(ast@),
    ensures
        match module_with_path(ast@, texts(p@)) {
            Some(i) => r == Some(i as usize),
            None => r is None,
        },
{
    let mut i: usize = 0;
    while i < ast.len()
        invariant
            sources_ok(ast@),
            0 <= i <= ast@.len(),
            forall|j: int| 0 <= j < i ==> texts(#[trigger] ast@[j].path@) != texts(p@),
        decreases ast@.len() - i,
    {
        if same_names(&ast[i].path, p) {
            proof {
                let c = choose|j: int| 0 <= j < ast@.len() && texts(#[trigger] ast@[j].path@) == texts(p@);
                if c != i {
                    if c < i {
                        assert(texts(ast@[c].path@) != texts(ast@[i as int].path@));
                    } else {
                        assert(texts(ast@[i as int].path@) != texts(ast@[c].path@));
                    }
                }
            }
            return Some(i);
        }
        i = i + 1;
    }
    None
}

impl Context {
    /// Binds `name` to `key` in module `module`.
    fn bind(&mut self, module: usize, name: String, key: AnyObjectKey)
        requires
            module < old(self).types.modules@.len(),
        ensures
            final(self).types.modules@.len() == old(self).types.modules@.len(),
            forall|i: int|
                0 <= i < old(self).types.modules@.len() && i != module ==> #[trigger] final(self).types.modules@[i]
                    == old(self).types.modules@[i],
            final(self).types.modules@[module as int].path == old(self).types.modules@[module as int].path,
            forall|j: int|
                0 <= j < final(self).types.modules@[module as int].symbol_map@.len() ==> (
                #[trigger] final(self).types.modules@[module as int].symbol_map@[j]).1 == key || (j < old(
                    self,
                ).types.modules@[module as int].symbol_map@.len() && final(self).types.modules@[module as int].symbol_map@[j]
                    == old(self).types.modules@[module as int].symbol_map@[j]),
            forall|n: Seq<char>| #[trigger] named(final(self).types.modules@[module as int].symbol_map@, n) == if n
                == name@ {
                Some(key)
            } else {
                named(old(self).types.modules@[module as int].symbol_map@, n)
            },
            final(self).objects == old(self).objects,
            final(self).types.traits == old(self).types.traits,
            final(self).types.named == old(self).types.named,
            final(self).types.functions == old(self).types.functions,
            final(self).types.constraints == old(self).types.constraints,
            final(self).types.generics == old(self).types.generics,
            final(self).types.polymorphs == old(self).types.polymorphs,
            final(self).types.morphs == old(self).types.morphs,
            final(self).types.structures == old(self).types.structures,
            final(self).types.enums == old(self).types.enums,
            final(self).types.arrays == old(self).types.arrays,
            final(self).types.tuples == old(self).types.tuples,
            final(self).types.references == old(self).types.references,
            final(self).auto_types == old(self).auto_types,
            final(self).diagnostics == old(self).diagnostics,
    {
        insert_name(&mut self.types.modules[module].symbol_map, name, key);
    }
}

proof fn lemma_counts_step(ast: Seq<ModuleSource>, m: nat, d: nat)
    requires
        m < ast.len(),
        d < ast[m as int].objects@.len(),
    ensures
        forall|k: ObjectKind| #[trigger] count_done(ast, k, m, d + 1) == count_done(ast, k, m, d) + if kind_of(
            ast[m as int].objects@[d as int],
        ) == Some(k) {
            1nat
        } else {
            0nat
        },
{
}

/// The tables after one declaration is handled: the table of its kind one
/// entry longer (and the trait or alias table, for a trait or an alias),
/// the others as they were.
proof fn lemma_tables_step(c0: Context, c2: Context, old: Context, ast: Seq<ModuleSource>, m: nat, d: nat)
    requires
        staged(c0, old, ast, m, d),
        m < ast.len(),
        d < ast[m as int].objects@.len(),
        kind_of(ast[m as int].objects@[d as int]) == Some(ObjectKind::Import) ==> c2.objects.imports@.len() == c0.objects.imports@.len() + 1
            && prefix(c0.objects.imports@, c2.objects.imports@),
        kind_of(ast[m as int].objects@[d as int]) != Some(ObjectKind::Import) ==> c2.objects.imports@ == c0.objects.imports@,
        kind_of(ast[m as int].objects@[d as int]) == Some(ObjectKind::Resource) ==> c2.objects.resources@.len() == c0.objects.resources@.len() + 1
            && prefix(c0.objects.resources@, c2.objects.resources@),
        kind_of(ast[m as int].objects@[d as int]) != Some(ObjectKind::Resource) ==> c2.objects.resources@ == c0.objects.resources@,
        kind_of(ast[m as int].objects@[d as int]) == Some(ObjectKind::Function) ==> c2.objects.functions@.len() == c0.objects.functions@.len() + 1
            && prefix(c0.objects.functions@, c2.objects.functions@),
        kind_of(ast[m as int].objects@[d as int]) != Some(ObjectKind::Function) ==> c2.objects.functions@ == c0.objects.functions@,
        kind_of(ast[m as int].objects@[d as int]) == Some(ObjectKind::Component) ==> c2.objects.components@.len() == c0.objects.components@.len() + 1
            && prefix(c0.objects.components@, c2.objects.components@),
        kind_of(ast[m as int].objects@[d as int]) != Some(ObjectKind::Component) ==> c2.objects.components@ == c0.objects.components@,
        kind_of(ast[m as int].objects@[d as int]) == Some(ObjectKind::Trait) ==> c2.objects.traits@.len() == c0.objects.traits@.len() + 1
            && prefix(c0.objects.traits@, c2.objects.traits@),
        kind_of(ast[m as int].objects@[d as int]) != Some(ObjectKind::Trait) ==> c2.objects.traits@ == c0.objects.traits@,
        kind_of(ast[m as int].objects@[d as int]) == Some(ObjectKind::Type) ==> c2.objects.types@.len() == c0.objects.types@.len() + 1
            && prefix(c0.objects.types@, c2.objects.types@),
        kind_of(ast[m as int].objects@[d as int]) != Some(ObjectKind::Type) ==> c2.objects.types@ == c0.objects.types@,
        kind_of(ast[m as int].objects@[d as int]) == Some(ObjectKind::Const) ==> c2.objects.constants@.len() == c0.objects.constants@.len() + 1
            && prefix(c0.objects.constants@, c2.objects.constants@),
        kind_of(ast[m as int].objects@[d as int]) != Some(ObjectKind::Const) ==> c2.objects.constants@ == c0.objects.constants@,
        kind_of(ast[m as int].objects@[d as int]) == Some(ObjectKind::Trait) ==> c2.types.traits@.len() == c0.types.traits@.len() + 1
            && prefix(c0.types.traits@, c2.types.traits@),
        kind_of(ast[m as int].objects@[d as int]) != Some(ObjectKind::Trait) ==> c2.types.traits@ == c0.types.traits@,
        kind_of(ast[m as int].objects@[d as int]) == Some(ObjectKind::Type) ==> c2.types.named@.len() == c0.types.named@.len() + 1
            && prefix(c0.types.named@, c2.types.named@),
        kind_of(ast[m as int].objects@[d as int]) != Some(ObjectKind::Type) ==> c2.types.named@ == c0.types.named@,
    ensures
        grown(c0, c2),
        forall|k: ObjectKind| #[trigger] table_grown(c2, old, k, base_of(bases_of(old), k) + count_done(ast, k, m, d + 1)),
        c2.types.traits@.len() == bases_of(old).trait_types + count_done(ast, ObjectKind::Trait, m, d + 1),
        c2.types.named@.len() == bases_of(old).named_types + count_done(ast, ObjectKind::Type, m, d + 1),
{
    let b = bases_of(old);
    lemma_counts_step(ast, m, d);
    assert forall|k: ObjectKind| #[trigger] table_grown(c2, old, k, base_of(b, k) + count_done(ast, k, m, d + 1)) by {
        assert(table_grown(c0, old, k, base_of(b, k) + count_done(ast, k, m, d)));
        assert(count_done(ast, k, m, d + 1) == count_done(ast, k, m, d) + if kind_of(ast[m as int].objects@[d as int])
            == Some(k) {
            1nat
        } else {
            0nat
        });
    }
    assert(count_done(ast, ObjectKind::Trait, m, d + 1) == count_done(ast, ObjectKind::Trait, m, d) + if kind_of(
        ast[m as int].objects@[d as int],
    ) == Some(ObjectKind::Trait) {
        1nat
    } else {
        0nat
    });
    assert(count_done(ast, ObjectKind::Type, m, d + 1) == count_done(ast, ObjectKind::Type, m, d) + if kind_of(
        ast[m as int].objects@[d as int],
    ) == Some(ObjectKind::Type) {
        1nat
    } else {
        0nat
    });
}

impl Context {
    /// Handles declaration `d` of module `m`: makes its object, binds it
    /// under its name, or reports an import of a path that names no module.
    fn register_declaration(&mut self, ast: &Vec<ModuleSource>, m: usize, d: usize, Ghost(old_ctx): Ghost<Context>) -> (r:
        Result<(), Diagnostic<Errors>>)
        requires
            sources_ok(ast@),
            m < ast@.len(),
            d < ast@[m as int].objects@.len(),
            staged(*old(self), old_ctx, ast@, m as nat, d as nat),
        ensures
            match r {
                Ok(()) => !unresolved(ast@, m as int, d as int) && staged(
                    *final(self),
                    old_ctx,
                    ast@,
                    m as nat,
                    (d + 1) as nat,
                ),
                Err(e) => unresolved(ast@, m as int, d as int) && import_error(e, ast@, bases_of(old_ctx), m as int, d as int),
            },
    {
        let ghost b = bases_of(old_ctx);
        let ghost c0 = *self;
        let ghost mut c1 = *self;
        let base = self.types.modules.len() - ast.len();
        let mk = base + m;
        let decl = &ast[m].objects[d];
        proof {
            lemma_counts_step(ast@, m as nat, d as nat);
            assert(table_grown(c0, old_ctx, kind_of(*decl)->Some_0, base_of(b, kind_of(*decl)->Some_0) + count_done(ast@, kind_of(*decl)->Some_0, m as nat, d as nat))) by {
                if kind_of(*decl) is Some {
                    assert(table_grown(c0, old_ctx, kind_of(*decl)->Some_0, base_of(b, kind_of(*decl)->Some_0) + count_done(ast@, kind_of(*decl)->Some_0, m as nat, d as nat)));
                }
            }
        }
        match decl {
            Declaration::Import { path, alias, access } => {
                let raw = path_names(&path.inner);
                let target = import_target_of(&ast[m].path, &raw);
                match find_module(ast, &target) {
                    None => {
                        return Err(Diagnostic { inner: Errors::ObjectNotFound(raw), module: mk, span: path.location });
                    },
                    Some(k) => {
                        let name: String = match alias {
                            Some(a) => {
                                let t: &String = &a.inner;
                                t.clone()
                            },
                            None => {
                                let last: &String = &path.inner.path[path.inner.path.len() - 1].inner;
                                last.clone()
                            },
                        };
                        let key = self.objects.imports.len();
                        assert(table_grown(c0, old_ctx, ObjectKind::Import, b.imports + count_done(ast@, ObjectKind::Import, m as nat, d as nat)));
                        self.objects.imports.push(AnyObject::new(name.clone(), ImportObj { module: base + k }, Some(d), mk, *access));
                        proof {
                            lemma_tables_step(c0, *self, old_ctx, ast@, m as nat, d as nat);
                            c1 = *self;
                        }
                        self.bind(mk, name, AnyObjectKey::Import(key));
                    },
                }
            },
            Declaration::Resource { ident, access, optional } => {
                let name: String = {
                    let t: &String = &ident.inner;
                    t.clone()
                };
                let key = self.objects.resources.len();
                assert(table_grown(c0, old_ctx, ObjectKind::Resource, b.resources + count_done(ast@, ObjectKind::Resource, m as nat, d as nat)));
                self.objects.resources.push(
                    AnyObject::new(
                        name.clone(),
                        ResourceObj { ty: InitState::Uninitialized, optional: *optional, default: InitState::Uninitialized },
                        Some(d),
                        mk,
                        *access,
                    ),
                );
                proof {
                    lemma_tables_step(c0, *self, old_ctx, ast@, m as nat, d as nat);
                    c1 = *self;
                }
                self.bind(mk, name, AnyObjectKey::Resource(key));
            },
            Declaration::Function { ident, access, generics } => {
                let name: String = {
                    let t: &String = &ident.inner;
                    t.clone()
                };
                let key = self.objects.functions.len();
                assert(table_grown(c0, old_ctx, ObjectKind::Function, b.functions + count_done(ast@, ObjectKind::Function, m as nat, d as nat)));
                let ir = if *generics == 0 {
                    IrCache::Single(InitState::Uninitialized)
                } else {
                    IrCache::Polymorphic(HashMap::new())
                };
                let fun = FunctionObj {
                    return_type: InitState::Uninitialized,
                    params: Vec::new(),
                    generics: Vec::new(),
                    type_of: InitState::Uninitialized,
                    ir,
                    generic_scope: InitState::Uninitialized,
                };
                self.objects.functions.push(AnyObject::new(name.clone(), fun, Some(d), mk, *access));
                proof {
                    lemma_tables_step(c0, *self, old_ctx, ast@, m as nat, d as nat);
                    c1 = *self;
                }
                self.bind(mk, name, AnyObjectKey::Function(key));
            },
            Declaration::Component { ident, access } => {
                let name: String = {
                    let t: &String = &ident.inner;
                    t.clone()
                };
                let key = self.objects.components.len();
                assert(table_grown(c0, old_ctx, ObjectKind::Component, b.components + count_done(ast@, ObjectKind::Component, m as nat, d as nat)));
                self.objects.components.push(
                    AnyObject::new(name.clone(), ComponentObj { ty: InitState::Uninitialized }, Some(d), mk, *access),
                );
                proof {
                    lemma_tables_step(c0, *self, old_ctx, ast@, m as nat, d as nat);
                    c1 = *self;
                }
                self.bind(mk, name, AnyObjectKey::Component(key));
            },
            Declaration::Trait { ident, access } => {
                let name: String = {
                    let t: &String = &ident.inner;
                    t.clone()
                };
                let key = self.objects.traits.len();
                assert(table_grown(c0, old_ctx, ObjectKind::Trait, b.traits + count_done(ast@, ObjectKind::Trait, m as nat, d as nat)));
                let t = self.types.traits.len();
                self.types.traits.push(TraitType { ident: name.clone() });
                self.objects.traits.push(
                    AnyObject::new(name.clone(), TraitObj { ty: InitState::Progress(t) }, Some(d), mk, *access),
                );
                proof {
                    lemma_tables_step(c0, *self, old_ctx, ast@, m as nat, d as nat);
                    c1 = *self;
                }
                self.bind(mk, name, AnyObjectKey::Trait(key));
            },
            Declaration::Type { ident, access } => {
                let name: String = {
                    let t: &String = &ident.inner;
                    t.clone()
                };
                let key = self.objects.types.len();
                assert(table_grown(c0, old_ctx, ObjectKind::Type, b.types + count_done(ast@, ObjectKind::Type, m as nat, d as nat)));
                let t = self.types.named.len();
                self.types.named.push(NamedTypeType { name: name.clone(), repr: AnyTypeKey::Primitive(PrimitiveType::Void) });
                let alias = TypeAliasObj {
                    ty: InitState::Progress(t),
                    generics: InitState::Uninitialized,
                    constants: Vec::new(),
                };
                self.objects.types.push(AnyObject::new(name.clone(), alias, Some(d), mk, *access));
                proof {
                    lemma_tables_step(c0, *self, old_ctx, ast@, m as nat, d as nat);
                    c1 = *self;
                }
                self.bind(mk, name, AnyObjectKey::Type(key));
            },
            Declaration::Const { ident, access } => {
                let name: String = {
                    let t: &String = &ident.inner;
                    t.clone()
                };
                let key = self.objects.constants.len();
                assert(table_grown(c0, old_ctx, ObjectKind::Const, b.constants + count_done(ast@, ObjectKind::Const, m as nat, d as nat)));
                self.objects.constants.push(
                    AnyObject::new(
                        name.clone(),
                        ConstObj { value: InitState::Uninitialized, ty: InitState::Uninitialized },
                        Some(d),
                        mk,
                        *access,
                    ),
                );
                proof {
                    lemma_tables_step(c0, *self, old_ctx, ast@, m as nat, d as nat);
                    c1 = *self;
                }
                self.bind(mk, name, AnyObjectKey::Const(key));
            },
            _ => {
                proof {
                    lemma_skip(c0, old_ctx, ast@, m as nat, d as nat);
                }
                return Ok(());
            },
        }
        proof {
            lemma_step(c0, c1, *self, old_ctx, ast@, m as nat, d as nat);
        }
        Ok(())
    }

    /// Gives every source module an entry of the module table (after those
    /// there are) and every declaration its object, bound under its name
    /// in its module (see `staged`); an import that names no module stops
    /// the stage, and the first one, in the order of the modules and of
    /// their declarations, is reported (see `import_error`).
    pub fn lower_import_stage(&mut self, ast: &Vec<ModuleSource>) -> (r: Result<(), Diagnostic<Errors>>)
        requires
            sources_ok(ast@),
        ensures
            match r {
                Ok(()) => {
                    &&& forall|m: int, d: int| 0 <= m < ast@.len() && 0 <= d < ast@[m].objects@.len() ==> !#[trigger] unresolved(ast@, m, d)
                    &&& staged(*final(self), *old(self), ast@, ast@.len(), 0)
                    &&& names_valid(*old(self)) ==> names_valid(*final(self))
                },
                Err(e) => exists|m: int, d: int|
                    0 <= m < ast@.len() && 0 <= d < ast@[m].objects@.len() && #[trigger] unresolved(ast@, m, d)
                        && !unresolved_before(ast@, m, d) && import_error(e, ast@, bases_of(*old(self)), m, d),
            },
    {
        let ghost old_ctx = *self;
        let ghost b = bases_of(old_ctx);
        let mut i: usize = 0;
        while i < ast.len()
            invariant
                0 <= i <= ast@.len(),
                self.types.modules@.len() == b.modules + i,
                forall|j: int| 0 <= j < b.modules ==> #[trigger] self.types.modules@[j] == old_ctx.types.modules@[j],
                forall|j: int| 0 <= j < i ==> texts(#[trigger] self.types.modules@[b.modules + j].path@) == texts(ast@[j].path@),
                forall|j: int| 0 <= j < i ==> (#[trigger] self.types.modules@[b.modules + j]).symbol_map@.len() == 0,
                self.objects == old_ctx.objects,
                self.types.traits == old_ctx.types.traits,
                self.types.named == old_ctx.types.named,
                self.types.functions == old_ctx.types.functions,
                self.types.constraints == old_ctx.types.constraints,
                self.types.generics == old_ctx.types.generics,
                self.types.polymorphs == old_ctx.types.polymorphs,
                self.types.morphs == old_ctx.types.morphs,
                self.types.structures == old_ctx.types.structures,
                self.types.enums == old_ctx.types.enums,
                self.types.arrays == old_ctx.types.arrays,
                self.types.tuples == old_ctx.types.tuples,
                self.types.references == old_ctx.types.references,
                self.auto_types == old_ctx.auto_types,
                self.diagnostics == old_ctx.diagnostics,
            decreases ast@.len() - i,
        {
            let path = copy_names(&ast[i].path);
            self.types.modules.push(Module::new(path));
            i = i + 1;
        }
        proof {
            assert forall|k: ObjectKind| #[trigger] table_grown(*self, old_ctx, k, base_of(b, k) + count_done(ast@, k, 0, 0)) by {
                if ast@.len() > 0 {
                    assert(count_done(ast@, k, 0, 0) == 0);
                } else {
                    assert(count_modules(ast@, k, 0) == 0);
                }
            }
            if ast@.len() > 0 {
                assert(count_done(ast@, ObjectKind::Trait, 0, 0) == 0);
                assert(count_done(ast@, ObjectKind::Type, 0, 0) == 0);
            }
            assert(staged(*self, old_ctx, ast@, 0, 0));
        }
        let mut m: usize = 0;
        while m < ast.len()
            invariant
                old_ctx == *old(self),
                sources_ok(ast@),
                0 <= m <= ast@.len(),
                staged(*self, old_ctx, ast@, m as nat, 0),
                !unresolved_before(ast@, m as int, 0),
            decreases ast@.len() - m,
        {
            let mut d: usize = 0;
            while d < ast[m].objects.len()
                invariant
                    old_ctx == *old(self),
                    sources_ok(ast@),
                    0 <= m < ast@.len(),
                    0 <= d <= ast@[m as int].objects@.len(),
                    staged(*self, old_ctx, ast@, m as nat, d as nat),
                    !unresolved_before(ast@, m as int, d as int),
                decreases ast@[m as int].objects@.len() - d,
            {
                match self.register_declaration(ast, m, d, Ghost(old_ctx)) {
                    Ok(()) => {},
                    Err(e) => {
                        proof {
                            assert(unresolved(ast@, m as int, d as int));
                        }
                        return Err(e);
                    },
                }
                proof {
                    assert forall|i: int, j: int| #[trigger] unresolved(ast@, i, j) && 0 <= i < ast@.len() && 0 <= j
                        < ast@[i].objects@.len() && (i < m || (i == m && j < d + 1)) implies false by {
                        if !(i == m && j == d) {
                            assert(0 <= i < ast@.len() && 0 <= j < ast@[i].objects@.len() && (i < m || (i == m && j < d))
                                && unresolved(ast@, i, j));
                        }
                    }
                }
                d = d + 1;
            }
            proof {
                lemma_next_module(*self, old_ctx, ast@, m as nat);
                assert forall|i: int, j: int| #[trigger] unresolved(ast@, i, j) && 0 <= i < ast@.len() && 0 <= j
                    < ast@[i].objects@.len() && (i < m + 1 || (i == m + 1 && j < 0)) implies false by {
                    assert(0 <= i < ast@.len() && 0 <= j < ast@[i].objects@.len() && (i < m || (i == m && j < ast@[m as int].objects@.len()))
                        && unresolved(ast@, i, j));
                }
            }
            m = m + 1;
        }
        proof {
            if names_valid(old_ctx) {
                lemma_staged_names_valid(*self, old_ctx, ast@);
            }
            assert forall|i: int, j: int| 0 <= i < ast@.len() && 0 <= j < ast@[i].objects@.len() implies !#[trigger] unresolved(ast@, i, j) by {
                if unresolved(ast@, i, j) {
                    assert(0 <= i < ast@.len() && 0 <= j < ast@[i].objects@.len() && (i < m as int || (i == m as int && j < 0)) && unresolved(ast@, i, j));
                }
            }
        }
        Ok(())
    }
}

} // verus!
