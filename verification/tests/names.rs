use lib::ast::IdentifierPath;
use lib::const_value::Errors;
use lib::init_state::InitState;
use lib::ir::AnyObjectKey;
use lib::names::{
    insert_name, lookup_name, ComponentObj, ConstObj, Context, Diagnostics, GenericScopes, ImportObj, Objects, PathNode,
    PathSelector, TypeAliasObj,
};
use lib::objects::{AccessModifiers, AnyObject};
use lib::primitive::PrimitiveType;
use lib::span::{Span, SpanIndex};
use lib::types::{AnyTypeKey, AutoTypes, Module, Types};

const I32: AnyTypeKey = AnyTypeKey::Primitive(PrimitiveType::I32);

fn at(index: usize, len: usize) -> SpanIndex {
    SpanIndex { index, len }
}

fn obj<T>(name: &str, data: T, module: usize, access: AccessModifiers) -> AnyObject<T> {
    AnyObject::new(name.to_string(), data, None, module, access)
}

/// Module 0 (`app`) imports module 1 (`lib`) as `lib`; module 1 declares a
/// public constant `answer`, a private component `secret` and a type alias
/// `Config` holding the constant `limit`.
fn program() -> Context {
    let mut types = Types::default();
    let auto_types = AutoTypes::new(&mut types);
    types.modules.push(Module::new(vec!["app".to_string()]));
    types.modules.push(Module::new(vec!["lib".to_string()]));
    let mut objects = Objects::default();
    objects.imports.push(obj("lib", ImportObj { module: 1 }, 0, AccessModifiers::Private));
    objects.constants.push(obj(
        "answer",
        ConstObj { value: InitState::Uninitialized, ty: InitState::Done(I32) },
        1,
        AccessModifiers::Public,
    ));
    objects.constants.push(obj(
        "limit",
        ConstObj { value: InitState::Uninitialized, ty: InitState::Uninitialized },
        1,
        AccessModifiers::Public,
    ));
    objects.components.push(obj("secret", ComponentObj { ty: InitState::Done(I32) }, 1, AccessModifiers::Private));
    objects.types.push(obj(
        "Config",
        TypeAliasObj {
            ty: InitState::Done(0),
            generics: InitState::Uninitialized,
            constants: vec![("limit".to_string(), 1)],
        },
        1,
        AccessModifiers::PublicProject,
    ));
    insert_name(&mut types.modules[0].symbol_map, "lib".to_string(), AnyObjectKey::Import(0));
    insert_name(&mut types.modules[1].symbol_map, "answer".to_string(), AnyObjectKey::Const(0));
    insert_name(&mut types.modules[1].symbol_map, "secret".to_string(), AnyObjectKey::Component(0));
    insert_name(&mut types.modules[1].symbol_map, "Config".to_string(), AnyObjectKey::Type(0));
    Context { types, objects, auto_types, diagnostics: Diagnostics::default(), generic_ctx: GenericScopes { scopes: vec![] } }
}

fn name(s: &str, index: usize) -> Span<String> {
    Span::new(s.to_string(), at(index, s.len()))
}

fn selector(names: &[(&str, usize)]) -> Span<PathSelector> {
    let path = names.iter().map(|(n, i)| name(n, *i)).collect();
    Span::new(PathSelector { path: IdentifierPath { path }, ends_on: None }, at(0, 20))
}

#[test]
fn names_map_to_the_last_binding() {
    let mut entries: Vec<(String, u32)> = Vec::new();
    insert_name(&mut entries, "a".to_string(), 1);
    insert_name(&mut entries, "b".to_string(), 2);
    insert_name(&mut entries, "a".to_string(), 3);
    assert_eq!(entries.len(), 2);
    assert_eq!(lookup_name(&entries, &"a".to_string()), Some(3));
    assert_eq!(lookup_name(&entries, &"b".to_string()), Some(2));
    assert_eq!(lookup_name(&entries, &"c".to_string()), None);
}

#[test]
fn objects_report_name_access_and_module() {
    let ctx = program();
    let k = AnyObjectKey::Component(0);
    assert_eq!(k.ident(&ctx), "secret");
    assert_eq!(k.access(&ctx), AccessModifiers::Private);
    assert_eq!(k.module(&ctx), 1);
    assert_eq!(AnyObjectKey::Import(0).ident(&ctx), "lib");
}

#[test]
fn object_types() {
    let ctx = program();
    assert_eq!(AnyObjectKey::Const(0).type_of(&ctx).unwrap(), I32);
    assert_eq!(AnyObjectKey::Type(0).type_of(&ctx).unwrap(), AnyTypeKey::Named(0));
    assert!(matches!(AnyObjectKey::Import(0).type_of(&ctx), Err(Errors::FailedTypeInfer)));
}

#[test]
fn access_is_checked_across_modules() {
    let ctx = program();
    let sel = selector(&[("lib", 0)]);
    // a module's own private object
    assert!(ctx.check_access(1, &sel, AnyObjectKey::Component(0)).is_ok());
    // another module's public and project-wide objects
    assert!(ctx.check_access(0, &sel, AnyObjectKey::Const(0)).is_ok());
    assert!(ctx.check_access(0, &sel, AnyObjectKey::Type(0)).is_ok());
    // another module's private object
    let e = ctx.check_access(0, &sel, AnyObjectKey::Component(0)).unwrap_err();
    assert!(matches!(e.inner, Errors::ObjectInaccessible(AnyObjectKey::Component(0))));
    assert_eq!(e.module, 0);
    assert_eq!(e.span, at(0, 20));
}

#[test]
fn next_stop_follows_imports_objects_and_alias_constants() {
    let ctx = program();
    let to_lib = ctx.resolve_next_static_stop_of_path(&name("lib", 0), &PathNode::Module(0), &0).unwrap();
    assert_eq!(to_lib, PathNode::Module(1));
    let answer = ctx.resolve_next_static_stop_of_path(&name("answer", 5), &to_lib, &0).unwrap();
    assert_eq!(answer, PathNode::Object(AnyObjectKey::Const(0)));
    let config = ctx.resolve_next_static_stop_of_path(&name("Config", 5), &to_lib, &0).unwrap();
    let limit = ctx.resolve_next_static_stop_of_path(&name("limit", 13), &config, &0).unwrap();
    assert_eq!(limit, PathNode::Object(AnyObjectKey::Const(1)));
}

#[test]
fn next_stop_reports_unknown_names() {
    let ctx = program();
    let e = ctx.resolve_next_static_stop_of_path(&name("nope", 7), &PathNode::Module(1), &0).unwrap_err();
    match e.inner {
        Errors::ObjectNotFound(path) => assert_eq!(path, vec!["nope".to_string()]),
        other => panic!("unexpected {other:?}"),
    }
    // reported in the module searched
    assert_eq!(e.module, 1);
    assert_eq!(e.span, at(7, 4));
    // inside an alias, in the module the path is resolved from
    let config = PathNode::Object(AnyObjectKey::Type(0));
    let e = ctx.resolve_next_static_stop_of_path(&name("max", 3), &config, &0).unwrap_err();
    assert_eq!(e.module, 0);
}

#[test]
fn selector_targets() {
    let ctx = program();
    let (node, last) = ctx.resolve_selector_target(0, &selector(&[("lib", 0), ("Config", 5), ("limit", 13)])).unwrap();
    assert_eq!(node, PathNode::Object(AnyObjectKey::Const(1)));
    assert_eq!(*last.inner, "limit");
    assert_eq!(last.location, at(13, 5));
    // an empty path stays in the module, with an empty name
    let (node, last) = ctx.resolve_selector_target(0, &selector(&[])).unwrap();
    assert_eq!(node, PathNode::Module(0));
    assert_eq!(*last.inner, "");
    // the first unknown name is reported
    let e = ctx.resolve_selector_target(0, &selector(&[("lib", 0), ("missing", 5), ("x", 14)])).unwrap_err();
    assert_eq!(e.module, 1);
    assert_eq!(e.span, at(5, 7));
}
