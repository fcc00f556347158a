use lib::ast::IdentifierPath;
use lib::const_value::Errors;
use lib::import_stage::{Declaration, ModuleSource};
use lib::init_state::InitState;
use lib::ir::AnyObjectKey;
use lib::names::{lookup_name, Context, Diagnostics, GenericScopes, Objects, PathNode};
use lib::objects::{AccessModifiers, IrCache};
use lib::primitive::PrimitiveType;
use lib::span::{Span, SpanIndex};
use lib::types::{AnyTypeKey, AutoTypes, Types};

fn at(index: usize, len: usize) -> SpanIndex {
    SpanIndex { index, len }
}

fn ident(s: &str, index: usize) -> Span<String> {
    Span::new(s.to_string(), at(index, s.len()))
}

fn path(names: &[&str], index: usize) -> Span<IdentifierPath> {
    let path = names.iter().map(|n| ident(n, index)).collect();
    Span::new(IdentifierPath { path }, at(index, 10))
}

fn strings(names: &[&str]) -> Vec<String> {
    names.iter().map(|n| n.to_string()).collect()
}

fn empty_context() -> Context {
    let mut types = Types::default();
    let auto_types = AutoTypes::new(&mut types);
    Context { types, objects: Objects::default(), auto_types, diagnostics: Diagnostics::default(), generic_ctx: GenericScopes { scopes: vec![] } }
}

/// `game::main` imports `game::lib` (as `lib`) and `mod::game::lib` (as
/// `engine`), and declares a constant, two functions, a trait and a type;
/// `game::lib` declares a component and an optional resource.
fn program() -> Vec<ModuleSource> {
    vec![
        ModuleSource {
            path: strings(&["game", "main"]),
            objects: vec![
                Declaration::Using,
                Declaration::Import { path: path(&["lib"], 0), alias: None, access: AccessModifiers::Private },
                Declaration::Import {
                    path: path(&["mod", "game", "lib"], 20),
                    alias: Some(ident("engine", 40)),
                    access: AccessModifiers::Public,
                },
                Declaration::Const { ident: ident("LIMIT", 50), access: AccessModifiers::Public },
                Declaration::Function { ident: ident("run", 60), access: AccessModifiers::Public, generics: 0 },
                Declaration::Function { ident: ident("map", 70), access: AccessModifiers::Private, generics: 2 },
                Declaration::Trait { ident: ident("Shape", 80), access: AccessModifiers::PublicModule },
                Declaration::Type { ident: ident("Point", 90), access: AccessModifiers::PublicProject },
                Declaration::System,
            ],
        },
        ModuleSource {
            path: strings(&["game", "lib"]),
            objects: vec![
                Declaration::Component { ident: ident("Position", 5), access: AccessModifiers::Private },
                Declaration::Resource { ident: ident("Clock", 15), access: AccessModifiers::Public, optional: true },
                Declaration::TypeImpl,
                Declaration::TraitImpl,
            ],
        },
    ]
}

#[test]
fn import_stage_registers_modules_and_objects() {
    let mut ctx = empty_context();
    let traits_before = ctx.types.traits.len();
    ctx.lower_import_stage(&program()).unwrap();
    assert_eq!(ctx.types.modules.len(), 2);
    assert_eq!(ctx.types.modules[0].path, strings(&["game", "main"]));
    assert_eq!(ctx.types.modules[1].path, strings(&["game", "lib"]));
    // imports resolve to module keys
    assert_eq!(ctx.objects.imports.len(), 2);
    assert_eq!(ctx.objects.imports[0].data.module, 1);
    assert_eq!(ctx.objects.imports[0].identifier, "lib");
    assert_eq!(ctx.objects.imports[1].data.module, 1);
    assert_eq!(ctx.objects.imports[1].identifier, "engine");
    assert_eq!(ctx.objects.imports[1].access, AccessModifiers::Public);
    assert_eq!(ctx.objects.imports[1].ast_object, Some(2));
    // one object per declaration, with fresh data
    assert_eq!(ctx.objects.constants.len(), 1);
    assert!(matches!(ctx.objects.constants[0].data.ty, InitState::Uninitialized));
    assert_eq!(ctx.objects.functions.len(), 2);
    assert!(matches!(ctx.objects.functions[0].data.ir, IrCache::Single(InitState::Uninitialized)));
    assert!(matches!(&ctx.objects.functions[1].data.ir, IrCache::Polymorphic(c) if c.is_empty()));
    assert_eq!(ctx.objects.functions[1].access, AccessModifiers::Private);
    assert_eq!(ctx.objects.components[0].module, 1);
    assert!(ctx.objects.resources[0].data.optional);
    // a trait gets its entry in the trait table; a type alias a place
    assert_eq!(ctx.types.traits.len(), traits_before + 1);
    assert_eq!(ctx.types.traits[traits_before].ident, "Shape");
    assert!(matches!(ctx.objects.traits[0].data.ty, InitState::Progress(t) if t == traits_before));
    assert_eq!(ctx.types.named[0].name, "Point");
    assert_eq!(ctx.types.named[0].repr, AnyTypeKey::Primitive(PrimitiveType::Void));
    assert!(matches!(ctx.objects.types[0].data.ty, InitState::Progress(0)));
}

#[test]
fn import_stage_binds_names() {
    let mut ctx = empty_context();
    ctx.lower_import_stage(&program()).unwrap();
    let main = &ctx.types.modules[0].symbol_map;
    assert_eq!(lookup_name(main, &"lib".to_string()), Some(AnyObjectKey::Import(0)));
    assert_eq!(lookup_name(main, &"engine".to_string()), Some(AnyObjectKey::Import(1)));
    assert_eq!(lookup_name(main, &"run".to_string()), Some(AnyObjectKey::Function(0)));
    assert_eq!(lookup_name(main, &"Point".to_string()), Some(AnyObjectKey::Type(0)));
    assert_eq!(lookup_name(main, &"Position".to_string()), None);
    let lib = &ctx.types.modules[1].symbol_map;
    assert_eq!(lookup_name(lib, &"Clock".to_string()), Some(AnyObjectKey::Resource(0)));
    // names lead through imports to the objects of other modules
    let lib_node = ctx.resolve_next_static_stop_of_path(&ident("engine", 0), &PathNode::Module(0), &0).unwrap();
    assert_eq!(lib_node, PathNode::Module(1));
    let clock = ctx.resolve_next_static_stop_of_path(&ident("Clock", 0), &lib_node, &0).unwrap();
    assert_eq!(clock, PathNode::Object(AnyObjectKey::Resource(0)));
}

#[test]
fn import_stage_reports_unknown_modules() {
    let mut ctx = empty_context();
    let ast = vec![ModuleSource {
        path: strings(&["app"]),
        objects: vec![
            Declaration::Const { ident: ident("A", 0), access: AccessModifiers::Public },
            Declaration::Import { path: path(&["nowhere"], 33), alias: None, access: AccessModifiers::Private },
            Declaration::Import { path: path(&["also", "nowhere"], 44), alias: None, access: AccessModifiers::Private },
        ],
    }];
    let e = ctx.lower_import_stage(&ast).unwrap_err();
    match e.inner {
        Errors::ObjectNotFound(p) => assert_eq!(p, strings(&["nowhere"])),
        other => panic!("unexpected {other:?}"),
    }
    assert_eq!(e.module, 0);
    assert_eq!(e.span, at(33, 10));
}

#[test]
fn import_paths_are_relative_or_from_the_root() {
    let mut ctx = empty_context();
    let ast = vec![
        ModuleSource {
            path: strings(&["a", "b"]),
            objects: vec![
                // beside `a::b`: `a::c`
                Declaration::Import { path: path(&["c"], 0), alias: None, access: AccessModifiers::Private },
                // from the root: `a::c`
                Declaration::Import {
                    path: path(&["mod", "a", "c"], 10),
                    alias: Some(ident("root", 20)),
                    access: AccessModifiers::Private,
                },
            ],
        },
        ModuleSource { path: strings(&["a", "c"]), objects: vec![] },
        ModuleSource { path: strings(&[]), objects: vec![] },
    ];
    ctx.lower_import_stage(&ast).unwrap();
    assert_eq!(ctx.objects.imports[0].data.module, 1);
    assert_eq!(ctx.objects.imports[1].data.module, 1);
    // a module at the root imports beside itself
    let mut ctx = empty_context();
    let ast = vec![
        ModuleSource {
            path: strings(&["top"]),
            objects: vec![Declaration::Import { path: path(&["other"], 0), alias: None, access: AccessModifiers::Private }],
        },
        ModuleSource { path: strings(&["other"]), objects: vec![] },
    ];
    ctx.lower_import_stage(&ast).unwrap();
    assert_eq!(ctx.objects.imports[0].data.module, 1);
}
