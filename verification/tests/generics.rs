use lib::ast::{GenericParameter, IdentifierPath};
use lib::const_value::{ConstValue, Errors};
use lib::init_state::InitState;
use lib::ir::AnyObjectKey;
use lib::lowering::GenericContext;
use lib::names::{insert_name, Context, Diagnostics, GenericScopes, Objects, TraitObj};
use lib::number::{Number, NumberValue};
use lib::objects::{AccessModifiers, AnyObject};
use lib::primitive::PrimitiveType;
use lib::span::{Span, SpanIndex};
use lib::types::{AnyTypeKey, AutoTypes, Module, TraitType, Types};

fn at(index: usize) -> SpanIndex {
    SpanIndex { index, len: 1 }
}

fn number(value: NumberValue, size: Option<u32>) -> ConstValue {
    ConstValue::Number(Number { value, size })
}

fn size_of(v: &ConstValue) -> Option<u32> {
    match v {
        ConstValue::Number(n) => n.size,
        _ => panic!("not a number"),
    }
}

fn context() -> Context {
    let mut types = Types::default();
    let auto_types = AutoTypes::new(&mut types);
    types.traits.push(TraitType { ident: "Add".to_string() });
    types.modules.push(Module::new(vec!["m".to_string()]));
    let mut objects = Objects::default();
    // `Add` has its trait entry (1); `Later` does not yet
    objects.traits.push(AnyObject::new("Add".to_string(), TraitObj { ty: InitState::Progress(1) }, None, 0, AccessModifiers::Public));
    objects.traits.push(AnyObject::new("Later".to_string(), TraitObj { ty: InitState::Uninitialized }, None, 0, AccessModifiers::Public));
    insert_name(&mut types.modules[0].symbol_map, "Add".to_string(), AnyObjectKey::Trait(0));
    insert_name(&mut types.modules[0].symbol_map, "Later".to_string(), AnyObjectKey::Trait(1));
    Context { types, objects, auto_types, diagnostics: Diagnostics::default(), generic_ctx: GenericScopes { scopes: vec![] } }
}

fn parameter(name: &str, index: usize, constraints: &[&str]) -> Span<GenericParameter> {
    let constraints = constraints
        .iter()
        .map(|c| Span::new(IdentifierPath { path: vec![Span::new(c.to_string(), at(index))] }, at(index)))
        .collect();
    Span::new(GenericParameter { identifier: Span::new(name.to_string(), at(index)), constraints }, at(index))
}

#[test]
fn characters_fit_char() {
    let ctx = context();
    let mut c = ConstValue::Char('x');
    assert!(ctx.type_check_const_value(&mut c, &AnyTypeKey::Primitive(PrimitiveType::Char)));
    assert!(!ctx.type_check_const_value(&mut c, &AnyTypeKey::Primitive(PrimitiveType::U8)));
    let mut s = ConstValue::String("x".to_string());
    assert!(!ctx.type_check_const_value(&mut s, &AnyTypeKey::Primitive(PrimitiveType::Char)));
}

#[test]
fn unsized_numbers_fit_numeric_types() {
    let ctx = context();
    let mut v = number(NumberValue::Any(3), None);
    assert!(ctx.type_check_const_value(&mut v, &AnyTypeKey::Primitive(PrimitiveType::U16)));
    assert_eq!(size_of(&v), None);
    // a width must match a type's
    let mut v = number(NumberValue::Any(3), Some(8));
    assert!(ctx.type_check_const_value(&mut v, &AnyTypeKey::Primitive(PrimitiveType::U16)));
    assert!(!ctx.type_check_const_value(&mut v, &AnyTypeKey::Primitive(PrimitiveType::Bool)));
    // non-primitive types take no constant
    assert!(!ctx.type_check_const_value(&mut v, &AnyTypeKey::Array(0)));
}

#[test]
fn typed_numbers_take_float_widths() {
    let ctx = context();
    let mut f = number(NumberValue::Float(0), None);
    assert!(ctx.type_check_const_value(&mut f, &AnyTypeKey::Primitive(PrimitiveType::F64)));
    assert_eq!(size_of(&f), Some(64));
    assert!(!ctx.type_check_const_value(&mut f, &AnyTypeKey::Primitive(PrimitiveType::F32)));
    let mut i = number(NumberValue::Int(-1), None);
    assert!(!ctx.type_check_const_value(&mut i, &AnyTypeKey::Primitive(PrimitiveType::I32)));
    assert_eq!(size_of(&i), None);
    let mut u = number(NumberValue::Uint(1), Some(32));
    assert!(ctx.type_check_const_value(&mut u, &AnyTypeKey::Primitive(PrimitiveType::F32)));
}

#[test]
fn generic_scopes() {
    let mut ctx = context();
    let mut g = GenericContext { scopes: Vec::new() };
    let constraints_before = ctx.types.constraints.len();
    let outer = Span::new(vec![parameter("T", 0, &["Add"]), parameter("U", 2, &[])], at(0));
    g.push_scope(&Some(outer), &mut ctx, &0).unwrap();
    assert_eq!(ctx.types.constraints.len(), constraints_before + 1);
    assert_eq!(ctx.types.constraints[constraints_before].constraints, vec![1]);
    assert_eq!(g.find_generic(&"T".to_string()), Some(&constraints_before));
    assert_eq!(g.find_generic(&"U".to_string()), Some(&ctx.auto_types.any_conr));
    // an inner scope hides outer names
    let inner = Span::new(vec![parameter("T", 4, &[])], at(4));
    g.push_scope(&Some(inner), &mut ctx, &0).unwrap();
    assert_eq!(g.find_generic(&"T".to_string()), Some(&ctx.auto_types.any_conr));
    assert_eq!(g.find_generic(&"V".to_string()), None);
    g.push_scope(&None, &mut ctx, &0).unwrap();
    assert_eq!(g.scopes.len(), 3);
    g.pop_scope();
    g.pop_scope();
    assert_eq!(g.find_generic(&"T".to_string()), Some(&constraints_before));
}

#[test]
fn generic_scope_reports_traits_not_yet_made() {
    let mut ctx = context();
    let mut g = GenericContext { scopes: Vec::new() };
    let params = Span::new(vec![parameter("T", 0, &["Add"]), parameter("U", 7, &["Add", "Later"])], at(0));
    let e = g.push_scope(&Some(params), &mut ctx, &0).unwrap_err();
    assert!(matches!(e.inner, Errors::NonConstraintType(AnyObjectKey::Trait(1))));
    assert_eq!(e.span, at(7));
    assert_eq!(e.module, 0);
    assert!(g.scopes.is_empty());
}

#[test]
fn generic_scope_of_a_declaration() {
    let mut ctx = context();
    let params = Span::new(
        vec![parameter("T", 0, &["Add"]), parameter("U", 2, &[]), parameter("V", 4, &["Add"]), parameter("T", 6, &[])],
        at(0),
    );
    let key = ctx.push_generic_scope(&Some(params), &0).unwrap();
    assert_eq!(key, 0);
    // equal trait lists share one constraint entry
    assert_eq!(ctx.types.constraints.len(), 3);
    assert_eq!(ctx.types.constraints[1].constraints, vec![1]);
    assert!(ctx.types.constraints[2].constraints.is_empty());
    let generics: Vec<(String, usize)> =
        ctx.types.generics.iter().map(|g| (g.ident.clone(), g.constraint)).collect();
    assert_eq!(
        generics,
        vec![("T".to_string(), 1), ("U".to_string(), 2), ("V".to_string(), 1), ("T".to_string(), 2)]
    );
    // a name given twice stands for its last parameter
    assert_eq!(
        ctx.generic_ctx.scopes,
        vec![vec![("T".to_string(), 3), ("U".to_string(), 1), ("V".to_string(), 2)]]
    );
    // a scope without parameters is empty, and its key is the next one
    assert_eq!(ctx.push_generic_scope(&None, &0).unwrap(), 1);
    assert!(ctx.generic_ctx.scopes[1].is_empty());
    assert_eq!(ctx.types.generics.len(), 4);
}

#[test]
fn generic_scope_stays_entered_after_a_report() {
    let mut ctx = context();
    let params = Span::new(vec![parameter("T", 0, &["Add"]), parameter("U", 5, &["Add", "Later"])], at(0));
    let e = ctx.push_generic_scope(&Some(params), &0).unwrap_err();
    assert!(matches!(e.inner, Errors::NonConstraintType(AnyObjectKey::Trait(1))));
    assert_eq!(e.span, at(5));
    assert_eq!(e.module, 0);
    assert_eq!(ctx.generic_ctx.scopes, vec![vec![("T".to_string(), 0)]]);
    assert_eq!(ctx.types.generics.len(), 1);
    assert_eq!(ctx.types.constraints.len(), 2);
}
