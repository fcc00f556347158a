use lib::const_value::{ConstValue, Errors};
use lib::number::{Number, NumberValue};
use lib::primitive::PrimitiveType;
use lib::span::{Span, SpanIndex};
use lib::types::{
    AnyTypeKey, ArrayType, AutoTypes, FunctionType, GenericType, Module, MorphedType, NamedTypeType,
    PolymorphType, RefType, StructType, TupleType, Types,
};

const I32: AnyTypeKey = AnyTypeKey::Primitive(PrimitiveType::I32);
const BOOL: AnyTypeKey = AnyTypeKey::Primitive(PrimitiveType::Bool);
const T: AnyTypeKey = AnyTypeKey::Generic(0);
const U: AnyTypeKey = AnyTypeKey::Generic(1);

fn uint(v: u128) -> ConstValue {
    ConstValue::Number(Number { value: NumberValue::Any(v), size: None })
}

/// Generic parameters `T` and `U`, and types built from them.
fn generic_store() -> Types {
    let mut t = Types::default();
    let auto = AutoTypes::new(&mut t);
    t.generics.push(GenericType { constraint: auto.any_conr, ident: "T".to_string() });
    t.generics.push(GenericType { constraint: auto.any_conr, ident: "U".to_string() });
    // function(T, bool): U
    t.functions.push(FunctionType { returns: U, parameters: vec![T, BOOL] });
    // [T; 2]
    t.arrays.push(ArrayType { element_type: T, size: Some(2) });
    // (T, U)
    t.tuples.push(TupleType { parameters: vec![T, U] });
    // struct { x: T = 7; y: U; }
    t.structures.push(StructType {
        parameters: vec![("x".to_string(), T, Some(uint(7))), ("y".to_string(), U, None)],
    });
    // Alias = &T
    t.references.push(RefType { inner: T });
    t.named.push(NamedTypeType { name: "Alias".to_string(), repr: AnyTypeKey::Reference(0) });
    // <T, U>(T, U) and its instantiation with i32, bool
    t.polymorphs.push(PolymorphType { parameters: vec![0, 1], inner: AnyTypeKey::Tuple(0) });
    t.morphs.push(MorphedType { parent: 0, this: AnyTypeKey::Array(0), arguments: vec![I32] });
    t.modules.push(Module::new(vec!["m".to_string()]));
    // function(Any): T, whose parameter is a trait
    t.functions.push(FunctionType { returns: T, parameters: vec![AnyTypeKey::Trait(0)] });
    t
}

fn subs() -> Vec<(usize, AnyTypeKey)> {
    vec![(0, I32), (1, BOOL)]
}

#[test]
fn substitute_primitive_and_generic() {
    let mut t = generic_store();
    assert_eq!(I32.substitute_many(&mut t, &subs()).unwrap(), I32);
    assert_eq!(T.substitute_many(&mut t, &subs()).unwrap(), I32);
    assert_eq!(U.substitute_many(&mut t, &subs()).unwrap(), BOOL);
    // a generic parameter without a substitute stays
    assert_eq!(U.substitute_many(&mut t, &vec![(0, I32)]).unwrap(), U);
    // the first substitute for a parameter is taken
    assert_eq!(T.substitute_many(&mut t, &vec![(0, BOOL), (0, I32)]).unwrap(), BOOL);
}

#[test]
fn substitute_function_type() {
    let mut t = generic_store();
    let r = AnyTypeKey::Function(0).substitute_many(&mut t, &subs()).unwrap();
    assert_eq!(r, AnyTypeKey::Function(2));
    assert_eq!(t.functions[2].parameters, vec![I32, BOOL]);
    assert_eq!(t.functions[2].returns, BOOL);
    assert_eq!(r.stringify(&t), "function(i32, bool): bool");
    // the entry substituted into is untouched
    assert_eq!(t.functions[0].parameters, vec![T, BOOL]);
}

#[test]
fn substitute_again_reuses_the_entry() {
    let mut t = generic_store();
    let first = AnyTypeKey::Function(0).substitute_many(&mut t, &subs()).unwrap();
    let len = t.functions.len();
    let second = AnyTypeKey::Function(0).substitute_many(&mut t, &subs()).unwrap();
    assert_eq!(first, second);
    assert_eq!(t.functions.len(), len);
}

#[test]
fn substitute_array_tuple_and_reference() {
    let mut t = generic_store();
    let a = AnyTypeKey::Array(0).substitute_many(&mut t, &subs()).unwrap();
    assert_eq!(a.stringify(&t), "[i32; 2]");
    let tu = AnyTypeKey::Tuple(0).substitute_many(&mut t, &subs()).unwrap();
    assert_eq!(tu, AnyTypeKey::Tuple(1));
    assert_eq!(tu.stringify(&t), "(i32, bool)");
    let r = AnyTypeKey::Reference(0).substitute_many(&mut t, &subs()).unwrap();
    assert_eq!(r, AnyTypeKey::Reference(1));
    assert_eq!(t.references[1].inner, I32);
}

#[test]
fn substitute_structure_keeps_names_and_defaults() {
    let mut t = generic_store();
    let s = AnyTypeKey::Struct(0).substitute_many(&mut t, &subs()).unwrap();
    assert_eq!(s, AnyTypeKey::Struct(1));
    assert_eq!(s.stringify(&t), "struct { x: i32 = 7; y: bool; }");
}

#[test]
fn substitute_alias_keeps_its_name() {
    let mut t = generic_store();
    let n = AnyTypeKey::Named(0).substitute_many(&mut t, &subs()).unwrap();
    assert_eq!(n, AnyTypeKey::Named(1));
    assert_eq!(t.named[1].name, "Alias");
    assert_eq!(AnyTypeKey::Reference(t.references.len() - 1), t.named[1].repr);
    assert_eq!(t.named[1].repr.stringify(&t), "&i32");
}

#[test]
fn substitute_instantiation_and_polymorphic_type() {
    let mut t = generic_store();
    // an instantiation becomes its body, substituted
    let m = AnyTypeKey::Morphed(0).substitute_many(&mut t, &subs()).unwrap();
    assert_eq!(m.stringify(&t), "[i32; 2]");
    // a polymorphic type becomes an instantiation with the substitutes
    let p = AnyTypeKey::Polymorph(0).substitute_many(&mut t, &subs()).unwrap();
    assert_eq!(p, AnyTypeKey::Morphed(1));
    assert_eq!(t.morphs[1].parent, 0);
    assert_eq!(t.morphs[1].arguments, vec![I32, BOOL]);
    assert_eq!(p.stringify(&t), "(i32, bool)<i32, bool>");
}

#[test]
fn substitute_into_trait_or_module_fails() {
    let mut t = generic_store();
    let trt = AnyTypeKey::Trait(0);
    assert!(matches!(trt.substitute_many(&mut t, &subs()), Err(Errors::CouldNotSubstituteType(k)) if k == trt));
    let m = AnyTypeKey::ModuleRef(0);
    assert!(matches!(m.substitute_many(&mut t, &subs()), Err(Errors::CouldNotSubstituteType(k)) if k == m));
    // a function type with a trait parameter reports the trait
    let f = AnyTypeKey::Function(1);
    assert!(matches!(f.substitute_many(&mut t, &subs()), Err(Errors::CouldNotSubstituteType(k)) if k == trt));
}

#[test]
fn equal_values_ignore_source_ranges() {
    let at = |i: usize| SpanIndex { index: i, len: 1 };
    let a = ConstValue::Array { elements: vec![Span::new(uint(1), at(0)), Span::new(uint(2), at(3))], ty: I32 };
    let b = ConstValue::Array { elements: vec![Span::new(uint(1), at(9)), Span::new(uint(2), at(12))], ty: I32 };
    let c = ConstValue::Array { elements: vec![Span::new(uint(1), at(0)), Span::new(uint(3), at(3))], ty: I32 };
    assert!(a.equals(&b));
    assert!(!a.equals(&c));
    assert!(ConstValue::String("x".to_string()).equals(&ConstValue::String("x".to_string())));
    assert!(!ConstValue::Bool(true).equals(&ConstValue::Char('t')));
}

#[test]
fn substituting_into_leaves_builds_no_type() {
    let mut t = generic_store();
    let sizes = |t: &Types| {
        (t.functions.len(), t.arrays.len(), t.tuples.len(), t.structures.len(), t.references.len(), t.morphs.len())
    };
    let before = sizes(&t);
    I32.substitute_many(&mut t, &subs()).unwrap();
    T.substitute_many(&mut t, &subs()).unwrap();
    assert!(AnyTypeKey::Trait(0).substitute_many(&mut t, &subs()).is_err());
    assert_eq!(sizes(&t), before);
    // a type built from generic parameters adds its substituted form
    AnyTypeKey::Tuple(0).substitute_many(&mut t, &subs()).unwrap();
    assert_eq!(sizes(&t).2, before.2 + 1);
}
