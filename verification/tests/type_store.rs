use lib::const_value::{ConstValue, Errors};
use lib::layout::{Layout, LayoutOptions, Layouts};
use lib::number::{Number, NumberValue};
use lib::primitive::PrimitiveType;
use lib::types::{
    AnyTypeKey, ArrayType, AutoTypes, ConstraintType, EnumType, FunctionType, GenericType, Module,
    MorphedType, NamedTypeType, PolymorphType, RefType, StructType, TraitType, TupleType, Types,
};

const I32: AnyTypeKey = AnyTypeKey::Primitive(PrimitiveType::I32);
const I64: AnyTypeKey = AnyTypeKey::Primitive(PrimitiveType::I64);
const BOOL: AnyTypeKey = AnyTypeKey::Primitive(PrimitiveType::Bool);
const U8: AnyTypeKey = AnyTypeKey::Primitive(PrimitiveType::U8);

fn uint(v: u128) -> ConstValue {
    ConstValue::Number(Number { value: NumberValue::Any(v), size: None })
}

/// A store with an alias chain, arrays, references, a function, a tuple,
/// a structure, an enumeration, a module, a generic and a polymorphic
/// type with an instantiation.
fn store() -> Types {
    let mut t = Types::default();
    let auto = AutoTypes::new(&mut t);
    t.named.push(NamedTypeType { name: "Meters".to_string(), repr: I32 });
    t.named.push(NamedTypeType { name: "Distance".to_string(), repr: AnyTypeKey::Named(0) });
    t.arrays.push(ArrayType { element_type: I32, size: Some(3) });
    t.arrays.push(ArrayType { element_type: I32, size: Some(4) });
    t.arrays.push(ArrayType { element_type: I32, size: None });
    t.references.push(RefType { inner: I32 });
    t.references.push(RefType { inner: I64 });
    t.functions.push(FunctionType { returns: U8, parameters: vec![I32, BOOL] });
    t.tuples.push(TupleType { parameters: vec![I32, BOOL] });
    t.tuples.push(TupleType { parameters: vec![] });
    t.structures.push(StructType {
        parameters: vec![("a".to_string(), I32, Some(uint(1))), ("b".to_string(), BOOL, None)],
    });
    t.enums.push(EnumType { repr: U8, variants: vec![("A".to_string(), uint(0)), ("B".to_string(), uint(1))] });
    t.modules.push(Module::new(vec!["std".to_string(), "io".to_string()]));
    t.generics.push(GenericType { constraint: auto.any_conr, ident: "T".to_string() });
    t.constraints.push(ConstraintType { constraints: vec![] });
    t.generics.push(GenericType { constraint: 1, ident: "U".to_string() });
    t.polymorphs.push(PolymorphType { parameters: vec![0, 1], inner: AnyTypeKey::Generic(0) });
    t.morphs.push(MorphedType { parent: 0, this: AnyTypeKey::Reference(0), arguments: vec![I32, BOOL] });
    t
}

#[test]
fn auto_types_hold_the_any_trait() {
    let mut t = Types::default();
    let auto = AutoTypes::new(&mut t);
    assert_eq!(auto.any_trt, 0);
    assert_eq!(auto.any_conr, 0);
    assert_eq!(t.traits[0].ident, "Any");
    assert_eq!(t.constraints[0].constraints, vec![0]);
    assert!(t.functions.is_empty() && t.named.is_empty());
}

#[test]
fn unwrap_steps_through_one_alias() {
    let t = store();
    assert_eq!(AnyTypeKey::Named(1).unwrap(&t), Some(AnyTypeKey::Named(0)));
    assert_eq!(AnyTypeKey::Named(0).unwrap(&t), Some(I32));
    assert_eq!(AnyTypeKey::Morphed(0).unwrap(&t), Some(AnyTypeKey::Reference(0)));
    assert_eq!(I32.unwrap(&t), None);
}

#[test]
fn unwrap_full_reaches_the_underlying_type() {
    let t = store();
    assert_eq!(AnyTypeKey::Named(1).unwrap_full(&t), I32);
    assert_eq!(AnyTypeKey::Morphed(0).unwrap_full(&t), AnyTypeKey::Reference(0));
    assert_eq!(AnyTypeKey::Array(0).unwrap_full(&t), AnyTypeKey::Array(0));
}

#[test]
fn check_accepts_equal_and_aliased_types() {
    let t = store();
    assert!(I32.check(&t, &I32).is_ok());
    assert!(I32.check(&t, &AnyTypeKey::Named(0)).is_ok());
    assert!(I32.check(&t, &AnyTypeKey::Named(1)).is_ok());
    assert!(AnyTypeKey::Reference(0).check(&t, &AnyTypeKey::Morphed(0)).is_ok());
}

#[test]
fn check_reports_mismatches() {
    let t = store();
    match I64.check(&t, &I32) {
        Err(Errors::TypeMismatch { expected, got }) => {
            assert_eq!(expected, I32);
            assert_eq!(got, I64);
        },
        _ => panic!("expected a mismatch"),
    }
    match AnyTypeKey::Named(0).check(&t, &I32) {
        Err(Errors::TypeMismatch { expected, got }) => {
            assert_eq!(expected, I32);
            assert_eq!(got, AnyTypeKey::Named(0));
        },
        _ => panic!("an expected primitive does not unwrap the value's alias"),
    }
}

#[test]
fn check_compares_arrays() {
    let t = store();
    match AnyTypeKey::Array(0).check(&t, &AnyTypeKey::Array(1)) {
        Err(Errors::ArrayElementCountMismatch { expected, got }) => {
            assert_eq!(expected, (I32, 4));
            assert_eq!(got, (I32, Some(3)));
        },
        _ => panic!("expected a length mismatch"),
    }
    assert!(AnyTypeKey::Array(0).check(&t, &AnyTypeKey::Array(2)).is_ok());
    match AnyTypeKey::Array(2).check(&t, &AnyTypeKey::Array(0)) {
        Err(Errors::ArrayElementCountMismatch { expected, got }) => {
            assert_eq!(expected, (I32, 3));
            assert_eq!(got, (I32, None));
        },
        _ => panic!("expected a length mismatch"),
    }
}

#[test]
fn check_compares_references() {
    let t = store();
    match AnyTypeKey::Reference(1).check(&t, &AnyTypeKey::Reference(0)) {
        Err(Errors::TypeMismatch { expected, got }) => {
            assert_eq!(expected, I32);
            assert_eq!(got, I64);
        },
        _ => panic!("expected the targets' mismatch"),
    }
}

#[test]
fn stringify_types() {
    let t = store();
    assert_eq!(I32.stringify(&t), "i32");
    assert_eq!(AnyTypeKey::Primitive(PrimitiveType::Void).stringify(&t), "()");
    assert_eq!(AnyTypeKey::Function(0).stringify(&t), "function(i32, bool): u8");
    assert_eq!(AnyTypeKey::Array(0).stringify(&t), "[i32; 3]");
    assert_eq!(AnyTypeKey::Array(2).stringify(&t), "[i32]");
    assert_eq!(AnyTypeKey::Reference(0).stringify(&t), "&i32");
    assert_eq!(AnyTypeKey::Tuple(0).stringify(&t), "(i32, bool)");
    assert_eq!(AnyTypeKey::Tuple(1).stringify(&t), "()");
    assert_eq!(AnyTypeKey::Struct(0).stringify(&t), "struct { a: i32 = 1; b: bool; }");
    assert_eq!(AnyTypeKey::Enum(0).stringify(&t), "enum: u8 { A: 0; B: 1; }");
    assert_eq!(AnyTypeKey::Trait(0).stringify(&t), "Any");
    assert_eq!(AnyTypeKey::ModuleRef(0).stringify(&t), "std::io");
    assert_eq!(AnyTypeKey::Named(1).stringify(&t), "Distance");
    assert_eq!(AnyTypeKey::Generic(0).stringify(&t), "T: Any");
    assert_eq!(AnyTypeKey::Generic(1).stringify(&t), "U");
    assert_eq!(AnyTypeKey::Polymorph(0).stringify(&t), "<T: Any, U>T: Any");
    assert_eq!(AnyTypeKey::Morphed(0).stringify(&t), "&i32<i32, bool>");
}

#[test]
fn stringify_entries() {
    let t = store();
    assert_eq!(t.functions[0].stringify(&t), "function(i32, bool): u8");
    assert_eq!(t.arrays[1].stringify(&t), "[i32; 4]");
    assert_eq!(t.references[1].stringify(&t), "&i64");
    assert_eq!(t.tuples[0].stringify(&t), "(i32, bool)");
    assert_eq!(t.structures[0].stringify(&t), "struct { a: i32 = 1; b: bool; }");
    assert_eq!(t.enums[0].stringify(&t), "enum: u8 { A: 0; B: 1; }");
    assert_eq!(t.modules[0].stringify(), "std::io");
    assert_eq!(t.named[0].stringify(&t), "Meters");
    assert_eq!(t.traits[0].stringify(), "Any");
    assert_eq!(t.constraints[0].stringify(&t), "Any");
    assert_eq!(t.constraints[1].stringify(&t), "");
    assert_eq!(t.generics[0].stringify(&t), "T: Any");
    assert_eq!(t.polymorphs[0].stringify(&t), "<T: Any, U>T: Any");
    assert_eq!(t.morphs[0].stringify(&t), "&i32<i32, bool>");
    let two = ConstraintType { constraints: vec![0, 0] };
    assert_eq!(two.stringify(&t), "Any + Any");
    let single = TraitType { ident: "Copy".to_string() };
    assert_eq!(single.stringify(), "Copy");
}

#[test]
fn layouts_of_types() {
    let t = store();
    let mut l = Layouts(vec![]);
    let prim = |size: usize| LayoutOptions::Primitive(Layout { size, align: size });
    assert_eq!(l.of(&I32, &t, 8), prim(4));
    assert_eq!(l.of(&AnyTypeKey::Named(1), &t, 8), prim(4));
    assert!(l.0.is_empty());
    assert_eq!(l.of(&AnyTypeKey::Reference(0), &t, 8), prim(8));
    assert_eq!(l.of(&AnyTypeKey::Function(0), &t, 8), prim(8));
    assert_eq!(l.of(&AnyTypeKey::Enum(0), &t, 8), prim(1));
    assert_eq!(l.0.len(), 3);
    assert_eq!(l.of(&AnyTypeKey::Reference(0), &t, 8), prim(8));
    assert_eq!(l.0.len(), 3);
    assert_eq!(l.of(&AnyTypeKey::Morphed(0), &t, 8), prim(8));
    assert_eq!(l.of(&AnyTypeKey::Primitive(PrimitiveType::F32x4), &t, 8), prim(16));
    assert_eq!(l.of(&AnyTypeKey::Primitive(PrimitiveType::Void), &t, 8), LayoutOptions::Void);
}
