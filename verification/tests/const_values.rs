use lib::const_value::{ConstValue, Errors};
use lib::number::{Number, NumberValue};
use lib::operator::Operator;
use lib::primitive::PrimitiveType;
use lib::span::{Span, SpanIndex};
use lib::types::AnyTypeKey;

fn at(index: usize) -> SpanIndex {
    SpanIndex { index, len: 1 }
}

fn op(o: Operator) -> Span<Operator> {
    Span::new(o, at(3))
}

fn num(value: NumberValue) -> ConstValue {
    ConstValue::Number(Number { value, size: None })
}

fn number_of(v: &ConstValue) -> Option<Number> {
    match v {
        ConstValue::Number(n) => Some(*n),
        _ => None,
    }
}

#[test]
fn const_apply_numeric_adds_integers() {
    let r = op(Operator::Add).const_apply_numeric(&NumberValue::Int(2), &NumberValue::Int(3));
    assert_eq!(r, Some(NumberValue::Int(5)));
}

#[test]
fn const_apply_numeric_converts_the_right_operand() {
    let r = op(Operator::Add).const_apply_numeric(&NumberValue::Any(7), &NumberValue::Int(1));
    assert_eq!(r, Some(NumberValue::Any(8)));
    let r = op(Operator::Sub).const_apply_numeric(&NumberValue::Uint(10), &NumberValue::Any(4));
    assert_eq!(r, Some(NumberValue::Uint(6)));
}

#[test]
fn const_apply_numeric_division_by_zero_is_none() {
    let r = op(Operator::Div).const_apply_numeric(&NumberValue::Int(7), &NumberValue::Int(0));
    assert_eq!(r, None);
    let r = op(Operator::Mod).const_apply_numeric(&NumberValue::Uint(7), &NumberValue::Uint(0));
    assert_eq!(r, None);
}

#[test]
fn const_apply_numeric_remainder_is_euclidean_and_division_truncates() {
    let r = op(Operator::Mod).const_apply_numeric(&NumberValue::Int(-7), &NumberValue::Int(3));
    assert_eq!(r, Some(NumberValue::Int(2)));
    let r = op(Operator::Div).const_apply_numeric(&NumberValue::Int(-7), &NumberValue::Int(2));
    assert_eq!(r, Some(NumberValue::Int(-3)));
}

#[test]
fn const_apply_numeric_leaves_floats_and_comparisons() {
    let one = NumberValue::Float(1.0f64.to_bits());
    assert_eq!(op(Operator::Add).const_apply_numeric(&one, &one), None);
    assert_eq!(op(Operator::Eq).const_apply_numeric(&NumberValue::Int(1), &NumberValue::Int(1)), None);
}

#[test]
fn const_apply_numeric_to_bool_compares_same_kinds() {
    let lt = op(Operator::Le).const_apply_numeric_to_bool(&NumberValue::Uint(1), &NumberValue::Uint(2));
    assert_eq!(lt, Some(true));
    let ge = op(Operator::GrEq).const_apply_numeric_to_bool(&NumberValue::Int(-3), &NumberValue::Int(2));
    assert_eq!(ge, Some(false));
    let mixed = op(Operator::Eq).const_apply_numeric_to_bool(&NumberValue::Int(1), &NumberValue::Uint(1));
    assert_eq!(mixed, None);
    let arith = op(Operator::Add).const_apply_numeric_to_bool(&NumberValue::Int(1), &NumberValue::Int(1));
    assert_eq!(arith, None);
}

#[test]
fn implicit_cast_is_bit_for_bit() {
    assert_eq!(NumberValue::Int(-1).implicit_cast(&NumberValue::Uint(0)), Some(NumberValue::Uint(u128::MAX)));
    assert_eq!(NumberValue::Uint(5).implicit_cast(&NumberValue::Any(0)), Some(NumberValue::Any(5)));
    assert_eq!(NumberValue::Float(0).implicit_cast(&NumberValue::Float(7)), Some(NumberValue::Float(0)));
    assert_eq!(NumberValue::Float(0).implicit_cast(&NumberValue::Int(7)), None);
}

#[test]
fn const_apply_folds_numbers() {
    let r = op(Operator::Mul).const_apply(&num(NumberValue::Int(6)), &num(NumberValue::Int(7)), 0);
    match r {
        Ok(v) => assert_eq!(number_of(&v), Some(Number { value: NumberValue::Int(42), size: None })),
        Err(_) => panic!("expected a value"),
    }
}

#[test]
fn const_apply_drops_the_width() {
    let l = ConstValue::Number(Number { value: NumberValue::Uint(1), size: Some(8) });
    let r = ConstValue::Number(Number { value: NumberValue::Uint(2), size: Some(8) });
    let v = op(Operator::Add).const_apply(&l, &r, 0).ok().unwrap();
    assert_eq!(number_of(&v), Some(Number { value: NumberValue::Uint(3), size: None }));
}

#[test]
fn const_apply_compares_numbers() {
    let r = op(Operator::Gr).const_apply(&num(NumberValue::Any(3)), &num(NumberValue::Any(2)), 0);
    assert!(matches!(r, Ok(ConstValue::Bool(true))));
    let r = op(Operator::NEq).const_apply(&num(NumberValue::Any(3)), &num(NumberValue::Any(3)), 0);
    assert!(matches!(r, Ok(ConstValue::Bool(false))));
}

#[test]
fn const_apply_rejects_other_operands() {
    let text = ConstValue::String("a".to_string());
    let r = op(Operator::Add).const_apply(&text, &num(NumberValue::Int(1)), 9);
    match r {
        Err(e) => {
            assert_eq!(e.span, at(3));
            assert_eq!(e.module, 9);
            match e.inner {
                Errors::CanNotApplyConst { op, left, right } => {
                    assert_eq!(op, Operator::Add);
                    assert!(matches!(left, ConstValue::String(ref s) if s == "a"));
                    assert_eq!(number_of(&right), Some(Number { value: NumberValue::Int(1), size: None }));
                },
                _ => panic!("wrong error"),
            }
        },
        Ok(_) => panic!("expected an error"),
    }
}

#[test]
fn const_apply_rejects_division_by_zero_and_assignment() {
    let r = op(Operator::Div).const_apply(&num(NumberValue::Int(1)), &num(NumberValue::Int(0)), 0);
    assert!(matches!(r, Err(ref e) if matches!(e.inner, Errors::CanNotApplyConst { op: Operator::Div, .. })));
    let r = op(Operator::Assign).const_apply(&num(NumberValue::Int(1)), &num(NumberValue::Int(2)), 0);
    assert!(matches!(r, Err(ref e) if matches!(e.inner, Errors::CanNotApplyConst { op: Operator::Assign, .. })));
}

#[test]
fn stringify_prints_scalars() {
    assert_eq!(num(NumberValue::Int(-12)).stringify(), "-12");
    assert_eq!(num(NumberValue::Int(0)).stringify(), "0");
    assert_eq!(num(NumberValue::Uint(7)).stringify(), "7");
    assert_eq!(num(NumberValue::Any(1234567890)).stringify(), "1234567890");
    assert_eq!(num(NumberValue::Int(i128::MIN)).stringify(), i128::MIN.to_string());
    assert_eq!(num(NumberValue::Uint(u128::MAX)).stringify(), u128::MAX.to_string());
    assert_eq!(ConstValue::Char('x').stringify(), "'x'");
    assert_eq!(ConstValue::Bool(true).stringify(), "true");
    assert_eq!(ConstValue::Bool(false).stringify(), "false");
    assert_eq!(ConstValue::String("hi there".to_string()).stringify(), "hi there");
    let variant = ConstValue::EnumVariant { parent: AnyTypeKey::Enum(0), variant: "Red".to_string() };
    assert_eq!(variant.stringify(), "Red");
}

#[test]
fn stringify_prints_aggregates() {
    let ty = AnyTypeKey::Array(0);
    let array = ConstValue::Array {
        elements: vec![Span::new(num(NumberValue::Any(1)), at(0)), Span::new(num(NumberValue::Any(2)), at(1))],
        ty,
    };
    assert_eq!(array.stringify(), "[1, 2]");
    let empty = ConstValue::Array { elements: vec![], ty };
    assert_eq!(empty.stringify(), "[]");
    let tuple = ConstValue::Tuple {
        elements: vec![Span::new(num(NumberValue::Int(1)), at(0)), Span::new(ConstValue::Bool(true), at(1))],
        ty: AnyTypeKey::Tuple(0),
    };
    assert_eq!(tuple.stringify(), "(1, true)");
    let field = |name: &str, v: ConstValue| {
        Span::new((Span::new(name.to_string(), at(0)), Span::new(v, at(1))), at(0))
    };
    let structure = ConstValue::Structure {
        fields: vec![field("a", num(NumberValue::Any(1))), field("b", ConstValue::Char('z'))],
        ty: None,
    };
    assert_eq!(structure.stringify(), "struct { a: 1; b: 'z' }");
    let nested = ConstValue::Tuple { elements: vec![Span::new(array, at(0))], ty: AnyTypeKey::Tuple(1) };
    assert_eq!(nested.stringify(), "([1, 2])");
}

#[test]
fn type_of_constants() {
    let i32_ty = AnyTypeKey::Primitive(PrimitiveType::I32);
    assert_eq!(num(NumberValue::Any(1)).type_of().ok(), Some(i32_ty));
    assert_eq!(num(NumberValue::Int(1)).type_of().ok(), Some(i32_ty));
    assert_eq!(num(NumberValue::Uint(1)).type_of().ok(), Some(AnyTypeKey::Primitive(PrimitiveType::U32)));
    assert_eq!(num(NumberValue::Float(0)).type_of().ok(), Some(AnyTypeKey::Primitive(PrimitiveType::F32)));
    assert_eq!(ConstValue::Char('a').type_of().ok(), Some(AnyTypeKey::Primitive(PrimitiveType::Char)));
    assert_eq!(ConstValue::Bool(true).type_of().ok(), Some(AnyTypeKey::Primitive(PrimitiveType::Bool)));
    let variant = ConstValue::EnumVariant { parent: AnyTypeKey::Enum(4), variant: "A".to_string() };
    assert_eq!(variant.type_of().ok(), Some(AnyTypeKey::Enum(4)));
    let typed = ConstValue::Structure { fields: vec![], ty: Some(AnyTypeKey::Struct(2)) };
    assert_eq!(typed.type_of().ok(), Some(AnyTypeKey::Struct(2)));
    let untyped = ConstValue::Structure { fields: vec![], ty: None };
    assert!(matches!(untyped.type_of(), Err(Errors::FailedTypeInfer)));
    assert!(matches!(ConstValue::String("s".to_string()).type_of(), Err(Errors::FailedTypeInfer)));
}

#[test]
fn autostep_counts_up() {
    let n = ConstValue::Number(Number { value: NumberValue::Int(4), size: Some(8) });
    let next = n.autostep().ok().unwrap();
    assert_eq!(number_of(&next), Some(Number { value: NumberValue::Int(5), size: Some(8) }));
    let any = num(NumberValue::Any(0)).autostep().ok().unwrap();
    assert_eq!(number_of(&any), Some(Number { value: NumberValue::Any(1), size: None }));
    assert!(matches!(ConstValue::Char('a').autostep(), Ok(ConstValue::Char('b'))));
    assert!(matches!(ConstValue::Char('\u{e9}').autostep(), Ok(ConstValue::Char('\u{ea}'))));
    assert!(matches!(ConstValue::Char('\u{1F600}').autostep(), Ok(ConstValue::Char('\u{1}'))));
}

#[test]
fn autostep_is_undefined_for_other_values() {
    match ConstValue::Bool(false).autostep() {
        Err(Errors::UndefinedAutostep(t)) => assert_eq!(t, AnyTypeKey::Primitive(PrimitiveType::Bool)),
        _ => panic!("expected UndefinedAutostep"),
    }
    let tuple = ConstValue::Tuple { elements: vec![], ty: AnyTypeKey::Tuple(3) };
    match tuple.autostep() {
        Err(Errors::UndefinedAutostep(t)) => assert_eq!(t, AnyTypeKey::Tuple(3)),
        _ => panic!("expected UndefinedAutostep"),
    }
    assert!(matches!(ConstValue::String("s".to_string()).autostep(), Err(Errors::FailedTypeInfer)));
}

#[test]
fn default_values_of_primitives() {
    let d = PrimitiveType::I16.default();
    assert_eq!(number_of(&d), Some(Number { value: NumberValue::Int(0), size: Some(16) }));
    let d = PrimitiveType::U128.default();
    assert_eq!(number_of(&d), Some(Number { value: NumberValue::Uint(0), size: Some(128) }));
    let d = PrimitiveType::F64.default();
    assert_eq!(number_of(&d), Some(Number { value: NumberValue::Float(0.0f64.to_bits()), size: Some(64) }));
    assert!(matches!(PrimitiveType::Char.default(), ConstValue::Char('\0')));
    assert!(matches!(PrimitiveType::Bool.default(), ConstValue::Bool(false)));
    match PrimitiveType::Void.default() {
        ConstValue::Tuple { elements, ty } => {
            assert!(elements.is_empty());
            assert_eq!(ty, AnyTypeKey::Primitive(PrimitiveType::Void));
        },
        _ => panic!("expected the empty tuple"),
    }
}

#[test]
fn copy_shares_the_elements() {
    let array = ConstValue::Array {
        elements: vec![Span::new(num(NumberValue::Any(1)), at(0))],
        ty: AnyTypeKey::Array(0),
    };
    let c = array.copy();
    assert_eq!(c.stringify(), array.stringify());
}
