use lib::const_value::{ConstValue, Errors};
use lib::init_state::InitState;
use lib::ir::AnyObjectKey;
use lib::names::{ConstObj, Context, Diagnostics, GenericScopes, Objects};
use lib::number::{Number, NumberValue};
use lib::objects::{AccessModifiers, AnyObject};
use lib::primitive::PrimitiveType;
use lib::types::{AnyTypeKey, ArrayType, AutoTypes, Types};

fn context() -> Context {
    let mut types = Types::default();
    let auto_types = AutoTypes::new(&mut types);
    types.arrays.push(ArrayType { element_type: AnyTypeKey::Primitive(PrimitiveType::U8), size: Some(4) });
    let mut objects = Objects::default();
    objects.constants.push(AnyObject::new(
        "SIZE".to_string(),
        ConstObj { value: InitState::Uninitialized, ty: InitState::Uninitialized },
        None,
        0,
        AccessModifiers::Public,
    ));
    Context { types, objects, auto_types, diagnostics: Diagnostics::default(), generic_ctx: GenericScopes { scopes: vec![] } }
}

fn report(e: Errors) -> (String, String, String) {
    let ctx = context();
    let (id, header, snippet) = e.id_header_snippet_report(&ctx);
    (id.to_string(), header, snippet)
}

#[test]
fn report_illegal_and_non_constraint_types() {
    let (id, header, snippet) = report(Errors::IllegalType(AnyObjectKey::Const(0)));
    assert_eq!((id.as_str(), header.as_str(), snippet.as_str()), ("400", "Use of type SIZE is illegal here", "Got SIZE"));
    let (id, header, _) = report(Errors::NonConstraintType(AnyObjectKey::Const(0)));
    assert_eq!((id.as_str(), header.as_str()), ("401", "Type SIZE must be a trait type"));
}

#[test]
fn report_type_errors() {
    let (id, header, snippet) = report(Errors::TypeMismatch {
        expected: AnyTypeKey::Array(0),
        got: AnyTypeKey::Primitive(PrimitiveType::Bool),
    });
    assert_eq!(id, "403");
    assert_eq!(header, "Type mismatch, expected: [u8; 4], got bool");
    assert_eq!(snippet, "Got bool");
    let (id, header, snippet) = report(Errors::CouldNotSubstituteType(AnyTypeKey::Trait(0)));
    assert_eq!(id, "402");
    assert_eq!(header, "Could not substitute for type Any");
    assert_eq!(snippet, "Use of generic argument is illegal");
    let (id, header, _) = report(Errors::NonPrimitiveType { got: AnyTypeKey::Array(0) });
    assert_eq!(id, "410");
    assert_eq!(header, "Context only allows primitive types, got: [u8; 4]");
}

#[test]
fn report_missing_names() {
    let path = vec!["std".to_string(), "io".to_string(), "Read".to_string()];
    let (id, header, snippet) = report(Errors::TypeNotFound(path.clone()));
    assert_eq!((id.as_str(), header.as_str(), snippet.as_str()), ("404", "Type std::io::Read not found", "Unknown"));
    let (id, header, _) = report(Errors::ObjectNotFound(path.clone()));
    assert_eq!((id.as_str(), header.as_str()), ("405", "Object std::io::Read not found"));
    let (id, header, snippet) = report(Errors::EvalModule(vec!["std".to_string()], 0));
    assert_eq!((id.as_str(), header.as_str(), snippet.as_str()), ("408", "Could not evaluate a module std", "Module evaluation"));
}

#[test]
fn report_constant_errors() {
    let (id, header, snippet) = report(Errors::NotConst);
    assert_eq!((id.as_str(), header.as_str(), snippet.as_str()), ("406", "Could not evaluate in constant context", "not constant"));
    let (id, header, snippet) = report(Errors::UndefinedSelf);
    assert_eq!((id.as_str(), header.as_str(), snippet.as_str()), ("409", "Self is not defined in this context", "Self undefined"));
    let got = ConstValue::Number(Number { value: NumberValue::Int(-3), size: None });
    let (id, header, snippet) = report(Errors::ExpectedNumericConst { got });
    assert_eq!(id, "411");
    assert_eq!(header, "Expected a numeric constant, got: -3");
    assert_eq!(snippet, "Expected numeric");
    let text = ConstValue::String("abc".to_string());
    let (_, header, _) = report(Errors::ExpectedNumericConst { got: text });
    assert_eq!(header, "Expected a numeric constant, got: abc");
}
