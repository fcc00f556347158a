use lib::ast::{
    identifier_warning, ExprItem, Expression, IdentifierPath, Literal, LoweringWarning, Parameter, Type, TypeLiteral, Value,
};
use lib::number::{Number, NumberValue};
use lib::operator::{Associativity, Operator, UnaryOp};
use lib::parse::{expression, parse_expression_prec};
use lib::span::{Span, SpanIndex};

fn at(index: usize) -> SpanIndex {
    SpanIndex { index, len: 1 }
}

fn number_expr(value: NumberValue, unary: Vec<UnaryOp>, i: usize) -> Expression {
    Expression::Value(Span::new(
        Value {
            literal: Span::new(Literal::Number(Number { value, size: None }), at(i)),
            postfix: vec![],
            unary: unary.into_iter().map(|u| Span::new(u, at(i))).collect(),
        },
        at(i),
    ))
}

fn val(n: u128, i: usize) -> Span<ExprItem> {
    Span::new(ExprItem::Value(number_expr(NumberValue::Any(n), vec![], i)), at(i))
}

fn op(o: Operator, i: usize) -> Span<ExprItem> {
    Span::new(ExprItem::Operator(o), at(i))
}

fn number_in(e: &Expression) -> Option<NumberValue> {
    match e {
        Expression::Value(v) => match &*v.inner.literal.inner {
            Literal::Number(n) => Some(n.value),
            _ => None,
        },
        _ => None,
    }
}

fn shape(e: &Expression) -> String {
    match e {
        Expression::Value(_) => match number_in(e) {
            Some(NumberValue::Any(n)) => n.to_string(),
            Some(NumberValue::Int(n)) => n.to_string(),
            other => format!("{:?}", other),
        },
        Expression::Binary { l, r, op } => format!("({} {:?} {})", shape(&l.inner), op.inner, shape(&r.inner)),
    }
}

#[test]
fn precedence_table() {
    assert_eq!(Operator::Mul.precedence(), 70);
    assert_eq!(Operator::Mod.precedence(), 70);
    assert_eq!(Operator::Add.precedence(), 60);
    assert_eq!(Operator::LeEq.precedence(), 50);
    assert_eq!(Operator::NEq.precedence(), 45);
    assert_eq!(Operator::And.precedence(), 30);
    assert_eq!(Operator::Or.precedence(), 20);
    assert_eq!(Operator::AddAssign.precedence(), 10);
    assert!(Operator::Assign.associativity() == Associativity::Right);
    assert!(Operator::ModAssign.associativity() == Associativity::Right);
    assert!(Operator::Sub.associativity() == Associativity::Left);
    assert!(Operator::Or.associativity() == Associativity::Left);
}

#[test]
fn multiplication_binds_tighter_than_addition() {
    let items = [val(1, 0), op(Operator::Add, 1), val(2, 2), op(Operator::Mul, 3), val(3, 4)];
    let mut pos = 0;
    let e = parse_expression_prec(&items, &mut pos, 0);
    assert_eq!(pos, 5);
    assert_eq!(shape(&e.inner), "(1 Add (2 Mul 3))");
    assert_eq!(e.location, at(0));
}

#[test]
fn left_associative_operators_group_to_the_left() {
    let items = [val(1, 0), op(Operator::Sub, 1), val(2, 2), op(Operator::Sub, 3), val(3, 4)];
    let mut pos = 0;
    let e = parse_expression_prec(&items, &mut pos, 0);
    assert_eq!(shape(&e.inner), "((1 Sub 2) Sub 3)");
}

#[test]
fn assignments_group_to_the_right() {
    let items = [val(1, 0), op(Operator::Assign, 1), val(2, 2), op(Operator::AddAssign, 3), val(3, 4)];
    let mut pos = 0;
    let e = parse_expression_prec(&items, &mut pos, 0);
    assert_eq!(shape(&e.inner), "(1 Assign (2 AddAssign 3))");
}

#[test]
fn mixed_precedences() {
    let items = [
        val(1, 0),
        op(Operator::Mul, 1),
        val(2, 2),
        op(Operator::Add, 3),
        val(3, 4),
        op(Operator::Eq, 5),
        val(4, 6),
        op(Operator::And, 7),
        val(5, 8),
        op(Operator::Or, 9),
        val(6, 10),
    ];
    let mut pos = 0;
    let e = parse_expression_prec(&items, &mut pos, 0);
    assert_eq!(pos, 11);
    assert_eq!(shape(&e.inner), "(((((1 Mul 2) Add 3) Eq 4) And 5) Or 6)");
}

#[test]
fn reading_stops_at_a_looser_operator() {
    let items = [val(1, 0), op(Operator::Add, 1), val(2, 2)];
    let mut pos = 0;
    let e = parse_expression_prec(&items, &mut pos, 65);
    assert_eq!(pos, 1);
    assert_eq!(shape(&e.inner), "1");
    let items = [val(1, 0), op(Operator::Add, 1), val(2, 2), op(Operator::Mul, 3), val(3, 4)];
    let mut pos = 2;
    let e = parse_expression_prec(&items, &mut pos, 0);
    assert_eq!(pos, 5);
    assert_eq!(shape(&e.inner), "(2 Mul 3)");
}

#[test]
fn expression_folds_constants() {
    let items = [val(1, 0), op(Operator::Add, 1), val(2, 2), op(Operator::Mul, 3), val(3, 4)];
    let e = expression(&items);
    assert_eq!(number_in(&e.inner), Some(NumberValue::Any(7)));
}

#[test]
fn expression_keeps_what_does_not_fold() {
    let items = [val(1, 0), op(Operator::Div, 1), val(0, 2)];
    let e = expression(&items);
    assert_eq!(shape(&e.inner), "(1 Div 0)");
    let items = [val(1, 0), op(Operator::Le, 1), val(2, 2)];
    let e = expression(&items);
    assert_eq!(shape(&e.inner), "(1 Le 2)");
}

#[test]
fn const_reduce_folds_a_binary_node() {
    let e = Expression::Binary {
        l: Span::new(number_expr(NumberValue::Int(20), vec![], 0), at(0)),
        r: Span::new(number_expr(NumberValue::Int(6), vec![], 2), at(2)),
        op: Span::new(Operator::Mod, at(1)),
    };
    let r = e.const_reduce().unwrap();
    assert_eq!(number_in(&r), Some(NumberValue::Int(2)));
    match &r {
        Expression::Value(v) => assert_eq!(v.location, at(1)),
        _ => panic!("expected a value"),
    }
}

#[test]
fn const_reduce_applies_unary_minus() {
    let e = number_expr(NumberValue::Any(5), vec![UnaryOp::Sub], 0);
    assert_eq!(number_in(&e.const_reduce().unwrap()), Some(NumberValue::Int(-5)));
    let e = number_expr(NumberValue::Any(5), vec![UnaryOp::Sub, UnaryOp::Sub], 0);
    assert_eq!(number_in(&e.const_reduce().unwrap()), Some(NumberValue::Int(5)));
    let e = number_expr(NumberValue::Float(2.5f64.to_bits()), vec![UnaryOp::Sub], 0);
    assert_eq!(number_in(&e.const_reduce().unwrap()), Some(NumberValue::Float((-2.5f64).to_bits())));
}

#[test]
fn const_reduce_leaves_plain_values() {
    let e = number_expr(NumberValue::Any(5), vec![], 0);
    assert!(e.const_reduce().is_none());
}

fn path_type(segments: &[&str], generics: Option<Vec<Type>>) -> Type {
    let path = IdentifierPath { path: segments.iter().map(|s| Span::new(s.to_string(), at(0))).collect() };
    let generics = generics.map(|g| Span::new(g.into_iter().map(|t| Span::new(t, at(0))).collect(), at(0)));
    Type { refs: Span::new(0, at(0)), literal: Span::new(TypeLiteral::Path(Span::new(path, at(0)), generics), at(0)) }
}

fn literal_type(l: TypeLiteral) -> Type {
    Type { refs: Span::new(0, at(0)), literal: Span::new(l, at(0)) }
}

fn some_expr() -> Span<Expression> {
    Span::new(number_expr(NumberValue::Any(1), vec![], 0), at(0))
}

#[test]
fn type_expressions_as_text() {
    let vec_ty = path_type(&["std", "Vec"], Some(vec![path_type(&["i32"], None), path_type(&["u8"], None)]));
    assert_eq!(vec_ty.stringify(), "std::Vec<i32, u8>");
    let params = vec![
        Span::new(
            Parameter { ident: Span::new("a".to_string(), at(0)), ty: Span::new(path_type(&["i32"], None), at(0)), docs: vec![], default_value: None },
            at(0),
        ),
        Span::new(
            Parameter { ident: Span::new("b".to_string(), at(0)), ty: Span::new(path_type(&["u8"], None), at(0)), docs: vec![], default_value: Some(some_expr()) },
            at(0),
        ),
    ];
    assert_eq!(literal_type(TypeLiteral::Struct(params)).stringify(), "struct {a: i32 b: u8 = ...; }");
    let elem = Box::new(Span::new(path_type(&["i32"], None), at(0)));
    assert_eq!(literal_type(TypeLiteral::Array(elem, None)).stringify(), "[i32]");
    let elem = Box::new(Span::new(path_type(&["i32"], None), at(0)));
    assert_eq!(literal_type(TypeLiteral::Array(elem, Some(some_expr()))).stringify(), "[i32, expr]");
    let members = vec![Span::new(path_type(&["i32"], None), at(0)), Span::new(path_type(&["u8"], None), at(0))];
    assert_eq!(literal_type(TypeLiteral::Tuple(members)).stringify(), "( i32 u8 )");
    assert_eq!(literal_type(TypeLiteral::Tuple(vec![])).stringify(), "( )");
    let repr = Some(Box::new(Span::new(path_type(&["u8"], None), at(0))));
    let variants = vec![(Span::new("A".to_string(), at(0)), None), (Span::new("B".to_string(), at(0)), Some(some_expr()))];
    assert_eq!(literal_type(TypeLiteral::Enum(repr, Some(some_expr()), variants)).stringify(), "enum(...): u8 { A B = [...] }");
    assert_eq!(literal_type(TypeLiteral::Enum(None, None, vec![])).stringify(), "enum { }");
}

#[test]
fn operators_numbers_and_values_as_text() {
    assert_eq!(Operator::Add.stringify(), "+");
    assert_eq!(Operator::LeEq.stringify(), "<=");
    assert_eq!(Operator::Or.stringify(), "%%");
    assert_eq!(Operator::ModAssign.stringify(), "%=");
    assert_eq!(Number { value: NumberValue::Int(-4), size: Some(8) }.stringify(), "-4");
    assert_eq!(Number { value: NumberValue::Uint(17), size: None }.stringify(), "17");
    let v = Value { literal: Span::new(Literal::Number(Number { value: NumberValue::Any(9), size: None }), at(0)), postfix: vec![], unary: vec![] };
    assert_eq!(v.stringify(), "9");
    let v = Value { literal: Span::new(Literal::Char('c'), at(0)), postfix: vec![], unary: vec![] };
    assert_eq!(v.stringify(), ":::not implemented:::");
}

#[test]
fn warnings() {
    assert!(identifier_warning("short_name").is_none());
    assert!(identifier_warning("exactly_thirty_characters_long").is_none());
    let long = "a_much_longer_identifier_than_allowed";
    match identifier_warning(long) {
        Some(LoweringWarning::IdentifierTooLong(s)) => assert_eq!(s, long),
        _ => panic!("expected a warning"),
    }
    assert!(identifier_warning("\u{e9}\u{e9}\u{e9}\u{e9}\u{e9}\u{e9}\u{e9}\u{e9}\u{e9}\u{e9}\u{e9}\u{e9}\u{e9}\u{e9}\u{e9}\u{e9}").is_some());
    assert_eq!(LoweringWarning::IdentifierTooLong("abc".to_string()).message(), "Identifier 'abc       ' is too long");
    assert_eq!(
        LoweringWarning::IdentifierTooLong("abcdefghijkl".to_string()).message(),
        "Identifier 'abcdefghijkl' is too long"
    );
    assert_eq!(LoweringWarning::DivisionByZero.message(), "Division by zero");
    assert_eq!(format!("Identifier '{:10}' is too long", "abc"), LoweringWarning::IdentifierTooLong("abc".to_string()).message());
}
