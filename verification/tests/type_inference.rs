use datex_compiler::ast::expression::DatexExpression;
use datex_compiler::compiler::operations::OperationMode;
use datex_compiler::compiler::type_inference::{
    infer_expression_type, integer_to_usize, resolve_type_expression_type, CoreLibPointerId,
    StructuralTypeDefinition, TypeContainer, TypeError, TypeExpression,
};
use datex_compiler::values::core_values::{Decimal, Integer, TypedInteger};

fn same<T: std::fmt::Debug, U: std::fmt::Debug>(a: T, b: U) {
    assert_eq!(format!("{:?}", a), format!("{:?}", b));
}

fn structural(d: StructuralTypeDefinition) -> TypeContainer {
    TypeContainer::Type(d)
}

fn integer(v: i128) -> Integer {
    Integer { value: v }
}

fn decimal(n: i128, d: i128) -> Decimal {
    Decimal::Finite { numerator: integer(n), denominator: integer(d) }
}

fn infer_get_type(expr: &DatexExpression) -> TypeContainer {
    infer_expression_type(expr).expect("inference succeeds")
}

#[test]
fn infer_literal_types() {
    same(
        infer_get_type(&DatexExpression::Boolean(true)),
        structural(StructuralTypeDefinition::Boolean(true)),
    );
    same(
        infer_get_type(&DatexExpression::Boolean(false)),
        structural(StructuralTypeDefinition::Boolean(false)),
    );
    same(infer_get_type(&DatexExpression::Null), structural(StructuralTypeDefinition::Null));
    same(
        infer_get_type(&DatexExpression::Decimal(decimal(123, 100))),
        structural(StructuralTypeDefinition::Decimal(decimal(123, 100))),
    );
    same(
        infer_get_type(&DatexExpression::Integer(integer(42))),
        structural(StructuralTypeDefinition::Integer(integer(42))),
    );
    same(
        infer_get_type(&DatexExpression::List(vec![
            DatexExpression::Integer(integer(1)),
            DatexExpression::Integer(integer(2)),
            DatexExpression::Integer(integer(3)),
        ])),
        structural(StructuralTypeDefinition::List(vec![
            structural(StructuralTypeDefinition::Integer(integer(1))),
            structural(StructuralTypeDefinition::Integer(integer(2))),
            structural(StructuralTypeDefinition::Integer(integer(3))),
        ])),
    );
    same(
        infer_get_type(&DatexExpression::KeyValueMap(vec![(
            DatexExpression::Text("a".to_string()),
            DatexExpression::Integer(integer(1)),
        )])),
        structural(StructuralTypeDefinition::KeyValueMap(vec![(
            structural(StructuralTypeDefinition::Text("a".to_string())),
            structural(StructuralTypeDefinition::Integer(integer(1))),
        )])),
    );
}

#[test]
fn infer_binary_expression_types() {
    let expr = DatexExpression::BinaryOperation(
        OperationMode::Subtract,
        Box::new(DatexExpression::Integer(integer(1))),
        Box::new(DatexExpression::Integer(integer(2))),
    );
    same(infer_expression_type(&expr).unwrap(), TypeContainer::Core(CoreLibPointerId::Integer(None)));

    let expr = DatexExpression::BinaryOperation(
        OperationMode::Add,
        Box::new(DatexExpression::Decimal(decimal(1, 1))),
        Box::new(DatexExpression::Decimal(decimal(2, 1))),
    );
    same(infer_expression_type(&expr).unwrap(), TypeContainer::Core(CoreLibPointerId::Decimal(None)));

    let expr = DatexExpression::BinaryOperation(
        OperationMode::Add,
        Box::new(DatexExpression::Integer(integer(1))),
        Box::new(DatexExpression::Decimal(decimal(2, 1))),
    );
    assert!(matches!(infer_expression_type(&expr), Err(TypeError::MismatchedOperands(_, _))));
}

#[test]
fn nested_operations_take_the_core_type() {
    let sum = DatexExpression::BinaryOperation(
        OperationMode::Add,
        Box::new(DatexExpression::Integer(integer(1))),
        Box::new(DatexExpression::Integer(integer(2))),
    );
    let expr = DatexExpression::BinaryOperation(
        OperationMode::Multiply,
        Box::new(sum),
        Box::new(DatexExpression::Integer(integer(3))),
    );
    same(infer_expression_type(&expr).unwrap(), TypeContainer::Core(CoreLibPointerId::Integer(None)));
}

#[test]
fn typed_operands_do_not_have_the_integer_base() {
    let expr = DatexExpression::BinaryOperation(
        OperationMode::Add,
        Box::new(DatexExpression::TypedInteger(TypedInteger::U8(1))),
        Box::new(DatexExpression::TypedInteger(TypedInteger::U8(2))),
    );
    match infer_expression_type(&expr) {
        Err(TypeError::MismatchedOperands(a, b)) => {
            same(a, structural(StructuralTypeDefinition::TypedInteger(TypedInteger::U8(1))));
            same(b, structural(StructuralTypeDefinition::TypedInteger(TypedInteger::U8(2))));
        },
        other => panic!("expected mismatched operands, got {:?}", other),
    }
}

#[test]
fn the_first_error_of_a_block_is_returned() {
    let bad = |v: i128| {
        DatexExpression::BinaryOperation(
            OperationMode::Add,
            Box::new(DatexExpression::Integer(integer(v))),
            Box::new(DatexExpression::Text("x".to_string())),
        )
    };
    let block = DatexExpression::Statements(
        vec![DatexExpression::Integer(integer(0)), bad(1), bad(2)],
        true, None
    );
    match infer_expression_type(&block) {
        Err(TypeError::MismatchedOperands(a, _)) => {
            same(a, structural(StructuralTypeDefinition::Integer(integer(1))));
        },
        other => panic!("expected mismatched operands, got {:?}", other),
    }
    let ok_block = DatexExpression::Statements(vec![DatexExpression::Null], false, None);
    same(infer_expression_type(&ok_block).unwrap(), TypeContainer::Core(CoreLibPointerId::Unit));
}

#[test]
fn type_expressions_resolve_to_their_structure() {
    let te = TypeExpression::StructuralMap(vec![
        (TypeExpression::Text("a".to_string()), TypeExpression::TypedInteger(TypedInteger::U8(1))),
        (TypeExpression::Text("b".to_string()), TypeExpression::Null),
    ]);
    same(
        resolve_type_expression_type(&te).unwrap(),
        structural(StructuralTypeDefinition::KeyValueMap(vec![
            (
                structural(StructuralTypeDefinition::Text("a".to_string())),
                structural(StructuralTypeDefinition::TypedInteger(TypedInteger::U8(1))),
            ),
            (
                structural(StructuralTypeDefinition::Text("b".to_string())),
                structural(StructuralTypeDefinition::Null),
            ),
        ])),
    );
    let te = TypeExpression::Union(vec![
        TypeExpression::Integer(integer(1)),
        TypeExpression::Intersection(vec![TypeExpression::Boolean(true)]),
    ]);
    same(
        resolve_type_expression_type(&te).unwrap(),
        TypeContainer::Union(vec![
            structural(StructuralTypeDefinition::Integer(integer(1))),
            TypeContainer::Intersection(vec![structural(StructuralTypeDefinition::Boolean(true))]),
        ]),
    );
    same(
        resolve_type_expression_type(&TypeExpression::StructuralList(vec![])).unwrap(),
        structural(StructuralTypeDefinition::List(vec![])),
    );
}

#[test]
fn integer_type_expressions_as_usize() {
    assert_eq!(integer_to_usize(&TypeExpression::Integer(integer(42))), Some(42));
    assert_eq!(integer_to_usize(&TypeExpression::TypedInteger(TypedInteger::U16(7))), Some(7));
    assert_eq!(integer_to_usize(&TypeExpression::TypedInteger(TypedInteger::I8(-1))), None);
    assert_eq!(integer_to_usize(&TypeExpression::Null), None);
}
