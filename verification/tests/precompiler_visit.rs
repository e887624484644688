use datex_compiler::compiler::precompiler::visit::{precompile_ast, PrecompilerError};
use datex_compiler::compiler::precompiler::options::PrecompilerOptions;
use datex_compiler::ast::expression::{DatexExpression, VariableKind};
use datex_compiler::compiler::error::{CompilerError, DetailedCompilerErrors};
use datex_compiler::compiler::operations::{ComparisonOperator, OperationMode};
use datex_compiler::compiler::precompiler::add_new_variable;
use datex_compiler::compiler::precompiler::precompiled_ast::{AstMetadata, VariableShape};
use datex_compiler::compiler::precompiler::scope_stack::PrecompilerScopeStack;
use datex_compiler::compiler::precompiler::visit::{visit_expression, NewScopeType};
use datex_compiler::values::core_values::{PointerAddress, TypedInteger};

fn access(name: &str) -> DatexExpression {
    DatexExpression::VariableAccess(name.to_string())
}

fn core_library() -> Vec<(String, PointerAddress)> {
    vec![("integer".to_string(), PointerAddress::Internal([0, 0, 7]))]
}

fn undeclared_name(e: &CompilerError) -> Option<String> {
    match e {
        CompilerError::UndeclaredVariable(name) => Some(name.clone()),
        _ => None,
    }
}

fn is_access(e: &DatexExpression, name: &str) -> bool {
    match e {
        DatexExpression::VariableAccess(n) => n == name,
        _ => false,
    }
}

#[test]
fn declared_variables_and_core_values_resolve() {
    let mut metadata = AstMetadata::default();
    let mut stack = PrecompilerScopeStack::default();
    add_new_variable("x".to_string(), VariableShape::Value(VariableKind::Const), &mut metadata, &mut stack);
    let mut expression = DatexExpression::List(vec![access("x"), access("integer")]);
    let mut errors: Option<DetailedCompilerErrors> = None;
    let res = visit_expression(
        &mut expression,
        &mut metadata,
        &mut stack,
        NewScopeType::NewScope,
        &core_library(),
        &mut errors,
    );
    assert!(res.is_ok());
    match &expression {
        DatexExpression::List(items) => {
            assert!(is_access(&items[0], "x"));
            match &items[1] {
                DatexExpression::GetReference(address) => {
                    assert_eq!(*address, PointerAddress::Internal([0, 0, 7]))
                },
                _ => panic!("expected a reference to the core value"),
            }
        },
        _ => panic!("expected a list"),
    }
    // the scope opened for the list is closed again
    assert_eq!(stack.scopes.len(), 1);
    assert!(!metadata.variables[0].is_cross_realm);
}

#[test]
fn declared_variables_shadow_core_values() {
    let mut metadata = AstMetadata::default();
    let mut stack = PrecompilerScopeStack::default();
    add_new_variable("integer".to_string(), VariableShape::Value(VariableKind::Var), &mut metadata, &mut stack);
    let mut expression = access("integer");
    let mut errors: Option<DetailedCompilerErrors> = None;
    visit_expression(&mut expression, &mut metadata, &mut stack, NewScopeType::KeepScope, &core_library(), &mut errors)
        .unwrap();
    assert!(is_access(&expression, "integer"));
}

#[test]
fn undeclared_variable_is_returned_without_collector() {
    let mut metadata = AstMetadata::default();
    let mut stack = PrecompilerScopeStack::default();
    let mut expression = DatexExpression::BinaryOperation(
        OperationMode::Add,
        Box::new(access("a")),
        Box::new(access("b")),
    );
    let mut errors: Option<DetailedCompilerErrors> = None;
    let res = visit_expression(&mut expression, &mut metadata, &mut stack, NewScopeType::NewScope, &Vec::new(), &mut errors);
    match res {
        Err(e) => {
            assert_eq!(undeclared_name(&e.error), Some("a".to_string()));
            assert!(e.span.is_none());
        },
        Ok(()) => panic!("expected an error"),
    }
    assert!(errors.is_none());
}

#[test]
fn undeclared_variables_are_collected_in_order() {
    let mut metadata = AstMetadata::default();
    let mut stack = PrecompilerScopeStack::default();
    let mut expression = DatexExpression::Statements(
        vec![
            access("a"),
            DatexExpression::KeyValueMap(vec![(access("b"), DatexExpression::TypedInteger(TypedInteger::U8(1)))]),
            access("c"),
        ],
        true, None
    );
    let mut errors = Some(DetailedCompilerErrors::new());
    let res = visit_expression(&mut expression, &mut metadata, &mut stack, NewScopeType::NewScope, &Vec::new(), &mut errors);
    assert!(res.is_ok());
    let errors = errors.unwrap();
    assert_eq!(errors.errors.len(), 3);
    assert_eq!(undeclared_name(&errors.errors[0].error), Some("a".to_string()));
    assert_eq!(undeclared_name(&errors.errors[1].error), Some("b".to_string()));
    assert_eq!(undeclared_name(&errors.errors[2].error), Some("c".to_string()));
    assert_eq!(stack.scopes.len(), 1);
}

#[test]
fn reads_from_a_new_realm_mark_the_variable_cross_realm() {
    let mut metadata = AstMetadata::default();
    let mut stack = PrecompilerScopeStack::default();
    add_new_variable("x".to_string(), VariableShape::Value(VariableKind::Var), &mut metadata, &mut stack);
    add_new_variable("y".to_string(), VariableShape::Value(VariableKind::Var), &mut metadata, &mut stack);
    let mut expression = access("x");
    let mut errors: Option<DetailedCompilerErrors> = None;
    visit_expression(
        &mut expression,
        &mut metadata,
        &mut stack,
        NewScopeType::NewScopeWithNewRealm,
        &Vec::new(),
        &mut errors,
    )
    .unwrap();
    assert!(metadata.variables[0].is_cross_realm);
    assert!(!metadata.variables[1].is_cross_realm);
    assert_eq!(stack.scopes.len(), 1);
    assert_eq!(stack.current_realm_index(), 0);
}

#[test]
fn precompile_returns_the_first_error_or_all_of_them() {

    let script = || DatexExpression::List(vec![access("a"), access("integer"), access("b")]);

    let mut metadata = AstMetadata::default();
    let mut stack = PrecompilerScopeStack::default();
    let mut ast = script();
    let res = precompile_ast(&mut ast, &mut metadata, &mut stack, &core_library(), PrecompilerOptions { detailed_errors: false });
    match res {
        Err(PrecompilerError::Simple(e)) => assert_eq!(undeclared_name(&e.error), Some("a".to_string())),
        _ => panic!("expected the first error"),
    }

    let mut metadata = AstMetadata::default();
    let mut stack = PrecompilerScopeStack::default();
    let mut ast = script();
    let res = precompile_ast(&mut ast, &mut metadata, &mut stack, &core_library(), PrecompilerOptions { detailed_errors: true });
    match res {
        Err(PrecompilerError::Detailed(errors)) => {
            assert_eq!(errors.errors.len(), 2);
            assert_eq!(undeclared_name(&errors.errors[0].error), Some("a".to_string()));
            assert_eq!(undeclared_name(&errors.errors[1].error), Some("b".to_string()));
        },
        _ => panic!("expected all errors"),
    }
    // the core value is resolved even though errors were collected
    match &ast {
        DatexExpression::List(items) => assert!(matches!(items[1], DatexExpression::GetReference(_))),
        _ => panic!("expected a list"),
    }

    let mut metadata = AstMetadata::default();
    let mut stack = PrecompilerScopeStack::default();
    let mut ast = access("integer");
    let res = precompile_ast(&mut ast, &mut metadata, &mut stack, &core_library(), PrecompilerOptions { detailed_errors: true });
    assert!(res.is_ok());
}

#[test]
fn comparisons_resolve_both_operands() {
    let mut metadata = AstMetadata::default();
    let mut stack = PrecompilerScopeStack::default();
    let mut expression = DatexExpression::ComparisonOperation(
        ComparisonOperator::Is,
        Box::new(access("integer")),
        Box::new(access("z")),
    );
    let mut errors = Some(DetailedCompilerErrors::new());
    visit_expression(&mut expression, &mut metadata, &mut stack, NewScopeType::NewScope, &core_library(), &mut errors)
        .unwrap();
    assert_eq!(errors.unwrap().errors.len(), 1);
    match &expression {
        DatexExpression::ComparisonOperation(_, left, right) => {
            assert!(matches!(**left, DatexExpression::GetReference(_)));
            assert!(is_access(right, "z"));
        },
        _ => panic!("expected a comparison"),
    }
}
