use datex_compiler::compiler::precompiler::{add_new_variable, resolve_variable, ResolvedVariable};
use datex_compiler::values::core_values::PointerAddress;
use datex_compiler::ast::expression::VariableKind;
use datex_compiler::compiler::error::CompilerError;
use datex_compiler::compiler::precompiler::precompiled_ast::{AstMetadata, VariableShape};
use datex_compiler::compiler::precompiler::scope_stack::PrecompilerScopeStack;

#[test]
fn default_stack_has_one_scope() {
    let stack = PrecompilerScopeStack::default();
    assert_eq!(stack.scopes.len(), 1);
    assert_eq!(stack.current_realm_index(), 0);
    assert!(!stack.has_variable("x"));
}

#[test]
fn declared_variable_is_found() {
    let mut stack = PrecompilerScopeStack::default();
    stack.set_variable("x".to_string(), 4);
    assert_eq!(stack.get_variable("x"), Some(4));
    assert!(stack.has_variable("x"));
    assert_eq!(stack.get_variable("y"), None);
    stack.set_variable("x".to_string(), 5);
    assert_eq!(stack.get_variable("x"), Some(5));
}

#[test]
fn variables_are_declared_in_the_second_innermost_scope() {
    let mut stack = PrecompilerScopeStack::default();
    stack.push_scope();
    stack.set_variable("a".to_string(), 1);
    assert_eq!(stack.get_active_scope().realm_index, 0);
    assert_eq!(stack.scopes[0].variable_ids_by_name, vec![("a".to_string(), 1)]);
    assert!(stack.scopes[1].variable_ids_by_name.is_empty());
    assert_eq!(stack.get_variable("a"), Some(1));
    stack.pop_scope();
    assert_eq!(stack.get_variable("a"), Some(1));
}

#[test]
fn inner_scopes_shadow_outer_ones() {
    let mut stack = PrecompilerScopeStack::default();
    stack.set_variable("v".to_string(), 1);
    stack.push_scope();
    stack.push_scope();
    stack.set_variable("v".to_string(), 2);
    assert_eq!(stack.get_variable("v"), Some(2));
    stack.pop_scope();
    stack.pop_scope();
    assert_eq!(stack.get_variable("v"), Some(1));
}

#[test]
fn realm_index_is_inherited_and_incremented() {
    let mut stack = PrecompilerScopeStack::default();
    stack.increment_realm_index();
    assert_eq!(stack.current_realm_index(), 1);
    stack.push_scope();
    assert_eq!(stack.current_realm_index(), 1);
    stack.increment_realm_index();
    assert_eq!(stack.current_realm_index(), 2);
    stack.pop_scope();
    assert_eq!(stack.current_realm_index(), 1);
}

#[test]
fn new_variable_metadata() {
    let mut stack = PrecompilerScopeStack::default();
    stack.increment_realm_index();
    let m = stack.add_new_variable("n".to_string(), 0, VariableShape::Value(VariableKind::Var));
    assert_eq!(m.original_realm_index, 1);
    assert!(!m.is_cross_realm);
    assert_eq!(m.shape, VariableShape::Value(VariableKind::Var));
    assert!(m.var_type.is_none());
    assert_eq!(m.name, "n");
    assert_eq!(stack.get_variable("n"), Some(0));
}

#[test]
fn use_in_another_realm_marks_cross_realm() {
    let mut stack = PrecompilerScopeStack::default();
    let mut metadata = AstMetadata::new();
    let m = stack.add_new_variable("x".to_string(), 0, VariableShape::Type);
    metadata.variables.push(m);
    assert_eq!(stack.get_variable_and_update_metadata("x", &mut metadata).ok(), Some(0));
    assert!(!metadata.variables[0].is_cross_realm);
    stack.push_scope();
    stack.increment_realm_index();
    assert_eq!(stack.get_variable_and_update_metadata("x", &mut metadata).ok(), Some(0));
    assert!(metadata.variables[0].is_cross_realm);
}

#[test]
fn undeclared_variable_is_an_error() {
    let stack = PrecompilerScopeStack::default();
    let mut metadata = AstMetadata::new();
    match stack.get_variable_and_update_metadata("missing", &mut metadata) {
        Err(CompilerError::UndeclaredVariable(name)) => assert_eq!(name, "missing"),
        other => panic!("unexpected result {:?}", other),
    }
}

#[test]
fn metadata_and_kind_lookups() {
    let mut stack = PrecompilerScopeStack::default();
    let mut metadata = AstMetadata::new();
    let m = stack.add_new_variable("c".to_string(), 0, VariableShape::Value(VariableKind::Const));
    metadata.variables.push(m);
    stack.set_variable("orphan".to_string(), 3);
    assert_eq!(stack.metadata("c", &metadata).map(|m| m.name.clone()), Some("c".to_string()));
    assert_eq!(stack.variable_kind("c", &metadata), Some(VariableShape::Value(VariableKind::Const)));
    assert!(stack.metadata("orphan", &metadata).is_none());
    assert!(stack.variable_kind("nothing", &metadata).is_none());
    assert!(metadata.variable_metadata(1).is_none());
    assert!(metadata.variable_metadata_mut(0).is_some());
}

#[test]
fn shape_names() {
    assert_eq!(VariableShape::Type.to_string(), "type");
    assert_eq!(VariableShape::Value(VariableKind::Const).to_string(), "const");
    assert_eq!(VariableShape::from(VariableKind::Var).to_string(), "var");
}

#[test]
fn variables_resolve_before_core_library_names() {
    let mut stack = PrecompilerScopeStack::default();
    let mut metadata = AstMetadata::new();
    let core = PointerAddress::Internal([0, 0, 7]);
    let id = add_new_variable("integer".to_string(), VariableShape::Type, &mut metadata, &mut stack);
    assert_eq!(id, 0);
    assert_eq!(metadata.variables.len(), 1);
    assert_eq!(
        resolve_variable("integer", &mut metadata, &stack, Some(core)).ok(),
        Some(ResolvedVariable::VariableId(0))
    );
    assert_eq!(
        resolve_variable("text", &mut metadata, &stack, Some(core)).ok(),
        Some(ResolvedVariable::PointerAddress(core))
    );
    match resolve_variable("nothing", &mut metadata, &stack, None) {
        Err(CompilerError::UndeclaredVariable(name)) => assert_eq!(name, "nothing"),
        other => panic!("unexpected result {:?}", other),
    }
    let second = add_new_variable("v".to_string(), VariableShape::Value(VariableKind::Var), &mut metadata, &mut stack);
    assert_eq!(second, 1);
}
