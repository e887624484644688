use datex_compiler::ast::expression::VariableKind;
use datex_compiler::compiler::context::VirtualSlot;
use datex_compiler::compiler::scope::CompilationScope;
use datex_compiler::compiler::Variable;

#[test]
fn slots_are_handed_out_in_order() {
    let mut scope = CompilationScope::new(true);
    assert!(scope.once);
    assert_eq!(scope.get_next_virtual_slot(), 0);
    assert_eq!(scope.get_next_virtual_slot(), 1);
    assert_eq!(scope.next_slot_address, 2);
}

#[test]
fn variables_resolve_to_their_access_slot() {
    let mut scope = CompilationScope::default();
    scope.register_variable_slot(Variable::new_const("a".to_string(), VirtualSlot::local(0)));
    scope.register_variable_slot(Variable::new_variable_reference(
        "b".to_string(),
        VariableKind::Var,
        VirtualSlot::local(1),
        VirtualSlot::local(2),
    ));
    assert_eq!(
        scope.resolve_variable_name_to_virtual_slot("a"),
        Some((VirtualSlot::local(0), VariableKind::Const))
    );
    assert_eq!(
        scope.resolve_variable_name_to_virtual_slot("b"),
        Some((VirtualSlot::local(2), VariableKind::Var))
    );
    assert_eq!(scope.resolve_variable_name_to_virtual_slot("c"), None);
}

#[test]
fn registering_again_replaces_the_variable() {
    let mut scope = CompilationScope::default();
    scope.register_variable_slot(Variable::new_const("a".to_string(), VirtualSlot::local(0)));
    scope.register_variable_slot(Variable::new_variable_slot(
        "a".to_string(),
        VariableKind::Var,
        VirtualSlot::local(5),
    ));
    assert_eq!(scope.variables.len(), 1);
    assert_eq!(
        scope.resolve_variable_name_to_virtual_slot("a"),
        Some((VirtualSlot::local(5), VariableKind::Var))
    );
}

#[test]
fn child_scopes_see_parent_variables() {
    let mut root = CompilationScope::default();
    root.register_variable_slot(Variable::new_const("x".to_string(), VirtualSlot::local(0)));
    root.get_next_virtual_slot();
    let mut child = root.push();
    assert_eq!(child.next_slot_address, 1);
    assert_eq!(
        child.resolve_variable_name_to_virtual_slot("x"),
        Some((VirtualSlot::local(0), VariableKind::Const))
    );
    let slot = child.get_next_virtual_slot();
    child.register_variable_slot(Variable::new_const("y".to_string(), VirtualSlot::local(slot)));
    let (parent, dropped) = child.pop().unwrap();
    assert_eq!(dropped, vec![VirtualSlot::local(1)]);
    assert_eq!(parent.next_slot_address, 2);
    assert_eq!(parent.resolve_variable_name_to_virtual_slot("y"), None);
    assert!(parent.pop().is_none());
}

#[test]
fn external_variables_are_seen_one_level_deeper() {
    let mut context = CompilationScope::default();
    context.register_variable_slot(Variable::new_const("c".to_string(), VirtualSlot::local(3)));
    let inner = CompilationScope::new_with_external_parent_scope(context);
    assert!(inner.has_external_parent_scope());
    assert_eq!(
        inner.resolve_variable_name_to_virtual_slot("c"),
        Some((VirtualSlot::external(1, 3), VariableKind::Const))
    );
    let deeper = CompilationScope::new_with_external_parent_scope(inner);
    assert_eq!(
        deeper.resolve_variable_name_to_virtual_slot("c"),
        Some((VirtualSlot::external(2, 3), VariableKind::Const))
    );
    let back = deeper.pop_external().unwrap();
    assert!(back.pop_external().is_some());
    assert!(CompilationScope::default().pop_external().is_none());
}

#[test]
fn dropped_slots_include_reference_slots() {
    let root = CompilationScope::default();
    let mut child = root.push();
    child.register_variable_slot(Variable::new_variable_reference(
        "r".to_string(),
        VariableKind::Var,
        VirtualSlot::local(4),
        VirtualSlot::local(5),
    ));
    let (_, dropped) = child.pop().unwrap();
    assert_eq!(dropped, vec![VirtualSlot::local(4), VirtualSlot::local(5)]);
}
