//! The precompiler: resolves the variables of a script before it is compiled.
pub mod options;
pub mod precompiled_ast;
pub mod scope;
pub mod scope_stack;
pub mod visit;

use vstd::prelude::*;
use crate::compiler::error::CompilerError;
use crate::compiler::precompiler::precompiled_ast::{AstMetadata, VariableMetadata, VariableShape};
use crate::compiler::precompiler::scope_stack::{
    current_realm, lookup, with_variable, PrecompilerScopeStack,
};
use crate::values::core_values::PointerAddress;

verus! {

/// Declares the variable `name` in the active scope with the next free id, records its
/// metadata under that id and returns the id.
pub fn add_new_variable(
    name: String,
    kind: VariableShape,
    metadata: &mut AstMetadata,
    scope_stack: &mut PrecompilerScopeStack,
) -> (id: usize)
    requires
        old(scope_stack).scopes@.len() > 0,
        old(scope_stack).wf(),
    ensures
        id == old(metadata).variables@.len(),
        final(scope_stack).wf(),
        final(scope_stack)@ == with_variable(old(scope_stack)@, name@, id),
        final(metadata).variables@.len() == id + 1,
        final(metadata).variables@.subrange(0, id as int) == old(metadata).variables@,
        final(metadata).variables@[id as int].original_realm_index == current_realm(
            old(scope_stack)@,
        ),
        !final(metadata).variables@[id as int].is_cross_realm,
        final(metadata).variables@[id as int].shape == kind,
        final(metadata).variables@[id as int].var_type is None,
        final(metadata).variables@[id as int].name@ == name@,
{
    let new_id = metadata.variables.len();
    let var_metadata = scope_stack.add_new_variable(name.clone(), new_id, kind);
    metadata.variables.push(var_metadata);
    assert(metadata.variables@.subrange(0, new_id as int) =~= old(metadata).variables@);
    new_id
}

/// What a variable name stands for.
#[derive(Debug, Clone, Copy, PartialEq, Eq)]
pub enum ResolvedVariable {
    /// A variable declared in the script.
    VariableId(usize),
    /// A variable of the core library, at its pointer.
    PointerAddress(PointerAddress),
}

/// Resolves a variable name: to the id of the declared variable of that name (whose metadata
/// is marked as used across realms when it was declared in another realm), else to the pointer
/// of the core library variable of that name, which the caller looked up in the runtime
/// (`core_variable`), else to an error.
pub fn resolve_variable(
    name: &str,
    metadata: &mut AstMetadata,
    scope_stack: &PrecompilerScopeStack,
    core_variable: Option<PointerAddress>,
) -> (res: Result<ResolvedVariable, CompilerError>)
    requires
        scope_stack.wf(),
        lookup(scope_stack@, name@) matches Some(id) ==> id < old(metadata).variables@.len(),
    ensures
        match lookup(scope_stack@, name@) {
            Some(id) => {
                let m = old(metadata).variables@[id as int];
                &&& res == Ok::<ResolvedVariable, CompilerError>(ResolvedVariable::VariableId(id))
                &&& final(metadata).variables@ == old(metadata).variables@.update(
                    id as int,
                    VariableMetadata {
                        is_cross_realm: m.is_cross_realm || m.original_realm_index
                            != current_realm(scope_stack@),
                        ..m
                    },
                )
            },
            None => {
                &&& *final(metadata) == *old(metadata)
                &&& match core_variable {
                    Some(address) => res == Ok::<ResolvedVariable, CompilerError>(
                        ResolvedVariable::PointerAddress(address),
                    ),
                    None => res matches Err(CompilerError::UndeclaredVariable(n)) && n@ == name@,
                }
            },
        },
{
    match scope_stack.get_variable_and_update_metadata(name, metadata) {
        Ok(id) => Ok(ResolvedVariable::VariableId(id)),
        Err(_) => match core_variable {
            Some(address) => Ok(ResolvedVariable::PointerAddress(address)),
            None => Err(CompilerError::UndeclaredVariable(name.to_owned())),
        },
    }
}

} // verus!
