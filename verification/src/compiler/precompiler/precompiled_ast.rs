//! Metadata that the precompiler collects about the variables of a script.
use vstd::prelude::*;
use crate::ast::expression::VariableKind;
use crate::values::types::Type;

verus! {

/// What the precompiler knows about a variable.
#[derive(Debug)]
pub struct VariableMetadata {
    /// The realm in which the variable was declared.
    pub original_realm_index: usize,
    /// Whether the variable is used in another realm than the one it was declared in.
    pub is_cross_realm: bool,
    pub shape: VariableShape,
    pub var_type: Option<Type>,
    pub name: String,
}

/// Whether a variable holds a type or a value (of a given kind).
#[derive(Debug, Clone, Copy, PartialEq, Eq, Structural, Hash)]
pub enum VariableShape {
    Type,
    Value(VariableKind),
}

impl From<VariableKind> for VariableShape {
    fn from(kind: VariableKind) -> (shape: Self) {
        VariableShape::Value(kind)
    }
}

impl vstd::std_specs::convert::FromSpecImpl<VariableKind> for VariableShape {
    open spec fn obeys_from_spec() -> bool {
        true
    }

    open spec fn from_spec(kind: VariableKind) -> Self {
        VariableShape::Value(kind)
    }
}

impl VariableShape {
    /// The keyword of the shape: `type`, or that of the variable kind.
    pub fn to_string(&self) -> (res: String)
        ensures
            res@ == (match *self {
                VariableShape::Type => "type"@,
                VariableShape::Value(VariableKind::Const) => "const"@,
                VariableShape::Value(VariableKind::Var) => "var"@,
            }),
    {
        match self {
            VariableShape::Type => "type".to_owned(),
            VariableShape::Value(kind) => kind.to_string(),
        }
    }
}

/// The metadata of the variables of a script, indexed by variable id.
#[derive(Debug)]
pub struct AstMetadata {
    pub variables: Vec<VariableMetadata>,
}

impl Default for AstMetadata {
    fn default() -> (metadata: Self)
        ensures
            metadata.variables@ == Seq::<VariableMetadata>::empty(),
    {
        AstMetadata::new()
    }
}

impl AstMetadata {
    /// Metadata without variables.
    pub fn new() -> (metadata: Self)
        ensures
            metadata.variables@ == Seq::<VariableMetadata>::empty(),
    {
        AstMetadata { variables: Vec::new() }
    }

    /// The metadata of the variable with id `id`, if there is such a variable.
    pub fn variable_metadata(&self, id: usize) -> (res: Option<&VariableMetadata>)
        ensures
            id < self.variables@.len() ==> res == Some(&self.variables@[id as int]),
            id >= self.variables@.len() ==> res is None,
    {
        if id < self.variables.len() {
            Some(&self.variables[id])
        } else {
            None
        }
    }

    /// The metadata of the variable with id `id` for updating, if there is such a variable.
    pub fn variable_metadata_mut(&mut self, id: usize) -> (res: Option<&mut VariableMetadata>)
        ensures
            id < old(self).variables@.len() ==> res is Some && *res.unwrap() == old(
                self,
            ).variables@[id as int] && final(self).variables@ == old(self).variables@.update(
                id as int,
                *final(res.unwrap()),
            ),
            id >= old(self).variables@.len() ==> res is None && *final(self) == *old(self),
    {
        if id < self.variables.len() {
            Some(&mut self.variables[id])
        } else {
            None
        }
    }
}

} // verus!
