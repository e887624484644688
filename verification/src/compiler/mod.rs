//! The compiler: from DATEX script text to DXB bytecode.
pub mod bytecode;
pub mod context;
pub mod error;
pub mod expression_compiler;
pub mod lexer;
pub mod metadata;
pub mod operations;
pub mod parser;
pub mod precompiler;
pub mod scope;
pub mod script;
pub mod static_value;
pub mod text;
pub mod type_compiler;
pub mod type_inference;

use vstd::prelude::*;
use crate::ast::expression::VariableKind;
use crate::compiler::context::{ExecutionMode, VirtualSlot};
use crate::compiler::precompiler::precompiled_ast::VariableMetadata;
use crate::values::value::ValueContainer;

verus! {

/// The result of a compilation that may stop at a static value.
#[derive(Debug)]
pub enum StaticValueOrDXB {
    /// The script has a static value (`None` when it has no value).
    StaticValue(Option<ValueContainer>),
    /// The compiled DXB body.
    DXB(Vec<u8>),
}

impl From<Vec<u8>> for StaticValueOrDXB {
    fn from(dxb: Vec<u8>) -> (res: Self) {
        StaticValueOrDXB::DXB(dxb)
    }
}

impl vstd::std_specs::convert::FromSpecImpl<Vec<u8>> for StaticValueOrDXB {
    open spec fn obeys_from_spec() -> bool {
        true
    }

    open spec fn from_spec(dxb: Vec<u8>) -> Self {
        StaticValueOrDXB::DXB(dxb)
    }
}

/// How a variable is stored.
#[derive(Debug, Clone, Copy, PartialEq, Eq, Structural)]
pub enum VariableModel {
    /// Declared once and never reassigned afterward, e.g. `const a = 42;`.
    Constant,
    /// Reassigned by updating the slot value, e.g. `var a = 42; a = 69;`.
    VariableSlot,
    /// Reassigned by updating a reference value that the slot always points to; used for
    /// `var` variables that are transferred across realms.
    VariableReference,
}

/// The model that `infer` chooses.
pub open spec fn inferred_model(
    kind: VariableKind,
    cross_realm: Option<bool>,
    execution_mode: ExecutionMode,
) -> VariableModel {
    if kind == VariableKind::Const {
        VariableModel::Constant
    } else if cross_realm is None || cross_realm == Some(true) || execution_mode is Unbounded {
        VariableModel::VariableReference
    } else {
        VariableModel::VariableSlot
    }
}

/// The model of a representation.
pub open spec fn model_of(representation: VariableRepresentation) -> VariableModel {
    match representation {
        VariableRepresentation::Constant(_) => VariableModel::Constant,
        VariableRepresentation::VariableSlot(_) => VariableModel::VariableSlot,
        VariableRepresentation::VariableReference { .. } => VariableModel::VariableReference,
    }
}

impl From<VariableRepresentation> for VariableModel {
    fn from(value: VariableRepresentation) -> (res: Self) {
        match value {
            VariableRepresentation::Constant(_) => VariableModel::Constant,
            VariableRepresentation::VariableSlot(_) => VariableModel::VariableSlot,
            VariableRepresentation::VariableReference { .. } => VariableModel::VariableReference,
        }
    }
}

impl vstd::std_specs::convert::FromSpecImpl<VariableRepresentation> for VariableModel {
    open spec fn obeys_from_spec() -> bool {
        true
    }

    open spec fn from_spec(value: VariableRepresentation) -> Self {
        model_of(value)
    }
}

impl VariableModel {
    /// Chooses the model of a variable: `const` variables are constant; a `var` variable is
    /// held by a reference when it is used across realms, when nothing is known of it, or
    /// when the execution is unbounded (more source may follow), and in a slot otherwise.
    pub fn infer(
        variable_kind: VariableKind,
        variable_metadata: Option<VariableMetadata>,
        execution_mode: ExecutionMode,
    ) -> (model: Self)
        ensures
            model == inferred_model(
                variable_kind,
                match variable_metadata {
                    Some(m) => Some(m.is_cross_realm),
                    None => None,
                },
                execution_mode,
            ),
    {
        if variable_kind == VariableKind::Const {
            VariableModel::Constant
        } else if match &variable_metadata {
            Some(m) => m.is_cross_realm,
            None => true,
        } || execution_mode.is_unbounded() {
            VariableModel::VariableReference
        } else {
            VariableModel::VariableSlot
        }
    }
}

/// Where a variable lives.
#[derive(Debug, Clone, Copy, PartialEq, Eq, Structural)]
pub enum VariableRepresentation {
    Constant(VirtualSlot),
    VariableSlot(VirtualSlot),
    VariableReference {
        /// The slot holding the reference that is used as the variable.
        variable_slot: VirtualSlot,
        /// The slot holding the value container used in the script.
        container_slot: VirtualSlot,
    },
}

/// A variable of a DATEX script.
#[derive(Debug)]
pub struct Variable {
    pub name: String,
    pub kind: VariableKind,
    pub representation: VariableRepresentation,
}

/// The slots that a representation uses.
pub open spec fn representation_slots(representation: VariableRepresentation) -> Seq<VirtualSlot> {
    match representation {
        VariableRepresentation::Constant(slot) => seq![slot],
        VariableRepresentation::VariableSlot(slot) => seq![slot],
        VariableRepresentation::VariableReference { variable_slot, container_slot } => seq![
            variable_slot,
            container_slot,
        ],
    }
}

impl Variable {
    /// A `const` variable in `slot`.
    pub fn new_const(name: String, slot: VirtualSlot) -> (v: Self)
        ensures
            v.name == name,
            v.kind == VariableKind::Const,
            v.representation == VariableRepresentation::Constant(slot),
    {
        Variable { name, kind: VariableKind::Const, representation: VariableRepresentation::Constant(slot) }
    }

    /// A variable of kind `kind` held in `slot`.
    pub fn new_variable_slot(name: String, kind: VariableKind, slot: VirtualSlot) -> (v: Self)
        ensures
            v.name == name,
            v.kind == kind,
            v.representation == VariableRepresentation::VariableSlot(slot),
    {
        Variable { name, kind, representation: VariableRepresentation::VariableSlot(slot) }
    }

    /// A variable of kind `kind` held by a reference in `variable_slot` to the value container
    /// in `container_slot`.
    pub fn new_variable_reference(
        name: String,
        kind: VariableKind,
        variable_slot: VirtualSlot,
        container_slot: VirtualSlot,
    ) -> (v: Self)
        ensures
            v.name == name,
            v.kind == kind,
            v.representation == (VariableRepresentation::VariableReference {
                variable_slot,
                container_slot,
            }),
    {
        Variable {
            name,
            kind,
            representation: VariableRepresentation::VariableReference { variable_slot, container_slot },
        }
    }

    /// The slots the variable uses.
    pub fn slots(&self) -> (slots: Vec<VirtualSlot>)
        ensures
            slots@ == representation_slots(self.representation),
    {
        let mut slots: Vec<VirtualSlot> = Vec::new();
        match self.representation {
            VariableRepresentation::Constant(slot) => slots.push(slot),
            VariableRepresentation::VariableSlot(slot) => slots.push(slot),
            VariableRepresentation::VariableReference { variable_slot, container_slot } => {
                slots.push(variable_slot);
                slots.push(container_slot);
            },
        }
        assert(slots@ =~= representation_slots(self.representation));
        slots
    }
}

} // verus!
