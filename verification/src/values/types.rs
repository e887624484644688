//! Types of DATEX values.
use vstd::prelude::*;
use super::core_values::{PointerAddress, ReferenceMutability};

verus! {

/// A type: a definition and, for reference types, the mutability of the reference.
#[derive(Debug)]
pub struct Type {
    pub type_definition: TypeDefinition,
    pub reference_mutability: Option<ReferenceMutability>,
}

/// How a type is defined.
#[derive(Debug)]
pub enum TypeDefinition {
    /// A base type that implements the types at the given addresses.
    ImplType(Box<Type>, Vec<PointerAddress>),
    /// A reference to a type stored at a pointer address (`None` while it has none yet).
    Reference(Option<PointerAddress>),
}

} // verus!
