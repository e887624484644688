//! Values and value containers.
use vstd::prelude::*;
use super::core_values::{Decimal, Endpoint, Integer, ReferenceMutability, TypedDecimal, TypedInteger};
use super::types::TypeDefinition;

verus! {

/// The inner value of a DATEX value.
#[derive(Debug)]
pub enum CoreValue {
    Null,
    Boolean(bool),
    Integer(Integer),
    TypedInteger(TypedInteger),
    Decimal(Decimal),
    TypedDecimal(TypedDecimal),
    Text(String),
    Endpoint(Endpoint),
    List(Vec<ValueContainer>),
    KeyValueMap(Vec<(ValueContainer, ValueContainer)>),
}

/// A value with its type; `actual_type` is `None` when the value has the default type of its
/// inner value.
#[derive(Debug)]
pub struct Value {
    pub inner: CoreValue,
    pub actual_type: Option<TypeDefinition>,
}

/// A reference to a value.
#[derive(Debug)]
pub struct Reference {
    pub mutability: ReferenceMutability,
    pub value: Value,
}

/// A value, or a reference to one.
#[derive(Debug)]
pub enum ValueContainer {
    Value(Value),
    Reference(Reference),
}

} // verus!
