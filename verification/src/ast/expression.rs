//! Expressions of the DATEX syntax tree and kinds of variable declarations.
use vstd::prelude::*;
use crate::compiler::operations::{ComparisonOperator, OperationMode};
use crate::values::core_values::{
    Decimal, Endpoint, Integer, PointerAddress, TypedDecimal, TypedInteger,
};

verus! {

/// How a variable is declared: `const` (never reassigned) or `var`.
#[derive(Debug, Clone, Copy, PartialEq, Eq, Structural, Hash)]
pub enum VariableKind {
    Const,
    Var,
}

impl VariableKind {
    /// The keyword of the declaration.
    pub fn to_string(&self) -> (res: String)
        ensures
            res@ == (match *self {
                VariableKind::Const => "const"@,
                VariableKind::Var => "var"@,
            }),
    {
        match self {
            VariableKind::Const => "const".to_owned(),
            VariableKind::Var => "var".to_owned(),
        }
    }
}

/// Where a block of statements stands in a script that is compiled in sections (unbounded
/// execution): whether it is the first and whether it is the last section.
#[derive(Debug, Clone, Copy, PartialEq, Eq, Structural)]
pub struct UnboundedStatement {
    pub is_first: bool,
    pub is_last: bool,
}

/// An expression of a DATEX script.
#[derive(Debug)]
pub enum DatexExpression {
    /// `null`
    Null,
    /// `true` or `false`
    Boolean(bool),
    /// A text, e.g. `"Hello"`
    Text(String),
    /// A decimal without a type, e.g. `42.5`
    Decimal(Decimal),
    /// A typed decimal, e.g. `1.5f32`
    TypedDecimal(TypedDecimal),
    /// An integer without a type, e.g. `42`
    Integer(Integer),
    /// A typed integer, e.g. `42u8`
    TypedInteger(TypedInteger),
    /// An endpoint, e.g. `@example`
    Endpoint(Endpoint),
    /// A list, e.g. `[1, 2, 3]`
    List(Vec<DatexExpression>),
    /// A map, e.g. `{"key": 1, (2): 3}`
    KeyValueMap(Vec<(DatexExpression, DatexExpression)>),
    /// A block of statements, whether its last statement is terminated by `;`, and, for a
    /// section of an unbounded script, where the section stands
    Statements(Vec<DatexExpression>, bool, Option<UnboundedStatement>),
    /// A read of a variable, by name
    VariableAccess(String),
    /// An arithmetic operation on two operands
    BinaryOperation(OperationMode, Box<DatexExpression>, Box<DatexExpression>),
    /// A comparison of two operands
    ComparisonOperation(ComparisonOperator, Box<DatexExpression>, Box<DatexExpression>),
    /// A reference to the pointer at an address, e.g. `$ABCDEF`
    GetReference(PointerAddress),
    /// The value of the pointer at an address
    PointerAddress(PointerAddress),
    /// `?`, a place for a value inserted into a script template
    Placeholder,
    /// The value behind a reference, e.g. `*x`
    Deref(Box<DatexExpression>),
}

} // verus!
