//! Binary operations and comparisons of the compiler.
use vstd::prelude::*;
use crate::global::instruction_codes::InstructionCode;
use crate::utils::strings::chars_of;

verus! {

/// An arithmetic operation.
#[derive(Debug, Clone, Copy, PartialEq, Eq, Structural)]
pub enum OperationMode {
    Add,
    Subtract,
    Multiply,
    Divide,
}

/// The instruction code of an operation.
pub open spec fn operation_code(mode: OperationMode) -> InstructionCode {
    match mode {
        OperationMode::Add => InstructionCode::ADD,
        OperationMode::Subtract => InstructionCode::SUBTRACT,
        OperationMode::Multiply => InstructionCode::MULTIPLY,
        OperationMode::Divide => InstructionCode::DIVIDE,
    }
}

impl From<OperationMode> for InstructionCode {
    fn from(mode: OperationMode) -> (code: Self) {
        match mode {
            OperationMode::Add => InstructionCode::ADD,
            OperationMode::Subtract => InstructionCode::SUBTRACT,
            OperationMode::Multiply => InstructionCode::MULTIPLY,
            OperationMode::Divide => InstructionCode::DIVIDE,
        }
    }
}

impl vstd::std_specs::convert::FromSpecImpl<OperationMode> for InstructionCode {
    open spec fn obeys_from_spec() -> bool {
        true
    }

    open spec fn from_spec(mode: OperationMode) -> Self {
        operation_code(mode)
    }
}

/// A comparison of two values.
#[derive(Debug, Clone, Copy, PartialEq, Eq, Structural)]
pub enum ComparisonOperator {
    /// `is`: the same value (identity)
    Is,
    /// `==`
    StructuralEqual,
    /// `!=`
    NotStructuralEqual,
    /// `===`
    Equal,
    /// `!==`
    NotEqual,
}

/// The instruction code of a comparison.
pub open spec fn comparison_code(op: ComparisonOperator) -> InstructionCode {
    match op {
        ComparisonOperator::Is => InstructionCode::IS,
        ComparisonOperator::StructuralEqual => InstructionCode::STRUCTURAL_EQUAL,
        ComparisonOperator::NotStructuralEqual => InstructionCode::NOT_STRUCTURAL_EQUAL,
        ComparisonOperator::Equal => InstructionCode::EQUAL,
        ComparisonOperator::NotEqual => InstructionCode::NOT_EQUAL,
    }
}

impl From<ComparisonOperator> for InstructionCode {
    fn from(op: ComparisonOperator) -> (code: Self) {
        match op {
            ComparisonOperator::Is => InstructionCode::IS,
            ComparisonOperator::StructuralEqual => InstructionCode::STRUCTURAL_EQUAL,
            ComparisonOperator::NotStructuralEqual => InstructionCode::NOT_STRUCTURAL_EQUAL,
            ComparisonOperator::Equal => InstructionCode::EQUAL,
            ComparisonOperator::NotEqual => InstructionCode::NOT_EQUAL,
        }
    }
}

impl vstd::std_specs::convert::FromSpecImpl<ComparisonOperator> for InstructionCode {
    open spec fn obeys_from_spec() -> bool {
        true
    }

    open spec fn from_spec(op: ComparisonOperator) -> Self {
        comparison_code(op)
    }
}

impl OperationMode {
    /// The operation of an additive operator, `+` or `-`.
    pub fn from_string_additive(operator: &str) -> (mode: Self)
        requires
            operator@ == "+"@ || operator@ == "-"@,
        ensures
            mode == (if operator@ == "+"@ {
                OperationMode::Add
            } else {
                OperationMode::Subtract
            }),
    {
        proof {
            reveal_strlit("+");
            reveal_strlit("-");
        }
        let chars = chars_of(operator);
        if chars[0] == '+' {
            OperationMode::Add
        } else {
            OperationMode::Subtract
        }
    }

    /// The operation of a multiplicative operator, `*` or `/`.
    pub fn from_string_multiplicative(operator: &str) -> (mode: Self)
        requires
            operator@ == "*"@ || operator@ == "/"@,
        ensures
            mode == (if operator@ == "*"@ {
                OperationMode::Multiply
            } else {
                OperationMode::Divide
            }),
    {
        proof {
            reveal_strlit("*");
            reveal_strlit("/");
        }
        let chars = chars_of(operator);
        if chars[0] == '*' {
            OperationMode::Multiply
        } else {
            OperationMode::Divide
        }
    }
}


/// Each arithmetic operation is written with the instruction code of its own name, and each
/// comparison with the code of its own name; distinct operations and comparisons have distinct
/// codes, and no operation shares a code with a comparison.
pub proof fn lemma_operation_codes(
    m1: OperationMode,
    m2: OperationMode,
    c1: ComparisonOperator,
    c2: ComparisonOperator,
)
    ensures
        (operation_code(m1) == operation_code(m2)) <==> (m1 == m2),
        (comparison_code(c1) == comparison_code(c2)) <==> (c1 == c2),
        operation_code(m1) != comparison_code(c1),
        operation_code(OperationMode::Add) == InstructionCode::ADD,
        operation_code(OperationMode::Subtract) == InstructionCode::SUBTRACT,
        operation_code(OperationMode::Multiply) == InstructionCode::MULTIPLY,
        operation_code(OperationMode::Divide) == InstructionCode::DIVIDE,
        comparison_code(ComparisonOperator::Is) == InstructionCode::IS,
        comparison_code(ComparisonOperator::StructuralEqual) == InstructionCode::STRUCTURAL_EQUAL,
        comparison_code(ComparisonOperator::NotStructuralEqual)
            == InstructionCode::NOT_STRUCTURAL_EQUAL,
        comparison_code(ComparisonOperator::Equal) == InstructionCode::EQUAL,
        comparison_code(ComparisonOperator::NotEqual) == InstructionCode::NOT_EQUAL,
{
}

} // verus!
