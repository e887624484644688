use datex_compiler::ast::expression::VariableKind;
use datex_compiler::ast::unary_operation::{
    ArithmeticUnaryOperator, BitwiseUnaryOperator, LogicalUnaryOperator, ReferenceUnaryOperator,
    UnaryOperator,
};
use datex_compiler::compiler::context::{ExecutionMode, VirtualSlot};
use datex_compiler::compiler::error::{
    collect_or_pass_error, CompilerError, DetailedCompilerErrors, MaybeAction,
    SpannedCompilerError,
};
use datex_compiler::compiler::operations::OperationMode;
use datex_compiler::compiler::precompiler::options::PrecompilerOptions;
use datex_compiler::compiler::precompiler::precompiled_ast::{VariableMetadata, VariableShape};
use datex_compiler::compiler::{StaticValueOrDXB, Variable, VariableModel, VariableRepresentation};
use datex_compiler::global::instruction_codes::InstructionCode;

fn metadata(cross_realm: bool) -> VariableMetadata {
    VariableMetadata {
        original_realm_index: 0,
        is_cross_realm: cross_realm,
        shape: VariableShape::Value(VariableKind::Var),
        var_type: None,
        name: "x".to_string(),
    }
}

#[test]
fn infer_variable_model() {
    assert_eq!(
        VariableModel::infer(VariableKind::Const, None, ExecutionMode::Unbounded { has_next: true }),
        VariableModel::Constant
    );
    assert_eq!(
        VariableModel::infer(VariableKind::Var, None, ExecutionMode::Static),
        VariableModel::VariableReference
    );
    assert_eq!(
        VariableModel::infer(VariableKind::Var, Some(metadata(true)), ExecutionMode::Static),
        VariableModel::VariableReference
    );
    assert_eq!(
        VariableModel::infer(
            VariableKind::Var,
            Some(metadata(false)),
            ExecutionMode::Unbounded { has_next: false }
        ),
        VariableModel::VariableReference
    );
    assert_eq!(
        VariableModel::infer(VariableKind::Var, Some(metadata(false)), ExecutionMode::Static),
        VariableModel::VariableSlot
    );
}

#[test]
fn variable_slots() {
    let a = VirtualSlot::local(1);
    let b = VirtualSlot::external(2, 9);
    let c = Variable::new_const("c".to_string(), a);
    assert_eq!(c.kind, VariableKind::Const);
    assert_eq!(c.slots(), vec![a]);
    assert_eq!(VariableModel::from(c.representation), VariableModel::Constant);
    let s = Variable::new_variable_slot("s".to_string(), VariableKind::Var, b);
    assert_eq!(s.slots(), vec![b]);
    assert_eq!(VariableModel::from(s.representation), VariableModel::VariableSlot);
    let r = Variable::new_variable_reference("r".to_string(), VariableKind::Var, a, b);
    assert_eq!(r.slots(), vec![a, b]);
    assert_eq!(r.name, "r");
    assert_eq!(
        r.representation,
        VariableRepresentation::VariableReference { variable_slot: a, container_slot: b }
    );
    assert_eq!(VariableModel::from(r.representation), VariableModel::VariableReference);
}

#[test]
fn operation_modes() {
    assert_eq!(OperationMode::from_string_additive("+"), OperationMode::Add);
    assert_eq!(OperationMode::from_string_additive("-"), OperationMode::Subtract);
    assert_eq!(OperationMode::from_string_multiplicative("*"), OperationMode::Multiply);
    assert_eq!(OperationMode::from_string_multiplicative("/"), OperationMode::Divide);
    assert_eq!(InstructionCode::from(OperationMode::Add), InstructionCode::ADD);
    assert_eq!(InstructionCode::from(OperationMode::Divide), InstructionCode::DIVIDE);
}

#[test]
fn unary_operator_symbols() {
    assert_eq!(ReferenceUnaryOperator::CreateRef.to_string(), "&");
    assert_eq!(ReferenceUnaryOperator::CreateRefMut.to_string(), "&mut");
    assert_eq!(ReferenceUnaryOperator::CreateRefFinal.to_string(), "&final");
    assert_eq!(ReferenceUnaryOperator::Deref.to_string(), "*");
    assert_eq!(ArithmeticUnaryOperator::Increment.to_string(), "++");
    assert_eq!(ArithmeticUnaryOperator::Decrement.to_string(), "--");
    assert_eq!(ArithmeticUnaryOperator::Plus.to_string(), "+");
    assert_eq!(ArithmeticUnaryOperator::Minus.to_string(), "-");
    assert_eq!(BitwiseUnaryOperator::Negation.to_string(), "~");
    assert_eq!(LogicalUnaryOperator::Not.to_string(), "!");
    assert_eq!(UnaryOperator::Logical(LogicalUnaryOperator::Not).to_string(), "!");
    assert_eq!(
        UnaryOperator::Reference(ReferenceUnaryOperator::CreateRefMut).to_string(),
        "&mut"
    );
    assert_eq!(VariableKind::Const.to_string(), "const");
    assert_eq!(VariableKind::Var.to_string(), "var");
}

#[test]
fn collect_or_pass() {
    let mut none: Option<DetailedCompilerErrors> = None;
    let ok: Result<u8, SpannedCompilerError> = Ok(3);
    assert!(matches!(collect_or_pass_error(&mut none, ok), Ok(MaybeAction::Do(3))));

    let err: Result<u8, SpannedCompilerError> =
        Err(SpannedCompilerError { error: CompilerError::NonStaticValue, span: None });
    assert!(matches!(
        collect_or_pass_error(&mut none, err),
        Err(SpannedCompilerError { error: CompilerError::NonStaticValue, span: None })
    ));
    assert!(none.is_none());

    let mut some = Some(DetailedCompilerErrors::new());
    let err: Result<u8, SpannedCompilerError> =
        Err(SpannedCompilerError::new_with_span(CompilerError::ScopePopError, 1..2));
    assert!(matches!(collect_or_pass_error(&mut some, err), Ok(MaybeAction::Skip)));
    let collected = some.unwrap();
    assert!(collected.has_errors());
    assert_eq!(collected.errors.len(), 1);
    assert_eq!(collected.errors[0].span, Some(1..2));
}

#[test]
fn detailed_errors() {
    let mut errors = DetailedCompilerErrors::new();
    assert!(!errors.has_errors());
    errors.record_error_with_span(CompilerError::IntegerOutOfBoundsError, 0..3);
    let mut more = DetailedCompilerErrors::new();
    more.record_error_with_span(CompilerError::InvalidPlaceholderCount, 4..5);
    errors.append(more);
    assert_eq!(errors.errors.len(), 2);
    assert_eq!(errors.errors[1].span, Some(4..5));
}

#[test]
fn static_value_or_dxb_from_bytes() {
    match StaticValueOrDXB::from(vec![1, 2]) {
        StaticValueOrDXB::DXB(bytes) => assert_eq!(bytes, vec![1, 2]),
        other => panic!("unexpected {:?}", other),
    }
}

#[test]
fn precompiler_options_default() {
    assert!(!PrecompilerOptions::default().detailed_errors);
}


#[test]
fn error_messages() {
    assert_eq!(
        CompilerError::UndeclaredVariable("x".to_string()).to_string(),
        "Undeclared variable: x"
    );
    assert_eq!(
        CompilerError::InvalidRedeclaration("y".to_string()).to_string(),
        "Invalid redeclaration of y"
    );
    assert_eq!(
        CompilerError::SubvariantNotFound("integer".to_string(), "u7".to_string()).to_string(),
        "Subvariant u7 does not exist for integer"
    );
    assert_eq!(
        CompilerError::InvalidSlotName("3".to_string()).to_string(),
        "Slot #3 does not exist"
    );
    assert_eq!(
        CompilerError::AssignmentToConst("c".to_string()).to_string(),
        "Cannot assign new value to const c"
    );
    assert_eq!(
        CompilerError::AssignmentToImmutableValue("v".to_string()).to_string(),
        "Cannot assign to immutable value: v"
    );
    assert_eq!(
        CompilerError::AssignmentToImmutableReference("r".to_string()).to_string(),
        "Cannot assign to immutable reference: r"
    );
    assert_eq!(CompilerError::SerializationError.to_string(), "Serialization error");
    assert_eq!(
        CompilerError::BigDecimalOutOfBoundsError.to_string(),
        "BigDecimal out of bounds error"
    );
    assert_eq!(CompilerError::IntegerOutOfBoundsError.to_string(), "Integer out of bounds error");
    assert_eq!(CompilerError::InvalidPlaceholderCount.to_string(), "Invalid placeholder count");
    assert_eq!(CompilerError::NonStaticValue.to_string(), "Encountered non-static value");
    assert_eq!(CompilerError::ScopePopError.to_string(), "Could not pop scope, stack is empty");
    assert_eq!(
        CompilerError::OnceScopeUsedMultipleTimes.to_string(),
        "Scope cannot be used multiple times, set 'once' to false to use a scope multiple times"
    );
    assert_eq!(
        CompilerError::TooManyApplyArguments.to_string(),
        "Apply has too many arguments (max 255 allowed)"
    );
}

#[test]
fn spanned_error_text() {
    let e = SpannedCompilerError::new_with_span(CompilerError::NonStaticValue, 3..17);
    assert_eq!(e.to_string(), "Encountered non-static value (3..17)");
    let e = SpannedCompilerError { error: CompilerError::ScopePopError, span: None };
    assert_eq!(e.to_string(), "Could not pop scope, stack is empty (?)");
    let mut errors = DetailedCompilerErrors::new();
    errors.record_error_with_span(CompilerError::UndeclaredVariable("x".to_string()), 0..1);
    errors.record_error_with_span(CompilerError::InvalidPlaceholderCount, 120..1234);
    assert_eq!(
        errors.to_string(),
        "Undeclared variable: x (0..1)\nInvalid placeholder count (120..1234)\n"
    );
    assert_eq!(DetailedCompilerErrors::new().to_string(), "");
}

#[test]
fn error_conversions() {
    let spanned = SpannedCompilerError::from(CompilerError::NonStaticValue);
    assert!(spanned.span.is_none());
    assert!(matches!(spanned.error, CompilerError::NonStaticValue));
}
