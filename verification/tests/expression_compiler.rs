use datex_compiler::compiler::StaticValueOrDXB;
use datex_compiler::compiler::script::{
    compile_script_or_return_static_value, compile_template, extract_static_value_from_script,
    ScriptError,
};
use datex_compiler::compiler::expression_compiler::compile_ast_or_return_static_value;
use datex_compiler::ast::expression::{DatexExpression, UnboundedStatement, VariableKind};
use datex_compiler::compiler::context::{CompilationContext, ExecutionMode, VirtualSlot};
use datex_compiler::compiler::error::CompilerError;
use datex_compiler::compiler::expression_compiler::{
    compile_expression, compile_rich_ast, ensure_statements, prepare_script,
};
use datex_compiler::compiler::static_value::extract_static_value_from_ast;
use datex_compiler::core_compiler::value_compiler::compile_value_container;
use datex_compiler::values::value::{CoreValue, Value, ValueContainer};
use datex_compiler::compiler::metadata::CompileMetadata;
use datex_compiler::compiler::operations::{ComparisonOperator, OperationMode};
use datex_compiler::compiler::scope::CompilationScope;
use datex_compiler::compiler::Variable;
use datex_compiler::global::instruction_codes::InstructionCode;
use datex_compiler::values::core_values::{Decimal, Integer, PointerAddress, TypedDecimal, TypedInteger};

fn code(c: InstructionCode) -> u8 {
    c.byte()
}

fn new_context() -> CompilationContext {
    CompilationContext::new(Vec::new(), Vec::new(), ExecutionMode::Static)
}

/// Compiles a script whose top level is `ast`, as the outer context of a fresh scope.
fn compile_script(ast: DatexExpression) -> Vec<u8> {
    let mut ctx = new_context();
    let scope = CompilationScope::new(false);
    compile_expression(&mut ctx, &ast, CompileMetadata::outer(), scope).unwrap();
    ctx.buffer
}

/// A script of one statement, terminated by `;` or not.
fn script(statement: DatexExpression, terminated: bool) -> DatexExpression {
    DatexExpression::Statements(vec![statement], terminated, None)
}

fn u8_lit(v: u8) -> DatexExpression {
    DatexExpression::TypedInteger(TypedInteger::U8(v))
}

fn text(s: &str) -> DatexExpression {
    DatexExpression::Text(s.to_string())
}

fn op(mode: OperationMode, left: DatexExpression, right: DatexExpression) -> DatexExpression {
    DatexExpression::BinaryOperation(mode, Box::new(left), Box::new(right))
}

fn access(name: &str) -> DatexExpression {
    DatexExpression::VariableAccess(name.to_string())
}

#[test]
fn simple_multiplication() {
    let lhs: u8 = 1;
    let rhs: u8 = 2;
    let result =
        compile_script(script(op(OperationMode::Multiply, u8_lit(lhs), u8_lit(rhs)), false));
    assert_eq!(
        result,
        vec![
            code(InstructionCode::MULTIPLY),
            code(InstructionCode::UINT_8),
            lhs,
            code(InstructionCode::UINT_8),
            rhs,
        ]
    );
}

#[test]
fn simple_multiplication_close() {
    let lhs: u8 = 1;
    let rhs: u8 = 2;
    let result =
        compile_script(script(op(OperationMode::Multiply, u8_lit(lhs), u8_lit(rhs)), true));
    assert_eq!(
        result,
        vec![
            code(InstructionCode::SHORT_STATEMENTS),
            1,
            1,
            code(InstructionCode::MULTIPLY),
            code(InstructionCode::UINT_8),
            lhs,
            code(InstructionCode::UINT_8),
            rhs,
        ]
    );
}

#[test]
fn simple_addition() {
    let lhs: u8 = 1;
    let rhs: u8 = 2;
    let result = compile_script(script(op(OperationMode::Add, u8_lit(lhs), u8_lit(rhs)), false));
    assert_eq!(
        result,
        vec![
            code(InstructionCode::ADD),
            code(InstructionCode::UINT_8),
            lhs,
            code(InstructionCode::UINT_8),
            rhs
        ]
    );

    let result = compile_script(script(op(OperationMode::Add, u8_lit(lhs), u8_lit(rhs)), true));
    assert_eq!(
        result,
        vec![
            code(InstructionCode::SHORT_STATEMENTS),
            1,
            1,
            code(InstructionCode::ADD),
            code(InstructionCode::UINT_8),
            lhs,
            code(InstructionCode::UINT_8),
            rhs,
        ]
    );
}

#[test]
fn multi_addition() {
    let (op1, op2, op3, op4): (u8, u8, u8, u8) = (1, 2, 3, 4);
    // 1 + 2 + 3 + 4 groups to the left
    let sum = op(
        OperationMode::Add,
        op(OperationMode::Add, op(OperationMode::Add, u8_lit(op1), u8_lit(op2)), u8_lit(op3)),
        u8_lit(op4),
    );
    let result = compile_script(script(sum, false));
    assert_eq!(
        result,
        vec![
            code(InstructionCode::ADD),
            code(InstructionCode::ADD),
            code(InstructionCode::ADD),
            code(InstructionCode::UINT_8),
            op1,
            code(InstructionCode::UINT_8),
            op2,
            code(InstructionCode::UINT_8),
            op3,
            code(InstructionCode::UINT_8),
            op4,
        ]
    );
}

#[test]
fn mixed_calculation() {
    let (op1, op2, op3, op4): (u8, u8, u8, u8) = (1, 2, 3, 4);
    let expression = op(
        OperationMode::Add,
        op(OperationMode::Multiply, u8_lit(op1), u8_lit(op2)),
        op(OperationMode::Multiply, u8_lit(op3), u8_lit(op4)),
    );
    let result = compile_script(script(expression, false));
    assert_eq!(
        result,
        vec![
            code(InstructionCode::ADD),
            code(InstructionCode::MULTIPLY),
            code(InstructionCode::UINT_8),
            op1,
            code(InstructionCode::UINT_8),
            op2,
            code(InstructionCode::MULTIPLY),
            code(InstructionCode::UINT_8),
            op3,
            code(InstructionCode::UINT_8),
            op4,
        ]
    );
}

#[test]
fn complex_addition() {
    let (a, b, c): (u8, u8, u8) = (1, 2, 3);
    // the parenthesised operand is a block of one unterminated statement
    let inner = script(op(OperationMode::Add, u8_lit(b), u8_lit(c)), false);
    let result = compile_script(script(op(OperationMode::Add, u8_lit(a), inner), false));
    assert_eq!(
        result,
        vec![
            code(InstructionCode::ADD),
            code(InstructionCode::UINT_8),
            a,
            code(InstructionCode::ADD),
            code(InstructionCode::UINT_8),
            b,
            code(InstructionCode::UINT_8),
            c,
        ]
    );
}

#[test]
fn complex_addition_and_subtraction() {
    let (a, b, c): (u8, u8, u8) = (1, 2, 3);
    let inner = script(op(OperationMode::Subtract, u8_lit(b), u8_lit(c)), false);
    let result = compile_script(script(op(OperationMode::Add, u8_lit(a), inner), false));
    assert_eq!(
        result,
        vec![
            code(InstructionCode::ADD),
            code(InstructionCode::UINT_8),
            a,
            code(InstructionCode::SUBTRACT),
            code(InstructionCode::UINT_8),
            b,
            code(InstructionCode::UINT_8),
            c,
        ]
    );
}

#[test]
fn integer_u8() {
    let val = 42;
    let result = compile_script(script(u8_lit(val), false));
    assert_eq!(result, vec![code(InstructionCode::UINT_8), val]);
}

#[test]
fn mod_decimal() {
    // 42.0
    let decimal = Decimal::Finite {
        numerator: Integer { value: 420 },
        denominator: Integer { value: 10 },
    };
    let result = compile_script(script(DatexExpression::Decimal(decimal), false));
    let mut expected: Vec<u8> = vec![code(InstructionCode::DECIMAL_AS_INT_16)];
    expected.extend(42_i16.to_le_bytes());
    assert_eq!(result, expected);
}

#[test]
fn short_text() {
    let val = "unyt";
    let result = compile_script(script(text(val), false));
    let mut expected: Vec<u8> = vec![code(InstructionCode::SHORT_TEXT), val.len() as u8];
    expected.extend(val.bytes());
    assert_eq!(result, expected);
}

#[test]
fn empty_list() {
    let result = compile_script(script(DatexExpression::List(vec![]), false));
    assert_eq!(result, vec![code(InstructionCode::SHORT_LIST), 0]);
}

#[test]
fn single_element_list() {
    let result = compile_script(script(DatexExpression::List(vec![u8_lit(42)]), false));
    assert_eq!(
        result,
        vec![code(InstructionCode::SHORT_LIST), 1, code(InstructionCode::UINT_8), 42]
    );
}

#[test]
fn multi_element_list() {
    let expected = vec![
        code(InstructionCode::SHORT_LIST),
        3,
        code(InstructionCode::UINT_8),
        1,
        code(InstructionCode::UINT_8),
        2,
        code(InstructionCode::UINT_8),
        3,
    ];
    let list = DatexExpression::List(vec![u8_lit(1), u8_lit(2), u8_lit(3)]);
    assert_eq!(compile_script(script(list, false)), expected);
    // a trailing comma gives the same list
    let list = DatexExpression::List(vec![u8_lit(1), u8_lit(2), u8_lit(3)]);
    assert_eq!(compile_script(script(list, false)), expected);
}

#[test]
fn list_with_expressions() {
    let list = DatexExpression::List(vec![
        op(OperationMode::Add, u8_lit(1), u8_lit(2)),
        op(OperationMode::Multiply, u8_lit(3), u8_lit(4)),
    ]);
    let result = compile_script(script(list, false));
    assert_eq!(
        result,
        vec![
            code(InstructionCode::SHORT_LIST),
            2,
            code(InstructionCode::ADD),
            code(InstructionCode::UINT_8),
            1,
            code(InstructionCode::UINT_8),
            2,
            code(InstructionCode::MULTIPLY),
            code(InstructionCode::UINT_8),
            3,
            code(InstructionCode::UINT_8),
            4,
        ]
    );
}

#[test]
fn nested_lists() {
    let list = DatexExpression::List(vec![
        u8_lit(1),
        DatexExpression::List(vec![u8_lit(2), u8_lit(3)]),
        u8_lit(4),
    ]);
    let result = compile_script(script(list, false));
    assert_eq!(
        result,
        vec![
            code(InstructionCode::SHORT_LIST),
            3,
            code(InstructionCode::UINT_8),
            1,
            code(InstructionCode::SHORT_LIST),
            2,
            code(InstructionCode::UINT_8),
            2,
            code(InstructionCode::UINT_8),
            3,
            code(InstructionCode::UINT_8),
            4,
        ]
    );
}

#[test]
fn map_with_text_key() {
    let map = DatexExpression::KeyValueMap(vec![(text("key"), u8_lit(42))]);
    let result = compile_script(script(map, false));
    let expected = vec![
        code(InstructionCode::SHORT_MAP),
        1,
        code(InstructionCode::KEY_VALUE_SHORT_TEXT),
        3,
        b'k',
        b'e',
        b'y',
        code(InstructionCode::UINT_8),
        42,
    ];
    assert_eq!(result, expected);
}

#[test]
fn map_integer_key() {
    let key = script(u8_lit(10), false);
    let map = DatexExpression::KeyValueMap(vec![(key, u8_lit(42))]);
    let result = compile_script(script(map, false));
    let expected = vec![
        code(InstructionCode::SHORT_MAP),
        1,
        code(InstructionCode::KEY_VALUE_DYNAMIC),
        code(InstructionCode::UINT_8),
        10,
        code(InstructionCode::UINT_8),
        42,
    ];
    assert_eq!(result, expected);
}

#[test]
fn map_with_long_text_key() {
    let long_key = "a".repeat(300);
    let map = DatexExpression::KeyValueMap(vec![(text(&long_key), u8_lit(42))]);
    let result = compile_script(script(map, false));
    let mut expected: Vec<u8> = vec![
        code(InstructionCode::SHORT_MAP),
        1,
        code(InstructionCode::KEY_VALUE_DYNAMIC),
        code(InstructionCode::TEXT),
    ];
    expected.extend((long_key.len() as u32).to_le_bytes());
    expected.extend(long_key.as_bytes());
    expected.extend(vec![code(InstructionCode::UINT_8), 42]);
    assert_eq!(result, expected);
}

#[test]
fn map_with_dynamic_key() {
    let key = script(op(OperationMode::Add, u8_lit(1), u8_lit(2)), false);
    let map = DatexExpression::KeyValueMap(vec![(key, u8_lit(42))]);
    let result = compile_script(script(map, false));
    let expected = [
        code(InstructionCode::SHORT_MAP),
        1,
        code(InstructionCode::KEY_VALUE_DYNAMIC),
        code(InstructionCode::ADD),
        code(InstructionCode::UINT_8),
        1,
        code(InstructionCode::UINT_8),
        2,
        code(InstructionCode::UINT_8),
        42,
    ];
    assert_eq!(result, expected);
}

#[test]
fn map_with_multiple_keys() {
    let map = DatexExpression::KeyValueMap(vec![
        (text("key"), u8_lit(42)),
        (script(u8_lit(4), false), u8_lit(43)),
        (script(op(OperationMode::Add, u8_lit(1), u8_lit(2)), false), u8_lit(44)),
    ]);
    let result = compile_script(script(map, false));
    let expected = vec![
        code(InstructionCode::SHORT_MAP),
        3,
        code(InstructionCode::KEY_VALUE_SHORT_TEXT),
        3,
        b'k',
        b'e',
        b'y',
        code(InstructionCode::UINT_8),
        42,
        code(InstructionCode::KEY_VALUE_DYNAMIC),
        code(InstructionCode::UINT_8),
        4,
        code(InstructionCode::UINT_8),
        43,
        code(InstructionCode::KEY_VALUE_DYNAMIC),
        code(InstructionCode::ADD),
        code(InstructionCode::UINT_8),
        1,
        code(InstructionCode::UINT_8),
        2,
        code(InstructionCode::UINT_8),
        44,
    ];
    assert_eq!(result, expected);
}

#[test]
fn empty_map() {
    let result = compile_script(script(DatexExpression::KeyValueMap(vec![]), false));
    assert_eq!(result, vec![code(InstructionCode::SHORT_MAP), 0]);
}

#[test]
fn undeclared_variable_read_fails() {
    let mut ctx = new_context();
    let ast = op(OperationMode::Add, access("a"), access("b"));
    let res = compile_expression(&mut ctx, &ast, CompileMetadata::outer(), CompilationScope::new(false));
    match res {
        Err(CompilerError::UndeclaredVariable(name)) => assert_eq!(name, "a"),
        _ => panic!("expected an undeclared variable"),
    }
}

#[test]
fn first_undeclared_variable_is_reported() {
    let mut scope = CompilationScope::new(false);
    scope.register_variable_slot(Variable::new_const("a".to_string(), VirtualSlot::local(0)));
    let mut ctx = new_context();
    let ast = DatexExpression::List(vec![access("a"), access("c"), access("b")]);
    let res = compile_expression(&mut ctx, &ast, CompileMetadata::outer(), scope);
    match res {
        Err(CompilerError::UndeclaredVariable(name)) => assert_eq!(name, "c"),
        _ => panic!("expected an undeclared variable"),
    }
}

#[test]
fn variable_read_writes_a_slot_placeholder() {
    let mut scope = CompilationScope::new(false);
    scope.register_variable_slot(Variable::new_variable_slot(
        "x".to_string(),
        VariableKind::Var,
        VirtualSlot::local(3),
    ));
    let mut ctx = new_context();
    let ast = script(access("x"), true);
    let scope = compile_expression(&mut ctx, &ast, CompileMetadata::outer(), scope).unwrap();
    assert_eq!(
        ctx.buffer,
        vec![code(InstructionCode::SHORT_STATEMENTS), 1, 1, code(InstructionCode::GET_SLOT), 0, 0, 0, 0]
    );
    assert_eq!(ctx.get_slot_byte_indices(false), vec![vec![4u32]]);
    assert!(ctx.has_non_static_value);
    assert_eq!(scope.variables.len(), 1);
}

#[test]
fn inner_block_sees_outer_variables() {
    let mut scope = CompilationScope::new(false);
    scope.register_variable_slot(Variable::new_const("a".to_string(), VirtualSlot::local(0)));
    let mut ctx = new_context();
    let ast = DatexExpression::Statements(vec![access("a"), u8_lit(1)], false, None);
    let scope = compile_expression(&mut ctx, &ast, CompileMetadata::default(), scope).unwrap();
    assert_eq!(
        ctx.buffer,
        vec![
            code(InstructionCode::SHORT_STATEMENTS),
            2,
            0,
            code(InstructionCode::GET_SLOT),
            0,
            0,
            0,
            0,
            code(InstructionCode::UINT_8),
            1,
        ]
    );
    assert!(scope.parent_scope.is_none());
    assert_eq!(scope.variables.len(), 1);
}

#[test]
fn literals_are_static() {
    let mut ctx = new_context();
    let ast = DatexExpression::List(vec![DatexExpression::Null, DatexExpression::Boolean(true)]);
    compile_expression(&mut ctx, &ast, CompileMetadata::outer(), CompilationScope::new(false))
        .unwrap();
    assert!(!ctx.has_non_static_value);
    assert_eq!(
        ctx.buffer,
        vec![code(InstructionCode::SHORT_LIST), 2, code(InstructionCode::NULL), code(InstructionCode::TRUE)]
    );

    let mut ctx = new_context();
    let ast = DatexExpression::GetReference(PointerAddress::Internal([1, 2, 3]));
    compile_expression(&mut ctx, &ast, CompileMetadata::outer(), CompilationScope::new(false))
        .unwrap();
    assert!(ctx.has_non_static_value);
    assert_eq!(ctx.buffer, vec![code(InstructionCode::GET_INTERNAL_REF), 1, 2, 3]);

    let mut ctx = new_context();
    let ast = DatexExpression::PointerAddress(PointerAddress::Internal([1, 2, 3]));
    compile_expression(&mut ctx, &ast, CompileMetadata::outer(), CompilationScope::new(false))
        .unwrap();
    assert!(!ctx.has_non_static_value);
}

#[test]
fn whole_decimals_take_the_smallest_form() {
    let whole = |n: i128, d: i128| {
        script(
            DatexExpression::Decimal(Decimal::Finite {
                numerator: Integer { value: n },
                denominator: Integer { value: d },
            }),
            false,
        )
    };
    let mut expected = vec![code(InstructionCode::DECIMAL_AS_INT_16)];
    expected.extend((-3_i16).to_le_bytes());
    assert_eq!(compile_script(whole(6, -2)), expected);

    let mut expected = vec![code(InstructionCode::DECIMAL_AS_INT_32)];
    expected.extend(100_000_i32.to_le_bytes());
    assert_eq!(compile_script(whole(100_000, 1)), expected);

    // 1.5 is not whole
    let result = compile_script(whole(3, 2));
    assert_eq!(result[0], code(InstructionCode::DECIMAL));

    // a whole number beyond 32 bits
    let result = compile_script(whole(1 << 40, 1));
    assert_eq!(result[0], code(InstructionCode::DECIMAL));
}

#[test]
fn long_statement_block_has_four_byte_length() {
    let statements: Vec<DatexExpression> = (0..300).map(|_| DatexExpression::Null).collect();
    let result = compile_script(DatexExpression::Statements(statements, true, None));
    let mut expected = vec![code(InstructionCode::STATEMENTS)];
    expected.extend(300u32.to_le_bytes());
    expected.push(1);
    expected.extend(std::iter::repeat(code(InstructionCode::NULL)).take(300));
    assert_eq!(result, expected);
}

#[test]
fn compile_rich_ast_fills_in_slot_addresses() {
    let mut scope = CompilationScope::new(false);
    scope.register_variable_slot(Variable::new_const("a".to_string(), VirtualSlot::local(7)));
    scope.register_variable_slot(Variable::new_const("b".to_string(), VirtualSlot::local(2)));
    let mut ctx = new_context();
    let ast = op(OperationMode::Add, access("a"), access("b"));
    compile_rich_ast(&mut ctx, &ast, scope).unwrap();
    // slots are numbered by ascending virtual address: b (2) gets 0, a (7) gets 1
    assert_eq!(
        ctx.buffer,
        vec![
            code(InstructionCode::ADD),
            code(InstructionCode::GET_SLOT),
            1,
            0,
            0,
            0,
            code(InstructionCode::GET_SLOT),
            0,
            0,
            0,
            0,
        ]
    );
}

#[test]
fn static_values_of_literals() {
    let list = DatexExpression::List(vec![
        DatexExpression::Integer(Integer { value: 5 }),
        DatexExpression::KeyValueMap(vec![(text("k"), DatexExpression::Boolean(true))]),
    ]);
    match extract_static_value_from_ast(&list) {
        Ok(ValueContainer::Value(Value { inner: CoreValue::List(items), actual_type: None })) => {
            assert_eq!(items.len(), 2);
            assert_eq!(compile_value_container(&items[0]), vec![code(InstructionCode::INT), 2, 1, 0, 0, 0, 5]);
        },
        _ => panic!("expected a static list"),
    }
    // typed literals are static, operations are not
    assert!(matches!(
        extract_static_value_from_ast(&u8_lit(1)),
        Ok(ValueContainer::Value(Value { inner: CoreValue::TypedInteger(TypedInteger::U8(1)), actual_type: None }))
    ));
    assert!(matches!(
        extract_static_value_from_ast(&op(OperationMode::Add, DatexExpression::Null, DatexExpression::Null)),
        Err(CompilerError::NonStaticValue)
    ));
}

#[test]
fn static_values_are_detected() {
    // a static script gives its value
    let ast = DatexExpression::List(vec![DatexExpression::Integer(Integer { value: 1 }), text("x")]);
    match compile_ast_or_return_static_value(&ast, CompilationScope::new(false), ExecutionMode::Static) {
        Ok((StaticValueOrDXB::StaticValue(Some(ValueContainer::Value(Value { inner: CoreValue::List(items), .. }))), _)) => {
            assert_eq!(items.len(), 2)
        },
        _ => panic!("expected a static value"),
    }
    // a dereference is only known at run time and gives bytecode
    let ast = DatexExpression::Deref(Box::new(DatexExpression::Null));
    assert!(matches!(
        compile_ast_or_return_static_value(&ast, CompilationScope::new(false), ExecutionMode::Static),
        Ok((StaticValueOrDXB::DXB(_), _))
    ));
}

#[test]
fn compile_auto_static_value_detection() {
    let script = "1u8";
    match compile_script_or_return_static_value(script, CompilationScope::new(false), ExecutionMode::Static) {
        Ok((
            StaticValueOrDXB::StaticValue(Some(ValueContainer::Value(Value {
                inner: CoreValue::TypedInteger(TypedInteger::U8(1)),
                actual_type: None,
            }))),
            _,
        )) => {},
        _ => panic!("expected the static value 1u8"),
    }
    let script = "1u8 + 2u8";
    match compile_script_or_return_static_value(script, CompilationScope::new(false), ExecutionMode::Static) {
        Ok((StaticValueOrDXB::DXB(bytes), _)) => assert_eq!(
            bytes,
            vec![code(InstructionCode::ADD), code(InstructionCode::UINT_8), 1, code(InstructionCode::UINT_8), 2]
        ),
        _ => panic!("expected bytecode"),
    }
}

#[test]
fn static_value_detection_of_scripts() {
    let is_static = |script: &str| {
        match compile_script_or_return_static_value(script, CompilationScope::new(false), ExecutionMode::Static) {
            Ok((StaticValueOrDXB::StaticValue(_), _)) => true,
            Ok((StaticValueOrDXB::DXB(_), _)) => false,
            Err(_) => panic!("the script compiles"),
        }
    };
    // non-static
    assert!(!is_static("1 + 2"));
    assert!(!is_static("1;2"));
    assert!(!is_static(r#"{("x" + "y"): 1}"#));
    // static
    assert!(is_static("1"));
    assert!(is_static("[]"));
    assert!(is_static("{}"));
    assert!(is_static("[1,2,3]"));
    assert!(is_static("{a: 2}"));
    assert!(is_static("-42"));
}

#[test]
fn static_values_are_extracted_from_scripts() {
    match extract_static_value_from_script("[true, null]") {
        Ok(Some(ValueContainer::Value(Value { inner: CoreValue::List(items), actual_type: None }))) => {
            assert_eq!(items.len(), 2)
        },
        _ => panic!("expected a list"),
    }
    assert!(matches!(
        extract_static_value_from_script("1 + 2"),
        Err(ScriptError::Compiler(CompilerError::NonStaticValue))
    ));
    assert!(matches!(extract_static_value_from_script("[1"), Err(ScriptError::Parser(_))));
}

#[test]
fn static_expression_compiles_to_its_value() {
    let make = || {
        DatexExpression::KeyValueMap(vec![
            (text("a"), DatexExpression::List(vec![DatexExpression::Null, DatexExpression::Boolean(false)])),
            (DatexExpression::Integer(Integer { value: -3 }), text("b")),
        ])
    };
    let value = extract_static_value_from_ast(&make()).unwrap();
    assert_eq!(compile_script(script(make(), false)), compile_value_container(&value));
}

fn u8_value(v: u8) -> ValueContainer {
    ValueContainer::Value(Value { inner: CoreValue::TypedInteger(TypedInteger::U8(v)), actual_type: None })
}

#[test]
fn compile_macro() {
    let (result, _) =
        compile_template("?", vec![u8_value(1)], CompilationScope::new(false), ExecutionMode::Static)
            .unwrap();
    assert_eq!(result, vec![code(InstructionCode::UINT_8), 1]);
}

#[test]
fn compile_macro_multi() {
    let (result, _) = compile_template(
        "? + ?",
        vec![u8_value(1), u8_value(2)],
        CompilationScope::new(false),
        ExecutionMode::Static,
    )
    .unwrap();
    assert_eq!(
        result,
        vec![
            code(InstructionCode::ADD),
            code(InstructionCode::UINT_8),
            1,
            code(InstructionCode::UINT_8),
            2
        ]
    );
}

#[test]
fn placeholders_take_the_inserted_values_in_order() {
    let ast = DatexExpression::KeyValueMap(vec![(DatexExpression::Placeholder, DatexExpression::Placeholder)]);
    let mut ctx = CompilationContext::new(Vec::new(), vec![u8_value(7), u8_value(9), u8_value(11)], ExecutionMode::Static);
    compile_expression(&mut ctx, &ast, CompileMetadata::outer(), CompilationScope::new(false)).unwrap();
    assert_eq!(ctx.inserted_value_index, 2);
    assert!(!ctx.has_non_static_value);
    assert_eq!(
        ctx.buffer,
        vec![
            code(InstructionCode::SHORT_MAP),
            1,
            code(InstructionCode::KEY_VALUE_DYNAMIC),
            code(InstructionCode::UINT_8),
            7,
            code(InstructionCode::UINT_8),
            9,
        ]
    );
}

fn compare(op: ComparisonOperator, left: DatexExpression, right: DatexExpression) -> DatexExpression {
    DatexExpression::ComparisonOperation(op, Box::new(left), Box::new(right))
}

#[test]
fn equality_operator() {
    let lhs: u8 = 1;
    let rhs: u8 = 2;
    let cases = [
        (ComparisonOperator::StructuralEqual, InstructionCode::STRUCTURAL_EQUAL),
        (ComparisonOperator::Equal, InstructionCode::EQUAL),
        (ComparisonOperator::NotStructuralEqual, InstructionCode::NOT_STRUCTURAL_EQUAL),
        (ComparisonOperator::NotEqual, InstructionCode::NOT_EQUAL),
    ];
    for (operator, instruction) in cases {
        let result = compile_script(script(compare(operator, u8_lit(lhs), u8_lit(rhs)), false));
        assert_eq!(
            result,
            vec![code(instruction), code(InstructionCode::UINT_8), lhs, code(InstructionCode::UINT_8), rhs]
        );
    }
}

#[test]
fn is_comparison_of_literals() {
    let result = compile_script(script(compare(ComparisonOperator::Is, u8_lit(1), u8_lit(2)), false));
    assert_eq!(
        result,
        vec![code(InstructionCode::IS), code(InstructionCode::UINT_8), 1, code(InstructionCode::UINT_8), 2]
    );
}

#[test]
fn deref() {
    let ast = DatexExpression::Deref(Box::new(u8_lit(10)));
    let result = compile_script(script(ast, false));
    assert_eq!(result, vec![code(InstructionCode::DEREF), code(InstructionCode::UINT_8), 10]);
}

#[test]
fn typed_decimal_value_compiles_like_the_literal() {
    let make = || DatexExpression::TypedDecimal(TypedDecimal::F64(0x4045_0000_0000_0000));
    let value = extract_static_value_from_ast(&make()).unwrap();
    assert_eq!(compile_script(script(make(), false)), compile_value_container(&value));
}

#[test]
fn reads_record_their_slots() {
    let mut scope = CompilationScope::new(false);
    scope.register_variable_slot(Variable::new_const("a".to_string(), VirtualSlot::local(4)));
    scope.register_variable_slot(Variable::new_const("b".to_string(), VirtualSlot::local(9)));
    let mut ctx = new_context();
    let ast = DatexExpression::List(vec![access("b"), access("a"), access("b")]);
    compile_expression(&mut ctx, &ast, CompileMetadata::outer(), scope).unwrap();
    // locals by ascending address: a (4) then b (9)
    assert_eq!(ctx.get_slot_byte_indices(false), vec![vec![8u32], vec![3u32, 13u32]]);
}

fn section(is_first: bool, is_last: bool) -> Option<UnboundedStatement> {
    Some(UnboundedStatement { is_first, is_last })
}

#[test]
fn unbounded_sections_frame_their_statements() {
    let items = || vec![u8_lit(1), u8_lit(2)];
    let body = vec![code(InstructionCode::UINT_8), 1, code(InstructionCode::UINT_8), 2];

    let first = compile_script(DatexExpression::Statements(items(), true, section(true, false)));
    let mut expected = vec![code(InstructionCode::UNBOUNDED_STATEMENTS)];
    expected.extend(body.iter());
    assert_eq!(first, expected);

    let middle = compile_script(DatexExpression::Statements(items(), true, section(false, false)));
    assert_eq!(middle, body);

    let last = compile_script(DatexExpression::Statements(items(), false, section(false, true)));
    let mut expected = body.clone();
    expected.extend([code(InstructionCode::UNBOUNDED_STATEMENTS_END), 0]);
    assert_eq!(last, expected);

    let whole = compile_script(DatexExpression::Statements(items(), true, section(true, true)));
    let mut expected = vec![code(InstructionCode::UNBOUNDED_STATEMENTS)];
    expected.extend(body.iter());
    expected.extend([code(InstructionCode::UNBOUNDED_STATEMENTS_END), 1]);
    assert_eq!(whole, expected);
}

#[test]
fn a_single_unbounded_statement_keeps_its_frame() {
    let result = compile_script(DatexExpression::Statements(vec![u8_lit(7)], false, section(true, true)));
    assert_eq!(
        result,
        vec![
            code(InstructionCode::UNBOUNDED_STATEMENTS),
            code(InstructionCode::UINT_8),
            7,
            code(InstructionCode::UNBOUNDED_STATEMENTS_END),
            0,
        ]
    );
}

#[test]
fn ensure_statements_wraps_or_marks() {
    let mut ast = u8_lit(3);
    assert!(!ensure_statements(&mut ast, section(true, false)));
    assert_eq!(
        format!("{:?}", ast),
        format!("{:?}", DatexExpression::Statements(vec![u8_lit(3)], false, section(true, false)))
    );

    let mut ast = DatexExpression::Statements(vec![u8_lit(1), u8_lit(2)], true, None);
    assert!(ensure_statements(&mut ast, section(false, true)));
    assert_eq!(
        format!("{:?}", ast),
        format!(
            "{:?}",
            DatexExpression::Statements(vec![u8_lit(1), u8_lit(2)], true, section(false, true))
        )
    );
}

#[test]
fn prepare_script_depends_on_the_execution_mode() {
    let mut ast = DatexExpression::Statements(vec![u8_lit(1)], true, None);
    assert!(prepare_script(&mut ast, ExecutionMode::Static, false));
    assert_eq!(
        format!("{:?}", ast),
        format!("{:?}", DatexExpression::Statements(vec![u8_lit(1)], true, None))
    );

    let mut ast = u8_lit(1);
    assert!(!prepare_script(&mut ast, ExecutionMode::Unbounded { has_next: true }, true));
    assert_eq!(
        format!("{:?}", ast),
        format!("{:?}", DatexExpression::Statements(vec![u8_lit(1)], false, section(false, false)))
    );
}
