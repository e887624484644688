use datex_compiler::compiler::bytecode::{compile_value, insert_int_with_radix, CompilationContext};
use datex_compiler::compiler::error::CompilerError;
use datex_compiler::global::instruction_codes::InstructionCode;
use datex_compiler::values::core_values::{Decimal, Endpoint, Integer, TypedDecimal, TypedInteger};
use datex_compiler::values::value::{CoreValue, Value, ValueContainer};

fn code(c: InstructionCode) -> u8 {
    c.byte()
}

fn context() -> CompilationContext {
    CompilationContext::new(Vec::new(), vec![])
}

#[test]
fn integers_take_the_smallest_signed_form() {
    let mut ctx = context();
    ctx.insert_int(5);
    ctx.insert_int(-129);
    ctx.insert_int(40_000);
    ctx.insert_int(1 << 40);
    let mut expected = vec![code(InstructionCode::INT_8), 5, code(InstructionCode::INT_16)];
    expected.extend((-129i16).to_le_bytes());
    expected.push(code(InstructionCode::INT_32));
    expected.extend(40_000i32.to_le_bytes());
    expected.push(code(InstructionCode::INT_64));
    expected.extend((1i64 << 40).to_le_bytes());
    assert_eq!(ctx.buffer, expected);
    assert_eq!(ctx.index, expected.len());
}

#[test]
fn range_edges_of_the_integer_forms() {
    let mut ctx = context();
    ctx.insert_int(127);
    ctx.insert_int(128);
    ctx.insert_int(-32768);
    ctx.insert_int(-32769);
    let mut expected = vec![code(InstructionCode::INT_8), 127, code(InstructionCode::INT_16)];
    expected.extend(128i16.to_le_bytes());
    expected.push(code(InstructionCode::INT_16));
    expected.extend((-32768i16).to_le_bytes());
    expected.push(code(InstructionCode::INT_32));
    expected.extend((-32769i32).to_le_bytes());
    assert_eq!(ctx.buffer, expected);
}

#[test]
fn unsigned_integers_widen() {
    let mut ctx = context();
    ctx.insert_u8(200);
    ctx.insert_u16(60_000);
    ctx.insert_u128(u128::MAX);
    let mut expected = vec![code(InstructionCode::INT_16), 200, 0, code(InstructionCode::INT_32)];
    expected.extend(60_000i32.to_le_bytes());
    expected.push(code(InstructionCode::UINT_128));
    expected.extend(u128::MAX.to_le_bytes());
    assert_eq!(ctx.buffer, expected);
    let mut ctx = context();
    ctx.insert_u32(u32::MAX);
    ctx.insert_u64(u64::MAX);
    let mut expected = vec![code(InstructionCode::INT_64)];
    expected.extend((u32::MAX as i64).to_le_bytes());
    expected.push(code(InstructionCode::INT_128));
    expected.extend((u64::MAX as i128).to_le_bytes());
    assert_eq!(ctx.buffer, expected);
}

#[test]
fn radix_integers() {
    let mut ctx = context();
    assert!(insert_int_with_radix(&mut ctx, "0x1F", 16).is_ok());
    assert!(insert_int_with_radix(&mut ctx, "-0x10", 16).is_ok());
    assert!(insert_int_with_radix(&mut ctx, "+0b101", 2).is_ok());
    assert!(insert_int_with_radix(&mut ctx, "0o777", 8).is_ok());
    let mut expected = vec![
        code(InstructionCode::INT_8),
        31,
        code(InstructionCode::INT_8),
        0xf0,
        code(InstructionCode::INT_8),
        5,
        code(InstructionCode::INT_16),
    ];
    expected.extend(511i16.to_le_bytes());
    assert_eq!(ctx.buffer, expected);
}

#[test]
fn invalid_radix_integers_are_errors() {
    let mut ctx = context();
    for text in ["0xZZ", "0x", "0x8000000000000000", "-0x8000000000000000", "0b102"] {
        let radix = if text.starts_with("0b") { 2 } else { 16 };
        assert!(matches!(
            insert_int_with_radix(&mut ctx, text, radix),
            Err(CompilerError::IntegerOutOfBoundsError)
        ));
    }
    assert!(ctx.buffer.is_empty());
    assert_eq!(ctx.index, 0);
}

#[test]
fn radix_digits_may_carry_their_own_sign() {
    let mut ctx = context();
    assert!(insert_int_with_radix(&mut ctx, "0x-5", 16).is_ok());
    assert!(insert_int_with_radix(&mut ctx, "-0x-5", 16).is_ok());
    assert_eq!(
        ctx.buffer,
        vec![code(InstructionCode::INT_8), 0xfb, code(InstructionCode::INT_8), 5]
    );
}

#[test]
fn texts_and_keys() {
    let mut ctx = context();
    ctx.insert_text("ab");
    ctx.insert_key_string("k");
    ctx.insert_boolean(true);
    ctx.insert_boolean(false);
    assert_eq!(
        ctx.buffer,
        vec![
            code(InstructionCode::SHORT_TEXT),
            2,
            b'a',
            b'b',
            code(InstructionCode::KEY_VALUE_SHORT_TEXT),
            1,
            b'k',
            code(InstructionCode::TRUE),
            code(InstructionCode::FALSE),
        ]
    );
    assert_eq!(ctx.index, 9);
    let long = "x".repeat(256);
    let mut ctx = context();
    ctx.insert_key_string(&long);
    let mut expected = vec![code(InstructionCode::KEY_VALUE_DYNAMIC), code(InstructionCode::TEXT)];
    expected.extend(256u32.to_le_bytes());
    expected.extend(long.bytes());
    assert_eq!(ctx.buffer, expected);
}

#[test]
fn other_values() {
    let mut ctx = context();
    ctx.insert_endpoint(&Endpoint { binary: vec![7, 8] });
    ctx.insert_decimal(&Decimal::Nan);
    ctx.insert_float_as_i16(-2);
    ctx.insert_float_as_i32(3);
    ctx.insert_float32(1.0f32.to_bits());
    ctx.insert_float64(2.0f64.to_bits());
    ctx.insert_i128(-1);
    let mut expected = vec![
        code(InstructionCode::ENDPOINT),
        7,
        8,
        code(InstructionCode::DECIMAL_BIG),
        1,
        code(InstructionCode::DECIMAL_AS_INT_16),
        0xfe,
        0xff,
        code(InstructionCode::DECIMAL_AS_INT_32),
        3,
        0,
        0,
        0,
        code(InstructionCode::DECIMAL_F32),
    ];
    expected.extend(1.0f32.to_le_bytes());
    expected.push(code(InstructionCode::DECIMAL_F64));
    expected.extend(2.0f64.to_le_bytes());
    expected.push(code(InstructionCode::INT_128));
    expected.extend((-1i128).to_le_bytes());
    assert_eq!(ctx.buffer, expected);
    assert_eq!(ctx.index, expected.len());
}

#[test]
fn raw_appends_count_their_bytes() {
    let mut ctx = CompilationContext::new(vec![9], vec![]);
    ctx.append_string_utf8("é");
    ctx.append_buffer(&[1, 2, 3]);
    ctx.append_binary_code(InstructionCode::NULL);
    ctx.mark_has_non_static_value();
    assert!(ctx.has_non_static_value);
    assert_eq!(ctx.buffer, vec![9, 0xc3, 0xa9, 1, 2, 3, code(InstructionCode::NULL)]);
    assert_eq!(ctx.index, 6);
}

fn plain(inner: CoreValue) -> ValueContainer {
    ValueContainer::Value(Value { inner, actual_type: None })
}

#[test]
fn test_compile_macro() {
    // the template `?` with one inserted value compiles that value on its own
    let a = plain(CoreValue::Integer(Integer { value: 1 }));
    let result = compile_value(&a);
    assert_eq!(result.unwrap(), vec![code(InstructionCode::INT_8), 1]);
}

#[test]
fn inserted_integers_take_their_smallest_form() {
    let cases: Vec<(TypedInteger, Vec<u8>)> = vec![
        (TypedInteger::U8(200), {
            let mut v = vec![code(InstructionCode::INT_16)];
            v.extend(200i16.to_le_bytes());
            v
        }),
        (TypedInteger::I64(-5), vec![code(InstructionCode::INT_8), 0xfb]),
        (TypedInteger::U64(u64::MAX), {
            let mut v = vec![code(InstructionCode::INT_128)];
            v.extend((u64::MAX as i128).to_le_bytes());
            v
        }),
        (TypedInteger::U128(u128::MAX), {
            let mut v = vec![code(InstructionCode::UINT_128)];
            v.extend(u128::MAX.to_le_bytes());
            v
        }),
    ];
    for (integer, expected) in cases {
        assert_eq!(compile_value(&plain(CoreValue::TypedInteger(integer))).unwrap(), expected);
    }
}

#[test]
fn inserted_whole_typed_decimals_are_shortened() {
    let whole = TypedDecimal::Decimal(Decimal::Finite {
        numerator: Integer { value: 84 },
        denominator: Integer { value: 2 },
    });
    let mut expected = vec![code(InstructionCode::DECIMAL_AS_INT_16)];
    expected.extend(42i16.to_le_bytes());
    assert_eq!(compile_value(&plain(CoreValue::TypedDecimal(whole))).unwrap(), expected);
}

#[test]
fn inserted_lists_and_maps() {
    let list = plain(CoreValue::List(vec![
        plain(CoreValue::Null),
        plain(CoreValue::KeyValueMap(vec![(plain(CoreValue::Text("k".to_string())), plain(CoreValue::Boolean(true)))])),
    ]));
    let mut ctx = context();
    ctx.insert_value_container(&list);
    assert!(ctx.has_non_static_value);
    assert_eq!(
        ctx.buffer,
        vec![
            code(InstructionCode::ARRAY_START),
            code(InstructionCode::NULL),
            code(InstructionCode::OBJECT_START),
            code(InstructionCode::KEY_VALUE_SHORT_TEXT),
            1,
            b'k',
            code(InstructionCode::TRUE),
            code(InstructionCode::SCOPE_END),
            code(InstructionCode::SCOPE_END),
        ]
    );
    assert_eq!(ctx.index, ctx.buffer.len());
}

