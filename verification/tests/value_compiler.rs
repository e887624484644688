use datex_compiler::core_compiler::type_compiler::compile_type;
use datex_compiler::core_compiler::value_compiler::{
    append_big_integer, append_boolean, append_decimal, append_encoded_decimal,
    append_encoded_integer, append_endpoint, append_float_as_i16, append_float_as_i32,
    append_get_ref, append_instruction_code, append_integer, append_key_string,
    append_key_value_pair, append_text, append_type_cast, append_typed_decimal,
    append_typed_integer, append_value, append_value_container, compile_value_container,
};
use datex_compiler::global::instruction_codes::{
    InstructionCode, TypeMutabilityCode, TypeSpaceInstructionCode,
};
use datex_compiler::values::core_values::{
    Decimal, Endpoint, Integer, PointerAddress, ReferenceMutability, TypedDecimal, TypedInteger,
};
use datex_compiler::values::types::{Type, TypeDefinition};
use datex_compiler::values::value::{CoreValue, Reference, Value, ValueContainer};

fn code(c: InstructionCode) -> u8 {
    c.byte()
}

fn value(inner: CoreValue) -> ValueContainer {
    ValueContainer::Value(Value { inner, actual_type: None })
}

fn text(s: &str) -> ValueContainer {
    value(CoreValue::Text(s.to_string()))
}

fn u8_value(v: u8) -> ValueContainer {
    value(CoreValue::TypedInteger(TypedInteger::U8(v)))
}

#[test]
fn integer_u8_value() {
    let result = compile_value_container(&u8_value(42));
    assert_eq!(result, vec![code(InstructionCode::UINT_8), 42]);
}

#[test]
fn short_text_value() {
    let val = "unyt";
    let result = compile_value_container(&text(val));
    let mut expected: Vec<u8> = vec![code(InstructionCode::SHORT_TEXT), val.len() as u8];
    expected.extend(val.bytes());
    assert_eq!(result, expected);
}

#[test]
fn long_text() {
    let val = "b".repeat(256);
    let result = compile_value_container(&text(&val));
    let mut expected: Vec<u8> = vec![code(InstructionCode::TEXT)];
    expected.extend((256u32).to_le_bytes());
    expected.extend(val.bytes());
    assert_eq!(result, expected);
}

#[test]
fn text_with_multibyte_characters() {
    let val = "ä€";
    let result = compile_value_container(&text(val));
    let mut expected: Vec<u8> = vec![code(InstructionCode::SHORT_TEXT), 5];
    expected.extend(val.bytes());
    assert_eq!(result, expected);
}

#[test]
fn empty_list_value() {
    let result = compile_value_container(&value(CoreValue::List(vec![])));
    assert_eq!(result, vec![code(InstructionCode::SHORT_LIST), 0]);
}

#[test]
fn single_element_list_value() {
    let result = compile_value_container(&value(CoreValue::List(vec![u8_value(42)])));
    assert_eq!(
        result,
        vec![code(InstructionCode::SHORT_LIST), 1, code(InstructionCode::UINT_8), 42]
    );
}

#[test]
fn multi_element_list_value() {
    let list = value(CoreValue::List(vec![u8_value(1), u8_value(2), u8_value(3)]));
    let result = compile_value_container(&list);
    assert_eq!(
        result,
        vec![
            code(InstructionCode::SHORT_LIST),
            3,
            code(InstructionCode::UINT_8),
            1,
            code(InstructionCode::UINT_8),
            2,
            code(InstructionCode::UINT_8),
            3,
        ]
    );
}

#[test]
fn nested_lists_value() {
    let inner = value(CoreValue::List(vec![u8_value(2), u8_value(3)]));
    let list = value(CoreValue::List(vec![u8_value(1), inner, u8_value(4)]));
    let result = compile_value_container(&list);
    assert_eq!(
        result,
        vec![
            code(InstructionCode::SHORT_LIST),
            3,
            code(InstructionCode::UINT_8),
            1,
            code(InstructionCode::SHORT_LIST),
            2,
            code(InstructionCode::UINT_8),
            2,
            code(InstructionCode::UINT_8),
            3,
            code(InstructionCode::UINT_8),
            4,
        ]
    );
}

#[test]
fn long_list_has_four_byte_length() {
    let items: Vec<ValueContainer> = (0..256).map(|_| value(CoreValue::Null)).collect();
    let result = compile_value_container(&value(CoreValue::List(items)));
    let mut expected: Vec<u8> = vec![code(InstructionCode::LIST)];
    expected.extend(256u32.to_le_bytes());
    expected.extend(std::iter::repeat(code(InstructionCode::NULL)).take(256));
    assert_eq!(result, expected);
}

#[test]
fn map_with_text_key_value() {
    let map = value(CoreValue::KeyValueMap(vec![(text("key"), u8_value(42))]));
    let result = compile_value_container(&map);
    assert_eq!(
        result,
        vec![
            code(InstructionCode::SHORT_MAP),
            1,
            code(InstructionCode::KEY_VALUE_SHORT_TEXT),
            3,
            b'k',
            b'e',
            b'y',
            code(InstructionCode::UINT_8),
            42,
        ]
    );
}

#[test]
fn map_integer_key_value() {
    let map = value(CoreValue::KeyValueMap(vec![(u8_value(10), u8_value(42))]));
    let result = compile_value_container(&map);
    assert_eq!(
        result,
        vec![
            code(InstructionCode::SHORT_MAP),
            1,
            code(InstructionCode::KEY_VALUE_DYNAMIC),
            code(InstructionCode::UINT_8),
            10,
            code(InstructionCode::UINT_8),
            42,
        ]
    );
}

#[test]
fn map_with_long_text_key_value() {
    let long_key = "a".repeat(300);
    let map = value(CoreValue::KeyValueMap(vec![(text(&long_key), u8_value(42))]));
    let result = compile_value_container(&map);
    let mut expected: Vec<u8> = vec![
        code(InstructionCode::SHORT_MAP),
        1,
        code(InstructionCode::KEY_VALUE_DYNAMIC),
        code(InstructionCode::TEXT),
    ];
    expected.extend((long_key.len() as u32).to_le_bytes());
    expected.extend(long_key.as_bytes());
    expected.extend(vec![code(InstructionCode::UINT_8), 42]);
    assert_eq!(result, expected);
}

#[test]
fn map_with_multiple_keys_value() {
    let map = value(CoreValue::KeyValueMap(vec![
        (text("key"), u8_value(42)),
        (u8_value(4), u8_value(43)),
    ]));
    let result = compile_value_container(&map);
    assert_eq!(
        result,
        vec![
            code(InstructionCode::SHORT_MAP),
            2,
            code(InstructionCode::KEY_VALUE_SHORT_TEXT),
            3,
            b'k',
            b'e',
            b'y',
            code(InstructionCode::UINT_8),
            42,
            code(InstructionCode::KEY_VALUE_DYNAMIC),
            code(InstructionCode::UINT_8),
            4,
            code(InstructionCode::UINT_8),
            43,
        ]
    );
}

#[test]
fn empty_map_value() {
    let result = compile_value_container(&value(CoreValue::KeyValueMap(vec![])));
    assert_eq!(result, vec![code(InstructionCode::SHORT_MAP), 0]);
}

#[test]
fn key_value_pair_with_text_key() {
    let mut buffer = vec![];
    append_key_value_pair(&mut buffer, &text("a"), &value(CoreValue::Boolean(true)));
    assert_eq!(
        buffer,
        vec![
            code(InstructionCode::KEY_VALUE_SHORT_TEXT),
            1,
            b'a',
            code(InstructionCode::TRUE)
        ]
    );
}

#[test]
fn key_string_short_and_long() {
    let mut buffer = vec![];
    append_key_string(&mut buffer, "xy");
    assert_eq!(buffer, vec![code(InstructionCode::KEY_VALUE_SHORT_TEXT), 2, b'x', b'y']);
    let long_key = "z".repeat(256);
    let mut buffer = vec![];
    append_key_string(&mut buffer, &long_key);
    let mut expected = vec![code(InstructionCode::KEY_VALUE_DYNAMIC), code(InstructionCode::TEXT)];
    expected.extend(256u32.to_le_bytes());
    expected.extend(long_key.bytes());
    assert_eq!(buffer, expected);
}

#[test]
fn booleans_and_null() {
    let mut buffer = vec![];
    append_boolean(&mut buffer, true);
    append_boolean(&mut buffer, false);
    append_value_container(&mut buffer, &value(CoreValue::Null));
    assert_eq!(
        buffer,
        vec![
            code(InstructionCode::TRUE),
            code(InstructionCode::FALSE),
            code(InstructionCode::NULL)
        ]
    );
}

fn big(sign: u8, magnitude: &[u8]) -> Vec<u8> {
    let mut v = vec![sign];
    v.extend((magnitude.len() as u32).to_le_bytes());
    v.extend(magnitude);
    v
}

#[test]
fn big_integer_encoding() {
    let cases: Vec<(i128, Vec<u8>)> = vec![
        (0, big(1, &[0])),
        (1, big(2, &[1])),
        (-1, big(0, &[1])),
        (255, big(2, &[0xff])),
        (256, big(2, &[0, 1])),
        (-256, big(0, &[0, 1])),
        (300, big(2, &[0x2c, 0x01])),
        (i128::MAX, big(2, &i128::MAX.to_le_bytes())),
        (i128::MIN, big(0, &(1u128 << 127).to_le_bytes())),
    ];
    for (v, expected) in cases {
        let mut buffer = vec![];
        append_big_integer(&mut buffer, &Integer { value: v });
        assert_eq!(buffer, expected, "encoding of {v}");
    }
}

#[test]
fn unsized_integer() {
    let mut buffer = vec![];
    append_integer(&mut buffer, &Integer { value: 42 });
    assert_eq!(buffer, vec![code(InstructionCode::INT), 2, 1, 0, 0, 0, 42]);
    let result = compile_value_container(&value(CoreValue::Integer(Integer { value: -1000 })));
    assert_eq!(result, vec![code(InstructionCode::INT), 0, 2, 0, 0, 0, 0xe8, 0x03]);
}

#[test]
fn encoded_integers() {
    let cases: Vec<(TypedInteger, Vec<u8>)> = vec![
        (TypedInteger::I8(-2), vec![code(InstructionCode::INT_8), 0xfe]),
        (TypedInteger::I16(-2), vec![code(InstructionCode::INT_16), 0xfe, 0xff]),
        (TypedInteger::I32(1), vec![code(InstructionCode::INT_32), 1, 0, 0, 0]),
        (TypedInteger::I64(-1), {
            let mut v = vec![code(InstructionCode::INT_64)];
            v.extend((-1i64).to_le_bytes());
            v
        }),
        (TypedInteger::I128(5), {
            let mut v = vec![code(InstructionCode::INT_128)];
            v.extend(5i128.to_le_bytes());
            v
        }),
        (TypedInteger::U16(0x1234), vec![code(InstructionCode::UINT_16), 0x34, 0x12]),
        (TypedInteger::U32(0x01020304), vec![code(InstructionCode::UINT_32), 4, 3, 2, 1]),
        (TypedInteger::U64(7), {
            let mut v = vec![code(InstructionCode::UINT_64)];
            v.extend(7u64.to_le_bytes());
            v
        }),
        (TypedInteger::U128(u128::MAX), {
            let mut v = vec![code(InstructionCode::UINT_128)];
            v.extend(u128::MAX.to_le_bytes());
            v
        }),
        (TypedInteger::Big(Integer { value: 256 }), {
            let mut v = vec![code(InstructionCode::INT_BIG)];
            v.extend(big(2, &[0, 1]));
            v
        }),
    ];
    for (integer, expected) in cases {
        let mut buffer = vec![];
        append_encoded_integer(&mut buffer, &integer);
        assert_eq!(buffer, expected, "encoding of {integer:?}");
    }
}

#[test]
fn typed_integer_with_type_cast() {
    let mut buffer = vec![];
    append_typed_integer(&mut buffer, &TypedInteger::U8(7));
    assert_eq!(
        buffer,
        vec![
            code(InstructionCode::TYPED_VALUE),
            TypeSpaceInstructionCode::TYPE_REFERENCE.byte(),
            TypeMutabilityCode::NoReference.byte(),
            code(InstructionCode::GET_INTERNAL_REF),
            0,
            1,
            5,
            code(InstructionCode::UINT_8),
            7,
        ]
    );
}

#[test]
fn typed_decimal_with_type_cast() {
    let mut buffer = vec![];
    let bits = 1.5f64.to_bits();
    append_typed_decimal(&mut buffer, &TypedDecimal::F64(bits));
    let mut expected = vec![
        code(InstructionCode::TYPED_VALUE),
        TypeSpaceInstructionCode::TYPE_REFERENCE.byte(),
        TypeMutabilityCode::NoReference.byte(),
        code(InstructionCode::GET_INTERNAL_REF),
        0,
        2,
        1,
        code(InstructionCode::DECIMAL_F64),
    ];
    expected.extend(1.5f64.to_le_bytes());
    assert_eq!(buffer, expected);
}

#[test]
fn decimals() {
    let mut buffer = vec![];
    append_encoded_decimal(&mut buffer, &TypedDecimal::F32(2.5f32.to_bits()));
    let mut expected = vec![code(InstructionCode::DECIMAL_F32)];
    expected.extend(2.5f32.to_le_bytes());
    assert_eq!(buffer, expected);

    let mut buffer = vec![];
    let half = Decimal::Finite {
        numerator: Integer { value: 1 },
        denominator: Integer { value: 2 },
    };
    append_decimal(&mut buffer, &half);
    let mut expected = vec![code(InstructionCode::DECIMAL), 0];
    expected.extend(big(2, &[1]));
    expected.extend(big(2, &[2]));
    assert_eq!(buffer, expected);

    let mut buffer = vec![];
    append_encoded_decimal(&mut buffer, &TypedDecimal::Decimal(Decimal::Nan));
    assert_eq!(buffer, vec![code(InstructionCode::DECIMAL_BIG), 1]);

    let mut buffer = vec![];
    append_decimal(&mut buffer, &Decimal::Infinity);
    append_decimal(&mut buffer, &Decimal::NegInfinity);
    assert_eq!(
        buffer,
        vec![code(InstructionCode::DECIMAL), 2, code(InstructionCode::DECIMAL), 3]
    );
}

#[test]
fn whole_decimals_as_integers() {
    let mut buffer = vec![];
    append_float_as_i16(&mut buffer, 42);
    let mut expected = vec![code(InstructionCode::DECIMAL_AS_INT_16)];
    expected.extend(42_i16.to_le_bytes());
    assert_eq!(buffer, expected);

    let mut buffer = vec![];
    append_float_as_i32(&mut buffer, -70000);
    let mut expected = vec![code(InstructionCode::DECIMAL_AS_INT_32)];
    expected.extend((-70000_i32).to_le_bytes());
    assert_eq!(buffer, expected);
}

#[test]
fn endpoint() {
    let mut buffer = vec![];
    append_endpoint(&mut buffer, &Endpoint { binary: vec![1, 2, 3] });
    assert_eq!(buffer, vec![code(InstructionCode::ENDPOINT), 1, 2, 3]);
}

#[test]
fn text_appends() {
    let mut buffer = vec![7];
    append_text(&mut buffer, "hi");
    assert_eq!(buffer, vec![7, code(InstructionCode::SHORT_TEXT), 2, b'h', b'i']);
}

#[test]
fn references() {
    let mutable = ValueContainer::Reference(Reference {
        mutability: ReferenceMutability::Mutable,
        value: Value { inner: CoreValue::Boolean(false), actual_type: None },
    });
    assert_eq!(
        compile_value_container(&mutable),
        vec![code(InstructionCode::CREATE_REF_MUT), code(InstructionCode::FALSE)]
    );
    let immutable = ValueContainer::Reference(Reference {
        mutability: ReferenceMutability::Immutable,
        value: Value { inner: CoreValue::Boolean(false), actual_type: None },
    });
    assert_eq!(
        compile_value_container(&immutable),
        vec![code(InstructionCode::CREATE_REF), code(InstructionCode::FALSE)]
    );
    let final_ref = ValueContainer::Reference(Reference {
        mutability: ReferenceMutability::Final,
        value: Value { inner: CoreValue::Null, actual_type: None },
    });
    assert_eq!(
        compile_value_container(&final_ref),
        vec![code(InstructionCode::CREATE_REF), code(InstructionCode::NULL)]
    );
}

#[test]
fn value_with_non_default_type() {
    let address = PointerAddress::Local([1, 2, 3, 4, 5]);
    let v = Value {
        inner: CoreValue::Null,
        actual_type: Some(TypeDefinition::Reference(Some(address))),
    };
    let mut buffer = vec![];
    append_value(&mut buffer, &v);
    assert_eq!(
        buffer,
        vec![
            code(InstructionCode::TYPED_VALUE),
            TypeSpaceInstructionCode::TYPE_REFERENCE.byte(),
            TypeMutabilityCode::NoReference.byte(),
            code(InstructionCode::GET_LOCAL_REF),
            1,
            2,
            3,
            4,
            5,
            code(InstructionCode::NULL),
        ]
    );
}

#[test]
fn type_cast_and_get_ref() {
    let mut buffer = vec![];
    append_type_cast(&mut buffer, &TypeDefinition::Reference(Some(PointerAddress::Internal([9, 8, 7]))));
    assert_eq!(
        buffer,
        vec![
            code(InstructionCode::TYPED_VALUE),
            TypeSpaceInstructionCode::TYPE_REFERENCE.byte(),
            TypeMutabilityCode::NoReference.byte(),
            code(InstructionCode::GET_INTERNAL_REF),
            9,
            8,
            7,
        ]
    );
    let mut buffer = vec![];
    append_get_ref(&mut buffer, &PointerAddress::Remote([3; 26]));
    let mut expected = vec![code(InstructionCode::GET_REF)];
    expected.extend([3u8; 26]);
    assert_eq!(buffer, expected);
}

#[test]
fn instruction_code_is_one_byte() {
    let mut buffer = vec![1, 2];
    append_instruction_code(&mut buffer, InstructionCode::ADD);
    assert_eq!(buffer, vec![1, 2, code(InstructionCode::ADD)]);
}

#[test]
fn compile_types() {
    let base = Type {
        type_definition: TypeDefinition::Reference(Some(PointerAddress::Internal([0, 0, 1]))),
        reference_mutability: Some(ReferenceMutability::Mutable),
    };
    assert_eq!(
        compile_type(&base),
        vec![
            TypeSpaceInstructionCode::TYPE_REFERENCE.byte(),
            TypeMutabilityCode::Mutable.byte(),
            code(InstructionCode::GET_INTERNAL_REF),
            0,
            0,
            1,
        ]
    );
    let impl_type = Type {
        type_definition: TypeDefinition::ImplType(
            Box::new(base),
            vec![PointerAddress::Internal([4, 5, 6])],
        ),
        reference_mutability: None,
    };
    assert_eq!(
        compile_type(&impl_type),
        vec![
            TypeSpaceInstructionCode::IMPL_TYPE.byte(),
            TypeMutabilityCode::NoReference.byte(),
            1,
            code(InstructionCode::GET_INTERNAL_REF),
            4,
            5,
            6,
            TypeSpaceInstructionCode::TYPE_REFERENCE.byte(),
            TypeMutabilityCode::Mutable.byte(),
            code(InstructionCode::GET_INTERNAL_REF),
            0,
            0,
            1,
        ]
    );
}
