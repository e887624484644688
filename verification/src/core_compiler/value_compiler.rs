//! Compiles values to their DXB encoding.
use vstd::prelude::*;
use crate::core_compiler::type_compiler::{
    append_bytes, append_type_parts, get_ref_bytes, type_bytes, type_encodable,
};
use crate::global::instruction_codes::{
    instruction_code_byte, instruction_code_of_byte, lemma_instruction_code_bytes, InstructionCode,
};
use crate::utils::buffers::{
    append_i16, append_i32, append_i64, append_i8, append_i128, append_u16, append_u32,
    append_u64, append_u8, append_u128, append_f32_bits, append_f64_bits, le_bytes, pow256,
    push_le_bytes, lemma_le_bytes_periodic, lemma_pow256_values, le_signed, le_unsigned,
    lemma_le_bytes_len, lemma_le_signed_round_trip, lemma_le_unsigned_round_trip,
};
use crate::compiler::bytecode::typed_integer_value;
use crate::values::typed_variants::IntegerTypeVariant;
use crate::values::core_values::{
    Decimal, Endpoint, Integer, PointerAddress, ReferenceMutability, TypedDecimal, TypedInteger,
};
use crate::values::types::{Type, TypeDefinition};
use crate::compiler::type_inference::{decimal_variant, integer_variant};
use crate::values::typed_variants::decimal_variants;
use crate::values::value::{CoreValue, Reference, Value, ValueContainer};
use vstd::utf8::encode_utf8;

verus! {

pub open spec fn instr(code: InstructionCode) -> Seq<u8> {
    seq![instruction_code_byte(code)]
}

/// The number of bytes of the magnitude `m`, counting from `n` (at most 16): the fewest
/// bytes that hold it, and one byte for zero.
pub open spec fn magnitude_len(m: nat, n: nat) -> nat
    decreases 16 - n,
{
    if n >= 16 || m < pow256(n) {
        n
    } else {
        magnitude_len(m, n + 1)
    }
}

/// The sign byte of an unsized integer: 0 for a negative, 1 for zero, 2 for a positive value.
pub open spec fn sign_byte(v: int) -> u8 {
    if v < 0 {
        0
    } else if v == 0 {
        1
    } else {
        2
    }
}

/// The absolute value of `v`.
pub open spec fn magnitude(v: int) -> nat {
    if v < 0 {
        (-v) as nat
    } else {
        v as nat
    }
}

/// The encoding of an unsized integer: its sign byte, the number of bytes of its magnitude
/// (four bytes, little-endian), then the magnitude, little-endian.
pub open spec fn big_integer_bytes(v: int) -> Seq<u8> {
    let n = magnitude_len(magnitude(v), 1);
    seq![sign_byte(v)] + le_bytes(n as int, 4) + le_bytes(magnitude(v) as int, n)
}

/// The encoding of an exact decimal: a tag (0 finite, 1 NaN, 2 infinity, 3 negative
/// infinity), for finite decimals followed by numerator and denominator.
pub open spec fn big_decimal_bytes(d: Decimal) -> Seq<u8> {
    match d {
        Decimal::Finite { numerator, denominator } => seq![0u8] + big_integer_bytes(numerator.value as int)
            + big_integer_bytes(denominator.value as int),
        Decimal::Nan => seq![1u8],
        Decimal::Infinity => seq![2u8],
        Decimal::NegInfinity => seq![3u8],
    }
}

/// The encoding of a typed integer without its type.
pub open spec fn encoded_integer_bytes(i: TypedInteger) -> Seq<u8> {
    match i {
        TypedInteger::I8(v) => instr(InstructionCode::INT_8) + le_bytes(v as int, 1),
        TypedInteger::I16(v) => instr(InstructionCode::INT_16) + le_bytes(v as int, 2),
        TypedInteger::I32(v) => instr(InstructionCode::INT_32) + le_bytes(v as int, 4),
        TypedInteger::I64(v) => instr(InstructionCode::INT_64) + le_bytes(v as int, 8),
        TypedInteger::I128(v) => instr(InstructionCode::INT_128) + le_bytes(v as int, 16),
        TypedInteger::U8(v) => instr(InstructionCode::UINT_8) + seq![v],
        TypedInteger::U16(v) => instr(InstructionCode::UINT_16) + le_bytes(v as int, 2),
        TypedInteger::U32(v) => instr(InstructionCode::UINT_32) + le_bytes(v as int, 4),
        TypedInteger::U64(v) => instr(InstructionCode::UINT_64) + le_bytes(v as int, 8),
        TypedInteger::U128(v) => instr(InstructionCode::UINT_128) + le_bytes(v as int, 16),
        TypedInteger::Big(v) => instr(InstructionCode::INT_BIG) + big_integer_bytes(v.value as int),
    }
}

/// The encoding of a typed decimal without its type.
pub open spec fn encoded_decimal_bytes(d: TypedDecimal) -> Seq<u8> {
    match d {
        TypedDecimal::F32(bits) => instr(InstructionCode::DECIMAL_F32) + le_bytes(bits as int, 4),
        TypedDecimal::F64(bits) => instr(InstructionCode::DECIMAL_F64) + le_bytes(bits as int, 8),
        TypedDecimal::Decimal(v) => instr(InstructionCode::DECIMAL_BIG) + big_decimal_bytes(v),
    }
}

/// The encoding of a text with its UTF-8 bytes `bytes`: short texts (under 256 bytes) carry a
/// one-byte length, others a four-byte length.
pub open spec fn text_bytes(bytes: Seq<u8>) -> Seq<u8> {
    if bytes.len() < 256 {
        instr(InstructionCode::SHORT_TEXT) + seq![bytes.len() as u8] + bytes
    } else {
        instr(InstructionCode::TEXT) + le_bytes(bytes.len() as int, 4) + bytes
    }
}

/// The encoding of a text key of a key-value pair.
pub open spec fn key_string_bytes(bytes: Seq<u8>) -> Seq<u8> {
    if bytes.len() < 256 {
        instr(InstructionCode::KEY_VALUE_SHORT_TEXT) + seq![bytes.len() as u8] + bytes
    } else {
        instr(InstructionCode::KEY_VALUE_DYNAMIC) + text_bytes(bytes)
    }
}

/// The encoding of a type cast to the type with definition `definition`.
pub open spec fn type_cast_bytes(definition: TypeDefinition) -> Seq<u8> {
    instr(InstructionCode::TYPED_VALUE) + type_bytes(Type { type_definition: definition, reference_mutability: None })
}

/// The header of a list or map with `len` entries: short collections (under 256 entries)
/// carry a one-byte length, others a four-byte length.
pub open spec fn collection_header(short: InstructionCode, long: InstructionCode, len: nat) -> Seq<u8> {
    if len < 256 {
        instr(short) + seq![len as u8]
    } else {
        instr(long) + le_bytes(len as int, 4)
    }
}

/// The encoding of a value container: a reference is marked as mutable or immutable and
/// followed by its value.
pub open spec fn container_bytes(vc: ValueContainer) -> Seq<u8>
    decreases vc,
{
    match vc {
        ValueContainer::Value(v) => value_bytes(v),
        ValueContainer::Reference(r) => {
            let code = match r.mutability {
                ReferenceMutability::Mutable => InstructionCode::CREATE_REF_MUT,
                _ => InstructionCode::CREATE_REF,
            };
            instr(code) + value_bytes(r.value)
        },
    }
}

/// The encoding of a value: a type cast for a value that does not have its default type,
/// then the inner value.
pub open spec fn value_bytes(v: Value) -> Seq<u8>
    decreases v,
{
    (match v.actual_type {
        Some(t) => type_cast_bytes(t),
        None => Seq::empty(),
    }) + core_bytes(v.inner)
}

/// The encoding of an inner value.
pub open spec fn core_bytes(c: CoreValue) -> Seq<u8>
    decreases c,
{
    match c {
        CoreValue::Null => instr(InstructionCode::NULL),
        CoreValue::Boolean(b) => if b {
            instr(InstructionCode::TRUE)
        } else {
            instr(InstructionCode::FALSE)
        },
        CoreValue::Integer(i) => instr(InstructionCode::INT) + big_integer_bytes(i.value as int),
        CoreValue::TypedInteger(i) => encoded_integer_bytes(i),
        CoreValue::Decimal(d) => instr(InstructionCode::DECIMAL) + big_decimal_bytes(d),
        CoreValue::TypedDecimal(d) => encoded_decimal_bytes(d),
        CoreValue::Text(s) => text_bytes(encode_utf8(s@)),
        CoreValue::Endpoint(e) => instr(InstructionCode::ENDPOINT) + e.binary@,
        CoreValue::List(items) => collection_header(
            InstructionCode::SHORT_LIST,
            InstructionCode::LIST,
            items@.len(),
        ) + items_bytes(items@),
        CoreValue::KeyValueMap(entries) => collection_header(
            InstructionCode::SHORT_MAP,
            InstructionCode::MAP,
            entries@.len(),
        ) + entries_bytes(entries@),
    }
}

/// The encodings of list items, one after the other.
pub open spec fn items_bytes(items: Seq<ValueContainer>) -> Seq<u8>
    decreases items,
{
    if items.len() == 0 {
        Seq::empty()
    } else {
        container_bytes(items[0]) + items_bytes(items.subrange(1, items.len() as int))
    }
}

/// The encodings of key-value pairs, one after the other.
pub open spec fn entries_bytes(entries: Seq<(ValueContainer, ValueContainer)>) -> Seq<u8>
    decreases entries,
{
    if entries.len() == 0 {
        Seq::empty()
    } else {
        key_value_bytes(entries[0]) + entries_bytes(
            entries.subrange(1, entries.len() as int),
        )
    }
}

/// The encoding of a key-value pair: a text key as a key string, any other key as a
/// dynamic key followed by its encoding; then the value.
pub open spec fn key_value_bytes(entry: (ValueContainer, ValueContainer)) -> Seq<u8>
    decreases entry,
{
    (match entry.0 {
        ValueContainer::Value(Value { inner: CoreValue::Text(text), .. }) => key_string_bytes(
            encode_utf8(text@),
        ),
        _ => instr(InstructionCode::KEY_VALUE_DYNAMIC) + container_bytes(entry.0),
    }) + container_bytes(entry.1)
}

/// A value container can be encoded when every type cast in it names a type that can be
/// encoded (every type reference has a pointer address).
pub open spec fn container_encodable(vc: ValueContainer) -> bool
    decreases vc,
{
    match vc {
        ValueContainer::Value(v) => value_encodable(v),
        ValueContainer::Reference(r) => value_encodable(r.value),
    }
}

/// A value can be encoded when its type cast, if any, and its inner value can be.
pub open spec fn value_encodable(v: Value) -> bool
    decreases v,
{
    &&& match v.actual_type {
        Some(t) => type_encodable(Type { type_definition: t, reference_mutability: None }),
        None => true,
    }
    &&& core_encodable(v.inner)
}

/// An inner value can be encoded when all values nested in it can be.
pub open spec fn core_encodable(c: CoreValue) -> bool
    decreases c,
{
    match c {
        CoreValue::List(items) => items_encodable(items@),
        CoreValue::KeyValueMap(entries) => entries_encodable(entries@),
        _ => true,
    }
}

/// All list items can be encoded.
pub open spec fn items_encodable(items: Seq<ValueContainer>) -> bool
    decreases items,
{
    items.len() == 0 || (container_encodable(items[0]) && items_encodable(
        items.subrange(1, items.len() as int),
    ))
}

/// All keys and values of the entries can be encoded.
pub open spec fn entries_encodable(entries: Seq<(ValueContainer, ValueContainer)>) -> bool
    decreases entries,
{
    entries.len() == 0 || (container_encodable(entries[0].0) && container_encodable(entries[0].1)
        && entries_encodable(entries.subrange(1, entries.len() as int)))
}

/// The encoding of the key of a key-value pair.
pub open spec fn key_bytes(key: ValueContainer) -> Seq<u8> {
    match key {
        ValueContainer::Value(Value { inner: CoreValue::Text(text), .. }) => key_string_bytes(
            encode_utf8(text@),
        ),
        _ => instr(InstructionCode::KEY_VALUE_DYNAMIC) + container_bytes(key),
    }
}

/// The number of bytes of the magnitude `m`.
fn magnitude_bytes(m: u128) -> (n: usize)
    ensures
        n == magnitude_len(m as nat, 1),
        1 <= n <= 16,
{
    proof {
        reveal_with_fuel(pow256, 17);
        reveal_with_fuel(magnitude_len, 17);
    }
    if m < 0x100u128 {
        1
    } else if m < 0x1_0000u128 {
        2
    } else if m < 0x100_0000u128 {
        3
    } else if m < 0x1_0000_0000u128 {
        4
    } else if m < 0x100_0000_0000u128 {
        5
    } else if m < 0x1_0000_0000_0000u128 {
        6
    } else if m < 0x100_0000_0000_0000u128 {
        7
    } else if m < 0x1_0000_0000_0000_0000u128 {
        8
    } else if m < 0x100_0000_0000_0000_0000u128 {
        9
    } else if m < 0x1_0000_0000_0000_0000_0000u128 {
        10
    } else if m < 0x100_0000_0000_0000_0000_0000u128 {
        11
    } else if m < 0x1_0000_0000_0000_0000_0000_0000u128 {
        12
    } else if m < 0x100_0000_0000_0000_0000_0000_0000u128 {
        13
    } else if m < 0x1_0000_0000_0000_0000_0000_0000_0000u128 {
        14
    } else if m < 0x100_0000_0000_0000_0000_0000_0000_0000u128 {
        15
    } else {
        16
    }
}

/// Appends an unsized integer: its sign byte, the length of its magnitude, then the
/// magnitude (see `big_integer_bytes`).
pub fn append_big_integer(buffer: &mut Vec<u8>, integer: &Integer)
    ensures
        final(buffer)@ == old(buffer)@ + big_integer_bytes(integer.value as int),
{
    let ghost start = buffer@;
    let v = integer.value;
    let sign: u8 = if v < 0 {
        0
    } else if v == 0 {
        1
    } else {
        2
    };
    let m: u128 = if v < 0 {
        ((-(v + 1)) as u128) + 1
    } else {
        v as u128
    };
    assert(m as nat == magnitude(v as int));
    let n = magnitude_bytes(m);
    append_u8(buffer, sign);
    append_u32(buffer, n as u32);
    push_le_bytes(buffer, m, n);
    assert(buffer@ =~= start + big_integer_bytes(integer.value as int));
}

/// Appends a length as four bytes, little-endian (the low 32 bits of longer lengths).
pub(crate) fn append_len_u32(buffer: &mut Vec<u8>, len: usize)
    ensures
        final(buffer)@ == old(buffer)@ + le_bytes(len as int, 4),
{
    proof {
        assert((len as u32) as int == len as int % 0x1_0000_0000) by (bit_vector);
        lemma_pow256_values();
        lemma_le_bytes_periodic((len as u32) as int, len as int / 0x1_0000_0000, 4);
    }
    append_u32(buffer, len as u32);
}

/// Appends an exact decimal (see `big_decimal_bytes`).
pub fn append_big_decimal(buffer: &mut Vec<u8>, decimal: &Decimal)
    ensures
        final(buffer)@ == old(buffer)@ + big_decimal_bytes(*decimal),
{
    let ghost start = buffer@;
    match decimal {
        Decimal::Finite { numerator, denominator } => {
            append_u8(buffer, 0);
            append_big_integer(buffer, numerator);
            append_big_integer(buffer, denominator);
        },
        Decimal::Nan => append_u8(buffer, 1),
        Decimal::Infinity => append_u8(buffer, 2),
        Decimal::NegInfinity => append_u8(buffer, 3),
    }
    assert(buffer@ =~= start + big_decimal_bytes(*decimal));
}

/// Appends a text: its instruction code, its length, then its UTF-8 bytes.
pub fn append_text(buffer: &mut Vec<u8>, string: &str)
    ensures
        final(buffer)@ == old(buffer)@ + text_bytes(encode_utf8(string@)),
{
    let ghost start = buffer@;
    let bytes = string.as_bytes();
    let len = bytes.len();
    if len < 256 {
        append_instruction_code(buffer, InstructionCode::SHORT_TEXT);
        append_u8(buffer, len as u8);
    } else {
        append_instruction_code(buffer, InstructionCode::TEXT);
        append_len_u32(buffer, len);
    }
    append_bytes(buffer, bytes);
    assert(buffer@ =~= start + text_bytes(encode_utf8(string@)));
}

/// Appends `true` or `false`.
pub fn append_boolean(buffer: &mut Vec<u8>, boolean: bool)
    ensures
        final(buffer)@ == old(buffer)@ + core_bytes(CoreValue::Boolean(boolean)),
{
    if boolean {
        append_instruction_code(buffer, InstructionCode::TRUE);
    } else {
        append_instruction_code(buffer, InstructionCode::FALSE);
    }
}

/// Appends an exact decimal with its instruction code.
pub fn append_decimal(buffer: &mut Vec<u8>, decimal: &Decimal)
    ensures
        final(buffer)@ == old(buffer)@ + core_bytes(CoreValue::Decimal(*decimal)),
{
    let ghost start = buffer@;
    append_instruction_code(buffer, InstructionCode::DECIMAL);
    append_big_decimal(buffer, decimal);
    assert(buffer@ =~= start + core_bytes(CoreValue::Decimal(*decimal)));
}

/// Appends an endpoint: its instruction code, then its binary form.
pub fn append_endpoint(buffer: &mut Vec<u8>, endpoint: &Endpoint)
    ensures
        final(buffer)@ == old(buffer)@ + instr(InstructionCode::ENDPOINT) + endpoint.binary@,
{
    append_instruction_code(buffer, InstructionCode::ENDPOINT);
    append_bytes(buffer, endpoint.binary.as_slice());
}

/// Appends a default, unsized integer.
pub fn append_integer(buffer: &mut Vec<u8>, integer: &Integer)
    ensures
        final(buffer)@ == old(buffer)@ + core_bytes(CoreValue::Integer(*integer)),
{
    let ghost start = buffer@;
    append_instruction_code(buffer, InstructionCode::INT);
    append_big_integer(buffer, integer);
    assert(buffer@ =~= start + core_bytes(CoreValue::Integer(*integer)));
}

/// Appends a typed integer without a type cast.
pub fn append_encoded_integer(buffer: &mut Vec<u8>, integer: &TypedInteger)
    ensures
        final(buffer)@ == old(buffer)@ + encoded_integer_bytes(*integer),
{
    let ghost start = buffer@;
    match integer {
        TypedInteger::I8(val) => {
            append_instruction_code(buffer, InstructionCode::INT_8);
            append_i8(buffer, *val);
        },
        TypedInteger::I16(val) => {
            append_instruction_code(buffer, InstructionCode::INT_16);
            append_i16(buffer, *val);
        },
        TypedInteger::I32(val) => {
            append_instruction_code(buffer, InstructionCode::INT_32);
            append_i32(buffer, *val);
        },
        TypedInteger::I64(val) => {
            append_instruction_code(buffer, InstructionCode::INT_64);
            append_i64(buffer, *val);
        },
        TypedInteger::I128(val) => {
            append_instruction_code(buffer, InstructionCode::INT_128);
            append_i128(buffer, *val);
        },
        TypedInteger::U8(val) => {
            append_instruction_code(buffer, InstructionCode::UINT_8);
            append_u8(buffer, *val);
        },
        TypedInteger::U16(val) => {
            append_instruction_code(buffer, InstructionCode::UINT_16);
            append_u16(buffer, *val);
        },
        TypedInteger::U32(val) => {
            append_instruction_code(buffer, InstructionCode::UINT_32);
            append_u32(buffer, *val);
        },
        TypedInteger::U64(val) => {
            append_instruction_code(buffer, InstructionCode::UINT_64);
            append_u64(buffer, *val);
        },
        TypedInteger::U128(val) => {
            append_instruction_code(buffer, InstructionCode::UINT_128);
            append_u128(buffer, *val);
        },
        TypedInteger::Big(val) => {
            append_instruction_code(buffer, InstructionCode::INT_BIG);
            append_big_integer(buffer, val);
        },
    }
    assert(buffer@ =~= start + encoded_integer_bytes(*integer));
}

/// Appends a 32-bit float, given by its bits.
pub fn append_float32(buffer: &mut Vec<u8>, bits: u32)
    ensures
        final(buffer)@ == old(buffer)@ + encoded_decimal_bytes(TypedDecimal::F32(bits)),
{
    let ghost start = buffer@;
    append_instruction_code(buffer, InstructionCode::DECIMAL_F32);
    append_f32_bits(buffer, bits);
    assert(buffer@ =~= start + encoded_decimal_bytes(TypedDecimal::F32(bits)));
}

/// Appends a 64-bit float, given by its bits.
pub fn append_float64(buffer: &mut Vec<u8>, bits: u64)
    ensures
        final(buffer)@ == old(buffer)@ + encoded_decimal_bytes(TypedDecimal::F64(bits)),
{
    let ghost start = buffer@;
    append_instruction_code(buffer, InstructionCode::DECIMAL_F64);
    append_f64_bits(buffer, bits);
    assert(buffer@ =~= start + encoded_decimal_bytes(TypedDecimal::F64(bits)));
}

/// Appends a typed decimal without a type cast.
pub fn append_encoded_decimal(buffer: &mut Vec<u8>, decimal: &TypedDecimal)
    ensures
        final(buffer)@ == old(buffer)@ + encoded_decimal_bytes(*decimal),
{
    let ghost start = buffer@;
    match decimal {
        TypedDecimal::F32(bits) => append_float32(buffer, *bits),
        TypedDecimal::F64(bits) => append_float64(buffer, *bits),
        TypedDecimal::Decimal(val) => {
            append_instruction_code(buffer, InstructionCode::DECIMAL_BIG);
            append_big_decimal(buffer, val);
            assert(buffer@ =~= start + encoded_decimal_bytes(*decimal));
        },
    }
}

/// Appends a whole-numbered decimal as a 16-bit integer.
pub fn append_float_as_i16(buffer: &mut Vec<u8>, value: i16)
    ensures
        final(buffer)@ == old(buffer)@ + instr(InstructionCode::DECIMAL_AS_INT_16) + le_bytes(
            value as int,
            2,
        ),
{
    append_instruction_code(buffer, InstructionCode::DECIMAL_AS_INT_16);
    append_i16(buffer, value);
}

/// Appends a whole-numbered decimal as a 32-bit integer.
pub fn append_float_as_i32(buffer: &mut Vec<u8>, value: i32)
    ensures
        final(buffer)@ == old(buffer)@ + instr(InstructionCode::DECIMAL_AS_INT_32) + le_bytes(
            value as int,
            4,
        ),
{
    append_instruction_code(buffer, InstructionCode::DECIMAL_AS_INT_32);
    append_i32(buffer, value);
}

/// Appends a type cast to the type with definition `definition`.
pub fn append_type_cast(buffer: &mut Vec<u8>, definition: &TypeDefinition)
    requires
        type_encodable(Type { type_definition: *definition, reference_mutability: None }),
    ensures
        final(buffer)@ == old(buffer)@ + type_cast_bytes(*definition),
{
    let ghost start = buffer@;
    append_instruction_code(buffer, InstructionCode::TYPED_VALUE);
    append_type_parts(buffer, definition, &None);
    assert(buffer@ =~= start + type_cast_bytes(*definition));
}

/// The position of the core library type of a typed integer.
pub open spec fn typed_integer_type_definition(integer: TypedInteger) -> TypeDefinition {
    let k: u8 = match integer {
        TypedInteger::I8(_) => 0,
        TypedInteger::I16(_) => 1,
        TypedInteger::I32(_) => 2,
        TypedInteger::I64(_) => 3,
        TypedInteger::I128(_) => 4,
        TypedInteger::U8(_) => 5,
        TypedInteger::U16(_) => 6,
        TypedInteger::U32(_) => 7,
        TypedInteger::U64(_) => 8,
        TypedInteger::U128(_) => 9,
        TypedInteger::Big(_) => 10,
    };
    TypeDefinition::Reference(Some(PointerAddress::Internal([0u8, 1u8, k])))
}

/// The position of the core library type of a typed decimal.
pub open spec fn typed_decimal_type_definition(decimal: TypedDecimal) -> TypeDefinition {
    let k: u8 = match decimal {
        TypedDecimal::F32(_) => 0,
        TypedDecimal::F64(_) => 1,
        TypedDecimal::Decimal(_) => 2,
    };
    TypeDefinition::Reference(Some(PointerAddress::Internal([0u8, 2u8, k])))
}

/// The core library type of a typed integer.
pub fn typed_integer_type(integer: &TypedInteger) -> (res: TypeDefinition)
    ensures
        res == typed_integer_type_definition(*integer),
{
    let k: u8 = match integer {
        TypedInteger::I8(_) => 0,
        TypedInteger::I16(_) => 1,
        TypedInteger::I32(_) => 2,
        TypedInteger::I64(_) => 3,
        TypedInteger::I128(_) => 4,
        TypedInteger::U8(_) => 5,
        TypedInteger::U16(_) => 6,
        TypedInteger::U32(_) => 7,
        TypedInteger::U64(_) => 8,
        TypedInteger::U128(_) => 9,
        TypedInteger::Big(_) => 10,
    };
    let res = TypeDefinition::Reference(Some(PointerAddress::Internal([0u8, 1u8, k])));
    assert(res == typed_integer_type_definition(*integer));
    res
}

/// The core library type of a typed decimal.
pub fn typed_decimal_type(decimal: &TypedDecimal) -> (res: TypeDefinition)
    ensures
        res == typed_decimal_type_definition(*decimal),
{
    let k: u8 = match decimal {
        TypedDecimal::F32(_) => 0,
        TypedDecimal::F64(_) => 1,
        TypedDecimal::Decimal(_) => 2,
    };
    let res = TypeDefinition::Reference(Some(PointerAddress::Internal([0u8, 2u8, k])));
    assert(res == typed_decimal_type_definition(*decimal));
    res
}

/// Appends a typed integer with an explicit type cast to its core library type.
pub fn append_typed_integer(buffer: &mut Vec<u8>, integer: &TypedInteger)
    ensures
        final(buffer)@ == old(buffer)@ + type_cast_bytes(typed_integer_type_definition(*integer))
            + encoded_integer_bytes(*integer),
{
    let definition = typed_integer_type(integer);
    append_type_cast(buffer, &definition);
    append_encoded_integer(buffer, integer);
}

/// Appends a typed decimal with an explicit type cast to its core library type.
pub fn append_typed_decimal(buffer: &mut Vec<u8>, decimal: &TypedDecimal)
    ensures
        final(buffer)@ == old(buffer)@ + type_cast_bytes(typed_decimal_type_definition(*decimal))
            + encoded_decimal_bytes(*decimal),
{
    let definition = typed_decimal_type(decimal);
    append_type_cast(buffer, &definition);
    append_encoded_decimal(buffer, decimal);
}

/// Appends a text key of a key-value pair: short keys directly, longer ones as a dynamic
/// key holding a text.
pub fn append_key_string(buffer: &mut Vec<u8>, key_string: &str)
    ensures
        final(buffer)@ == old(buffer)@ + key_string_bytes(encode_utf8(key_string@)),
{
    let ghost start = buffer@;
    let bytes = key_string.as_bytes();
    let len = bytes.len();
    if len < 256 {
        append_instruction_code(buffer, InstructionCode::KEY_VALUE_SHORT_TEXT);
        append_u8(buffer, len as u8);
        append_bytes(buffer, bytes);
    } else {
        append_instruction_code(buffer, InstructionCode::KEY_VALUE_DYNAMIC);
        append_text(buffer, key_string);
    }
    assert(buffer@ =~= start + key_string_bytes(encode_utf8(key_string@)));
}

/// Appends the encoding of a value container.
pub fn append_value_container(buffer: &mut Vec<u8>, value_container: &ValueContainer)
    requires
        container_encodable(*value_container),
    ensures
        final(buffer)@ == old(buffer)@ + container_bytes(*value_container),
    decreases value_container,
{
    let ghost start = buffer@;
    match value_container {
        ValueContainer::Value(value) => append_value(buffer, value),
        ValueContainer::Reference(reference) => {
            match reference.mutability {
                ReferenceMutability::Mutable => append_instruction_code(
                    buffer,
                    InstructionCode::CREATE_REF_MUT,
                ),
                _ => append_instruction_code(buffer, InstructionCode::CREATE_REF),
            }
            append_value(buffer, &reference.value);
            assert(buffer@ =~= start + container_bytes(*value_container));
        },
    }
}

/// Appends the key of a key-value pair: a text key as a key string, any other key as a
/// dynamic key followed by its encoding.
fn append_key(buffer: &mut Vec<u8>, key: &ValueContainer)
    requires
        container_encodable(*key),
    ensures
        final(buffer)@ == old(buffer)@ + key_bytes(*key),
{
    let ghost start = buffer@;
    match key {
        ValueContainer::Value(Value { inner: CoreValue::Text(text), .. }) => {
            append_key_string(buffer, text.as_str());
        },
        _ => {
            append_instruction_code(buffer, InstructionCode::KEY_VALUE_DYNAMIC);
            append_value_container(buffer, key);
            assert(buffer@ =~= start + key_bytes(*key));
        },
    }
}

/// Appends the encoding of a value: a type cast when the value does not have its default
/// type, then the inner value.
#[verifier::rlimit(40)]
pub fn append_value(buffer: &mut Vec<u8>, value: &Value)
    requires
        value_encodable(*value),
    ensures
        final(buffer)@ == old(buffer)@ + value_bytes(*value),
    decreases value,
{
    let ghost start = buffer@;
    match &value.actual_type {
        Some(definition) => append_type_cast(buffer, definition),
        None => {},
    }
    let ghost after_cast = buffer@;
    match &value.inner {
        CoreValue::Integer(integer) => append_integer(buffer, integer),
        CoreValue::TypedInteger(integer) => append_encoded_integer(buffer, integer),
        CoreValue::Endpoint(endpoint) => append_endpoint(buffer, endpoint),
        CoreValue::Decimal(decimal) => append_decimal(buffer, decimal),
        CoreValue::TypedDecimal(decimal) => append_encoded_decimal(buffer, decimal),
        CoreValue::Boolean(b) => append_boolean(buffer, *b),
        CoreValue::Null => append_instruction_code(buffer, InstructionCode::NULL),
        CoreValue::Text(text) => append_text(buffer, text.as_str()),
        CoreValue::List(items) => {
            let len = items.len();
            if len < 256 {
                append_instruction_code(buffer, InstructionCode::SHORT_LIST);
                append_u8(buffer, len as u8);
            } else {
                append_instruction_code(buffer, InstructionCode::LIST);
                append_len_u32(buffer, len);
            }
            let ghost header_end = buffer@;
            assert(header_end =~= after_cast + collection_header(
                InstructionCode::SHORT_LIST,
                InstructionCode::LIST,
                items@.len(),
            ));
            let mut i: usize = 0;
            assert(items@.subrange(0, len as int) =~= items@);
            while i < len
                invariant
                    i <= len == items@.len(),
                    buffer@ + items_bytes(items@.subrange(i as int, len as int)) == header_end
                        + items_bytes(items@),
                    items_encodable(items@.subrange(i as int, len as int)),
                    value.inner == CoreValue::List(*items),
                decreases len - i,
            {
                let ghost rest = items@.subrange(i as int, len as int);
                assert(rest.subrange(1, rest.len() as int) =~= items@.subrange(i + 1, len as int));
                assert(rest[0] == items@[i as int]);
                assert(decreases_to!(*value => value.inner));
                assert(decreases_to!(value.inner => value.inner->List_0));
                assert(decreases_to!(*items => items@));
                assert(decreases_to!(items@ => items@[i as int]));
                append_value_container(buffer, &items[i]);
                i = i + 1;
                assert(buffer@ + items_bytes(items@.subrange(i as int, len as int)) =~= header_end
                    + items_bytes(items@));
            }
            assert(items@.subrange(len as int, len as int) =~= Seq::<ValueContainer>::empty());
            assert(buffer@ =~= header_end + items_bytes(items@));
        },
        CoreValue::KeyValueMap(entries) => {
            let len = entries.len();
            if len < 256 {
                append_instruction_code(buffer, InstructionCode::SHORT_MAP);
                append_u8(buffer, len as u8);
            } else {
                append_instruction_code(buffer, InstructionCode::MAP);
                append_len_u32(buffer, len);
            }
            let ghost header_end = buffer@;
            assert(header_end =~= after_cast + collection_header(
                InstructionCode::SHORT_MAP,
                InstructionCode::MAP,
                entries@.len(),
            ));
            let mut i: usize = 0;
            assert(entries@.subrange(0, len as int) =~= entries@);
            while i < len
                invariant
                    i <= len == entries@.len(),
                    buffer@ + entries_bytes(entries@.subrange(i as int, len as int)) == header_end
                        + entries_bytes(entries@),
                    entries_encodable(entries@.subrange(i as int, len as int)),
                    value.inner == CoreValue::KeyValueMap(*entries),
                decreases len - i,
            {
                let ghost rest = entries@.subrange(i as int, len as int);
                assert(rest.subrange(1, rest.len() as int) =~= entries@.subrange(
                    i + 1,
                    len as int,
                ));
                assert(rest[0] == entries@[i as int]);
                let entry = &entries[i];
                let ghost before = buffer@;
                assert(decreases_to!(*value => value.inner));
                assert(decreases_to!(value.inner => value.inner->KeyValueMap_0));
                assert(decreases_to!(*entries => entries@));
                assert(decreases_to!(entries@ => entries@[i as int]));
                assert(decreases_to!(entries@[i as int] => entries@[i as int].0));
                assert(decreases_to!(entries@[i as int] => entries@[i as int].1));
                match &entry.0 {
                    ValueContainer::Value(Value { inner: CoreValue::Text(text), .. }) => {
                        append_key_string(buffer, text.as_str());
                    },
                    _ => {
                        append_instruction_code(buffer, InstructionCode::KEY_VALUE_DYNAMIC);
                        append_value_container(buffer, &entry.0);
                    },
                }
                assert(buffer@ =~= before + key_bytes(entry.0));
                append_value_container(buffer, &entry.1);
                assert(key_value_bytes(*entry) == key_bytes(entry.0) + container_bytes(entry.1));
                i = i + 1;
                assert(buffer@ + entries_bytes(entries@.subrange(i as int, len as int))
                    =~= header_end + entries_bytes(entries@));
            }
            assert(entries@.subrange(len as int, len as int) =~= Seq::<
                (ValueContainer, ValueContainer),
            >::empty());
            assert(buffer@ =~= header_end + entries_bytes(entries@));
        },
    }
    assert(buffer@ =~= start + value_bytes(*value));
}

/// Appends a key-value pair: the key (see `key_bytes`), then the value.
pub fn append_key_value_pair(buffer: &mut Vec<u8>, key: &ValueContainer, value: &ValueContainer)
    requires
        container_encodable(*key),
        container_encodable(*value),
    ensures
        final(buffer)@ == old(buffer)@ + key_value_bytes((*key, *value)),
{
    append_key(buffer, key);
    append_value_container(buffer, value);
}

/// Compiles a value container to a DXB body.
pub fn compile_value_container(value_container: &ValueContainer) -> (buffer: Vec<u8>)
    requires
        container_encodable(*value_container),
    ensures
        buffer@ == container_bytes(*value_container),
{
    let mut buffer: Vec<u8> = Vec::with_capacity(256);
    append_value_container(&mut buffer, value_container);
    assert(buffer@ =~= container_bytes(*value_container));
    buffer
}

/// Appends the encoding of an instruction code.
pub fn append_instruction_code(buffer: &mut Vec<u8>, code: InstructionCode)
    ensures
        final(buffer)@ == old(buffer)@.push(instruction_code_byte(code)),
{
    let b = code.byte();
    append_u8(buffer, b);
}

/// Appends a reference to the pointer at `address`.
pub fn append_get_ref(buffer: &mut Vec<u8>, address: &PointerAddress)
    ensures
        final(buffer)@ == old(buffer)@ + get_ref_bytes(*address),
{
    let ghost start = buffer@;
    match address {
        PointerAddress::Internal(id) => {
            append_instruction_code(buffer, InstructionCode::GET_INTERNAL_REF);
            append_bytes(buffer, id);
        },
        PointerAddress::Local(id) => {
            append_instruction_code(buffer, InstructionCode::GET_LOCAL_REF);
            append_bytes(buffer, id);
        },
        PointerAddress::Remote(id) => {
            append_instruction_code(buffer, InstructionCode::GET_REF);
            append_bytes(buffer, id);
        },
    }
    assert(buffer@ =~= start + get_ref_bytes(*address));
}


/// Each kind of typed decimal has a core type of its own: the type of a typed decimal is the
/// internal pointer `[0, 2, i]`, where `i` is the position of the decimal's own variant in the
/// list of decimal variants (`f32`, `f64`, big); two typed decimals share a type exactly when
/// they share a variant.
pub proof fn lemma_typed_decimal_types(a: TypedDecimal, b: TypedDecimal)
    ensures
        (typed_decimal_type_definition(a) == typed_decimal_type_definition(b)) <==> (
        decimal_variant(a) == decimal_variant(b)),
        exists|i: int|
            0 <= i < decimal_variants().len() && decimal_variants()[i] == decimal_variant(a)
                && #[trigger] typed_decimal_type_definition(a) == TypeDefinition::Reference(
                Some(PointerAddress::Internal([0u8, 2u8, i as u8])),
            ),
{
    let ka: int = match a {
        TypedDecimal::F32(_) => 0,
        TypedDecimal::F64(_) => 1,
        TypedDecimal::Decimal(_) => 2,
    };
    let kb: int = match b {
        TypedDecimal::F32(_) => 0,
        TypedDecimal::F64(_) => 1,
        TypedDecimal::Decimal(_) => 2,
    };
    let ta = typed_decimal_type_definition(a);
    let tb = typed_decimal_type_definition(b);
    assert(ta == TypeDefinition::Reference(Some(PointerAddress::Internal([0u8, 2u8, ka as u8]))));
    assert(tb == TypeDefinition::Reference(Some(PointerAddress::Internal([0u8, 2u8, kb as u8]))));
    if ta == tb {
        let xa = [0u8, 2u8, ka as u8];
        let xb = [0u8, 2u8, kb as u8];
        assert(xa == xb);
        assert(xa@[2] == xb@[2]);
    }
    assert(decimal_variants()[ka] == decimal_variant(a));
}

/// Each kind of typed integer has a core type of its own: the type of a typed integer is an
/// internal pointer `[0, 1, k]`, and two typed integers share a type exactly when they share
/// a variant.
pub proof fn lemma_typed_integer_types(a: TypedInteger, b: TypedInteger)
    ensures
        (typed_integer_type_definition(a) == typed_integer_type_definition(b)) <==> (
        integer_variant(a) == integer_variant(b)),
        typed_integer_type_definition(a) matches TypeDefinition::Reference(
            Some(PointerAddress::Internal(x)),
        ) && x@[0] == 0 && x@[1] == 1,
{
    let ka: u8 = match a {
        TypedInteger::I8(_) => 0,
        TypedInteger::I16(_) => 1,
        TypedInteger::I32(_) => 2,
        TypedInteger::I64(_) => 3,
        TypedInteger::I128(_) => 4,
        TypedInteger::U8(_) => 5,
        TypedInteger::U16(_) => 6,
        TypedInteger::U32(_) => 7,
        TypedInteger::U64(_) => 8,
        TypedInteger::U128(_) => 9,
        TypedInteger::Big(_) => 10,
    };
    let kb: u8 = match b {
        TypedInteger::I8(_) => 0,
        TypedInteger::I16(_) => 1,
        TypedInteger::I32(_) => 2,
        TypedInteger::I64(_) => 3,
        TypedInteger::I128(_) => 4,
        TypedInteger::U8(_) => 5,
        TypedInteger::U16(_) => 6,
        TypedInteger::U32(_) => 7,
        TypedInteger::U64(_) => 8,
        TypedInteger::U128(_) => 9,
        TypedInteger::Big(_) => 10,
    };
    let xa = [0u8, 1u8, ka];
    let xb = [0u8, 1u8, kb];
    assert(typed_integer_type_definition(a) == TypeDefinition::Reference(Some(PointerAddress::Internal(xa))));
    assert(typed_integer_type_definition(b) == TypeDefinition::Reference(Some(PointerAddress::Internal(xb))));
    if typed_integer_type_definition(a) == typed_integer_type_definition(b) {
        assert(xa == xb);
        assert(xa@[2] == xb@[2]);
    }
    assert(xa@[0] == 0 && xa@[1] == 1);
}


/// The fixed-size integer type that an instruction code announces, with its width in bytes.
pub open spec fn fixed_integer_code(c: InstructionCode) -> Option<(IntegerTypeVariant, nat)> {
    match c {
        InstructionCode::INT_8 => Some((IntegerTypeVariant::I8, 1nat)),
        InstructionCode::INT_16 => Some((IntegerTypeVariant::I16, 2nat)),
        InstructionCode::INT_32 => Some((IntegerTypeVariant::I32, 4nat)),
        InstructionCode::INT_64 => Some((IntegerTypeVariant::I64, 8nat)),
        InstructionCode::INT_128 => Some((IntegerTypeVariant::I128, 16nat)),
        InstructionCode::UINT_8 => Some((IntegerTypeVariant::U8, 1nat)),
        InstructionCode::UINT_16 => Some((IntegerTypeVariant::U16, 2nat)),
        InstructionCode::UINT_32 => Some((IntegerTypeVariant::U32, 4nat)),
        InstructionCode::UINT_64 => Some((IntegerTypeVariant::U64, 8nat)),
        InstructionCode::UINT_128 => Some((IntegerTypeVariant::U128, 16nat)),
        _ => None,
    }
}

/// The signed integer type variants.
pub open spec fn is_signed_variant(v: IntegerTypeVariant) -> bool {
    v == IntegerTypeVariant::I8 || v == IntegerTypeVariant::I16 || v == IntegerTypeVariant::I32
        || v == IntegerTypeVariant::I64 || v == IntegerTypeVariant::I128
}

/// A fixed-size typed integer is written as an instruction code that announces the integer's
/// own type, followed by exactly as many little-endian bytes as that type is wide, which read
/// back (as two's complement for signed types) give the integer's value.
pub proof fn lemma_encoded_integer(i: TypedInteger)
    requires
        !(i is Big),
    ensures
        encoded_integer_bytes(i).len() >= 1,
        instruction_code_of_byte(encoded_integer_bytes(i)[0]) matches Some(c) && fixed_integer_code(
            c,
        ) == Some((integer_variant(i), (encoded_integer_bytes(i).len() - 1) as nat)),
        is_signed_variant(integer_variant(i)) ==> le_signed(encoded_integer_bytes(i).skip(1))
            == typed_integer_value(i),
        !is_signed_variant(integer_variant(i)) ==> le_unsigned(encoded_integer_bytes(i).skip(1))
            == typed_integer_value(i),
{
    lemma_pow256_values();
    let b = encoded_integer_bytes(i);
    match i {
        TypedInteger::I8(v) => {
            lemma_le_signed_round_trip(v as int, 1);
            lemma_le_bytes_len(v as int, 1);
            assert(b.skip(1) =~= le_bytes(v as int, 1));
        },
        TypedInteger::I16(v) => {
            lemma_le_signed_round_trip(v as int, 2);
            lemma_le_bytes_len(v as int, 2);
            assert(b.skip(1) =~= le_bytes(v as int, 2));
        },
        TypedInteger::I32(v) => {
            lemma_le_signed_round_trip(v as int, 4);
            lemma_le_bytes_len(v as int, 4);
            assert(b.skip(1) =~= le_bytes(v as int, 4));
        },
        TypedInteger::I64(v) => {
            lemma_le_signed_round_trip(v as int, 8);
            lemma_le_bytes_len(v as int, 8);
            assert(b.skip(1) =~= le_bytes(v as int, 8));
        },
        TypedInteger::I128(v) => {
            lemma_le_signed_round_trip(v as int, 16);
            lemma_le_bytes_len(v as int, 16);
            assert(b.skip(1) =~= le_bytes(v as int, 16));
        },
        TypedInteger::U8(v) => {
            assert(b.skip(1) =~= seq![v]);
            assert(seq![v].drop_first() =~= Seq::<u8>::empty());
            assert(le_unsigned(Seq::<u8>::empty()) == 0);
            assert(le_unsigned(seq![v]) == v as int);
        },
        TypedInteger::U16(v) => {
            lemma_le_unsigned_round_trip(v as int, 2);
            lemma_le_bytes_len(v as int, 2);
            assert(b.skip(1) =~= le_bytes(v as int, 2));
        },
        TypedInteger::U32(v) => {
            lemma_le_unsigned_round_trip(v as int, 4);
            lemma_le_bytes_len(v as int, 4);
            assert(b.skip(1) =~= le_bytes(v as int, 4));
        },
        TypedInteger::U64(v) => {
            lemma_le_unsigned_round_trip(v as int, 8);
            lemma_le_bytes_len(v as int, 8);
            assert(b.skip(1) =~= le_bytes(v as int, 8));
        },
        TypedInteger::U128(v) => {
            lemma_le_unsigned_round_trip(v as int, 16);
            lemma_le_bytes_len(v as int, 16);
            assert(b.skip(1) =~= le_bytes(v as int, 16));
        },
        TypedInteger::Big(_) => {},
    }
    let c = instruction_code_of_byte(b[0])->0;
    match i {
        TypedInteger::I8(_) => lemma_instruction_code_bytes(InstructionCode::INT_8),
        TypedInteger::I16(_) => lemma_instruction_code_bytes(InstructionCode::INT_16),
        TypedInteger::I32(_) => lemma_instruction_code_bytes(InstructionCode::INT_32),
        TypedInteger::I64(_) => lemma_instruction_code_bytes(InstructionCode::INT_64),
        TypedInteger::I128(_) => lemma_instruction_code_bytes(InstructionCode::INT_128),
        TypedInteger::U8(_) => lemma_instruction_code_bytes(InstructionCode::UINT_8),
        TypedInteger::U16(_) => lemma_instruction_code_bytes(InstructionCode::UINT_16),
        TypedInteger::U32(_) => lemma_instruction_code_bytes(InstructionCode::UINT_32),
        TypedInteger::U64(_) => lemma_instruction_code_bytes(InstructionCode::UINT_64),
        TypedInteger::U128(_) => lemma_instruction_code_bytes(InstructionCode::UINT_128),
        TypedInteger::Big(_) => {},
    }
}

} // verus!
