//! A direct bytecode writer: integers in their smallest signed form, texts, keys and other
//! values written straight into a buffer that counts the bytes written.
use vstd::prelude::*;
use crate::core_compiler::type_compiler::append_bytes;
use crate::core_compiler::value_compiler::{
    append_big_decimal, append_instruction_code, big_decimal_bytes, instr, key_string_bytes,
    text_bytes,
};
use crate::compiler::error::CompilerError;
use crate::global::instruction_codes::InstructionCode;
use crate::utils::buffers::{
    append_f32_bits, append_f64_bits, append_i128, append_i16, append_i32, append_i64, append_i8,
    append_u128, append_u32, append_u8, le_bytes, lemma_le_bytes_len,
};
use crate::compiler::expression_compiler::{whole_decimal_i32, whole_decimal_value};
use crate::values::core_values::{Decimal, Endpoint, TypedDecimal, TypedInteger};
use crate::values::value::{CoreValue, Value, ValueContainer};
use vstd::utf8::encode_utf8;

verus! {

/// The encoding of an integer in the smallest of the signed forms of 1, 2, 4 and 8 bytes that
/// holds it.
pub open spec fn smallest_int_bytes(v: i64) -> Seq<u8> {
    if -128 <= v <= 127 {
        instr(InstructionCode::INT_8) + le_bytes(v as int, 1)
    } else if -32768 <= v <= 32767 {
        instr(InstructionCode::INT_16) + le_bytes(v as int, 2)
    } else if -2147483648 <= v <= 2147483647 {
        instr(InstructionCode::INT_32) + le_bytes(v as int, 4)
    } else {
        instr(InstructionCode::INT_64) + le_bytes(v as int, 8)
    }
}

/// The value of a typed integer.
pub open spec fn typed_integer_value(i: TypedInteger) -> int {
    match i {
        TypedInteger::I8(v) => v as int,
        TypedInteger::I16(v) => v as int,
        TypedInteger::I32(v) => v as int,
        TypedInteger::I64(v) => v as int,
        TypedInteger::I128(v) => v as int,
        TypedInteger::U8(v) => v as int,
        TypedInteger::U16(v) => v as int,
        TypedInteger::U32(v) => v as int,
        TypedInteger::U64(v) => v as int,
        TypedInteger::U128(v) => v as int,
        TypedInteger::Big(v) => v.value as int,
    }
}

/// The encoding of an integer in the smallest of the signed forms of 1, 2, 4, 8 and 16 bytes
/// that holds it, and beyond them in the unsigned 16-byte form.
pub open spec fn smallest_integer_bytes(n: int) -> Seq<u8> {
    if -0x80 <= n < 0x80 {
        instr(InstructionCode::INT_8) + le_bytes(n, 1)
    } else if -0x8000 <= n < 0x8000 {
        instr(InstructionCode::INT_16) + le_bytes(n, 2)
    } else if -0x8000_0000 <= n < 0x8000_0000 {
        instr(InstructionCode::INT_32) + le_bytes(n, 4)
    } else if -0x8000_0000_0000_0000 <= n < 0x8000_0000_0000_0000 {
        instr(InstructionCode::INT_64) + le_bytes(n, 8)
    } else if -0x8000_0000_0000_0000_0000_0000_0000_0000 <= n
        < 0x8000_0000_0000_0000_0000_0000_0000_0000 {
        instr(InstructionCode::INT_128) + le_bytes(n, 16)
    } else {
        instr(InstructionCode::UINT_128) + le_bytes(n, 16)
    }
}

/// The encoding of an exact decimal of a typed decimal: a whole number that fits a 16-bit or
/// 32-bit integer as that integer, any other decimal in full.
pub open spec fn typed_exact_decimal_bytes(d: Decimal) -> Seq<u8> {
    match whole_decimal_value(d) {
        Some(w) => if -0x8000 <= w < 0x8000 {
            instr(InstructionCode::DECIMAL_AS_INT_16) + le_bytes(w, 2)
        } else if -0x8000_0000 <= w < 0x8000_0000 {
            instr(InstructionCode::DECIMAL_AS_INT_32) + le_bytes(w, 4)
        } else {
            instr(InstructionCode::DECIMAL_BIG) + big_decimal_bytes(d)
        },
        None => instr(InstructionCode::DECIMAL_BIG) + big_decimal_bytes(d),
    }
}

/// The encoding of a value by the direct writer: integers of any type in their smallest form,
/// lists between `ARRAY_START` and `SCOPE_END`, maps as key-value pairs between
/// `OBJECT_START` and `SCOPE_END`.
pub open spec fn smallest_value_bytes(v: Value) -> Seq<u8>
    decreases v,
{
    match v.inner {
        CoreValue::Integer(i) => smallest_integer_bytes(i.value as int),
        CoreValue::TypedInteger(i) => smallest_integer_bytes(typed_integer_value(i)),
        CoreValue::Endpoint(e) => instr(InstructionCode::ENDPOINT) + e.binary@,
        CoreValue::Decimal(d) => instr(InstructionCode::DECIMAL_BIG) + big_decimal_bytes(d),
        CoreValue::TypedDecimal(TypedDecimal::F32(bits)) => instr(InstructionCode::DECIMAL_F32)
            + le_bytes(bits as int, 4),
        CoreValue::TypedDecimal(TypedDecimal::F64(bits)) => instr(InstructionCode::DECIMAL_F64)
            + le_bytes(bits as int, 8),
        CoreValue::TypedDecimal(TypedDecimal::Decimal(d)) => typed_exact_decimal_bytes(d),
        CoreValue::Boolean(b) => instr(
            if b {
                InstructionCode::TRUE
            } else {
                InstructionCode::FALSE
            },
        ),
        CoreValue::Null => instr(InstructionCode::NULL),
        CoreValue::Text(s) => text_bytes(encode_utf8(s@)),
        CoreValue::List(items) => instr(InstructionCode::ARRAY_START) + smallest_items_bytes(items@)
            + instr(InstructionCode::SCOPE_END),
        CoreValue::KeyValueMap(entries) => instr(InstructionCode::OBJECT_START)
            + smallest_pairs_bytes(entries@) + instr(InstructionCode::SCOPE_END),
    }
}

/// The encoding of a value container by the direct writer: a reference is written as
/// `CREATE_REF` and its value.
pub open spec fn smallest_container_bytes(vc: ValueContainer) -> Seq<u8>
    decreases vc,
{
    match vc {
        ValueContainer::Value(v) => smallest_value_bytes(v),
        ValueContainer::Reference(r) => instr(InstructionCode::CREATE_REF) + smallest_value_bytes(
            r.value,
        ),
    }
}

/// The encodings of list items, one after the other.
pub open spec fn smallest_items_bytes(items: Seq<ValueContainer>) -> Seq<u8>
    decreases items,
{
    if items.len() == 0 {
        Seq::empty()
    } else {
        smallest_container_bytes(items[0]) + smallest_items_bytes(
            items.subrange(1, items.len() as int),
        )
    }
}

/// The encodings of key-value pairs, one after the other.
pub open spec fn smallest_pairs_bytes(entries: Seq<(ValueContainer, ValueContainer)>) -> Seq<u8>
    decreases entries,
{
    if entries.len() == 0 {
        Seq::empty()
    } else {
        smallest_pair_bytes(entries[0]) + smallest_pairs_bytes(
            entries.subrange(1, entries.len() as int),
        )
    }
}

/// The encoding of a key-value pair: a text key as a key string, any other key as a dynamic
/// key; then the value.
pub open spec fn smallest_pair_bytes(entry: (ValueContainer, ValueContainer)) -> Seq<u8>
    decreases entry,
{
    (match entry.0 {
        ValueContainer::Value(Value { inner: CoreValue::Text(text), .. }) => key_string_bytes(
            encode_utf8(text@),
        ),
        _ => instr(InstructionCode::KEY_VALUE_DYNAMIC) + smallest_container_bytes(entry.0),
    }) + smallest_container_bytes(entry.1)
}

/// Whether writing `v` writes value containers nested in it (which raise the flag of
/// non-static values).
pub open spec fn nests_containers(v: Value) -> bool {
    match v.inner {
        CoreValue::List(items) => items@.len() > 0,
        CoreValue::KeyValueMap(entries) => entries@.len() > 0,
        _ => false,
    }
}

/// The state of the writer.
pub struct CompilationContext {
    /// The number of bytes written.
    pub index: usize,
    pub inserted_value_index: usize,
    pub buffer: Vec<u8>,
    pub inserted_values: Vec<ValueContainer>,
    /// Set when any non-static value is encountered.
    pub has_non_static_value: bool,
}

impl CompilationContext {
    /// The count of written bytes does not exceed the buffer.
    pub open spec fn wf(&self) -> bool {
        self.index <= self.buffer.len()
    }

    /// `self` after writing `bytes`.
    pub open spec fn wrote(&self, before: &Self, bytes: Seq<u8>) -> bool {
        &&& self.wf()
        &&& self.buffer@ == before.buffer@ + bytes
        &&& self.index == before.index + bytes.len()
        &&& self.has_non_static_value == before.has_non_static_value
        &&& self.inserted_value_index == before.inserted_value_index
    }

    proof fn lemma_wrote_concat(a: Self, b: Self, c: Self, x: Seq<u8>, y: Seq<u8>)
        requires
            b.wrote(&a, x),
            c.wrote(&b, y),
        ensures
            c.wrote(&a, x + y),
    {
        assert(c.buffer@ =~= a.buffer@ + (x + y));
    }

    /// A writer on `buffer` that has written nothing yet.
    pub fn new(buffer: Vec<u8>, inserted_values: Vec<ValueContainer>) -> (ctx: Self)
        ensures
            ctx.wf(),
            ctx.index == 0,
            ctx.inserted_value_index == 0,
            ctx.buffer@ == buffer@,
            ctx.inserted_values@ == inserted_values@,
            !ctx.has_non_static_value,
    {
        CompilationContext {
            index: 0,
            inserted_value_index: 0,
            buffer,
            inserted_values,
            has_non_static_value: false,
        }
    }

    /// Counts `n` more written bytes.
    fn advance(&mut self, n: usize)
        requires
            old(self).index + n <= old(self).buffer.len(),
        ensures
            final(self).index == old(self).index + n,
            final(self).buffer == old(self).buffer,
            final(self).has_non_static_value == old(self).has_non_static_value,
            final(self).inserted_value_index == old(self).inserted_value_index,
    {
        self.index = self.index + n;
    }

    /// Writes one byte.
    pub fn append_u8(&mut self, v: u8)
        requires
            old(self).wf(),
        ensures
            final(self).wrote(&*old(self), seq![v]),
    {
        append_u8(&mut self.buffer, v);
        self.advance(1);
    }

    /// Writes `v` as four bytes, little-endian.
    pub fn append_u32(&mut self, v: u32)
        requires
            old(self).wf(),
        ensures
            final(self).wrote(&*old(self), le_bytes(v as int, 4)),
    {
        append_u32(&mut self.buffer, v);
        proof {
            lemma_le_bytes_len(v as int, 4);
        }
        self.advance(4);
    }

    /// Writes `v` as one byte of two's complement.
    pub fn append_i8(&mut self, v: i8)
        requires
            old(self).wf(),
        ensures
            final(self).wrote(&*old(self), le_bytes(v as int, 1)),
    {
        append_i8(&mut self.buffer, v);
        proof {
            lemma_le_bytes_len(v as int, 1);
        }
        self.advance(1);
    }

    /// Writes `v` as two bytes of two's complement, little-endian.
    pub fn append_i16(&mut self, v: i16)
        requires
            old(self).wf(),
        ensures
            final(self).wrote(&*old(self), le_bytes(v as int, 2)),
    {
        append_i16(&mut self.buffer, v);
        proof {
            lemma_le_bytes_len(v as int, 2);
        }
        self.advance(2);
    }

    /// Writes `v` as four bytes of two's complement, little-endian.
    pub fn append_i32(&mut self, v: i32)
        requires
            old(self).wf(),
        ensures
            final(self).wrote(&*old(self), le_bytes(v as int, 4)),
    {
        append_i32(&mut self.buffer, v);
        proof {
            lemma_le_bytes_len(v as int, 4);
        }
        self.advance(4);
    }

    /// Writes `v` as eight bytes of two's complement, little-endian.
    pub fn append_i64(&mut self, v: i64)
        requires
            old(self).wf(),
        ensures
            final(self).wrote(&*old(self), le_bytes(v as int, 8)),
    {
        append_i64(&mut self.buffer, v);
        proof {
            lemma_le_bytes_len(v as int, 8);
        }
        self.advance(8);
    }

    /// Writes `v` as sixteen bytes of two's complement, little-endian.
    pub fn append_i128(&mut self, v: i128)
        requires
            old(self).wf(),
        ensures
            final(self).wrote(&*old(self), le_bytes(v as int, 16)),
    {
        append_i128(&mut self.buffer, v);
        proof {
            lemma_le_bytes_len(v as int, 16);
        }
        self.advance(16);
    }

    /// Writes `v` as sixteen bytes, little-endian.
    pub fn append_u128(&mut self, v: u128)
        requires
            old(self).wf(),
        ensures
            final(self).wrote(&*old(self), le_bytes(v as int, 16)),
    {
        append_u128(&mut self.buffer, v);
        proof {
            lemma_le_bytes_len(v as int, 16);
        }
        self.advance(16);
    }

    /// Writes the bits of a 32-bit float, little-endian.
    pub fn append_f32(&mut self, bits: u32)
        requires
            old(self).wf(),
        ensures
            final(self).wrote(&*old(self), le_bytes(bits as int, 4)),
    {
        append_f32_bits(&mut self.buffer, bits);
        proof {
            lemma_le_bytes_len(bits as int, 4);
        }
        self.advance(4);
    }

    /// Writes the bits of a 64-bit float, little-endian.
    pub fn append_f64(&mut self, bits: u64)
        requires
            old(self).wf(),
        ensures
            final(self).wrote(&*old(self), le_bytes(bits as int, 8)),
    {
        append_f64_bits(&mut self.buffer, bits);
        proof {
            lemma_le_bytes_len(bits as int, 8);
        }
        self.advance(8);
    }

    /// Writes the UTF-8 bytes of `string`.
    pub fn append_string_utf8(&mut self, string: &str)
        requires
            old(self).wf(),
        ensures
            final(self).wrote(&*old(self), encode_utf8(string@)),
    {
        let bytes = string.as_bytes();
        self.append_buffer(bytes);
    }

    /// Writes `bytes`.
    pub fn append_buffer(&mut self, bytes: &[u8])
        requires
            old(self).wf(),
        ensures
            final(self).wrote(&*old(self), bytes@),
    {
        append_bytes(&mut self.buffer, bytes);
        self.advance(bytes.len());
    }

    /// Writes an instruction code.
    pub fn append_binary_code(&mut self, code: InstructionCode)
        requires
            old(self).wf(),
        ensures
            final(self).wrote(&*old(self), instr(code)),
    {
        let b = code.byte();
        self.append_u8(b);
    }

    /// Sets the flag that a non-static value was encountered.
    pub fn mark_has_non_static_value(&mut self)
        ensures
            final(self).has_non_static_value,
            final(self).buffer == old(self).buffer,
            final(self).index == old(self).index,
            final(self).inserted_value_index == old(self).inserted_value_index,
    {
        self.has_non_static_value = true;
    }

    /// Writes a boolean.
    pub fn insert_boolean(&mut self, boolean: bool)
        requires
            old(self).wf(),
        ensures
            final(self).wrote(
                &*old(self),
                instr(
                    if boolean {
                        InstructionCode::TRUE
                    } else {
                        InstructionCode::FALSE
                    },
                ),
            ),
    {
        if boolean {
            self.append_binary_code(InstructionCode::TRUE);
        } else {
            self.append_binary_code(InstructionCode::FALSE);
        }
    }

    /// Writes a text: short texts (under 256 bytes) with a one-byte length, others with a
    /// four-byte length.
    pub fn insert_text(&mut self, string: &str)
        requires
            old(self).wf(),
        ensures
            final(self).wrote(&*old(self), text_bytes(encode_utf8(string@))),
    {
        let ghost before = *self;
        let bytes = string.as_bytes();
        let len = bytes.len();
        if len < 256 {
            self.append_binary_code(InstructionCode::SHORT_TEXT);
            self.append_u8(len as u8);
        } else {
            self.append_binary_code(InstructionCode::TEXT);
            proof {
                assert((len as u32) as int == len as int % 0x1_0000_0000) by (bit_vector);
                crate::utils::buffers::lemma_pow256_values();
                crate::utils::buffers::lemma_le_bytes_periodic(
                    (len as u32) as int,
                    len as int / 0x1_0000_0000,
                    4,
                );
            }
            self.append_u32(len as u32);
        }
        self.append_buffer(bytes);
        assert(self.buffer@ =~= before.buffer@ + text_bytes(encode_utf8(string@)));
    }

    /// Writes a text key of a key-value pair: short keys directly, longer ones as a dynamic key
    /// holding a text.
    pub fn insert_key_string(&mut self, key_string: &str)
        requires
            old(self).wf(),
        ensures
            final(self).wrote(&*old(self), key_string_bytes(encode_utf8(key_string@))),
    {
        let ghost before = *self;
        let bytes = key_string.as_bytes();
        let len = bytes.len();
        if len < 256 {
            self.append_binary_code(InstructionCode::KEY_VALUE_SHORT_TEXT);
            self.append_u8(len as u8);
            self.append_buffer(bytes);
        } else {
            self.append_binary_code(InstructionCode::KEY_VALUE_DYNAMIC);
            self.insert_text(key_string);
        }
        assert(self.buffer@ =~= before.buffer@ + key_string_bytes(encode_utf8(key_string@)));
    }

    /// Writes an endpoint.
    pub fn insert_endpoint(&mut self, endpoint: &Endpoint)
        requires
            old(self).wf(),
        ensures
            final(self).wrote(&*old(self), instr(InstructionCode::ENDPOINT) + endpoint.binary@),
    {
        let ghost s0 = *self;
        self.append_binary_code(InstructionCode::ENDPOINT);
        let ghost s1 = *self;
        self.append_buffer(endpoint.binary.as_slice());
        proof {
            Self::lemma_wrote_concat(s0, s1, *self, instr(InstructionCode::ENDPOINT), endpoint.binary@);
        }
    }

    /// Writes an exact decimal.
    pub fn insert_decimal(&mut self, decimal: &Decimal)
        requires
            old(self).wf(),
        ensures
            final(self).wrote(&*old(self), instr(InstructionCode::DECIMAL_BIG) + big_decimal_bytes(*decimal)),
    {
        let ghost s0 = *self;
        self.append_binary_code(InstructionCode::DECIMAL_BIG);
        let ghost s1 = *self;
        let start = self.buffer.len();
        append_big_decimal(&mut self.buffer, decimal);
        let written = self.buffer.len() - start;
        self.advance(written);
        proof {
            Self::lemma_wrote_concat(
                s0,
                s1,
                *self,
                instr(InstructionCode::DECIMAL_BIG),
                big_decimal_bytes(*decimal),
            );
        }
    }

    /// Writes a 32-bit float, given by its bits.
    pub fn insert_float32(&mut self, bits: u32)
        requires
            old(self).wf(),
        ensures
            final(self).wrote(&*old(self), instr(InstructionCode::DECIMAL_F32) + le_bytes(bits as int, 4)),
    {
        let ghost s0 = *self;
        self.append_binary_code(InstructionCode::DECIMAL_F32);
        let ghost s1 = *self;
        self.append_f32(bits);
        proof {
            Self::lemma_wrote_concat(s0, s1, *self, instr(InstructionCode::DECIMAL_F32), le_bytes(bits as int, 4));
        }
    }

    /// Writes a 64-bit float, given by its bits.
    pub fn insert_float64(&mut self, bits: u64)
        requires
            old(self).wf(),
        ensures
            final(self).wrote(&*old(self), instr(InstructionCode::DECIMAL_F64) + le_bytes(bits as int, 8)),
    {
        let ghost s0 = *self;
        self.append_binary_code(InstructionCode::DECIMAL_F64);
        let ghost s1 = *self;
        self.append_f64(bits);
        proof {
            Self::lemma_wrote_concat(s0, s1, *self, instr(InstructionCode::DECIMAL_F64), le_bytes(bits as int, 8));
        }
    }

    /// Writes a whole-numbered decimal as a 16-bit integer.
    pub fn insert_float_as_i16(&mut self, value: i16)
        requires
            old(self).wf(),
        ensures
            final(self).wrote(&*old(self), instr(InstructionCode::DECIMAL_AS_INT_16) + le_bytes(value as int, 2)),
    {
        let ghost s0 = *self;
        self.append_binary_code(InstructionCode::DECIMAL_AS_INT_16);
        let ghost s1 = *self;
        self.append_i16(value);
        proof {
            Self::lemma_wrote_concat(s0, s1, *self, instr(InstructionCode::DECIMAL_AS_INT_16), le_bytes(value as int, 2));
        }
    }

    /// Writes a whole-numbered decimal as a 32-bit integer.
    pub fn insert_float_as_i32(&mut self, value: i32)
        requires
            old(self).wf(),
        ensures
            final(self).wrote(&*old(self), instr(InstructionCode::DECIMAL_AS_INT_32) + le_bytes(value as int, 4)),
    {
        let ghost s0 = *self;
        self.append_binary_code(InstructionCode::DECIMAL_AS_INT_32);
        let ghost s1 = *self;
        self.append_i32(value);
        proof {
            Self::lemma_wrote_concat(s0, s1, *self, instr(InstructionCode::DECIMAL_AS_INT_32), le_bytes(value as int, 4));
        }
    }

    /// Writes an integer in the smallest signed form that holds it (see `smallest_int_bytes`).
    pub fn insert_int(&mut self, value: i64)
        requires
            old(self).wf(),
        ensures
            final(self).wrote(&*old(self), smallest_int_bytes(value)),
    {
        if -128 <= value && value <= 127 {
            self.insert_i8(value as i8);
        } else if -32768 <= value && value <= 32767 {
            self.insert_i16(value as i16);
        } else if -2147483648 <= value && value <= 2147483647 {
            self.insert_i32(value as i32);
        } else {
            self.insert_i64(value);
        }
    }

    /// Writes an 8-bit integer.
    pub fn insert_i8(&mut self, value: i8)
        requires
            old(self).wf(),
        ensures
            final(self).wrote(&*old(self), instr(InstructionCode::INT_8) + le_bytes(value as int, 1)),
    {
        let ghost s0 = *self;
        self.append_binary_code(InstructionCode::INT_8);
        let ghost s1 = *self;
        self.append_i8(value);
        proof {
            Self::lemma_wrote_concat(s0, s1, *self, instr(InstructionCode::INT_8), le_bytes(value as int, 1));
        }
    }

    /// Writes a 16-bit integer.
    pub fn insert_i16(&mut self, value: i16)
        requires
            old(self).wf(),
        ensures
            final(self).wrote(&*old(self), instr(InstructionCode::INT_16) + le_bytes(value as int, 2)),
    {
        let ghost s0 = *self;
        self.append_binary_code(InstructionCode::INT_16);
        let ghost s1 = *self;
        self.append_i16(value);
        proof {
            Self::lemma_wrote_concat(s0, s1, *self, instr(InstructionCode::INT_16), le_bytes(value as int, 2));
        }
    }

    /// Writes a 32-bit integer.
    pub fn insert_i32(&mut self, value: i32)
        requires
            old(self).wf(),
        ensures
            final(self).wrote(&*old(self), instr(InstructionCode::INT_32) + le_bytes(value as int, 4)),
    {
        let ghost s0 = *self;
        self.append_binary_code(InstructionCode::INT_32);
        let ghost s1 = *self;
        self.append_i32(value);
        proof {
            Self::lemma_wrote_concat(s0, s1, *self, instr(InstructionCode::INT_32), le_bytes(value as int, 4));
        }
    }

    /// Writes a 64-bit integer.
    pub fn insert_i64(&mut self, value: i64)
        requires
            old(self).wf(),
        ensures
            final(self).wrote(&*old(self), instr(InstructionCode::INT_64) + le_bytes(value as int, 8)),
    {
        let ghost s0 = *self;
        self.append_binary_code(InstructionCode::INT_64);
        let ghost s1 = *self;
        self.append_i64(value);
        proof {
            Self::lemma_wrote_concat(s0, s1, *self, instr(InstructionCode::INT_64), le_bytes(value as int, 8));
        }
    }

    /// Writes a 128-bit integer.
    pub fn insert_i128(&mut self, value: i128)
        requires
            old(self).wf(),
        ensures
            final(self).wrote(&*old(self), instr(InstructionCode::INT_128) + le_bytes(value as int, 16)),
    {
        let ghost s0 = *self;
        self.append_binary_code(InstructionCode::INT_128);
        let ghost s1 = *self;
        self.append_i128(value);
        proof {
            Self::lemma_wrote_concat(s0, s1, *self, instr(InstructionCode::INT_128), le_bytes(value as int, 16));
        }
    }

    /// Writes an unsigned 8-bit integer as a signed 16-bit integer.
    pub fn insert_u8(&mut self, value: u8)
        requires
            old(self).wf(),
        ensures
            final(self).wrote(&*old(self), instr(InstructionCode::INT_16) + le_bytes(value as int, 2)),
    {
        let ghost s0 = *self;
        self.append_binary_code(InstructionCode::INT_16);
        let ghost s1 = *self;
        self.append_i16(value as i16);
        proof {
            Self::lemma_wrote_concat(s0, s1, *self, instr(InstructionCode::INT_16), le_bytes(value as int, 2));
        }
    }

    /// Writes an unsigned 16-bit integer as a signed 32-bit integer.
    pub fn insert_u16(&mut self, value: u16)
        requires
            old(self).wf(),
        ensures
            final(self).wrote(&*old(self), instr(InstructionCode::INT_32) + le_bytes(value as int, 4)),
    {
        let ghost s0 = *self;
        self.append_binary_code(InstructionCode::INT_32);
        let ghost s1 = *self;
        self.append_i32(value as i32);
        proof {
            Self::lemma_wrote_concat(s0, s1, *self, instr(InstructionCode::INT_32), le_bytes(value as int, 4));
        }
    }

    /// Writes an unsigned 32-bit integer as a signed 64-bit integer.
    pub fn insert_u32(&mut self, value: u32)
        requires
            old(self).wf(),
        ensures
            final(self).wrote(&*old(self), instr(InstructionCode::INT_64) + le_bytes(value as int, 8)),
    {
        let ghost s0 = *self;
        self.append_binary_code(InstructionCode::INT_64);
        let ghost s1 = *self;
        self.append_i64(value as i64);
        proof {
            Self::lemma_wrote_concat(s0, s1, *self, instr(InstructionCode::INT_64), le_bytes(value as int, 8));
        }
    }

    /// Writes an unsigned 64-bit integer as a signed 128-bit integer.
    pub fn insert_u64(&mut self, value: u64)
        requires
            old(self).wf(),
        ensures
            final(self).wrote(&*old(self), instr(InstructionCode::INT_128) + le_bytes(value as int, 16)),
    {
        let ghost s0 = *self;
        self.append_binary_code(InstructionCode::INT_128);
        let ghost s1 = *self;
        self.append_i128(value as i128);
        proof {
            Self::lemma_wrote_concat(s0, s1, *self, instr(InstructionCode::INT_128), le_bytes(value as int, 16));
        }
    }

    /// Writes an unsigned 128-bit integer: its sixteen bytes, little-endian.
    pub fn insert_u128(&mut self, value: u128)
        requires
            old(self).wf(),
        ensures
            final(self).wrote(&*old(self), instr(InstructionCode::UINT_128) + le_bytes(value as int, 16)),
    {
        let ghost s0 = *self;
        self.append_binary_code(InstructionCode::UINT_128);
        let ghost s1 = *self;
        self.append_u128(value);
        proof {
            Self::lemma_wrote_concat(s0, s1, *self, instr(InstructionCode::UINT_128), le_bytes(value as int, 16));
        }
    }
}

/// The value of the ASCII digit or letter `b` (letters count from 10), if it is one.
pub open spec fn radix_digit_value(b: u8) -> Option<nat> {
    if 0x30 <= b <= 0x39 {
        Some((b - 0x30) as nat)
    } else if 0x61 <= b <= 0x7a {
        Some((b - 0x61 + 10) as nat)
    } else if 0x41 <= b <= 0x5a {
        Some((b - 0x41 + 10) as nat)
    } else {
        None
    }
}

/// Every byte of `s` is a digit of base `radix`.
pub open spec fn radix_digits_valid(s: Seq<u8>, radix: nat) -> bool {
    forall|i: int|
        0 <= i < s.len() ==> ((#[trigger] radix_digit_value(s[i])) matches Some(d) && d < radix)
}

/// The number written by the digits `s` in base `radix`.
pub open spec fn radix_value(s: Seq<u8>, radix: nat) -> nat
    decreases s.len(),
{
    if s.len() == 0 {
        0
    } else {
        radix_value(s.drop_last(), radix) * radix + radix_digit_value(s.last()).unwrap_or(0)
    }
}

/// A signed 64-bit integer in base `radix`: an optional `+` or `-` sign, at least one digit,
/// and a value in range.
pub open spec fn parse_i64_radix(s: Seq<u8>, radix: nat) -> Option<i64> {
    if s.len() == 0 {
        None
    } else {
        let negative = s[0] == 0x2d;
        let digits = if s[0] == 0x2b || s[0] == 0x2d {
            s.skip(1)
        } else {
            s
        };
        if digits.len() == 0 || !radix_digits_valid(digits, radix) {
            None
        } else {
            let v = if negative {
                -radix_value(digits, radix)
            } else {
                radix_value(digits, radix) as int
            };
            if i64::MIN <= v <= i64::MAX {
                Some(v as i64)
            } else {
                None
            }
        }
    }
}

proof fn lemma_radix_value_grows(s: Seq<u8>, radix: nat, j: int)
    requires
        radix >= 1,
        0 <= j <= s.len(),
    ensures
        radix_value(s.take(j), radix) <= radix_value(s, radix),
    decreases s.len() - j,
{
    if j < s.len() {
        lemma_radix_value_grows(s, radix, j + 1);
        let t = s.take(j + 1);
        assert(t.drop_last() =~= s.take(j));
        assert(radix_value(t, radix) == radix_value(s.take(j), radix) * radix + radix_digit_value(
            t.last(),
        ).unwrap_or(0));
        assert(radix_value(s.take(j), radix) * radix >= radix_value(s.take(j), radix))
            by (nonlinear_arith)
            requires
                radix >= 1,
        ;
    } else {
        assert(s.take(j) =~= s);
    }
}

/// The digit value of the byte `b`.
fn radix_digit(b: u8) -> (res: Option<u32>)
    ensures
        match radix_digit_value(b) {
            Some(d) => res == Some(d as u32),
            None => res is None,
        },
{
    if 0x30 <= b && b <= 0x39 {
        Some((b - 0x30) as u32)
    } else if 0x61 <= b && b <= 0x7a {
        Some((b - 0x61 + 10) as u32)
    } else if 0x41 <= b && b <= 0x5a {
        Some((b - 0x41 + 10) as u32)
    } else {
        None
    }
}

/// Parses `bytes[start..]` as a signed 64-bit integer in base `radix` (see `parse_i64_radix`).
pub fn i64_from_radix(bytes: &[u8], start: usize, radix: u32) -> (res: Option<i64>)
    requires
        start <= bytes@.len(),
        2 <= radix <= 36,
    ensures
        res == parse_i64_radix(bytes@.skip(start as int), radix as nat),
{
    let ghost s = bytes@.skip(start as int);
    let n = bytes.len();
    if start == n {
        return None;
    }
    let negative = bytes[start] == 0x2d;
    let first = if bytes[start] == 0x2b || bytes[start] == 0x2d {
        start + 1
    } else {
        start
    };
    let ghost digits = bytes@.skip(first as int);
    assert(digits =~= (if s[0] == 0x2b || s[0] == 0x2d {
        s.skip(1)
    } else {
        s
    }));
    if first == n {
        return None;
    }
    let mut magnitude: u128 = 0;
    let mut k = first;
    assert(digits.take(0) =~= Seq::<u8>::empty());
    while k < n
        invariant
            start <= first <= k <= n == bytes@.len(),
            first < n,
            2 <= radix <= 36,
            digits == bytes@.skip(first as int),
            s == bytes@.skip(start as int),
            s.len() > 0,
            negative == (s[0] == 0x2d),
            digits == (if s[0] == 0x2b || s[0] == 0x2d {
                s.skip(1)
            } else {
                s
            }),
            radix_digits_valid(digits.take(k - first), radix as nat),
            magnitude == radix_value(digits.take(k - first), radix as nat),
            magnitude <= 0x8000_0000_0000_0000,
        decreases n - k,
    {
        match radix_digit(bytes[k]) {
            Some(d) => {
                if d >= radix {
                    proof {
                        assert(digits[k - first] == bytes@[k as int]);
                        assert(radix_digit_value(digits[k - first]) == Some(d as nat));
                        assert(!radix_digits_valid(digits, radix as nat));
                    }
                    return None;
                }
                proof {
                    let t = digits.take(k - first + 1);
                    assert(t.drop_last() =~= digits.take(k - first));
                    assert(t.last() == bytes@[k as int]);
                    assert(magnitude * (radix as u128) <= 0x8000_0000_0000_0000 * 36) by (nonlinear_arith)
                        requires
                            magnitude <= 0x8000_0000_0000_0000,
                            radix <= 36,
                    ;
                }
                let ghost prefix = digits.take(k - first + 1);
                magnitude = magnitude * (radix as u128) + (d as u128);
                k = k + 1;
                assert(magnitude == radix_value(prefix, radix as nat));
                assert(prefix == digits.take(k - first));
                if magnitude > 0x8000_0000_0000_0000 {
                    proof {
                        if radix_digits_valid(digits, radix as nat) {
                            lemma_radix_value_grows(digits, radix as nat, k - first);
                        }
                    }
                    return None;
                }
            },
            None => {
                proof {
                    assert(digits[k - first] == bytes@[k as int]);
                }
                return None;
            },
        }
    }
    assert(digits.take(k - first) =~= digits);
    if negative {
        if magnitude == 0x8000_0000_0000_0000 {
            Some(i64::MIN)
        } else {
            Some(-(magnitude as i64))
        }
    } else {
        if magnitude > 0x7fff_ffff_ffff_ffff {
            None
        } else {
            Some(magnitude as i64)
        }
    }
}

/// The number of bytes before the digits of a radix integer: a sign, if any, and the radix
/// prefix (e.g. `0x`).
pub open spec fn radix_prefix_len(bytes: Seq<u8>) -> int {
    if bytes.len() > 0 && (bytes[0] == 0x2d || bytes[0] == 0x2b) {
        3
    } else {
        2
    }
}

/// Writes an integer given in base `radix` with a sign, if any, and a two-character prefix
/// (e.g. `-0x1F`): the parsed value, negated after a `-`, in its smallest signed form. A text
/// that is not such an integer, or whose value is out of range, is an error.
pub fn insert_int_with_radix(
    compilation_scope: &mut CompilationContext,
    int_str: &str,
    radix: u32,
) -> (res: Result<(), CompilerError>)
    requires
        old(compilation_scope).wf(),
        2 <= radix <= 36,
        vstd::utf8::is_char_boundary(encode_utf8(int_str@), radix_prefix_len(encode_utf8(int_str@))),
        !(encode_utf8(int_str@)[0] == 0x2d && parse_i64_radix(
            encode_utf8(int_str@).skip(radix_prefix_len(encode_utf8(int_str@))),
            radix as nat,
        ) == Some(i64::MIN)),
    ensures
        match parse_i64_radix(
            encode_utf8(int_str@).skip(radix_prefix_len(encode_utf8(int_str@))),
            radix as nat,
        ) {
            None => (res matches Err(CompilerError::IntegerOutOfBoundsError))
                && *final(compilation_scope) == *old(compilation_scope),
            Some(v) => res is Ok && final(compilation_scope).wrote(
                &*old(compilation_scope),
                smallest_int_bytes(
                    if encode_utf8(int_str@)[0] == 0x2d {
                        (-v) as i64
                    } else {
                        v
                    },
                ),
            ),
        },
{
    let bytes = int_str.as_bytes();
    proof {
        vstd::utf8::encode_utf8_valid_utf8(int_str@);
    }
    let is_negative = bytes.len() > 0 && bytes[0] == 0x2d;
    let is_positive = bytes.len() > 0 && bytes[0] == 0x2b;
    let start: usize = if is_negative || is_positive {
        3
    } else {
        2
    };
    match i64_from_radix(bytes, start, radix) {
        None => Err(CompilerError::IntegerOutOfBoundsError),
        Some(value) => {
            if is_negative {
                compilation_scope.insert_int(-value);
            } else {
                compilation_scope.insert_int(value);
            }
            Ok(())
        },
    }
}


impl CompilationContext {
    /// `self` after writing `bytes`, with the flag of non-static values now `flag`.
    pub open spec fn wrote_flagged(&self, before: &Self, bytes: Seq<u8>, flag: bool) -> bool {
        &&& self.wf()
        &&& self.buffer@ == before.buffer@ + bytes
        &&& self.index == before.index + bytes.len()
        &&& self.has_non_static_value == flag
        &&& self.inserted_value_index == before.inserted_value_index
    }

    /// Writes an integer in its smallest form (see `smallest_integer_bytes`).
    fn insert_smallest_integer(&mut self, value: i128)
        requires
            old(self).wf(),
        ensures
            final(self).wrote(&*old(self), smallest_integer_bytes(value as int)),
    {
        if -0x80 <= value && value < 0x80 {
            self.insert_i8(value as i8);
        } else if -0x8000 <= value && value < 0x8000 {
            self.insert_i16(value as i16);
        } else if -0x8000_0000 <= value && value < 0x8000_0000 {
            self.insert_i32(value as i32);
        } else if -0x8000_0000_0000_0000 <= value && value < 0x8000_0000_0000_0000 {
            self.insert_i64(value as i64);
        } else {
            self.insert_i128(value);
        }
    }

    /// Writes a typed integer in its smallest form.
    fn insert_typed_integer(&mut self, integer: &TypedInteger)
        requires
            old(self).wf(),
        ensures
            final(self).wrote(&*old(self), smallest_integer_bytes(typed_integer_value(*integer))),
    {
        match integer {
            TypedInteger::I8(v) => self.insert_smallest_integer(*v as i128),
            TypedInteger::I16(v) => self.insert_smallest_integer(*v as i128),
            TypedInteger::I32(v) => self.insert_smallest_integer(*v as i128),
            TypedInteger::I64(v) => self.insert_smallest_integer(*v as i128),
            TypedInteger::I128(v) => self.insert_smallest_integer(*v),
            TypedInteger::U8(v) => self.insert_smallest_integer(*v as i128),
            TypedInteger::U16(v) => self.insert_smallest_integer(*v as i128),
            TypedInteger::U32(v) => self.insert_smallest_integer(*v as i128),
            TypedInteger::U64(v) => self.insert_smallest_integer(*v as i128),
            TypedInteger::U128(v) => {
                if *v < 0x8000_0000_0000_0000_0000_0000_0000_0000u128 {
                    self.insert_smallest_integer(*v as i128);
                } else {
                    self.insert_u128(*v);
                }
            },
            TypedInteger::Big(v) => self.insert_smallest_integer(v.value),
        }
    }

    /// Writes a typed decimal: floats by their bits, an exact decimal that is a whole number
    /// fitting 16 or 32 bits as that integer, other exact decimals in full.
    fn insert_typed_decimal(&mut self, decimal: &TypedDecimal)
        requires
            old(self).wf(),
        ensures
            final(self).wrote(
                &*old(self),
                smallest_value_bytes(Value { inner: CoreValue::TypedDecimal(*decimal), actual_type: None }),
            ),
    {
        match decimal {
            TypedDecimal::F32(bits) => self.insert_float32(*bits),
            TypedDecimal::F64(bits) => self.insert_float64(*bits),
            TypedDecimal::Decimal(d) => match whole_decimal_i32(d) {
                Some(w) => {
                    if -0x8000 <= w && w < 0x8000 {
                        self.insert_float_as_i16(w as i16);
                    } else {
                        self.insert_float_as_i32(w);
                    }
                },
                None => self.insert_decimal(d),
            },
        }
    }

    /// Writes a value container (see `smallest_container_bytes`); this raises the flag of
    /// non-static values.
    pub fn insert_value_container(&mut self, value_container: &ValueContainer)
        requires
            old(self).wf(),
        ensures
            final(self).wrote_flagged(&*old(self), smallest_container_bytes(*value_container), true),
        decreases value_container,
    {
        self.mark_has_non_static_value();
        let ghost s1 = *self;
        match value_container {
            ValueContainer::Value(value) => {
                assert(decreases_to!(*value_container => *value));
                self.insert_value(value);
            },
            ValueContainer::Reference(reference) => {
                assert(decreases_to!(*value_container => *reference));
                assert(decreases_to!(*reference => reference.value));
                self.append_binary_code(InstructionCode::CREATE_REF);
                self.insert_value(&reference.value);
                assert(self.buffer@ =~= s1.buffer@ + smallest_container_bytes(*value_container));
            },
        }
    }

    /// Writes a value (see `smallest_value_bytes`): integers of any type in their smallest
    /// form; the items of lists and the keys and values of maps as value containers.
    pub fn insert_value(&mut self, value: &Value)
        requires
            old(self).wf(),
        ensures
            final(self).wrote_flagged(
                &*old(self),
                smallest_value_bytes(*value),
                old(self).has_non_static_value || nests_containers(*value),
            ),
        decreases value,
    {
        let ghost s0 = *self;
        match &value.inner {
            CoreValue::Integer(integer) => self.insert_smallest_integer(integer.value),
            CoreValue::TypedInteger(integer) => self.insert_typed_integer(integer),
            CoreValue::Endpoint(endpoint) => self.insert_endpoint(endpoint),
            CoreValue::Decimal(decimal) => self.insert_decimal(decimal),
            CoreValue::TypedDecimal(decimal) => self.insert_typed_decimal(decimal),
            CoreValue::Boolean(b) => self.insert_boolean(*b),
            CoreValue::Null => self.append_binary_code(InstructionCode::NULL),
            CoreValue::Text(text) => self.insert_text(text.as_str()),
            CoreValue::List(items) => {
                self.append_binary_code(InstructionCode::ARRAY_START);
                let ghost start = *self;
                let len = items.len();
                let mut i: usize = 0;
                assert(items@.subrange(0, len as int) =~= items@);
                while i < len
                    invariant
                        i <= len == items@.len(),
                        value.inner == CoreValue::List(*items),
                        self.wf(),
                        self.inserted_value_index == s0.inserted_value_index,
                        self.buffer@ + smallest_items_bytes(items@.subrange(i as int, len as int))
                            == start.buffer@ + smallest_items_bytes(items@),
                        self.index + smallest_items_bytes(items@.subrange(i as int, len as int)).len()
                            == start.index + smallest_items_bytes(items@).len(),
                        self.has_non_static_value == (s0.has_non_static_value || i > 0),
                    decreases len - i,
                {
                    let ghost rest = items@.subrange(i as int, len as int);
                    assert(rest.subrange(1, rest.len() as int) =~= items@.subrange(i + 1, len as int));
                    assert(rest[0] == items@[i as int]);
                    assert(decreases_to!(*value => value.inner));
                    assert(decreases_to!(value.inner => value.inner->List_0));
                    assert(decreases_to!(*items => items@));
                    assert(decreases_to!(items@ => items@[i as int]));
                    self.insert_value_container(&items[i]);
                    i = i + 1;
                    assert(self.buffer@ + smallest_items_bytes(items@.subrange(i as int, len as int))
                        =~= start.buffer@ + smallest_items_bytes(items@));
                }
                assert(items@.subrange(len as int, len as int) =~= Seq::<ValueContainer>::empty());
                self.append_binary_code(InstructionCode::SCOPE_END);
                assert(self.buffer@ =~= s0.buffer@ + smallest_value_bytes(*value));
            },
            CoreValue::KeyValueMap(entries) => {
                self.append_binary_code(InstructionCode::OBJECT_START);
                let ghost start = *self;
                let len = entries.len();
                let mut i: usize = 0;
                assert(entries@.subrange(0, len as int) =~= entries@);
                while i < len
                    invariant
                        i <= len == entries@.len(),
                        value.inner == CoreValue::KeyValueMap(*entries),
                        self.wf(),
                        self.inserted_value_index == s0.inserted_value_index,
                        self.buffer@ + smallest_pairs_bytes(entries@.subrange(i as int, len as int))
                            == start.buffer@ + smallest_pairs_bytes(entries@),
                        self.index + smallest_pairs_bytes(
                            entries@.subrange(i as int, len as int),
                        ).len() == start.index + smallest_pairs_bytes(entries@).len(),
                        self.has_non_static_value == (s0.has_non_static_value || i > 0),
                    decreases len - i,
                {
                    let ghost rest = entries@.subrange(i as int, len as int);
                    assert(rest.subrange(1, rest.len() as int) =~= entries@.subrange(
                        i + 1,
                        len as int,
                    ));
                    assert(rest[0] == entries@[i as int]);
                    assert(decreases_to!(*value => value.inner));
                    assert(decreases_to!(value.inner => value.inner->KeyValueMap_0));
                    assert(decreases_to!(*entries => entries@));
                    assert(decreases_to!(entries@ => entries@[i as int]));
                    assert(decreases_to!(entries@[i as int] => entries@[i as int].0));
                    assert(decreases_to!(entries@[i as int] => entries@[i as int].1));
                    let entry = &entries[i];
                    let ghost before = *self;
                    match &entry.0 {
                        ValueContainer::Value(Value { inner: CoreValue::Text(text), .. }) => {
                            self.insert_key_string(text.as_str());
                        },
                        _ => {
                            self.append_binary_code(InstructionCode::KEY_VALUE_DYNAMIC);
                            self.insert_value_container(&entry.0);
                        },
                    }
                    self.insert_value_container(&entry.1);
                    assert(self.buffer@ =~= before.buffer@ + smallest_pair_bytes(*entry));
                    i = i + 1;
                    assert(self.buffer@ + smallest_pairs_bytes(entries@.subrange(i as int, len as int))
                        =~= start.buffer@ + smallest_pairs_bytes(entries@));
                }
                assert(entries@.subrange(len as int, len as int) =~= Seq::<
                    (ValueContainer, ValueContainer),
                >::empty());
                self.append_binary_code(InstructionCode::SCOPE_END);
                assert(self.buffer@ =~= s0.buffer@ + smallest_value_bytes(*value));
            },
        }
    }
}

/// Compiles a value container on its own (see `insert_value_container`).
pub fn compile_value(value: &ValueContainer) -> (res: Result<Vec<u8>, CompilerError>)
    ensures
        res matches Ok(bytes) && bytes@ == smallest_container_bytes(*value),
{
    let mut ctx = CompilationContext::new(Vec::with_capacity(256), Vec::new());
    assert(ctx.buffer@.len() == 0);
    ctx.insert_value_container(value);
    assert(ctx.buffer@ =~= smallest_container_bytes(*value));
    Ok(ctx.buffer)
}

} // verus!
