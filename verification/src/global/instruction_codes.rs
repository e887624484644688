//! Instruction codes of the DXB binary format.
use vstd::prelude::*;

verus! {

/// Instruction codes of DXB bodies.
#[allow(non_camel_case_types)]
#[derive(Debug, Clone, Copy, PartialEq, Eq, Hash)]
pub enum InstructionCode {
    NULL,
    TRUE,
    FALSE,
    INT,
    INT_8,
    INT_16,
    INT_32,
    INT_64,
    INT_128,
    INT_BIG,
    UINT_8,
    UINT_16,
    UINT_32,
    UINT_64,
    UINT_128,
    DECIMAL,
    DECIMAL_F32,
    DECIMAL_F64,
    DECIMAL_BIG,
    DECIMAL_AS_INT_16,
    DECIMAL_AS_INT_32,
    SHORT_TEXT,
    TEXT,
    ENDPOINT,
    SHORT_LIST,
    LIST,
    SHORT_MAP,
    MAP,
    KEY_VALUE_SHORT_TEXT,
    KEY_VALUE_DYNAMIC,
    CREATE_REF,
    CREATE_REF_MUT,
    GET_REF,
    GET_LOCAL_REF,
    GET_INTERNAL_REF,
    TYPED_VALUE,
    SCOPE_START,
    SCOPE_END,
    ADD,
    SUBTRACT,
    MULTIPLY,
    DIVIDE,
    GET_SLOT,
    DROP_SLOT,
    SHORT_STATEMENTS,
    STATEMENTS,
    UNBOUNDED_STATEMENTS,
    UNBOUNDED_STATEMENTS_END,
    IS,
    STRUCTURAL_EQUAL,
    NOT_STRUCTURAL_EQUAL,
    EQUAL,
    NOT_EQUAL,
    DEREF,
    ARRAY_START,
    OBJECT_START,
}

/// The byte that encodes `c`.
pub open spec fn instruction_code_byte(c: InstructionCode) -> u8 {
    match c {
        InstructionCode::NULL => 0x10,
        InstructionCode::TRUE => 0x11,
        InstructionCode::FALSE => 0x12,
        InstructionCode::INT => 0x13,
        InstructionCode::INT_8 => 0x14,
        InstructionCode::INT_16 => 0x15,
        InstructionCode::INT_32 => 0x16,
        InstructionCode::INT_64 => 0x17,
        InstructionCode::INT_128 => 0x18,
        InstructionCode::INT_BIG => 0x19,
        InstructionCode::UINT_8 => 0x1A,
        InstructionCode::UINT_16 => 0x1B,
        InstructionCode::UINT_32 => 0x1C,
        InstructionCode::UINT_64 => 0x1D,
        InstructionCode::UINT_128 => 0x1E,
        InstructionCode::DECIMAL => 0x1F,
        InstructionCode::DECIMAL_F32 => 0x20,
        InstructionCode::DECIMAL_F64 => 0x21,
        InstructionCode::DECIMAL_BIG => 0x22,
        InstructionCode::DECIMAL_AS_INT_16 => 0x23,
        InstructionCode::DECIMAL_AS_INT_32 => 0x24,
        InstructionCode::SHORT_TEXT => 0x25,
        InstructionCode::TEXT => 0x26,
        InstructionCode::ENDPOINT => 0x27,
        InstructionCode::SHORT_LIST => 0x28,
        InstructionCode::LIST => 0x29,
        InstructionCode::SHORT_MAP => 0x2A,
        InstructionCode::MAP => 0x2B,
        InstructionCode::KEY_VALUE_SHORT_TEXT => 0x2C,
        InstructionCode::KEY_VALUE_DYNAMIC => 0x2D,
        InstructionCode::CREATE_REF => 0x2E,
        InstructionCode::CREATE_REF_MUT => 0x2F,
        InstructionCode::GET_REF => 0x30,
        InstructionCode::GET_LOCAL_REF => 0x31,
        InstructionCode::GET_INTERNAL_REF => 0x32,
        InstructionCode::TYPED_VALUE => 0x33,
        InstructionCode::SCOPE_START => 0x34,
        InstructionCode::SCOPE_END => 0x35,
        InstructionCode::ADD => 0x36,
        InstructionCode::SUBTRACT => 0x37,
        InstructionCode::MULTIPLY => 0x38,
        InstructionCode::DIVIDE => 0x39,
        InstructionCode::GET_SLOT => 0x3A,
        InstructionCode::DROP_SLOT => 0x3B,
        InstructionCode::SHORT_STATEMENTS => 0x3C,
        InstructionCode::STATEMENTS => 0x3D,
        InstructionCode::IS => 0x3E,
        InstructionCode::STRUCTURAL_EQUAL => 0x3F,
        InstructionCode::NOT_STRUCTURAL_EQUAL => 0x40,
        InstructionCode::EQUAL => 0x41,
        InstructionCode::NOT_EQUAL => 0x42,
        InstructionCode::DEREF => 0x43,
        InstructionCode::ARRAY_START => 0x44,
        InstructionCode::OBJECT_START => 0x45,
        InstructionCode::UNBOUNDED_STATEMENTS => 0x46,
        InstructionCode::UNBOUNDED_STATEMENTS_END => 0x47,
    }
}

impl InstructionCode {
    /// The byte that encodes this code.
    pub fn byte(&self) -> (res: u8)
        ensures
            res == instruction_code_byte(*self),
    {
        match self {
            InstructionCode::NULL => 0x10,
            InstructionCode::TRUE => 0x11,
            InstructionCode::FALSE => 0x12,
            InstructionCode::INT => 0x13,
            InstructionCode::INT_8 => 0x14,
            InstructionCode::INT_16 => 0x15,
            InstructionCode::INT_32 => 0x16,
            InstructionCode::INT_64 => 0x17,
            InstructionCode::INT_128 => 0x18,
            InstructionCode::INT_BIG => 0x19,
            InstructionCode::UINT_8 => 0x1A,
            InstructionCode::UINT_16 => 0x1B,
            InstructionCode::UINT_32 => 0x1C,
            InstructionCode::UINT_64 => 0x1D,
            InstructionCode::UINT_128 => 0x1E,
            InstructionCode::DECIMAL => 0x1F,
            InstructionCode::DECIMAL_F32 => 0x20,
            InstructionCode::DECIMAL_F64 => 0x21,
            InstructionCode::DECIMAL_BIG => 0x22,
            InstructionCode::DECIMAL_AS_INT_16 => 0x23,
            InstructionCode::DECIMAL_AS_INT_32 => 0x24,
            InstructionCode::SHORT_TEXT => 0x25,
            InstructionCode::TEXT => 0x26,
            InstructionCode::ENDPOINT => 0x27,
            InstructionCode::SHORT_LIST => 0x28,
            InstructionCode::LIST => 0x29,
            InstructionCode::SHORT_MAP => 0x2A,
            InstructionCode::MAP => 0x2B,
            InstructionCode::KEY_VALUE_SHORT_TEXT => 0x2C,
            InstructionCode::KEY_VALUE_DYNAMIC => 0x2D,
            InstructionCode::CREATE_REF => 0x2E,
            InstructionCode::CREATE_REF_MUT => 0x2F,
            InstructionCode::GET_REF => 0x30,
            InstructionCode::GET_LOCAL_REF => 0x31,
            InstructionCode::GET_INTERNAL_REF => 0x32,
            InstructionCode::TYPED_VALUE => 0x33,
            InstructionCode::SCOPE_START => 0x34,
            InstructionCode::SCOPE_END => 0x35,
            InstructionCode::ADD => 0x36,
            InstructionCode::SUBTRACT => 0x37,
            InstructionCode::MULTIPLY => 0x38,
            InstructionCode::DIVIDE => 0x39,
            InstructionCode::GET_SLOT => 0x3A,
            InstructionCode::DROP_SLOT => 0x3B,
            InstructionCode::SHORT_STATEMENTS => 0x3C,
            InstructionCode::STATEMENTS => 0x3D,
            InstructionCode::IS => 0x3E,
            InstructionCode::STRUCTURAL_EQUAL => 0x3F,
            InstructionCode::NOT_STRUCTURAL_EQUAL => 0x40,
            InstructionCode::EQUAL => 0x41,
            InstructionCode::NOT_EQUAL => 0x42,
            InstructionCode::DEREF => 0x43,
            InstructionCode::ARRAY_START => 0x44,
            InstructionCode::OBJECT_START => 0x45,
            InstructionCode::UNBOUNDED_STATEMENTS => 0x46,
            InstructionCode::UNBOUNDED_STATEMENTS_END => 0x47,
        }
    }
}

/// Instruction codes of type expressions.
#[allow(non_camel_case_types)]
#[derive(Debug, Clone, Copy, PartialEq, Eq, Hash)]
pub enum TypeInstructionCode {
    TYPE_LITERAL_INTEGER,
    TYPE_LITERAL_SHORT_TEXT,
    TYPE_LITERAL_TEXT,
}

/// The byte that encodes `c`.
pub open spec fn type_instruction_code_byte(c: TypeInstructionCode) -> u8 {
    match c {
        TypeInstructionCode::TYPE_LITERAL_INTEGER => 0x60,
        TypeInstructionCode::TYPE_LITERAL_SHORT_TEXT => 0x61,
        TypeInstructionCode::TYPE_LITERAL_TEXT => 0x62,
    }
}

impl TypeInstructionCode {
    /// The byte that encodes this code.
    pub fn byte(&self) -> (res: u8)
        ensures
            res == type_instruction_code_byte(*self),
    {
        match self {
            TypeInstructionCode::TYPE_LITERAL_INTEGER => 0x60,
            TypeInstructionCode::TYPE_LITERAL_SHORT_TEXT => 0x61,
            TypeInstructionCode::TYPE_LITERAL_TEXT => 0x62,
        }
    }
}

/// Instruction codes that open a type definition.
#[allow(non_camel_case_types)]
#[derive(Debug, Clone, Copy, PartialEq, Eq, Hash)]
pub enum TypeSpaceInstructionCode {
    TYPE_REFERENCE,
    IMPL_TYPE,
}

/// The byte that encodes `c`.
pub open spec fn type_space_instruction_code_byte(c: TypeSpaceInstructionCode) -> u8 {
    match c {
        TypeSpaceInstructionCode::TYPE_REFERENCE => 0x70,
        TypeSpaceInstructionCode::IMPL_TYPE => 0x71,
    }
}

impl TypeSpaceInstructionCode {
    /// The byte that encodes this code.
    pub fn byte(&self) -> (res: u8)
        ensures
            res == type_space_instruction_code_byte(*self),
    {
        match self {
            TypeSpaceInstructionCode::TYPE_REFERENCE => 0x70,
            TypeSpaceInstructionCode::IMPL_TYPE => 0x71,
        }
    }
}

/// The reference mutability of a type.
#[allow(non_camel_case_types)]
#[derive(Debug, Clone, Copy, PartialEq, Eq, Hash)]
pub enum TypeMutabilityCode {
    NoReference,
    Immutable,
    Mutable,
    Final,
}

/// The byte that encodes `c`.
pub open spec fn type_mutability_code_byte(c: TypeMutabilityCode) -> u8 {
    match c {
        TypeMutabilityCode::NoReference => 0x80,
        TypeMutabilityCode::Immutable => 0x81,
        TypeMutabilityCode::Mutable => 0x82,
        TypeMutabilityCode::Final => 0x83,
    }
}

impl TypeMutabilityCode {
    /// The byte that encodes this code.
    pub fn byte(&self) -> (res: u8)
        ensures
            res == type_mutability_code_byte(*self),
    {
        match self {
            TypeMutabilityCode::NoReference => 0x80,
            TypeMutabilityCode::Immutable => 0x81,
            TypeMutabilityCode::Mutable => 0x82,
            TypeMutabilityCode::Final => 0x83,
        }
    }
}


/// The instruction code that a byte encodes, if any.
pub open spec fn instruction_code_of_byte(b: u8) -> Option<InstructionCode> {
    match b {
        0x10 => Some(InstructionCode::NULL),
        0x11 => Some(InstructionCode::TRUE),
        0x12 => Some(InstructionCode::FALSE),
        0x13 => Some(InstructionCode::INT),
        0x14 => Some(InstructionCode::INT_8),
        0x15 => Some(InstructionCode::INT_16),
        0x16 => Some(InstructionCode::INT_32),
        0x17 => Some(InstructionCode::INT_64),
        0x18 => Some(InstructionCode::INT_128),
        0x19 => Some(InstructionCode::INT_BIG),
        0x1A => Some(InstructionCode::UINT_8),
        0x1B => Some(InstructionCode::UINT_16),
        0x1C => Some(InstructionCode::UINT_32),
        0x1D => Some(InstructionCode::UINT_64),
        0x1E => Some(InstructionCode::UINT_128),
        0x1F => Some(InstructionCode::DECIMAL),
        0x20 => Some(InstructionCode::DECIMAL_F32),
        0x21 => Some(InstructionCode::DECIMAL_F64),
        0x22 => Some(InstructionCode::DECIMAL_BIG),
        0x23 => Some(InstructionCode::DECIMAL_AS_INT_16),
        0x24 => Some(InstructionCode::DECIMAL_AS_INT_32),
        0x25 => Some(InstructionCode::SHORT_TEXT),
        0x26 => Some(InstructionCode::TEXT),
        0x27 => Some(InstructionCode::ENDPOINT),
        0x28 => Some(InstructionCode::SHORT_LIST),
        0x29 => Some(InstructionCode::LIST),
        0x2A => Some(InstructionCode::SHORT_MAP),
        0x2B => Some(InstructionCode::MAP),
        0x2C => Some(InstructionCode::KEY_VALUE_SHORT_TEXT),
        0x2D => Some(InstructionCode::KEY_VALUE_DYNAMIC),
        0x2E => Some(InstructionCode::CREATE_REF),
        0x2F => Some(InstructionCode::CREATE_REF_MUT),
        0x30 => Some(InstructionCode::GET_REF),
        0x31 => Some(InstructionCode::GET_LOCAL_REF),
        0x32 => Some(InstructionCode::GET_INTERNAL_REF),
        0x33 => Some(InstructionCode::TYPED_VALUE),
        0x34 => Some(InstructionCode::SCOPE_START),
        0x35 => Some(InstructionCode::SCOPE_END),
        0x36 => Some(InstructionCode::ADD),
        0x37 => Some(InstructionCode::SUBTRACT),
        0x38 => Some(InstructionCode::MULTIPLY),
        0x39 => Some(InstructionCode::DIVIDE),
        0x3A => Some(InstructionCode::GET_SLOT),
        0x3B => Some(InstructionCode::DROP_SLOT),
        0x3C => Some(InstructionCode::SHORT_STATEMENTS),
        0x3D => Some(InstructionCode::STATEMENTS),
        0x3E => Some(InstructionCode::IS),
        0x3F => Some(InstructionCode::STRUCTURAL_EQUAL),
        0x40 => Some(InstructionCode::NOT_STRUCTURAL_EQUAL),
        0x41 => Some(InstructionCode::EQUAL),
        0x42 => Some(InstructionCode::NOT_EQUAL),
        0x43 => Some(InstructionCode::DEREF),
        0x44 => Some(InstructionCode::ARRAY_START),
        0x45 => Some(InstructionCode::OBJECT_START),
        0x46 => Some(InstructionCode::UNBOUNDED_STATEMENTS),
        0x47 => Some(InstructionCode::UNBOUNDED_STATEMENTS_END),
        _ => None,
    }
}

/// Every instruction code has a byte of its own: reading the byte that encodes a code gives
/// that code back, so distinct codes never share a byte.
pub proof fn lemma_instruction_code_bytes(c: InstructionCode)
    ensures
        instruction_code_of_byte(instruction_code_byte(c)) == Some(c),
{
}

/// Distinct instruction codes are written as distinct bytes.
pub proof fn lemma_instruction_code_bytes_distinct(a: InstructionCode, b: InstructionCode)
    ensures
        (instruction_code_byte(a) == instruction_code_byte(b)) <==> (a == b),
{
    lemma_instruction_code_bytes(a);
    lemma_instruction_code_bytes(b);
}

/// Distinct type instruction codes, type space codes and type mutability codes are written as
/// distinct bytes, and no byte of one kind is a byte of another.
pub proof fn lemma_type_code_bytes_distinct(
    a: TypeInstructionCode,
    b: TypeInstructionCode,
    c: TypeSpaceInstructionCode,
    d: TypeSpaceInstructionCode,
    e: TypeMutabilityCode,
    f: TypeMutabilityCode,
)
    ensures
        (type_instruction_code_byte(a) == type_instruction_code_byte(b)) <==> (a == b),
        (type_space_instruction_code_byte(c) == type_space_instruction_code_byte(d)) <==> (c == d),
        (type_mutability_code_byte(e) == type_mutability_code_byte(f)) <==> (e == f),
        type_instruction_code_byte(a) != type_space_instruction_code_byte(c),
        type_instruction_code_byte(a) != type_mutability_code_byte(e),
        type_space_instruction_code_byte(c) != type_mutability_code_byte(e),
{
}

} // verus!
