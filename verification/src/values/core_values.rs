//! The core values of DATEX: integers, decimals, endpoints and pointer addresses.
use vstd::prelude::*;

verus! {

/// An integer without a fixed size (the default integer type of DATEX).
#[derive(Debug, Clone, Copy, PartialEq, Eq, Hash, Structural)]
pub struct Integer {
    pub value: i128,
}

/// An integer of a fixed-size (or big) integer type.
#[derive(Debug, Clone, Copy, PartialEq, Eq, Hash, Structural)]
pub enum TypedInteger {
    I8(i8),
    I16(i16),
    I32(i32),
    I64(i64),
    I128(i128),
    U8(u8),
    U16(u16),
    U32(u32),
    U64(u64),
    U128(u128),
    Big(Integer),
}

/// An exact decimal: a fraction of two integers, or one of the special values.
#[derive(Debug, Clone, Copy, PartialEq, Eq, Hash, Structural)]
pub enum Decimal {
    Finite { numerator: Integer, denominator: Integer },
    Nan,
    Infinity,
    NegInfinity,
}

/// A decimal of a fixed-size (or big) decimal type. Floats are held by their IEEE 754
/// bit patterns.
#[derive(Debug, Clone, Copy, PartialEq, Eq, Hash, Structural)]
pub enum TypedDecimal {
    F32(u32),
    F64(u64),
    Decimal(Decimal),
}

/// A DATEX endpoint, held in its binary form.
#[derive(Debug, Clone, PartialEq, Eq, Hash)]
pub struct Endpoint {
    pub binary: Vec<u8>,
}

/// The address of a pointer: internal (3 bytes), local (5 bytes) or remote (26 bytes).
#[derive(Debug, Clone, Copy, PartialEq, Eq, Hash)]
pub enum PointerAddress {
    Internal([u8; 3]),
    Local([u8; 5]),
    Remote([u8; 26]),
}

/// How a reference may be used.
#[derive(Debug, Clone, Copy, PartialEq, Eq, Hash, Structural)]
pub enum ReferenceMutability {
    Mutable,
    Immutable,
    Final,
}

} // verus!
