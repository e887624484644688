//! The type variants of typed integers and typed decimals, and their literal suffixes.
use vstd::prelude::*;

verus! {

/// The fixed-size (or big) integer types that an integer literal can be suffixed with.
#[derive(Debug, Clone, Copy, PartialEq, Eq, Hash)]
pub enum IntegerTypeVariant {
    U8,
    U16,
    U32,
    U64,
    U128,
    I8,
    I16,
    I32,
    I64,
    I128,
    Big,
}

/// The decimal types that a decimal literal can be suffixed with.
#[derive(Debug, Clone, Copy, PartialEq, Eq, Hash)]
pub enum DecimalTypeVariant {
    F32,
    F64,
    Big,
}

/// The literal suffix of an integer type variant.
pub open spec fn integer_suffix(v: IntegerTypeVariant) -> Seq<char> {
    match v {
        IntegerTypeVariant::U8 => seq!['u', '8'],
        IntegerTypeVariant::U16 => seq!['u', '1', '6'],
        IntegerTypeVariant::U32 => seq!['u', '3', '2'],
        IntegerTypeVariant::U64 => seq!['u', '6', '4'],
        IntegerTypeVariant::U128 => seq!['u', '1', '2', '8'],
        IntegerTypeVariant::I8 => seq!['i', '8'],
        IntegerTypeVariant::I16 => seq!['i', '1', '6'],
        IntegerTypeVariant::I32 => seq!['i', '3', '2'],
        IntegerTypeVariant::I64 => seq!['i', '6', '4'],
        IntegerTypeVariant::I128 => seq!['i', '1', '2', '8'],
        IntegerTypeVariant::Big => seq!['b', 'i', 'g'],
    }
}

/// The literal suffix of a decimal type variant.
pub open spec fn decimal_suffix(v: DecimalTypeVariant) -> Seq<char> {
    match v {
        DecimalTypeVariant::F32 => seq!['f', '3', '2'],
        DecimalTypeVariant::F64 => seq!['f', '6', '4'],
        DecimalTypeVariant::Big => seq!['b', 'i', 'g'],
    }
}

/// All integer type variants, in declaration order.
pub open spec fn integer_variants() -> Seq<IntegerTypeVariant> {
    seq![
        IntegerTypeVariant::U8,
        IntegerTypeVariant::U16,
        IntegerTypeVariant::U32,
        IntegerTypeVariant::U64,
        IntegerTypeVariant::U128,
        IntegerTypeVariant::I8,
        IntegerTypeVariant::I16,
        IntegerTypeVariant::I32,
        IntegerTypeVariant::I64,
        IntegerTypeVariant::I128,
        IntegerTypeVariant::Big,
    ]
}

/// All decimal type variants, in declaration order.
pub open spec fn decimal_variants() -> Seq<DecimalTypeVariant> {
    seq![DecimalTypeVariant::F32, DecimalTypeVariant::F64, DecimalTypeVariant::Big]
}

impl IntegerTypeVariant {
    /// The literal suffix of this variant, e.g. `"u8"`.
    pub fn as_str(&self) -> (res: &'static str)
        ensures
            res@ == integer_suffix(*self),
    {
        match self {
            IntegerTypeVariant::U8 => {
                proof { reveal_strlit("u8"); }
                "u8"
            },
            IntegerTypeVariant::U16 => {
                proof { reveal_strlit("u16"); }
                "u16"
            },
            IntegerTypeVariant::U32 => {
                proof { reveal_strlit("u32"); }
                "u32"
            },
            IntegerTypeVariant::U64 => {
                proof { reveal_strlit("u64"); }
                "u64"
            },
            IntegerTypeVariant::U128 => {
                proof { reveal_strlit("u128"); }
                "u128"
            },
            IntegerTypeVariant::I8 => {
                proof { reveal_strlit("i8"); }
                "i8"
            },
            IntegerTypeVariant::I16 => {
                proof { reveal_strlit("i16"); }
                "i16"
            },
            IntegerTypeVariant::I32 => {
                proof { reveal_strlit("i32"); }
                "i32"
            },
            IntegerTypeVariant::I64 => {
                proof { reveal_strlit("i64"); }
                "i64"
            },
            IntegerTypeVariant::I128 => {
                proof { reveal_strlit("i128"); }
                "i128"
            },
            IntegerTypeVariant::Big => {
                proof { reveal_strlit("big"); }
                "big"
            },
        }
    }
}

impl DecimalTypeVariant {
    /// The literal suffix of this variant, e.g. `"f32"`.
    pub fn as_str(&self) -> (res: &'static str)
        ensures
            res@ == decimal_suffix(*self),
    {
        match self {
            DecimalTypeVariant::F32 => {
                proof { reveal_strlit("f32"); }
                "f32"
            },
            DecimalTypeVariant::F64 => {
                proof { reveal_strlit("f64"); }
                "f64"
            },
            DecimalTypeVariant::Big => {
                proof { reveal_strlit("big"); }
                "big"
            },
        }
    }
}

} // verus!
