//! Unary operators.
use vstd::prelude::*;

verus! {

/// A unary operator.
#[derive(Debug, Clone, Copy, PartialEq, Eq, Structural)]
pub enum UnaryOperator {
    Reference(ReferenceUnaryOperator),
    Arithmetic(ArithmeticUnaryOperator),
    Bitwise(BitwiseUnaryOperator),
    Logical(LogicalUnaryOperator),
}

/// Operators that create or dereference references.
#[derive(Debug, Clone, Copy, PartialEq, Eq, Structural)]
pub enum ReferenceUnaryOperator {
    /// `&`
    CreateRef,
    /// `&mut`
    CreateRefMut,
    /// `&final`
    CreateRefFinal,
    /// `*`
    Deref,
}

/// Arithmetic unary operators.
#[derive(Debug, Clone, Copy, PartialEq, Eq, Structural)]
pub enum ArithmeticUnaryOperator {
    /// `++`
    Increment,
    /// `--`
    Decrement,
    /// `+`
    Plus,
    /// `-`
    Minus,
}

/// Bitwise unary operators.
#[derive(Debug, Clone, Copy, PartialEq, Eq, Structural)]
pub enum BitwiseUnaryOperator {
    /// `~`
    Negation,
}

/// Logical unary operators.
#[derive(Debug, Clone, Copy, PartialEq, Eq, Structural)]
pub enum LogicalUnaryOperator {
    /// `!`
    Not,
}

/// The symbol of a reference operator.
pub open spec fn reference_symbol(op: ReferenceUnaryOperator) -> Seq<char> {
    match op {
        ReferenceUnaryOperator::CreateRef => "&"@,
        ReferenceUnaryOperator::CreateRefMut => "&mut"@,
        ReferenceUnaryOperator::CreateRefFinal => "&final"@,
        ReferenceUnaryOperator::Deref => "*"@,
    }
}

/// The symbol of an arithmetic unary operator.
pub open spec fn arithmetic_symbol(op: ArithmeticUnaryOperator) -> Seq<char> {
    match op {
        ArithmeticUnaryOperator::Increment => "++"@,
        ArithmeticUnaryOperator::Decrement => "--"@,
        ArithmeticUnaryOperator::Plus => "+"@,
        ArithmeticUnaryOperator::Minus => "-"@,
    }
}

/// The symbol of a unary operator.
pub open spec fn unary_symbol(op: UnaryOperator) -> Seq<char> {
    match op {
        UnaryOperator::Reference(op) => reference_symbol(op),
        UnaryOperator::Arithmetic(op) => arithmetic_symbol(op),
        UnaryOperator::Bitwise(_) => "~"@,
        UnaryOperator::Logical(_) => "!"@,
    }
}

impl ReferenceUnaryOperator {
    /// The symbol of the operator.
    pub fn to_string(&self) -> (res: String)
        ensures
            res@ == reference_symbol(*self),
    {
        match self {
            ReferenceUnaryOperator::CreateRef => "&".to_owned(),
            ReferenceUnaryOperator::CreateRefMut => "&mut".to_owned(),
            ReferenceUnaryOperator::CreateRefFinal => "&final".to_owned(),
            ReferenceUnaryOperator::Deref => "*".to_owned(),
        }
    }
}

impl ArithmeticUnaryOperator {
    /// The symbol of the operator.
    pub fn to_string(&self) -> (res: String)
        ensures
            res@ == arithmetic_symbol(*self),
    {
        match self {
            ArithmeticUnaryOperator::Increment => "++".to_owned(),
            ArithmeticUnaryOperator::Decrement => "--".to_owned(),
            ArithmeticUnaryOperator::Plus => "+".to_owned(),
            ArithmeticUnaryOperator::Minus => "-".to_owned(),
        }
    }
}

impl BitwiseUnaryOperator {
    /// The symbol of the operator.
    pub fn to_string(&self) -> (res: String)
        ensures
            res@ == "~"@,
    {
        "~".to_owned()
    }
}

impl LogicalUnaryOperator {
    /// The symbol of the operator.
    pub fn to_string(&self) -> (res: String)
        ensures
            res@ == "!"@,
    {
        "!".to_owned()
    }
}

impl UnaryOperator {
    /// The symbol of the operator.
    pub fn to_string(&self) -> (res: String)
        ensures
            res@ == unary_symbol(*self),
    {
        match self {
            UnaryOperator::Reference(op) => op.to_string(),
            UnaryOperator::Arithmetic(op) => op.to_string(),
            UnaryOperator::Bitwise(op) => op.to_string(),
            UnaryOperator::Logical(op) => op.to_string(),
        }
    }
}

} // verus!
