//! Type inference: the type of an expression, as precise as its literals allow.
use vstd::prelude::*;
use crate::ast::expression::DatexExpression;
use crate::values::core_values::{Decimal, Endpoint, Integer, TypedDecimal, TypedInteger};
use crate::values::typed_variants::{DecimalTypeVariant, IntegerTypeVariant};
use crate::compiler::bytecode::typed_integer_value;

verus! {

/// A type of the core library.
#[derive(Debug, Clone, Copy)]
pub enum CoreLibPointerId {
    Null,
    Boolean,
    Text,
    Endpoint,
    /// `integer`, or `integer/<variant>`
    Integer(Option<IntegerTypeVariant>),
    /// `decimal`, or `decimal/<variant>`
    Decimal(Option<DecimalTypeVariant>),
    List,
    KeyValueMap,
    /// The type of a block of statements.
    Unit,
}

/// A type given by its structure: a literal value or a composite of types.
#[derive(Debug)]
pub enum StructuralTypeDefinition {
    Null,
    Boolean(bool),
    Text(String),
    Integer(Integer),
    TypedInteger(TypedInteger),
    Decimal(Decimal),
    TypedDecimal(TypedDecimal),
    Endpoint(Endpoint),
    List(Vec<TypeContainer>),
    KeyValueMap(Vec<(TypeContainer, TypeContainer)>),
}

/// A type: given by its structure, a core library type, or a union or intersection of types.
#[derive(Debug)]
pub enum TypeContainer {
    Type(StructuralTypeDefinition),
    Core(CoreLibPointerId),
    Union(Vec<TypeContainer>),
    Intersection(Vec<TypeContainer>),
}

/// An error found by type inference.
#[derive(Debug)]
pub enum TypeError {
    /// The operands of an operation have incompatible types.
    MismatchedOperands(TypeContainer, TypeContainer),
    /// A value is assigned to a variable of a different type.
    AssignmentTypeMismatch { annotated_type: TypeContainer, assigned_type: TypeContainer },
}

/// The integer type variant of a typed integer.
pub open spec fn integer_variant(i: TypedInteger) -> IntegerTypeVariant {
    match i {
        TypedInteger::I8(_) => IntegerTypeVariant::I8,
        TypedInteger::I16(_) => IntegerTypeVariant::I16,
        TypedInteger::I32(_) => IntegerTypeVariant::I32,
        TypedInteger::I64(_) => IntegerTypeVariant::I64,
        TypedInteger::I128(_) => IntegerTypeVariant::I128,
        TypedInteger::U8(_) => IntegerTypeVariant::U8,
        TypedInteger::U16(_) => IntegerTypeVariant::U16,
        TypedInteger::U32(_) => IntegerTypeVariant::U32,
        TypedInteger::U64(_) => IntegerTypeVariant::U64,
        TypedInteger::U128(_) => IntegerTypeVariant::U128,
        TypedInteger::Big(_) => IntegerTypeVariant::Big,
    }
}

/// The decimal type variant of a typed decimal.
pub open spec fn decimal_variant(d: TypedDecimal) -> DecimalTypeVariant {
    match d {
        TypedDecimal::F32(_) => DecimalTypeVariant::F32,
        TypedDecimal::F64(_) => DecimalTypeVariant::F64,
        TypedDecimal::Decimal(_) => DecimalTypeVariant::Big,
    }
}

/// The base type of a type: the core type of its kind (a core type is its own base);
/// `None` for unions and intersections.
pub open spec fn base_of(t: TypeContainer) -> Option<CoreLibPointerId> {
    match t {
        TypeContainer::Type(d) => Some(
            match d {
                StructuralTypeDefinition::Null => CoreLibPointerId::Null,
                StructuralTypeDefinition::Boolean(_) => CoreLibPointerId::Boolean,
                StructuralTypeDefinition::Text(_) => CoreLibPointerId::Text,
                StructuralTypeDefinition::Integer(_) => CoreLibPointerId::Integer(None),
                StructuralTypeDefinition::TypedInteger(i) => CoreLibPointerId::Integer(
                    Some(integer_variant(i)),
                ),
                StructuralTypeDefinition::Decimal(_) => CoreLibPointerId::Decimal(None),
                StructuralTypeDefinition::TypedDecimal(d) => CoreLibPointerId::Decimal(
                    Some(decimal_variant(d)),
                ),
                StructuralTypeDefinition::Endpoint(_) => CoreLibPointerId::Endpoint,
                StructuralTypeDefinition::List(_) => CoreLibPointerId::List,
                StructuralTypeDefinition::KeyValueMap(_) => CoreLibPointerId::KeyValueMap,
            },
        ),
        TypeContainer::Core(c) => Some(c),
        _ => None,
    }
}

/// The base type of the type inferred for `e`, where inference succeeds.
pub open spec fn expression_base(e: DatexExpression) -> Option<CoreLibPointerId>
    decreases e,
{
    match e {
        DatexExpression::Null => Some(CoreLibPointerId::Null),
        DatexExpression::Boolean(_) => Some(CoreLibPointerId::Boolean),
        DatexExpression::Text(_) => Some(CoreLibPointerId::Text),
        DatexExpression::Integer(_) => Some(CoreLibPointerId::Integer(None)),
        DatexExpression::TypedInteger(i) => Some(CoreLibPointerId::Integer(Some(integer_variant(i)))),
        DatexExpression::Decimal(_) => Some(CoreLibPointerId::Decimal(None)),
        DatexExpression::TypedDecimal(d) => Some(CoreLibPointerId::Decimal(Some(decimal_variant(d)))),
        DatexExpression::Endpoint(_) => Some(CoreLibPointerId::Endpoint),
        DatexExpression::List(_) => Some(CoreLibPointerId::List),
        DatexExpression::KeyValueMap(_) => Some(CoreLibPointerId::KeyValueMap),
        DatexExpression::BinaryOperation(_, l, _) => if expression_base(*l) == Some(
            CoreLibPointerId::Integer(None),
        ) {
            Some(CoreLibPointerId::Integer(None))
        } else {
            Some(CoreLibPointerId::Decimal(None))
        },
        DatexExpression::Statements(..) => Some(CoreLibPointerId::Unit),
        _ => None,
    }
}

/// An arithmetic operation on operands of these base types has a type: both are `integer` or
/// both are `decimal`.
pub open spec fn operands_match(l: Option<CoreLibPointerId>, r: Option<CoreLibPointerId>) -> bool {
    (l == Some(CoreLibPointerId::Integer(None)) && r == Some(CoreLibPointerId::Integer(None))) || (l
        == Some(CoreLibPointerId::Decimal(None)) && r == Some(CoreLibPointerId::Decimal(None)))
}

/// Inference of `e` succeeds.
pub open spec fn infer_ok(e: DatexExpression) -> bool
    decreases e,
{
    match e {
        DatexExpression::List(items) => forall|i: int|
            0 <= i < items@.len() ==> infer_ok(#[trigger] items@[i]),
        DatexExpression::KeyValueMap(entries) => forall|i: int|
            0 <= i < entries@.len() ==> entry_ok(#[trigger] entries@[i]),
        DatexExpression::BinaryOperation(_, l, r) => infer_ok(*l) && infer_ok(*r) && operands_match(
            expression_base(*l),
            expression_base(*r),
        ),
        DatexExpression::Statements(items, _, _) => forall|i: int|
            0 <= i < items@.len() ==> infer_ok(#[trigger] items@[i]),
        _ => expression_base(e) is Some,
    }
}

/// Inference of the key and the value of `entry` succeeds.
pub open spec fn entry_ok(entry: (DatexExpression, DatexExpression)) -> bool
    decreases entry,
{
    infer_ok(entry.0) && infer_ok(entry.1)
}

/// Inference of `e` runs to its end without reaching an expression that it has no rule for
/// (a variable read, a comparison, a placeholder, a reference or a dereference); a list's items
/// must be inferable without error, and after the first error nothing more is inferred.
pub open spec fn inferable(e: DatexExpression) -> bool
    decreases e,
{
    match e {
        DatexExpression::List(items) => forall|i: int|
            0 <= i < items@.len() ==> inferable(#[trigger] items@[i]) && infer_ok(items@[i]),
        DatexExpression::KeyValueMap(entries) => forall|i: int|
            0 <= i < entries@.len() ==> ((forall|j: int| 0 <= j < i ==> entry_ok(#[trigger] entries@[j]))
                ==> entry_inferable(#[trigger] entries@[i])),
        DatexExpression::BinaryOperation(_, l, r) => inferable(*l) && (infer_ok(*l) ==> inferable(*r)),
        DatexExpression::Statements(items, _, _) => forall|i: int|
            0 <= i < items@.len() ==> ((forall|j: int| 0 <= j < i ==> infer_ok(#[trigger] items@[j]))
                ==> inferable(#[trigger] items@[i])),
        _ => expression_base(e) is Some,
    }
}

/// The key of `entry` is inferable, and so is its value where the key's inference succeeds.
pub open spec fn entry_inferable(entry: (DatexExpression, DatexExpression)) -> bool
    decreases entry,
{
    inferable(entry.0) && (infer_ok(entry.0) ==> inferable(entry.1))
}

/// `res` is what inferring the type of `e` gives: a literal gets the structural type of
/// itself; a list or a map the structural type of the types of its parts; an arithmetic
/// operation `integer` when both operands have base `integer`, `decimal` when both have base
/// `decimal`, and otherwise the error of mismatched operands with their types; a block the
/// unit type. The first error met, inferring from left to right, is the result.
pub open spec fn inferred(e: DatexExpression, res: Result<TypeContainer, TypeError>) -> bool
    decreases e,
{
    match e {
        DatexExpression::Null => res matches Ok(TypeContainer::Type(StructuralTypeDefinition::Null)),
        DatexExpression::Boolean(b) => res matches Ok(
            TypeContainer::Type(StructuralTypeDefinition::Boolean(x)),
        ) && x == b,
        DatexExpression::Text(s) => res matches Ok(
            TypeContainer::Type(StructuralTypeDefinition::Text(x)),
        ) && x@ == s@,
        DatexExpression::Integer(i) => res matches Ok(
            TypeContainer::Type(StructuralTypeDefinition::Integer(x)),
        ) && x == i,
        DatexExpression::TypedInteger(i) => res matches Ok(
            TypeContainer::Type(StructuralTypeDefinition::TypedInteger(x)),
        ) && x == i,
        DatexExpression::Decimal(d) => res matches Ok(
            TypeContainer::Type(StructuralTypeDefinition::Decimal(x)),
        ) && x == d,
        DatexExpression::TypedDecimal(d) => res matches Ok(
            TypeContainer::Type(StructuralTypeDefinition::TypedDecimal(x)),
        ) && x == d,
        DatexExpression::Endpoint(p) => res matches Ok(
            TypeContainer::Type(StructuralTypeDefinition::Endpoint(x)),
        ) && x.binary@ == p.binary@,
        DatexExpression::List(items) => res matches Ok(
            TypeContainer::Type(StructuralTypeDefinition::List(ts)),
        ) && ts@.len() == items@.len() && forall|i: int|
            0 <= i < items@.len() ==> inferred(#[trigger] items@[i], Ok(ts@[i])),
        DatexExpression::KeyValueMap(entries) => if infer_ok(e) {
            res matches Ok(TypeContainer::Type(StructuralTypeDefinition::KeyValueMap(ps)))
                && ps@.len() == entries@.len() && forall|i: int|
                0 <= i < entries@.len() ==> entry_inferred(#[trigger] entries@[i], ps@[i])
        } else {
            exists|i: int|
                0 <= i < entries@.len() && (forall|j: int| 0 <= j < i ==> entry_ok(#[trigger] entries@[j]))
                    && !entry_ok(#[trigger] entries@[i]) && entry_error(entries@[i], res)
        },
        DatexExpression::BinaryOperation(_, l, r) => if !infer_ok(*l) {
            inferred(*l, res)
        } else if !infer_ok(*r) {
            inferred(*r, res)
        } else if operands_match(expression_base(*l), expression_base(*r)) {
            res matches Ok(TypeContainer::Core(c)) && Some(c) == expression_base(*l)
        } else {
            res matches Err(TypeError::MismatchedOperands(a, b)) && inferred(*l, Ok(a)) && inferred(
                *r,
                Ok(b),
            )
        },
        DatexExpression::Statements(items, _, _) => if infer_ok(e) {
            res matches Ok(TypeContainer::Core(CoreLibPointerId::Unit))
        } else {
            exists|i: int|
                0 <= i < items@.len() && (forall|j: int| 0 <= j < i ==> infer_ok(#[trigger] items@[j]))
                    && !infer_ok(#[trigger] items@[i]) && inferred(items@[i], res)
        },
        _ => false,
    }
}

/// The types of the key and the value of `entry` are `pair`.
pub open spec fn entry_inferred(entry: (DatexExpression, DatexExpression), pair: (
    TypeContainer,
    TypeContainer,
)) -> bool
    decreases entry,
{
    inferred(entry.0, Ok(pair.0)) && inferred(entry.1, Ok(pair.1))
}

/// `res` is the error of inferring the key of `entry`, or, where that succeeds, of its value.
pub open spec fn entry_error(entry: (DatexExpression, DatexExpression), res: Result<
    TypeContainer,
    TypeError,
>) -> bool
    decreases entry,
{
    if !infer_ok(entry.0) {
        inferred(entry.0, res)
    } else {
        inferred(entry.1, res)
    }
}

/// The base type of `t` (see `base_of`).
fn base_type(t: &TypeContainer) -> (b: Option<CoreLibPointerId>)
    ensures
        b == base_of(*t),
{
    match t {
        TypeContainer::Type(d) => Some(
            match d {
                StructuralTypeDefinition::Null => CoreLibPointerId::Null,
                StructuralTypeDefinition::Boolean(_) => CoreLibPointerId::Boolean,
                StructuralTypeDefinition::Text(_) => CoreLibPointerId::Text,
                StructuralTypeDefinition::Integer(_) => CoreLibPointerId::Integer(None),
                StructuralTypeDefinition::TypedInteger(i) => CoreLibPointerId::Integer(
                    Some(
                        match i {
                            TypedInteger::I8(_) => IntegerTypeVariant::I8,
                            TypedInteger::I16(_) => IntegerTypeVariant::I16,
                            TypedInteger::I32(_) => IntegerTypeVariant::I32,
                            TypedInteger::I64(_) => IntegerTypeVariant::I64,
                            TypedInteger::I128(_) => IntegerTypeVariant::I128,
                            TypedInteger::U8(_) => IntegerTypeVariant::U8,
                            TypedInteger::U16(_) => IntegerTypeVariant::U16,
                            TypedInteger::U32(_) => IntegerTypeVariant::U32,
                            TypedInteger::U64(_) => IntegerTypeVariant::U64,
                            TypedInteger::U128(_) => IntegerTypeVariant::U128,
                            TypedInteger::Big(_) => IntegerTypeVariant::Big,
                        },
                    ),
                ),
                StructuralTypeDefinition::Decimal(_) => CoreLibPointerId::Decimal(None),
                StructuralTypeDefinition::TypedDecimal(d) => CoreLibPointerId::Decimal(
                    Some(
                        match d {
                            TypedDecimal::F32(_) => DecimalTypeVariant::F32,
                            TypedDecimal::F64(_) => DecimalTypeVariant::F64,
                            TypedDecimal::Decimal(_) => DecimalTypeVariant::Big,
                        },
                    ),
                ),
                StructuralTypeDefinition::Endpoint(_) => CoreLibPointerId::Endpoint,
                StructuralTypeDefinition::List(_) => CoreLibPointerId::List,
                StructuralTypeDefinition::KeyValueMap(_) => CoreLibPointerId::KeyValueMap,
            },
        ),
        TypeContainer::Core(c) => Some(*c),
        _ => None,
    }
}

/// `l` is `integer` (`Some(true)`), `decimal` (`Some(false)`) or neither (`None`).
fn numeric_base(l: Option<CoreLibPointerId>) -> (r: Option<bool>)
    ensures
        r == Some(true) <==> l == Some(CoreLibPointerId::Integer(None)),
        r == Some(false) <==> l == Some(CoreLibPointerId::Decimal(None)),
{
    match l {
        Some(CoreLibPointerId::Integer(None)) => Some(true),
        Some(CoreLibPointerId::Decimal(None)) => Some(false),
        _ => None,
    }
}

/// Infers the type of an expression as precisely as its literals allow (see `inferred`): a
/// literal has the structural type of itself, a list or a map the structure of the types of
/// its parts, an arithmetic operation on two `integer` (or two `decimal`) operands the core
/// type `integer` (or `decimal`) and otherwise the error of mismatched operands, and a block
/// the unit type.
pub fn infer_expression_type(ast: &DatexExpression) -> (res: Result<TypeContainer, TypeError>)
    requires
        inferable(*ast),
    ensures
        inferred(*ast, res),
        res is Ok <==> infer_ok(*ast),
        res matches Ok(t) ==> base_of(t) == expression_base(*ast),
    decreases ast,
{
    match ast {
        DatexExpression::Null => Ok(TypeContainer::Type(StructuralTypeDefinition::Null)),
        DatexExpression::Boolean(b) => Ok(TypeContainer::Type(StructuralTypeDefinition::Boolean(*b))),
        DatexExpression::Text(s) => Ok(TypeContainer::Type(StructuralTypeDefinition::Text(s.clone()))),
        DatexExpression::Integer(i) => Ok(TypeContainer::Type(StructuralTypeDefinition::Integer(*i))),
        DatexExpression::TypedInteger(i) => Ok(
            TypeContainer::Type(StructuralTypeDefinition::TypedInteger(*i)),
        ),
        DatexExpression::Decimal(d) => Ok(TypeContainer::Type(StructuralTypeDefinition::Decimal(*d))),
        DatexExpression::TypedDecimal(d) => Ok(
            TypeContainer::Type(StructuralTypeDefinition::TypedDecimal(*d)),
        ),
        DatexExpression::Endpoint(p) => Ok(
            TypeContainer::Type(
                StructuralTypeDefinition::Endpoint(Endpoint { binary: p.binary.clone() }),
            ),
        ),
        DatexExpression::List(items) => {
            assert(decreases_to!(*ast => *items));
            let types = infer_items(items);
            Ok(TypeContainer::Type(StructuralTypeDefinition::List(types)))
        },
        DatexExpression::KeyValueMap(entries) => {
            assert(decreases_to!(*ast => *entries));
            match infer_entries(entries) {
                Ok(pairs) => Ok(TypeContainer::Type(StructuralTypeDefinition::KeyValueMap(pairs))),
                Err(e) => Err(e),
            }
        },
        DatexExpression::BinaryOperation(_, l, r) => {
            let lt = match infer_expression_type(l) {
                Ok(t) => t,
                Err(e) => {
                    return Err(e);
                },
            };
            let rt = match infer_expression_type(r) {
                Ok(t) => t,
                Err(e) => {
                    return Err(e);
                },
            };
            let lb = numeric_base(base_type(&lt));
            let rb = numeric_base(base_type(&rt));
            match (lb, rb) {
                (Some(true), Some(true)) => Ok(TypeContainer::Core(CoreLibPointerId::Integer(None))),
                (Some(false), Some(false)) => Ok(
                    TypeContainer::Core(CoreLibPointerId::Decimal(None)),
                ),
                _ => Err(TypeError::MismatchedOperands(lt, rt)),
            }
        },
        DatexExpression::Statements(items, _, _) => {
            assert(decreases_to!(*ast => *items));
            match infer_statements(items) {
                Ok(()) => Ok(TypeContainer::Core(CoreLibPointerId::Unit)),
                Err(e) => Err(e),
            }
        },
        _ => {
            proof {
                assert(false);
            }
            Ok(TypeContainer::Core(CoreLibPointerId::Unit))
        },
    }
}

/// The types of the items of a list, each inferable without error.
fn infer_items(items: &Vec<DatexExpression>) -> (types: Vec<TypeContainer>)
    requires
        forall|i: int| 0 <= i < items@.len() ==> inferable(#[trigger] items@[i]) && infer_ok(items@[i]),
    ensures
        types@.len() == items@.len(),
        forall|i: int| 0 <= i < items@.len() ==> inferred(#[trigger] items@[i], Ok(types@[i])),
    decreases items,
{
    let mut types: Vec<TypeContainer> = Vec::new();
    let mut i: usize = 0;
    while i < items.len()
        invariant
            i <= items@.len(),
            types@.len() == i,
            forall|i: int| 0 <= i < items@.len() ==> inferable(#[trigger] items@[i]) && infer_ok(items@[i]),
            forall|j: int| 0 <= j < i ==> inferred(#[trigger] items@[j], Ok(types@[j])),
        decreases items@.len() - i,
    {
        assert(decreases_to!(*items => items@));
        assert(decreases_to!(items@ => items@[i as int]));
        match infer_expression_type(&items[i]) {
            Ok(t) => {
                types.push(t);
            },
            Err(_) => {
                proof {
                    assert(false);
                }
            },
        }
        i = i + 1;
    }
    types
}

/// The types of the keys and values of a map, or the first error, from left to right.
fn infer_entries(entries: &Vec<(DatexExpression, DatexExpression)>) -> (res: Result<
    Vec<(TypeContainer, TypeContainer)>,
    TypeError,
>)
    requires
        forall|i: int|
            0 <= i < entries@.len() ==> ((forall|j: int| 0 <= j < i ==> entry_ok(#[trigger] entries@[j]))
                ==> entry_inferable(#[trigger] entries@[i])),
    ensures
        match res {
            Ok(pairs) => (forall|i: int| 0 <= i < entries@.len() ==> entry_ok(#[trigger] entries@[i]))
                && pairs@.len() == entries@.len() && forall|i: int|
                0 <= i < entries@.len() ==> entry_inferred(#[trigger] entries@[i], pairs@[i]),
            Err(e) => exists|i: int|
                0 <= i < entries@.len() && (forall|j: int| 0 <= j < i ==> entry_ok(#[trigger] entries@[j]))
                    && !entry_ok(#[trigger] entries@[i]) && entry_error(entries@[i], Err(e)),
        },
    decreases entries,
{
    let mut pairs: Vec<(TypeContainer, TypeContainer)> = Vec::new();
    let mut i: usize = 0;
    while i < entries.len()
        invariant
            i <= entries@.len(),
            pairs@.len() == i,
            forall|i: int|
                0 <= i < entries@.len() ==> ((forall|j: int| 0 <= j < i ==> entry_ok(#[trigger] entries@[j]))
                    ==> entry_inferable(#[trigger] entries@[i])),
            forall|j: int| 0 <= j < i ==> entry_ok(#[trigger] entries@[j]),
            forall|j: int| 0 <= j < i ==> entry_inferred(#[trigger] entries@[j], pairs@[j]),
        decreases entries@.len() - i,
    {
        assert(decreases_to!(*entries => entries@));
        assert(decreases_to!(entries@ => entries@[i as int]));
        assert(entry_inferable(entries@[i as int]));
        let (k, v) = &entries[i];
        let kt = match infer_expression_type(k) {
            Ok(t) => t,
            Err(e) => {
                assert(!entry_ok(entries@[i as int]));
                assert(entry_error(entries@[i as int], Err(e)));
                return Err(e);
            },
        };
        let vt = match infer_expression_type(v) {
            Ok(t) => t,
            Err(e) => {
                assert(!entry_ok(entries@[i as int]));
                assert(entry_error(entries@[i as int], Err(e)));
                return Err(e);
            },
        };
        pairs.push((kt, vt));
        assert(entry_inferred(entries@[i as int], pairs@[i as int]));
        i = i + 1;
    }
    Ok(pairs)
}

/// Infers the statements of a block in order, stopping at the first error.
fn infer_statements(items: &Vec<DatexExpression>) -> (res: Result<(), TypeError>)
    requires
        forall|i: int|
            0 <= i < items@.len() ==> ((forall|j: int| 0 <= j < i ==> infer_ok(#[trigger] items@[j]))
                ==> inferable(#[trigger] items@[i])),
    ensures
        match res {
            Ok(()) => forall|i: int| 0 <= i < items@.len() ==> infer_ok(#[trigger] items@[i]),
            Err(e) => exists|i: int|
                0 <= i < items@.len() && (forall|j: int| 0 <= j < i ==> infer_ok(#[trigger] items@[j]))
                    && !infer_ok(#[trigger] items@[i]) && inferred(items@[i], Err(e)),
        },
    decreases items,
{
    let mut i: usize = 0;
    while i < items.len()
        invariant
            i <= items@.len(),
            forall|i: int|
                0 <= i < items@.len() ==> ((forall|j: int| 0 <= j < i ==> infer_ok(#[trigger] items@[j]))
                    ==> inferable(#[trigger] items@[i])),
            forall|j: int| 0 <= j < i ==> infer_ok(#[trigger] items@[j]),
        decreases items@.len() - i,
    {
        assert(decreases_to!(*items => items@));
        assert(decreases_to!(items@ => items@[i as int]));
        assert(inferable(items@[i as int]));
        match infer_expression_type(&items[i]) {
            Ok(_) => {},
            Err(e) => {
                return Err(e);
            },
        }
        i = i + 1;
    }
    Ok(())
}

/// A type expression: a literal type, a structural list or map of type expressions, or a union
/// or intersection of type expressions.
#[derive(Debug)]
pub enum TypeExpression {
    Null,
    Boolean(bool),
    Text(String),
    Integer(Integer),
    TypedInteger(TypedInteger),
    Decimal(Decimal),
    TypedDecimal(TypedDecimal),
    Endpoint(Endpoint),
    StructuralList(Vec<TypeExpression>),
    StructuralMap(Vec<(TypeExpression, TypeExpression)>),
    Union(Vec<TypeExpression>),
    Intersection(Vec<TypeExpression>),
}

/// `t` is the type that the type expression `te` represents: a literal is the structural type
/// of itself; a structural list or map the structure of the types of its members; a union or
/// an intersection that of the types of its members.
pub open spec fn resolved(te: TypeExpression, t: TypeContainer) -> bool
    decreases te,
{
    match te {
        TypeExpression::Null => t matches TypeContainer::Type(StructuralTypeDefinition::Null),
        TypeExpression::Boolean(b) => t matches TypeContainer::Type(StructuralTypeDefinition::Boolean(x))
            && x == b,
        TypeExpression::Text(s) => t matches TypeContainer::Type(StructuralTypeDefinition::Text(x))
            && x@ == s@,
        TypeExpression::Integer(i) => t matches TypeContainer::Type(StructuralTypeDefinition::Integer(x))
            && x == i,
        TypeExpression::TypedInteger(i) => t matches TypeContainer::Type(
            StructuralTypeDefinition::TypedInteger(x),
        ) && x == i,
        TypeExpression::Decimal(d) => t matches TypeContainer::Type(StructuralTypeDefinition::Decimal(x))
            && x == d,
        TypeExpression::TypedDecimal(d) => t matches TypeContainer::Type(
            StructuralTypeDefinition::TypedDecimal(x),
        ) && x == d,
        TypeExpression::Endpoint(p) => t matches TypeContainer::Type(
            StructuralTypeDefinition::Endpoint(x),
        ) && x.binary@ == p.binary@,
        TypeExpression::StructuralList(members) => t matches TypeContainer::Type(
            StructuralTypeDefinition::List(ts),
        ) && ts@.len() == members@.len() && forall|i: int|
            0 <= i < members@.len() ==> resolved(#[trigger] members@[i], ts@[i]),
        TypeExpression::StructuralMap(fields) => t matches TypeContainer::Type(
            StructuralTypeDefinition::KeyValueMap(ps),
        ) && ps@.len() == fields@.len() && forall|i: int|
            0 <= i < fields@.len() ==> field_resolved(#[trigger] fields@[i], ps@[i]),
        TypeExpression::Union(members) => t matches TypeContainer::Union(ts) && ts@.len()
            == members@.len() && forall|i: int|
            0 <= i < members@.len() ==> resolved(#[trigger] members@[i], ts@[i]),
        TypeExpression::Intersection(members) => t matches TypeContainer::Intersection(ts)
            && ts@.len() == members@.len() && forall|i: int|
            0 <= i < members@.len() ==> resolved(#[trigger] members@[i], ts@[i]),
    }
}

/// The types of the key and the value of a structural map field are `pair`.
pub open spec fn field_resolved(field: (TypeExpression, TypeExpression), pair: (
    TypeContainer,
    TypeContainer,
)) -> bool
    decreases field,
{
    resolved(field.0, pair.0) && resolved(field.1, pair.1)
}

/// Resolves the type that a type expression represents (see `resolved`), as used in type
/// declarations and annotations, e.g. `{ a: 1u8, b: "x" }` or `1 | 2`.
pub fn resolve_type_expression_type(ast: &TypeExpression) -> (res: Result<TypeContainer, TypeError>)
    ensures
        res matches Ok(t) && resolved(*ast, t),
    decreases ast,
{
    Ok(
        match ast {
            TypeExpression::Null => TypeContainer::Type(StructuralTypeDefinition::Null),
            TypeExpression::Boolean(b) => TypeContainer::Type(StructuralTypeDefinition::Boolean(*b)),
            TypeExpression::Text(s) => TypeContainer::Type(StructuralTypeDefinition::Text(s.clone())),
            TypeExpression::Integer(i) => TypeContainer::Type(StructuralTypeDefinition::Integer(*i)),
            TypeExpression::TypedInteger(i) => TypeContainer::Type(
                StructuralTypeDefinition::TypedInteger(*i),
            ),
            TypeExpression::Decimal(d) => TypeContainer::Type(StructuralTypeDefinition::Decimal(*d)),
            TypeExpression::TypedDecimal(d) => TypeContainer::Type(
                StructuralTypeDefinition::TypedDecimal(*d),
            ),
            TypeExpression::Endpoint(p) => TypeContainer::Type(
                StructuralTypeDefinition::Endpoint(Endpoint { binary: p.binary.clone() }),
            ),
            TypeExpression::StructuralList(members) => {
                assert(decreases_to!(*ast => *members));
                TypeContainer::Type(StructuralTypeDefinition::List(resolve_members(members)))
            },
            TypeExpression::StructuralMap(fields) => {
                assert(decreases_to!(*ast => *fields));
                TypeContainer::Type(StructuralTypeDefinition::KeyValueMap(resolve_fields(fields)))
            },
            TypeExpression::Union(members) => {
                assert(decreases_to!(*ast => *members));
                TypeContainer::Union(resolve_members(members))
            },
            TypeExpression::Intersection(members) => {
                assert(decreases_to!(*ast => *members));
                TypeContainer::Intersection(resolve_members(members))
            },
        },
    )
}

/// The types of the members of a type expression.
fn resolve_members(members: &Vec<TypeExpression>) -> (types: Vec<TypeContainer>)
    ensures
        types@.len() == members@.len(),
        forall|i: int| 0 <= i < members@.len() ==> resolved(#[trigger] members@[i], types@[i]),
    decreases members,
{
    let mut types: Vec<TypeContainer> = Vec::new();
    let mut i: usize = 0;
    while i < members.len()
        invariant
            i <= members@.len(),
            types@.len() == i,
            forall|j: int| 0 <= j < i ==> resolved(#[trigger] members@[j], types@[j]),
        decreases members@.len() - i,
    {
        assert(decreases_to!(*members => members@));
        assert(decreases_to!(members@ => members@[i as int]));
        match resolve_type_expression_type(&members[i]) {
            Ok(t) => types.push(t),
            Err(_) => {},
        }
        i = i + 1;
    }
    types
}

/// The types of the keys and values of the fields of a structural map; the value of each field
/// is resolved before its key.
fn resolve_fields(fields: &Vec<(TypeExpression, TypeExpression)>) -> (pairs: Vec<
    (TypeContainer, TypeContainer),
>)
    ensures
        pairs@.len() == fields@.len(),
        forall|i: int| 0 <= i < fields@.len() ==> field_resolved(#[trigger] fields@[i], pairs@[i]),
    decreases fields,
{
    let mut pairs: Vec<(TypeContainer, TypeContainer)> = Vec::new();
    let mut i: usize = 0;
    while i < fields.len()
        invariant
            i <= fields@.len(),
            pairs@.len() == i,
            forall|j: int| 0 <= j < i ==> field_resolved(#[trigger] fields@[j], pairs@[j]),
        decreases fields@.len() - i,
    {
        assert(decreases_to!(*fields => fields@));
        assert(decreases_to!(fields@ => fields@[i as int]));
        let (k, v) = &fields[i];
        let value = resolve_type_expression_type(v);
        let key = resolve_type_expression_type(k);
        match (key, value) {
            (Ok(kt), Ok(vt)) => pairs.push((kt, vt)),
            _ => {},
        }
        i = i + 1;
    }
    pairs
}

/// The value of an integer type expression where it fits in `usize`.
pub open spec fn usize_of(te: TypeExpression) -> Option<usize> {
    let v: Option<int> = match te {
        TypeExpression::Integer(i) => Some(i.value as int),
        TypeExpression::TypedInteger(i) => Some(typed_integer_value(i)),
        _ => None,
    };
    match v {
        Some(n) => if 0 <= n <= usize::MAX {
            Some(n as usize)
        } else {
            None
        },
        None => None,
    }
}

/// The value of an integer literal type expression as a `usize`, if it is one and fits.
pub fn integer_to_usize(i: &TypeExpression) -> (res: Option<usize>)
    ensures
        res == usize_of(*i),
{
    let wide: Option<(bool, u128)> = match i {
        TypeExpression::Integer(v) => Some(signed_parts(v.value)),
        TypeExpression::TypedInteger(v) => Some(
            match v {
                TypedInteger::I8(x) => signed_parts(*x as i128),
                TypedInteger::I16(x) => signed_parts(*x as i128),
                TypedInteger::I32(x) => signed_parts(*x as i128),
                TypedInteger::I64(x) => signed_parts(*x as i128),
                TypedInteger::I128(x) => signed_parts(*x),
                TypedInteger::U8(x) => (false, *x as u128),
                TypedInteger::U16(x) => (false, *x as u128),
                TypedInteger::U32(x) => (false, *x as u128),
                TypedInteger::U64(x) => (false, *x as u128),
                TypedInteger::U128(x) => (false, *x),
                TypedInteger::Big(x) => signed_parts(x.value),
            },
        ),
        _ => None,
    };
    match wide {
        Some((negative, m)) => if !negative && m <= usize::MAX as u128 {
            Some(m as usize)
        } else {
            None
        },
        None => None,
    }
}

/// Whether `v` is negative, and its magnitude where it is not.
fn signed_parts(v: i128) -> (r: (bool, u128))
    ensures
        r.0 == (v < 0),
        v >= 0 ==> r.1 == v,
{
    if v < 0 {
        (true, 0)
    } else {
        (false, v as u128)
    }
}

} // verus!
