//! The values of expressions that are known without running the script.
use vstd::prelude::*;
use crate::ast::expression::DatexExpression;
use crate::compiler::error::CompilerError;
use crate::compiler::expression_compiler::{
    entry_bytes, entry_placeholders, entry_sequence_bytes, entry_sequence_placeholders,
    expression_bytes, placeholder_count, sequence_bytes, sequence_placeholders, whole_decimal_value,
};
use crate::core_compiler::value_compiler::{
    container_bytes, entries_bytes, items_bytes, key_value_bytes, typed_decimal_type,
    typed_decimal_type_definition,
};
use crate::values::core_values::{Decimal, Endpoint};
use crate::values::value::{CoreValue, Value, ValueContainer};

verus! {

/// An expression is static when it is a literal (null, a boolean, a text, an integer or
/// decimal, typed or not, an endpoint), or a list or map of static expressions.
pub open spec fn is_static_expression(e: DatexExpression) -> bool
    decreases e,
{
    match e {
        DatexExpression::Null => true,
        DatexExpression::Boolean(_) => true,
        DatexExpression::Text(_) => true,
        DatexExpression::Decimal(_) => true,
        DatexExpression::Integer(_) => true,
        DatexExpression::TypedInteger(_) => true,
        DatexExpression::TypedDecimal(_) => true,
        DatexExpression::Endpoint(_) => true,
        DatexExpression::List(items) => forall|i: int|
            0 <= i < items@.len() ==> is_static_expression(#[trigger] items@[i]),
        DatexExpression::KeyValueMap(entries) => forall|i: int|
            0 <= i < entries@.len() ==> is_static_entry(#[trigger] entries@[i]),
        _ => false,
    }
}

/// The key and the value of a map entry are static.
pub open spec fn is_static_entry(entry: (DatexExpression, DatexExpression)) -> bool
    decreases entry,
{
    is_static_expression(entry.0) && is_static_expression(entry.1)
}

/// A value of the default type of its inner value.
pub open spec fn plain(inner: CoreValue) -> ValueContainer {
    ValueContainer::Value(Value { inner, actual_type: None })
}

/// `vc` is the value of the static expression `e`; a typed decimal keeps its type as the
/// value's type, which the compiler writes as a type cast.
pub open spec fn value_of_expression(e: DatexExpression, vc: ValueContainer) -> bool
    decreases e,
{
    match e {
        DatexExpression::Null => vc == plain(CoreValue::Null),
        DatexExpression::Boolean(b) => vc == plain(CoreValue::Boolean(b)),
        DatexExpression::Text(s) => vc matches ValueContainer::Value(
            Value { inner: CoreValue::Text(t), actual_type: None },
        ) && t@ == s@,
        DatexExpression::Decimal(d) => vc == plain(CoreValue::Decimal(d)),
        DatexExpression::Integer(i) => vc == plain(CoreValue::Integer(i)),
        DatexExpression::TypedInteger(i) => vc == plain(CoreValue::TypedInteger(i)),
        DatexExpression::TypedDecimal(d) => vc == ValueContainer::Value(
            Value {
                inner: CoreValue::TypedDecimal(d),
                actual_type: Some(typed_decimal_type_definition(d)),
            },
        ),
        DatexExpression::Endpoint(endpoint) => vc matches ValueContainer::Value(
            Value { inner: CoreValue::Endpoint(x), actual_type: None },
        ) && x.binary@ == endpoint.binary@,
        DatexExpression::List(items) => vc matches ValueContainer::Value(
            Value { inner: CoreValue::List(values), actual_type: None },
        ) && values@.len() == items@.len() && forall|i: int|
            0 <= i < items@.len() ==> value_of_expression(#[trigger] items@[i], values@[i]),
        DatexExpression::KeyValueMap(entries) => vc matches ValueContainer::Value(
            Value { inner: CoreValue::KeyValueMap(values), actual_type: None },
        ) && values@.len() == entries@.len() && forall|i: int|
            0 <= i < entries@.len() ==> value_of_entry(#[trigger] entries@[i], values@[i]),
        _ => false,
    }
}

/// `pair` holds the values of the key and the value of a static map entry.
pub open spec fn value_of_entry(
    entry: (DatexExpression, DatexExpression),
    pair: (ValueContainer, ValueContainer),
) -> bool
    decreases entry,
{
    value_of_expression(entry.0, pair.0) && value_of_expression(entry.1, pair.1)
}

/// The value of a static expression; `None` for any other expression.
#[verifier::loop_isolation(false)]
pub fn value_container_from_expression(expr: &DatexExpression) -> (res: Option<ValueContainer>)
    ensures
        res is Some <==> is_static_expression(*expr),
        res matches Some(vc) ==> value_of_expression(*expr, vc),
    decreases expr,
{
    match expr {
        DatexExpression::Null => Some(ValueContainer::Value(
            Value { inner: CoreValue::Null, actual_type: None },
        )),
        DatexExpression::Boolean(b) => Some(ValueContainer::Value(
            Value { inner: CoreValue::Boolean(*b), actual_type: None },
        )),
        DatexExpression::Text(s) => Some(ValueContainer::Value(
            Value { inner: CoreValue::Text(s.clone()), actual_type: None },
        )),
        DatexExpression::Decimal(d) => Some(ValueContainer::Value(
            Value { inner: CoreValue::Decimal(*d), actual_type: None },
        )),
        DatexExpression::Integer(i) => Some(ValueContainer::Value(
            Value { inner: CoreValue::Integer(*i), actual_type: None },
        )),
        DatexExpression::TypedInteger(i) => Some(ValueContainer::Value(
            Value { inner: CoreValue::TypedInteger(*i), actual_type: None },
        )),
        DatexExpression::TypedDecimal(d) => Some(ValueContainer::Value(
            Value { inner: CoreValue::TypedDecimal(*d), actual_type: Some(typed_decimal_type(d)) },
        )),
        DatexExpression::Endpoint(endpoint) => {
            let mut binary: Vec<u8> = Vec::new();
            let mut k: usize = 0;
            while k < endpoint.binary.len()
                invariant
                    k <= endpoint.binary@.len(),
                    binary@ == endpoint.binary@.subrange(0, k as int),
                decreases endpoint.binary@.len() - k,
            {
                binary.push(endpoint.binary[k]);
                k = k + 1;
                assert(binary@ =~= endpoint.binary@.subrange(0, k as int));
            }
            assert(binary@ =~= endpoint.binary@);
            Some(ValueContainer::Value(
                Value { inner: CoreValue::Endpoint(Endpoint { binary }), actual_type: None },
            ))
        },
        DatexExpression::List(items) => {
            let mut values: Vec<ValueContainer> = Vec::new();
            let mut i: usize = 0;
            while i < items.len()
                invariant
                    i <= items@.len(),
                    *expr == DatexExpression::List(*items),
                    values@.len() == i,
                    forall|j: int| 0 <= j < i ==> is_static_expression(#[trigger] items@[j]),
                    forall|j: int| 0 <= j < i ==> value_of_expression(#[trigger] items@[j], values@[j]),
                decreases items@.len() - i,
            {
                assert(decreases_to!(*expr => *items));
                assert(decreases_to!(*items => items@));
                assert(decreases_to!(items@ => items@[i as int]));
                match value_container_from_expression(&items[i]) {
                    Some(vc) => values.push(vc),
                    None => {
                        assert(!is_static_expression(items@[i as int]));
                        return None;
                    },
                }
                i = i + 1;
            }
            assert(is_static_expression(*expr));
            Some(ValueContainer::Value(
                Value { inner: CoreValue::List(values), actual_type: None },
            ))
        },
        DatexExpression::KeyValueMap(entries) => {
            let mut values: Vec<(ValueContainer, ValueContainer)> = Vec::new();
            let mut i: usize = 0;
            while i < entries.len()
                invariant
                    i <= entries@.len(),
                    *expr == DatexExpression::KeyValueMap(*entries),
                    values@.len() == i,
                    forall|j: int| 0 <= j < i ==> is_static_entry(#[trigger] entries@[j]),
                    forall|j: int| 0 <= j < i ==> value_of_entry(#[trigger] entries@[j], values@[j]),
                decreases entries@.len() - i,
            {
                assert(decreases_to!(*expr => *entries));
                assert(decreases_to!(*entries => entries@));
                assert(decreases_to!(entries@ => entries@[i as int]));
                assert(decreases_to!(entries@[i as int] => entries@[i as int].0));
                assert(decreases_to!(entries@[i as int] => entries@[i as int].1));
                let entry = &entries[i];
                let key = match value_container_from_expression(&entry.0) {
                    Some(vc) => vc,
                    None => {
                        assert(!is_static_expression(entries@[i as int].0));
                        assert(!is_static_entry(entries@[i as int]));
                        return None;
                    },
                };
                let value = match value_container_from_expression(&entry.1) {
                    Some(vc) => vc,
                    None => {
                        assert(!is_static_expression(entries@[i as int].1));
                        assert(!is_static_entry(entries@[i as int]));
                        return None;
                    },
                };
                assert(is_static_entry(entries@[i as int]));
                values.push((key, value));
                assert(value_of_entry(entries@[i as int], values@[i as int]));
                i = i + 1;
            }
            assert(is_static_expression(*expr));
            Some(ValueContainer::Value(
                Value { inner: CoreValue::KeyValueMap(values), actual_type: None },
            ))
        },
        _ => None,
    }
}

/// The value of a static expression, or `NonStaticValue` for any other expression.
pub fn extract_static_value_from_ast(ast: &DatexExpression) -> (res: Result<
    ValueContainer,
    CompilerError,
>)
    ensures
        res is Ok <==> is_static_expression(*ast),
        match res {
            Ok(vc) => value_of_expression(*ast, vc),
            Err(e) => e == CompilerError::NonStaticValue,
        },
{
    match value_container_from_expression(ast) {
        Some(vc) => Ok(vc),
        None => Err(CompilerError::NonStaticValue),
    }
}

/// A decimal literal that the expression compiler writes as a 16-bit or 32-bit integer.
pub open spec fn is_shortened_decimal(d: Decimal) -> bool {
    whole_decimal_value(d) matches Some(w) && -0x8000_0000 <= w < 0x8000_0000
}

/// Whether `e` holds a decimal literal that the expression compiler shortens.
pub open spec fn has_shortened_decimal(e: DatexExpression) -> bool
    decreases e,
{
    match e {
        DatexExpression::Decimal(d) => is_shortened_decimal(d),
        DatexExpression::List(items) => exists|i: int|
            0 <= i < items@.len() && has_shortened_decimal(#[trigger] items@[i]),
        DatexExpression::KeyValueMap(entries) => exists|i: int|
            0 <= i < entries@.len() && entry_has_shortened_decimal(#[trigger] entries@[i]),
        _ => false,
    }
}

/// Whether the key or the value of a map entry holds a shortened decimal literal.
pub open spec fn entry_has_shortened_decimal(entry: (DatexExpression, DatexExpression)) -> bool
    decreases entry,
{
    has_shortened_decimal(entry.0) || has_shortened_decimal(entry.1)
}

/// Compiling a static expression gives the encoding of its value, unless the expression holds
/// a whole-numbered decimal literal, which the expression compiler writes as a short integer.
pub proof fn lemma_static_expression_bytes(
    e: DatexExpression,
    v: ValueContainer,
    inserted: Seq<ValueContainer>,
    k: int,
)
    requires
        value_of_expression(e, v),
        !has_shortened_decimal(e),
    ensures
        expression_bytes(e, inserted, k) == container_bytes(v),
    decreases e,
{
    match e {
        DatexExpression::List(items) => {
            let values = v->Value_0.inner->List_0;
            assert(decreases_to!(e => items));
            assert(decreases_to!(items => items@));
            lemma_sequence_bytes(items@, values@, inserted, k);
        },
        DatexExpression::KeyValueMap(entries) => {
            let values = v->Value_0.inner->KeyValueMap_0;
            assert(decreases_to!(e => entries));
            assert(decreases_to!(entries => entries@));
            lemma_entry_sequence_bytes(entries@, values@, inserted, k);
        },
        _ => {},
    }
    assert(expression_bytes(e, inserted, k) =~= container_bytes(v));
}

/// A static expression has no placeholders.
proof fn lemma_static_has_no_placeholder(e: DatexExpression, v: ValueContainer)
    requires
        value_of_expression(e, v),
    ensures
        placeholder_count(e) == 0,
    decreases e,
{
    match e {
        DatexExpression::List(items) => {
            let values = v->Value_0.inner->List_0;
            assert(decreases_to!(e => items));
            assert(decreases_to!(items => items@));
            lemma_static_items_have_no_placeholder(items@, values@);
        },
        DatexExpression::KeyValueMap(entries) => {
            let values = v->Value_0.inner->KeyValueMap_0;
            assert(decreases_to!(e => entries));
            assert(decreases_to!(entries => entries@));
            lemma_static_entries_have_no_placeholder(entries@, values@);
        },
        _ => {},
    }
}

/// Static list items have no placeholders.
proof fn lemma_static_items_have_no_placeholder(
    items: Seq<DatexExpression>,
    values: Seq<ValueContainer>,
)
    requires
        values.len() == items.len(),
        forall|i: int| 0 <= i < items.len() ==> value_of_expression(#[trigger] items[i], values[i]),
    ensures
        sequence_placeholders(items) == 0,
    decreases items,
{
    if items.len() > 0 {
        assert(decreases_to!(items => items[0]));
        lemma_static_has_no_placeholder(items[0], values[0]);
        let rest = items.subrange(1, items.len() as int);
        let rest_values = values.subrange(1, values.len() as int);
        assert forall|i: int| 0 <= i < rest.len() implies value_of_expression(
            #[trigger] rest[i],
            rest_values[i],
        ) by {
            assert(rest[i] == items[i + 1] && rest_values[i] == values[i + 1]);
        }
        lemma_static_items_have_no_placeholder(rest, rest_values);
    }
}

/// Static map entries have no placeholders.
proof fn lemma_static_entries_have_no_placeholder(
    entries: Seq<(DatexExpression, DatexExpression)>,
    values: Seq<(ValueContainer, ValueContainer)>,
)
    requires
        values.len() == entries.len(),
        forall|i: int| 0 <= i < entries.len() ==> value_of_entry(#[trigger] entries[i], values[i]),
    ensures
        entry_sequence_placeholders(entries) == 0,
    decreases entries,
{
    if entries.len() > 0 {
        let entry = entries[0];
        let pair = values[0];
        assert(value_of_entry(entry, pair));
        assert(decreases_to!(entries => entries[0]));
        assert(decreases_to!(entry => entry.0));
        assert(decreases_to!(entry => entry.1));
        lemma_static_has_no_placeholder(entry.0, pair.0);
        lemma_static_has_no_placeholder(entry.1, pair.1);
        assert(entry_placeholders(entry) == 0);
        let rest = entries.subrange(1, entries.len() as int);
        let rest_values = values.subrange(1, values.len() as int);
        assert forall|i: int| 0 <= i < rest.len() implies value_of_entry(
            #[trigger] rest[i],
            rest_values[i],
        ) by {
            assert(rest[i] == entries[i + 1] && rest_values[i] == values[i + 1]);
        }
        lemma_static_entries_have_no_placeholder(rest, rest_values);
    }
}

/// Compiling static list items gives the encodings of their values, one after the other.
proof fn lemma_sequence_bytes(
    items: Seq<DatexExpression>,
    values: Seq<ValueContainer>,
    inserted: Seq<ValueContainer>,
    k: int,
)
    requires
        values.len() == items.len(),
        forall|i: int| 0 <= i < items.len() ==> value_of_expression(#[trigger] items[i], values[i]),
        forall|i: int| 0 <= i < items.len() ==> !has_shortened_decimal(#[trigger] items[i]),
    ensures
        sequence_bytes(items, inserted, k) == items_bytes(values),
    decreases items,
{
    if items.len() > 0 {
        assert(decreases_to!(items => items[0]));
        lemma_static_expression_bytes(items[0], values[0], inserted, k);
        lemma_static_has_no_placeholder(items[0], values[0]);
        let rest = items.subrange(1, items.len() as int);
        let rest_values = values.subrange(1, values.len() as int);
        assert forall|i: int| 0 <= i < rest.len() implies value_of_expression(
            #[trigger] rest[i],
            rest_values[i],
        ) && !has_shortened_decimal(rest[i]) by {
            assert(rest[i] == items[i + 1] && rest_values[i] == values[i + 1]);
        }
        lemma_sequence_bytes(rest, rest_values, inserted, k);
    }
}

/// Compiling static map entries gives the encodings of their key-value pairs, one after the
/// other.
proof fn lemma_entry_sequence_bytes(
    entries: Seq<(DatexExpression, DatexExpression)>,
    values: Seq<(ValueContainer, ValueContainer)>,
    inserted: Seq<ValueContainer>,
    k: int,
)
    requires
        values.len() == entries.len(),
        forall|i: int| 0 <= i < entries.len() ==> value_of_entry(#[trigger] entries[i], values[i]),
        forall|i: int| 0 <= i < entries.len() ==> !entry_has_shortened_decimal(#[trigger] entries[i]),
    ensures
        entry_sequence_bytes(entries, inserted, k) == entries_bytes(values),
    decreases entries,
{
    if entries.len() > 0 {
        let entry = entries[0];
        let pair = values[0];
        assert(value_of_entry(entry, pair));
        assert(!entry_has_shortened_decimal(entry));
        assert(decreases_to!(entries => entries[0]));
        assert(decreases_to!(entry => entry.0));
        assert(decreases_to!(entry => entry.1));
        lemma_static_expression_bytes(entry.0, pair.0, inserted, k);
        lemma_static_has_no_placeholder(entry.0, pair.0);
        lemma_static_expression_bytes(entry.1, pair.1, inserted, k);
        lemma_static_has_no_placeholder(entry.1, pair.1);
        assert(entry_bytes(entry, inserted, k) == key_value_bytes(pair));
        let rest = entries.subrange(1, entries.len() as int);
        let rest_values = values.subrange(1, values.len() as int);
        assert forall|i: int| 0 <= i < rest.len() implies value_of_entry(
            #[trigger] rest[i],
            rest_values[i],
        ) && !entry_has_shortened_decimal(rest[i]) by {
            assert(rest[i] == entries[i + 1] && rest_values[i] == values[i + 1]);
        }
        lemma_entry_sequence_bytes(rest, rest_values, inserted, k);
    }
}

} // verus!
