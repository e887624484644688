//! Compiles expressions of the syntax tree to DXB bytecode.
use vstd::prelude::*;
use crate::ast::expression::{DatexExpression, UnboundedStatement};
use crate::compiler::context::{is_address_order, slots_remapped, CompilationContext, VirtualSlot};
use crate::compiler::context::ExecutionMode;
use crate::compiler::error::CompilerError;
use crate::compiler::static_value::{
    extract_static_value_from_ast, is_static_expression, value_of_expression,
};
use crate::compiler::StaticValueOrDXB;
use crate::compiler::metadata::CompileMetadata;
use crate::compiler::operations::{comparison_code, operation_code};
use crate::compiler::scope::{
    lemma_pop_after_push, lemma_push_keeps_resolution, resolvable, resolve, CompilationScope,
};
use crate::core_compiler::type_compiler::get_ref_bytes;
use crate::core_compiler::value_compiler::{
    append_boolean, append_decimal, append_encoded_integer, append_endpoint, append_float_as_i16,
    append_float_as_i32, append_get_ref, append_integer, append_key_string, append_len_u32,
    append_text, append_typed_decimal, append_value_container, collection_header, container_bytes,
    container_encodable, core_bytes, encoded_decimal_bytes,
    encoded_integer_bytes, instr, key_string_bytes, magnitude, text_bytes, type_cast_bytes,
    typed_decimal_type_definition,
};
use crate::global::instruction_codes::InstructionCode;
use crate::utils::buffers::{
    append_u8, le_bytes, le_signed, lemma_le_bytes_len, lemma_le_signed_round_trip,
    lemma_pow256_values,
};
use crate::global::instruction_codes::{instruction_code_of_byte, lemma_instruction_code_bytes};
use crate::values::core_values::{Decimal, Integer};
use vstd::arithmetic::div_mod::{lemma_fundamental_div_mod, lemma_mod_multiples_basic};
use crate::values::value::{CoreValue, ValueContainer};
use vstd::utf8::encode_utf8;

verus! {

/// The value of a finite decimal that is a whole number; `None` for any other decimal.
pub open spec fn whole_decimal_value(d: Decimal) -> Option<int> {
    match d {
        Decimal::Finite { numerator, denominator } => {
            let n = numerator.value as int;
            let m = denominator.value as int;
            if m != 0 && magnitude(n) % magnitude(m) == 0 {
                let q = (magnitude(n) / magnitude(m)) as int;
                Some(if (n < 0) != (m < 0) { -q } else { q })
            } else {
                None
            }
        },
        _ => None,
    }
}

/// The encoding of a decimal literal: a whole number that fits a 16-bit or 32-bit integer is
/// written as that integer, any other decimal as an exact decimal.
pub open spec fn decimal_literal_bytes(d: Decimal) -> Seq<u8> {
    match whole_decimal_value(d) {
        Some(w) => if -0x8000 <= w < 0x8000 {
            instr(InstructionCode::DECIMAL_AS_INT_16) + le_bytes(w, 2)
        } else if -0x8000_0000 <= w < 0x8000_0000 {
            instr(InstructionCode::DECIMAL_AS_INT_32) + le_bytes(w, 4)
        } else {
            core_bytes(CoreValue::Decimal(d))
        },
        None => core_bytes(CoreValue::Decimal(d)),
    }
}

/// The number of placeholders in `e`.
pub open spec fn placeholder_count(e: DatexExpression) -> nat
    decreases e,
{
    match e {
        DatexExpression::Placeholder => 1,
        DatexExpression::List(items) => sequence_placeholders(items@),
        DatexExpression::KeyValueMap(entries) => entry_sequence_placeholders(entries@),
        DatexExpression::Statements(statements, _, _) => sequence_placeholders(statements@),
        DatexExpression::BinaryOperation(_, left, right) => placeholder_count(*left)
            + placeholder_count(*right),
        DatexExpression::ComparisonOperation(_, left, right) => placeholder_count(*left)
            + placeholder_count(*right),
        DatexExpression::Deref(inner) => placeholder_count(*inner),
        _ => 0,
    }
}

/// The number of placeholders in `items`.
pub open spec fn sequence_placeholders(items: Seq<DatexExpression>) -> nat
    decreases items,
{
    if items.len() == 0 {
        0
    } else {
        placeholder_count(items[0]) + sequence_placeholders(items.subrange(1, items.len() as int))
    }
}

/// The number of placeholders in map entries.
pub open spec fn entry_sequence_placeholders(entries: Seq<(DatexExpression, DatexExpression)>) -> nat
    decreases entries,
{
    if entries.len() == 0 {
        0
    } else {
        entry_placeholders(entries[0]) + entry_sequence_placeholders(
            entries.subrange(1, entries.len() as int),
        )
    }
}

/// The number of placeholders in the key and the value of a map entry.
pub open spec fn entry_placeholders(entry: (DatexExpression, DatexExpression)) -> nat
    decreases entry,
{
    placeholder_count(entry.0) + placeholder_count(entry.1)
}

/// The `n` inserted values from position `k` of `values` exist and can be encoded.
pub open spec fn insertable(values: Seq<ValueContainer>, k: int, n: nat) -> bool {
    &&& 0 <= k
    &&& k + n <= values.len()
    &&& forall|j: int| k <= j < k + n ==> container_encodable(#[trigger] values[j])
}

/// The termination flag of a block.
pub open spec fn termination_flag(is_terminated: bool) -> Seq<u8> {
    seq![if is_terminated { 1u8 } else { 0u8 }]
}

/// What opens a block of `len` statements: the statements header and the termination flag;
/// for a section of an unbounded script, `UNBOUNDED_STATEMENTS` in the first section and
/// nothing in the others.
pub open spec fn statements_opening(
    len: nat,
    is_terminated: bool,
    unbounded: Option<UnboundedStatement>,
) -> Seq<u8> {
    match unbounded {
        Some(u) => if u.is_first {
            instr(InstructionCode::UNBOUNDED_STATEMENTS)
        } else {
            Seq::empty()
        },
        None => collection_header(InstructionCode::SHORT_STATEMENTS, InstructionCode::STATEMENTS, len)
            + termination_flag(is_terminated),
    }
}

/// What closes a block: for the last section of an unbounded script,
/// `UNBOUNDED_STATEMENTS_END` and the termination flag; nothing otherwise.
pub open spec fn statements_closing(is_terminated: bool, unbounded: Option<UnboundedStatement>) -> Seq<
    u8,
> {
    match unbounded {
        Some(u) => if u.is_last {
            instr(InstructionCode::UNBOUNDED_STATEMENTS_END) + termination_flag(is_terminated)
        } else {
            Seq::empty()
        },
        None => Seq::empty(),
    }
}

/// The bytecode of an expression whose placeholders take the inserted `values` from position
/// `k` on, in order. A variable is read through a four-byte placeholder for its slot address,
/// which is filled in once the whole script is compiled.
pub open spec fn expression_bytes(e: DatexExpression, values: Seq<ValueContainer>, k: int) -> Seq<
    u8,
>
    decreases e,
{
    match e {
        DatexExpression::Null => instr(InstructionCode::NULL),
        DatexExpression::Boolean(b) => core_bytes(CoreValue::Boolean(b)),
        DatexExpression::Text(text) => text_bytes(encode_utf8(text@)),
        DatexExpression::Decimal(d) => decimal_literal_bytes(d),
        DatexExpression::TypedDecimal(d) => type_cast_bytes(typed_decimal_type_definition(d))
            + encoded_decimal_bytes(d),
        DatexExpression::Integer(i) => core_bytes(CoreValue::Integer(i)),
        DatexExpression::TypedInteger(i) => encoded_integer_bytes(i),
        DatexExpression::Endpoint(endpoint) => instr(InstructionCode::ENDPOINT) + endpoint.binary@,
        DatexExpression::List(items) => collection_header(
            InstructionCode::SHORT_LIST,
            InstructionCode::LIST,
            items@.len(),
        ) + sequence_bytes(items@, values, k),
        DatexExpression::KeyValueMap(entries) => collection_header(
            InstructionCode::SHORT_MAP,
            InstructionCode::MAP,
            entries@.len(),
        ) + entry_sequence_bytes(entries@, values, k),
        DatexExpression::Statements(statements, is_terminated, unbounded) => if unbounded is None
            && statements@.len() == 1 && !is_terminated {
            expression_bytes(statements@[0], values, k)
        } else {
            statements_opening(statements@.len(), is_terminated, unbounded) + sequence_bytes(
                statements@,
                values,
                k,
            ) + statements_closing(is_terminated, unbounded)
        },
        DatexExpression::VariableAccess(_) => instr(InstructionCode::GET_SLOT) + le_bytes(0, 4),
        DatexExpression::BinaryOperation(op, left, right) => instr(operation_code(op))
            + expression_bytes(*left, values, k) + expression_bytes(
            *right,
            values,
            k + placeholder_count(*left),
        ),
        DatexExpression::ComparisonOperation(op, left, right) => instr(comparison_code(op))
            + expression_bytes(*left, values, k) + expression_bytes(
            *right,
            values,
            k + placeholder_count(*left),
        ),
        DatexExpression::GetReference(address) => get_ref_bytes(address),
        DatexExpression::PointerAddress(address) => get_ref_bytes(address),
        DatexExpression::Placeholder => container_bytes(values[k]),
        DatexExpression::Deref(inner) => instr(InstructionCode::DEREF) + expression_bytes(
            *inner,
            values,
            k,
        ),
    }
}

/// The bytecode of expressions, one after the other.
pub open spec fn sequence_bytes(items: Seq<DatexExpression>, values: Seq<ValueContainer>, k: int) -> Seq<
    u8,
>
    decreases items,
{
    if items.len() == 0 {
        Seq::empty()
    } else {
        expression_bytes(items[0], values, k) + sequence_bytes(
            items.subrange(1, items.len() as int),
            values,
            k + placeholder_count(items[0]),
        )
    }
}

/// The bytecode of map entries, one after the other.
pub open spec fn entry_sequence_bytes(
    entries: Seq<(DatexExpression, DatexExpression)>,
    values: Seq<ValueContainer>,
    k: int,
) -> Seq<u8>
    decreases entries,
{
    if entries.len() == 0 {
        Seq::empty()
    } else {
        entry_bytes(entries[0], values, k) + entry_sequence_bytes(
            entries.subrange(1, entries.len() as int),
            values,
            k + entry_placeholders(entries[0]),
        )
    }
}

/// The bytecode of a map entry: a text key as a key string, any other key as a dynamic key
/// followed by its bytecode; then the value.
pub open spec fn entry_bytes(
    entry: (DatexExpression, DatexExpression),
    values: Seq<ValueContainer>,
    k: int,
) -> Seq<u8>
    decreases entry,
{
    (match entry.0 {
        DatexExpression::Text(text) => key_string_bytes(encode_utf8(text@)),
        _ => instr(InstructionCode::KEY_VALUE_DYNAMIC) + expression_bytes(entry.0, values, k),
    }) + expression_bytes(entry.1, values, k + placeholder_count(entry.0))
}

/// The slots that the variables visible from `scope` resolve to, by name.
pub open spec fn resolved_slots(scope: CompilationScope) -> Map<Seq<char>, VirtualSlot> {
    Map::new(
        |name: Seq<char>| resolve(scope, name) is Some,
        |name: Seq<char>| (resolve(scope, name)->0).0,
    )
}

/// `slots` with the placeholder at byte `index` recorded for `slot`, after its other
/// placeholders.
pub open spec fn with_placeholder(
    slots: Map<VirtualSlot, Seq<u32>>,
    slot: VirtualSlot,
    index: int,
) -> Map<VirtualSlot, Seq<u32>> {
    slots.insert(
        slot,
        (if slots.dom().contains(slot) {
            slots[slot]
        } else {
            Seq::empty()
        }).push(index as u32),
    )
}

/// The slot table after compiling `e` at byte `pos` of the buffer, with `slots` before:
/// every variable read records the byte index of its placeholder (right after its `GET_SLOT`
/// code) for the slot its name resolves to in `resolved`, in the order of compilation.
pub open spec fn register_reads(
    slots: Map<VirtualSlot, Seq<u32>>,
    e: DatexExpression,
    resolved: Map<Seq<char>, VirtualSlot>,
    pos: int,
    values: Seq<ValueContainer>,
    k: int,
) -> Map<VirtualSlot, Seq<u32>>
    decreases e,
{
    match e {
        DatexExpression::VariableAccess(name) => if resolved.contains_key(name@) {
            with_placeholder(slots, resolved[name@], pos + 1)
        } else {
            slots
        },
        DatexExpression::List(items) => register_reads_in(
            slots,
            items@,
            resolved,
            pos + collection_header(
                InstructionCode::SHORT_LIST,
                InstructionCode::LIST,
                items@.len(),
            ).len(),
            values,
            k,
        ),
        DatexExpression::KeyValueMap(entries) => register_reads_in_entries(
            slots,
            entries@,
            resolved,
            pos + collection_header(
                InstructionCode::SHORT_MAP,
                InstructionCode::MAP,
                entries@.len(),
            ).len(),
            values,
            k,
        ),
        DatexExpression::Statements(statements, is_terminated, unbounded) => if unbounded is None
            && statements@.len() == 1 && !is_terminated {
            register_reads(slots, statements@[0], resolved, pos, values, k)
        } else {
            register_reads_in(
                slots,
                statements@,
                resolved,
                pos + statements_opening(statements@.len(), is_terminated, unbounded).len(),
                values,
                k,
            )
        },
        DatexExpression::BinaryOperation(_, left, right) => register_reads(
            register_reads(slots, *left, resolved, pos + 1, values, k),
            *right,
            resolved,
            pos + 1 + expression_bytes(*left, values, k).len(),
            values,
            k + placeholder_count(*left),
        ),
        DatexExpression::ComparisonOperation(_, left, right) => register_reads(
            register_reads(slots, *left, resolved, pos + 1, values, k),
            *right,
            resolved,
            pos + 1 + expression_bytes(*left, values, k).len(),
            values,
            k + placeholder_count(*left),
        ),
        DatexExpression::Deref(inner) => register_reads(slots, *inner, resolved, pos + 1, values, k),
        _ => slots,
    }
}

/// The slot table after compiling `items` one after the other from byte `pos`.
pub open spec fn register_reads_in(
    slots: Map<VirtualSlot, Seq<u32>>,
    items: Seq<DatexExpression>,
    resolved: Map<Seq<char>, VirtualSlot>,
    pos: int,
    values: Seq<ValueContainer>,
    k: int,
) -> Map<VirtualSlot, Seq<u32>>
    decreases items,
{
    if items.len() == 0 {
        slots
    } else {
        register_reads_in(
            register_reads(slots, items[0], resolved, pos, values, k),
            items.subrange(1, items.len() as int),
            resolved,
            pos + expression_bytes(items[0], values, k).len(),
            values,
            k + placeholder_count(items[0]),
        )
    }
}

/// The slot table after compiling map entries one after the other from byte `pos`.
pub open spec fn register_reads_in_entries(
    slots: Map<VirtualSlot, Seq<u32>>,
    entries: Seq<(DatexExpression, DatexExpression)>,
    resolved: Map<Seq<char>, VirtualSlot>,
    pos: int,
    values: Seq<ValueContainer>,
    k: int,
) -> Map<VirtualSlot, Seq<u32>>
    decreases entries,
{
    if entries.len() == 0 {
        slots
    } else {
        register_reads_in_entries(
            register_reads_in_entry(slots, entries[0], resolved, pos, values, k),
            entries.subrange(1, entries.len() as int),
            resolved,
            pos + entry_bytes(entries[0], values, k).len(),
            values,
            k + entry_placeholders(entries[0]),
        )
    }
}

/// The slot table after compiling a map entry from byte `pos`: a key that is not a text is
/// compiled after its `KEY_VALUE_DYNAMIC` code, then the value.
pub open spec fn register_reads_in_entry(
    slots: Map<VirtualSlot, Seq<u32>>,
    entry: (DatexExpression, DatexExpression),
    resolved: Map<Seq<char>, VirtualSlot>,
    pos: int,
    values: Seq<ValueContainer>,
    k: int,
) -> Map<VirtualSlot, Seq<u32>>
    decreases entry,
{
    let after_key = match entry.0 {
        DatexExpression::Text(_) => slots,
        _ => register_reads(slots, entry.0, resolved, pos + 1, values, k),
    };
    let key_len = (match entry.0 {
        DatexExpression::Text(text) => key_string_bytes(encode_utf8(text@)),
        _ => instr(InstructionCode::KEY_VALUE_DYNAMIC) + expression_bytes(entry.0, values, k),
    }).len();
    register_reads(after_key, entry.1, resolved, pos + key_len, values, k + placeholder_count(entry.0))
}

/// The names of the variables that resolve from `scope`.
pub open spec fn declared_names(scope: CompilationScope) -> Set<Seq<char>> {
    Set::new(|name: Seq<char>| resolve(scope, name) is Some)
}

/// The first variable read by `e`, in the order of compilation, whose name is not in
/// `declared`.
pub open spec fn first_undeclared(e: DatexExpression, declared: Set<Seq<char>>) -> Option<
    Seq<char>,
>
    decreases e,
{
    match e {
        DatexExpression::List(items) => first_undeclared_in(items@, declared),
        DatexExpression::KeyValueMap(entries) => first_undeclared_in_entries(entries@, declared),
        DatexExpression::Statements(statements, _, _) => first_undeclared_in(statements@, declared),
        DatexExpression::VariableAccess(name) => if declared.contains(name@) {
            None
        } else {
            Some(name@)
        },
        DatexExpression::BinaryOperation(_, left, right) => match first_undeclared(
            *left,
            declared,
        ) {
            Some(name) => Some(name),
            None => first_undeclared(*right, declared),
        },
        DatexExpression::ComparisonOperation(_, left, right) => match first_undeclared(
            *left,
            declared,
        ) {
            Some(name) => Some(name),
            None => first_undeclared(*right, declared),
        },
        DatexExpression::Deref(inner) => first_undeclared(*inner, declared),
        _ => None,
    }
}

/// The first undeclared variable read by `items`, in order.
pub open spec fn first_undeclared_in(items: Seq<DatexExpression>, declared: Set<Seq<char>>) -> Option<
    Seq<char>,
>
    decreases items,
{
    if items.len() == 0 {
        None
    } else {
        match first_undeclared(items[0], declared) {
            Some(name) => Some(name),
            None => first_undeclared_in(items.subrange(1, items.len() as int), declared),
        }
    }
}

/// The first undeclared variable read by `entries`, key before value, in order.
pub open spec fn first_undeclared_in_entries(
    entries: Seq<(DatexExpression, DatexExpression)>,
    declared: Set<Seq<char>>,
) -> Option<Seq<char>>
    decreases entries,
{
    if entries.len() == 0 {
        None
    } else {
        match first_undeclared_in_entry(entries[0], declared) {
            Some(name) => Some(name),
            None => first_undeclared_in_entries(
                entries.subrange(1, entries.len() as int),
                declared,
            ),
        }
    }
}

/// The first undeclared variable read by a map entry, key before value.
pub open spec fn first_undeclared_in_entry(
    entry: (DatexExpression, DatexExpression),
    declared: Set<Seq<char>>,
) -> Option<Seq<char>>
    decreases entry,
{
    match first_undeclared(entry.0, declared) {
        Some(name) => Some(name),
        None => first_undeclared(entry.1, declared),
    }
}

/// Whether compiling `e` marks the script as having a value that is only known at run time:
/// blocks of statements, operations, comparisons, variable reads, references and
/// dereferences do.
pub open spec fn non_static(e: DatexExpression) -> bool
    decreases e,
{
    match e {
        DatexExpression::List(items) => any_non_static(items@),
        DatexExpression::KeyValueMap(entries) => any_entry_non_static(entries@),
        DatexExpression::Statements(..) => true,
        DatexExpression::VariableAccess(_) => true,
        DatexExpression::BinaryOperation(..) => true,
        DatexExpression::ComparisonOperation(..) => true,
        DatexExpression::Deref(_) => true,
        DatexExpression::GetReference(_) => true,
        _ => false,
    }
}

/// Whether any of `items` is non-static.
pub open spec fn any_non_static(items: Seq<DatexExpression>) -> bool
    decreases items,
{
    items.len() > 0 && (non_static(items[0]) || any_non_static(
        items.subrange(1, items.len() as int),
    ))
}

/// Whether the key or the value of any of `entries` is non-static.
pub open spec fn any_entry_non_static(entries: Seq<(DatexExpression, DatexExpression)>) -> bool
    decreases entries,
{
    entries.len() > 0 && (entry_non_static(entries[0]) || any_entry_non_static(
        entries.subrange(1, entries.len() as int),
    ))
}

/// Whether the key or the value of a map entry is non-static.
pub open spec fn entry_non_static(entry: (DatexExpression, DatexExpression)) -> bool
    decreases entry,
{
    non_static(entry.0) || non_static(entry.1)
}

/// The magnitude of `v`.
fn magnitude_of(v: i128) -> (m: u128)
    ensures
        m == magnitude(v as int),
{
    if v >= 0 {
        v as u128
    } else if v == i128::MIN {
        0x8000_0000_0000_0000_0000_0000_0000_0000u128
    } else {
        (-v) as u128
    }
}

/// The value of a decimal that is a whole number fitting a 32-bit integer.
pub(crate) fn whole_decimal_i32(decimal: &Decimal) -> (res: Option<i32>)
    ensures
        match whole_decimal_value(*decimal) {
            Some(w) => if -0x8000_0000 <= w < 0x8000_0000 {
                res == Some(w as i32)
            } else {
                res is None
            },
            None => res is None,
        },
{
    match decimal {
        Decimal::Finite { numerator, denominator } => {
            let n = magnitude_of(numerator.value);
            let m = magnitude_of(denominator.value);
            if m == 0 || n % m != 0 {
                return None;
            }
            let q = n / m;
            let negative = (numerator.value < 0) != (denominator.value < 0);
            if negative {
                if q <= 0x8000_0000 {
                    Some((0i64 - q as i64) as i32)
                } else {
                    None
                }
            } else if q < 0x8000_0000 {
                Some(q as i32)
            } else {
                None
            }
        },
        _ => None,
    }
}

/// Appends a decimal literal (see `decimal_literal_bytes`).
fn append_decimal_literal(buffer: &mut Vec<u8>, decimal: &Decimal)
    ensures
        final(buffer)@ == old(buffer)@ + decimal_literal_bytes(*decimal),
{
    let ghost start = buffer@;
    match whole_decimal_i32(decimal) {
        Some(w) => {
            if -0x8000 <= w && w < 0x8000 {
                append_float_as_i16(buffer, w as i16);
            } else {
                append_float_as_i32(buffer, w);
            }
        },
        None => append_decimal(buffer, decimal),
    }
    assert(buffer@ =~= start + decimal_literal_bytes(*decimal));
}

/// Writing more bytes after the buffer of a well-formed context keeps it well-formed.
proof fn lemma_wf_longer(before: CompilationContext, after: CompilationContext)
    requires
        before.wf(),
        after.slot_indices@ == before.slot_indices@,
        after.buffer@.len() >= before.buffer@.len(),
    ensures
        after.wf(),
{
    assert(after.slot_entries() == before.slot_entries());
    assert(after.slots() == before.slots());
}

/// Appends the termination flag of a block.
fn append_termination_flag(ctx: &mut CompilationContext, is_terminated: bool)
    requires
        old(ctx).wf(),
    ensures
        final(ctx).wf(),
        final(ctx).buffer@ == old(ctx).buffer@ + termination_flag(is_terminated),
        final(ctx).slots() == old(ctx).slots(),
        final(ctx).has_non_static_value == old(ctx).has_non_static_value,
        final(ctx).keeps_inputs(&*old(ctx)),
{
    let ghost start = *ctx;
    append_u8(&mut ctx.buffer, if is_terminated { 1 } else { 0 });
    proof {
        lemma_wf_longer(start, *ctx);
    }
    assert(ctx.buffer@ =~= start.buffer@ + termination_flag(is_terminated));
}

/// Appends the header of a list, map or block of `len` entries to the context's buffer.
fn append_header(
    ctx: &mut CompilationContext,
    short: InstructionCode,
    long: InstructionCode,
    len: usize,
)
    requires
        old(ctx).wf(),
    ensures
        final(ctx).wf(),
        final(ctx).buffer@ == old(ctx).buffer@ + collection_header(short, long, len as nat),
        final(ctx).slots() == old(ctx).slots(),
        final(ctx).has_non_static_value == old(ctx).has_non_static_value,
        final(ctx).keeps_inputs(&*old(ctx)),
{
    let ghost start = ctx.buffer@;
    if len < 256 {
        ctx.append_instruction_code(short);
        append_u8(&mut ctx.buffer, len as u8);
    } else {
        ctx.append_instruction_code(long);
        append_len_u32(&mut ctx.buffer, len);
    }
    assert(ctx.buffer@ =~= start + collection_header(short, long, len as nat));
}

/// `after` has the inserted values and the execution mode of `before`.
pub open spec fn same_inputs(after: CompilationContext, before: CompilationContext) -> bool {
    &&& after.inserted_values == before.inserted_values
    &&& after.execution_mode == before.execution_mode
}

/// What compiling a part of an expression leaves: `after` is well-formed with the inputs of
/// `before`; on success the scope is given back, `bytes` follow the earlier bytes, `count`
/// inserted values were taken, the slot table is `slots` and the flag of non-static values is
/// raised when `marks`; the failure names `undeclared`.
pub open spec fn compiled(
    res: Result<CompilationScope, CompilerError>,
    scope: CompilationScope,
    before: CompilationContext,
    after: CompilationContext,
    bytes: Seq<u8>,
    count: nat,
    slots: Map<VirtualSlot, Seq<u32>>,
    undeclared: Option<Seq<char>>,
    marks: bool,
) -> bool {
    &&& after.wf()
    &&& same_inputs(after, before)
    &&& (res is Ok <==> undeclared is None)
    &&& match res {
        Ok(s) => {
            &&& s == scope
            &&& after.buffer@ == before.buffer@ + bytes
            &&& after.inserted_value_index == before.inserted_value_index + count
            &&& after.slots() == slots
            &&& after.has_non_static_value == (before.has_non_static_value || marks)
        },
        Err(e) => e matches CompilerError::UndeclaredVariable(name) && undeclared == Some(name@),
    }
}

/// Compiles `items` one after the other.
#[verifier::loop_isolation(false)]
fn compile_sequence(
    ctx: &mut CompilationContext,
    items: &Vec<DatexExpression>,
    scope: CompilationScope,
) -> (res: Result<CompilationScope, CompilerError>)
    requires
        old(ctx).wf(),
        scope.wf(),
        forall|name: Seq<char>| resolvable(scope, name),
        insertable(
            old(ctx).inserted_values@,
            old(ctx).inserted_value_index as int,
            sequence_placeholders(items@),
        ),
        old(ctx).buffer@.len() + sequence_bytes(
            items@,
            old(ctx).inserted_values@,
            old(ctx).inserted_value_index as int,
        ).len() < 0x1_0000_0000,
    ensures
        compiled(
            res,
            scope,
            *old(ctx),
            *final(ctx),
            sequence_bytes(items@, old(ctx).inserted_values@, old(ctx).inserted_value_index as int),
            sequence_placeholders(items@),
            register_reads_in(
                old(ctx).slots(),
                items@,
                resolved_slots(scope),
                old(ctx).buffer@.len() as int,
                old(ctx).inserted_values@,
                old(ctx).inserted_value_index as int,
            ),
            first_undeclared_in(items@, declared_names(scope)),
            any_non_static(items@),
        ),
    decreases items,
{
    let ghost declared = declared_names(scope);
    let ghost resolved = resolved_slots(scope);
    let ghost start = *ctx;
    let ghost vs = ctx.inserted_values@;
    let ghost k0 = ctx.inserted_value_index as int;
    let len = items.len();
    let mut scope = scope;
    let ghost scope0 = scope;
    let mut i: usize = 0;
    assert(items@.subrange(0, len as int) =~= items@);
    while i < len
        invariant
            i <= len == items@.len(),
            ctx.wf(),
            same_inputs(*ctx, start),
            start == *old(ctx),
            vs == start.inserted_values@,
            scope == scope0,
            scope0.wf(),
            forall|name: Seq<char>| resolvable(scope0, name),
            declared == declared_names(scope0),
            resolved == resolved_slots(scope0),
            register_reads_in(
                ctx.slots(),
                items@.subrange(i as int, len as int),
                resolved,
                ctx.buffer@.len() as int,
                vs,
                ctx.inserted_value_index as int,
            ) == register_reads_in(
                start.slots(),
                items@,
                resolved,
                start.buffer@.len() as int,
                vs,
                k0,
            ),
            k0 <= ctx.inserted_value_index,
            insertable(vs, k0, sequence_placeholders(items@)),
            ctx.inserted_value_index + sequence_placeholders(items@.subrange(i as int, len as int))
                == k0 + sequence_placeholders(items@),
            ctx.buffer@ + sequence_bytes(
                items@.subrange(i as int, len as int),
                vs,
                ctx.inserted_value_index as int,
            ) == start.buffer@ + sequence_bytes(items@, vs, k0),
            start.buffer@.len() + sequence_bytes(items@, vs, k0).len() < 0x1_0000_0000,
            first_undeclared_in(items@.subrange(i as int, len as int), declared)
                == first_undeclared_in(items@, declared),
            (ctx.has_non_static_value || any_non_static(items@.subrange(i as int, len as int)))
                == (start.has_non_static_value || any_non_static(items@)),
        decreases len - i,
    {
        let ghost rest = items@.subrange(i as int, len as int);
        let ghost tail = items@.subrange(i + 1, len as int);
        let ghost k = ctx.inserted_value_index as int;
        assert(rest.subrange(1, rest.len() as int) =~= tail);
        assert(rest[0] == items@[i as int]);
        assert(sequence_bytes(rest, vs, k) == expression_bytes(rest[0], vs, k) + sequence_bytes(
            tail,
            vs,
            k + placeholder_count(rest[0]),
        ));
        assert(sequence_placeholders(rest) == placeholder_count(rest[0]) + sequence_placeholders(
            tail,
        ));
        assert(register_reads_in(ctx.slots(), rest, resolved, ctx.buffer@.len() as int, vs, k)
            == register_reads_in(
            register_reads(ctx.slots(), rest[0], resolved, ctx.buffer@.len() as int, vs, k),
            tail,
            resolved,
            ctx.buffer@.len() as int + expression_bytes(rest[0], vs, k).len(),
            vs,
            k + placeholder_count(rest[0]),
        ));
        assert(first_undeclared_in(rest, declared) == match first_undeclared(rest[0], declared) {
            Some(name) => Some(name),
            None => first_undeclared_in(tail, declared),
        });
        assert(any_non_static(rest) == (non_static(rest[0]) || any_non_static(tail)));
        assert(decreases_to!(*items => items@));
        assert(decreases_to!(items@ => items@[i as int]));
        assert((ctx.buffer@ + sequence_bytes(rest, vs, k)).len() == (start.buffer@
            + sequence_bytes(items@, vs, k0)).len());
        assert(insertable(vs, k, placeholder_count(rest[0])));
        match compile_expression(ctx, &items[i], CompileMetadata::default(), scope) {
            Ok(s) => {
                scope = s;
            },
            Err(e) => {
                assert(first_undeclared_in(items@, declared) == first_undeclared(
                    items@[i as int],
                    declared,
                ));
                return Err(e);
            },
        }
        i = i + 1;
        assert(ctx.buffer@ + sequence_bytes(
            items@.subrange(i as int, len as int),
            vs,
            ctx.inserted_value_index as int,
        ) =~= start.buffer@ + sequence_bytes(items@, vs, k0));
    }
    assert(items@.subrange(len as int, len as int) =~= Seq::<DatexExpression>::empty());
    assert(ctx.buffer@ =~= start.buffer@ + sequence_bytes(items@, vs, k0));
    Ok(scope)
}

/// Compiles a map entry: a text key as a key string, any other key as a dynamic key; then the
/// value.
fn compile_entry(
    ctx: &mut CompilationContext,
    entry: &(DatexExpression, DatexExpression),
    scope: CompilationScope,
) -> (res: Result<CompilationScope, CompilerError>)
    requires
        old(ctx).wf(),
        scope.wf(),
        forall|name: Seq<char>| resolvable(scope, name),
        insertable(
            old(ctx).inserted_values@,
            old(ctx).inserted_value_index as int,
            entry_placeholders(*entry),
        ),
        old(ctx).buffer@.len() + entry_bytes(
            *entry,
            old(ctx).inserted_values@,
            old(ctx).inserted_value_index as int,
        ).len() < 0x1_0000_0000,
    ensures
        compiled(
            res,
            scope,
            *old(ctx),
            *final(ctx),
            entry_bytes(*entry, old(ctx).inserted_values@, old(ctx).inserted_value_index as int),
            entry_placeholders(*entry),
            register_reads_in_entry(
                old(ctx).slots(),
                *entry,
                resolved_slots(scope),
                old(ctx).buffer@.len() as int,
                old(ctx).inserted_values@,
                old(ctx).inserted_value_index as int,
            ),
            first_undeclared_in_entry(*entry, declared_names(scope)),
            entry_non_static(*entry),
        ),
    decreases entry,
{
    let ghost start = *ctx;
    let ghost vs = ctx.inserted_values@;
    let ghost k0 = ctx.inserted_value_index as int;
    assert(decreases_to!(*entry => entry.0));
    assert(decreases_to!(*entry => entry.1));
    let scope = match &entry.0 {
        DatexExpression::Text(text) => {
            append_key_string(&mut ctx.buffer, text.as_str());
            proof {
                lemma_wf_longer(start, *ctx);
            }
            scope
        },
        _ => {
            ctx.append_instruction_code(InstructionCode::KEY_VALUE_DYNAMIC);
            match compile_expression(ctx, &entry.0, CompileMetadata::default(), scope) {
                Ok(s) => s,
                Err(e) => {
                    return Err(e);
                },
            }
        },
    };
    let res = compile_expression(ctx, &entry.1, CompileMetadata::default(), scope);
    assert(res is Ok ==> ctx.buffer@ =~= start.buffer@ + entry_bytes(*entry, vs, k0));
    res
}

/// Compiles map entries one after the other.
#[verifier::loop_isolation(false)]
fn compile_entries(
    ctx: &mut CompilationContext,
    entries: &Vec<(DatexExpression, DatexExpression)>,
    scope: CompilationScope,
) -> (res: Result<CompilationScope, CompilerError>)
    requires
        old(ctx).wf(),
        scope.wf(),
        forall|name: Seq<char>| resolvable(scope, name),
        insertable(
            old(ctx).inserted_values@,
            old(ctx).inserted_value_index as int,
            entry_sequence_placeholders(entries@),
        ),
        old(ctx).buffer@.len() + entry_sequence_bytes(
            entries@,
            old(ctx).inserted_values@,
            old(ctx).inserted_value_index as int,
        ).len() < 0x1_0000_0000,
    ensures
        compiled(
            res,
            scope,
            *old(ctx),
            *final(ctx),
            entry_sequence_bytes(
                entries@,
                old(ctx).inserted_values@,
                old(ctx).inserted_value_index as int,
            ),
            entry_sequence_placeholders(entries@),
            register_reads_in_entries(
                old(ctx).slots(),
                entries@,
                resolved_slots(scope),
                old(ctx).buffer@.len() as int,
                old(ctx).inserted_values@,
                old(ctx).inserted_value_index as int,
            ),
            first_undeclared_in_entries(entries@, declared_names(scope)),
            any_entry_non_static(entries@),
        ),
    decreases entries,
{
    let ghost declared = declared_names(scope);
    let ghost resolved = resolved_slots(scope);
    let ghost start = *ctx;
    let ghost vs = ctx.inserted_values@;
    let ghost k0 = ctx.inserted_value_index as int;
    let len = entries.len();
    let mut scope = scope;
    let ghost scope0 = scope;
    let mut i: usize = 0;
    assert(entries@.subrange(0, len as int) =~= entries@);
    while i < len
        invariant
            i <= len == entries@.len(),
            ctx.wf(),
            same_inputs(*ctx, start),
            start == *old(ctx),
            vs == start.inserted_values@,
            scope == scope0,
            scope0.wf(),
            forall|name: Seq<char>| resolvable(scope0, name),
            declared == declared_names(scope0),
            resolved == resolved_slots(scope0),
            register_reads_in_entries(
                ctx.slots(),
                entries@.subrange(i as int, len as int),
                resolved,
                ctx.buffer@.len() as int,
                vs,
                ctx.inserted_value_index as int,
            ) == register_reads_in_entries(
                start.slots(),
                entries@,
                resolved,
                start.buffer@.len() as int,
                vs,
                k0,
            ),
            k0 <= ctx.inserted_value_index,
            insertable(vs, k0, entry_sequence_placeholders(entries@)),
            ctx.inserted_value_index + entry_sequence_placeholders(
                entries@.subrange(i as int, len as int),
            ) == k0 + entry_sequence_placeholders(entries@),
            ctx.buffer@ + entry_sequence_bytes(
                entries@.subrange(i as int, len as int),
                vs,
                ctx.inserted_value_index as int,
            ) == start.buffer@ + entry_sequence_bytes(entries@, vs, k0),
            start.buffer@.len() + entry_sequence_bytes(entries@, vs, k0).len() < 0x1_0000_0000,
            first_undeclared_in_entries(entries@.subrange(i as int, len as int), declared)
                == first_undeclared_in_entries(entries@, declared),
            (ctx.has_non_static_value || any_entry_non_static(
                entries@.subrange(i as int, len as int),
            )) == (start.has_non_static_value || any_entry_non_static(entries@)),
        decreases len - i,
    {
        let ghost rest = entries@.subrange(i as int, len as int);
        let ghost tail = entries@.subrange(i + 1, len as int);
        let ghost k = ctx.inserted_value_index as int;
        assert(rest.subrange(1, rest.len() as int) =~= tail);
        assert(rest[0] == entries@[i as int]);
        assert(entry_sequence_bytes(rest, vs, k) == entry_bytes(rest[0], vs, k)
            + entry_sequence_bytes(tail, vs, k + entry_placeholders(rest[0])));
        assert(entry_sequence_placeholders(rest) == entry_placeholders(rest[0])
            + entry_sequence_placeholders(tail));
        assert(register_reads_in_entries(
            ctx.slots(),
            rest,
            resolved,
            ctx.buffer@.len() as int,
            vs,
            k,
        ) == register_reads_in_entries(
            register_reads_in_entry(ctx.slots(), rest[0], resolved, ctx.buffer@.len() as int, vs, k),
            tail,
            resolved,
            ctx.buffer@.len() as int + entry_bytes(rest[0], vs, k).len(),
            vs,
            k + entry_placeholders(rest[0]),
        ));
        assert(first_undeclared_in_entries(rest, declared) == match first_undeclared_in_entry(
            rest[0],
            declared,
        ) {
            Some(name) => Some(name),
            None => first_undeclared_in_entries(tail, declared),
        });
        assert(any_entry_non_static(rest) == (entry_non_static(rest[0]) || any_entry_non_static(
            tail,
        )));
        assert(decreases_to!(*entries => entries@));
        assert(decreases_to!(entries@ => entries@[i as int]));
        assert((ctx.buffer@ + entry_sequence_bytes(rest, vs, k)).len() == (start.buffer@
            + entry_sequence_bytes(entries@, vs, k0)).len());
        assert(insertable(vs, k, entry_placeholders(rest[0])));
        match compile_entry(ctx, &entries[i], scope) {
            Ok(s) => {
                scope = s;
            },
            Err(e) => {
                assert(first_undeclared_in_entries(entries@, declared) == first_undeclared_in_entry(
                    entries@[i as int],
                    declared,
                ));
                return Err(e);
            },
        }
        i = i + 1;
        assert(ctx.buffer@ + entry_sequence_bytes(
            entries@.subrange(i as int, len as int),
            vs,
            ctx.inserted_value_index as int,
        ) =~= start.buffer@ + entry_sequence_bytes(entries@, vs, k0));
    }
    assert(entries@.subrange(len as int, len as int) =~= Seq::<
        (DatexExpression, DatexExpression),
    >::empty());
    assert(ctx.buffer@ =~= start.buffer@ + entry_sequence_bytes(entries@, vs, k0));
    Ok(scope)
}

/// Compiles `ast` to bytecode at the end of the context's buffer, with the variables of
/// `scope` in view, and gives the scope back. Each placeholder takes the next inserted value
/// of the context; each variable read records its slot placeholder under the slot that its
/// name resolves to (see `register_reads`). Fails with `UndeclaredVariable` on the first variable read, in the order
/// of compilation, that does not resolve from `scope`; the buffer then holds the bytecode
/// written up to that read.
#[verifier::rlimit(40)]
pub fn compile_expression(
    ctx: &mut CompilationContext,
    ast: &DatexExpression,
    meta: CompileMetadata,
    scope: CompilationScope,
) -> (res: Result<CompilationScope, CompilerError>)
    requires
        old(ctx).wf(),
        scope.wf(),
        forall|name: Seq<char>| resolvable(scope, name),
        insertable(
            old(ctx).inserted_values@,
            old(ctx).inserted_value_index as int,
            placeholder_count(*ast),
        ),
        old(ctx).buffer@.len() + expression_bytes(
            *ast,
            old(ctx).inserted_values@,
            old(ctx).inserted_value_index as int,
        ).len() < 0x1_0000_0000,
    ensures
        final(ctx).wf(),
        final(ctx).inserted_values == old(ctx).inserted_values,
        final(ctx).execution_mode == old(ctx).execution_mode,
        res is Ok <==> first_undeclared(*ast, declared_names(scope)) is None,
        match res {
            Ok(s) => {
                &&& s == scope
                &&& final(ctx).buffer@ == old(ctx).buffer@ + expression_bytes(
                    *ast,
                    old(ctx).inserted_values@,
                    old(ctx).inserted_value_index as int,
                )
                &&& final(ctx).inserted_value_index == old(ctx).inserted_value_index
                    + placeholder_count(*ast)
                &&& final(ctx).slots() == register_reads(
                    old(ctx).slots(),
                    *ast,
                    resolved_slots(scope),
                    old(ctx).buffer@.len() as int,
                    old(ctx).inserted_values@,
                    old(ctx).inserted_value_index as int,
                )
                &&& final(ctx).has_non_static_value == (old(ctx).has_non_static_value
                    || non_static(*ast))
            },
            Err(e) => e matches CompilerError::UndeclaredVariable(name) && first_undeclared(
                *ast,
                declared_names(scope),
            ) == Some(name@),
        },
    decreases ast,
{
    let ghost start = *ctx;
    let ghost vs = ctx.inserted_values@;
    let ghost k0 = ctx.inserted_value_index as int;
    match ast {
        DatexExpression::Null => {
            ctx.append_instruction_code(InstructionCode::NULL);
            Ok(scope)
        },
        DatexExpression::Boolean(b) => {
            append_boolean(&mut ctx.buffer, *b);
            proof {
                lemma_wf_longer(start, *ctx);
            }
            Ok(scope)
        },
        DatexExpression::Text(text) => {
            append_text(&mut ctx.buffer, text.as_str());
            proof {
                lemma_wf_longer(start, *ctx);
            }
            Ok(scope)
        },
        DatexExpression::Decimal(decimal) => {
            append_decimal_literal(&mut ctx.buffer, decimal);
            proof {
                lemma_wf_longer(start, *ctx);
            }
            Ok(scope)
        },
        DatexExpression::TypedDecimal(decimal) => {
            append_typed_decimal(&mut ctx.buffer, decimal);
            proof {
                lemma_wf_longer(start, *ctx);
            }
            Ok(scope)
        },
        DatexExpression::Integer(integer) => {
            append_integer(&mut ctx.buffer, integer);
            proof {
                lemma_wf_longer(start, *ctx);
            }
            Ok(scope)
        },
        DatexExpression::TypedInteger(integer) => {
            append_encoded_integer(&mut ctx.buffer, integer);
            proof {
                lemma_wf_longer(start, *ctx);
            }
            Ok(scope)
        },
        DatexExpression::Endpoint(endpoint) => {
            append_endpoint(&mut ctx.buffer, endpoint);
            proof {
                lemma_wf_longer(start, *ctx);
            }
            Ok(scope)
        },
        DatexExpression::Placeholder => {
            let index = ctx.inserted_value_index;
            let value_count = ctx.inserted_values.len();
            assert(index < value_count);
            append_value_container(&mut ctx.buffer, &ctx.inserted_values[index]);
            ctx.inserted_value_index = index + 1;
            proof {
                lemma_wf_longer(start, *ctx);
            }
            Ok(scope)
        },
        DatexExpression::GetReference(address) => {
            ctx.mark_has_non_static_value();
            let ghost marked = *ctx;
            append_get_ref(&mut ctx.buffer, address);
            proof {
                lemma_wf_longer(marked, *ctx);
            }
            Ok(scope)
        },
        DatexExpression::PointerAddress(address) => {
            append_get_ref(&mut ctx.buffer, address);
            proof {
                lemma_wf_longer(start, *ctx);
            }
            Ok(scope)
        },
        DatexExpression::VariableAccess(name) => {
            ctx.mark_has_non_static_value();
            match scope.resolve_variable_name_to_virtual_slot(name.as_str()) {
                Some((virtual_slot, _)) => {
                    ctx.append_instruction_code(InstructionCode::GET_SLOT);
                    ctx.insert_virtual_slot_address(virtual_slot);
                    assert(ctx.buffer@ =~= start.buffer@ + expression_bytes(*ast, vs, k0));
                    Ok(scope)
                },
                None => Err(CompilerError::UndeclaredVariable(name.clone())),
            }
        },
        DatexExpression::BinaryOperation(op, left, right) => {
            ctx.mark_has_non_static_value();
            ctx.append_instruction_code(InstructionCode::from(*op));
            let scope = match compile_expression(ctx, left, CompileMetadata::default(), scope) {
                Ok(s) => s,
                Err(e) => {
                    return Err(e);
                },
            };
            let scope = match compile_expression(ctx, right, CompileMetadata::default(), scope) {
                Ok(s) => s,
                Err(e) => {
                    return Err(e);
                },
            };
            assert(ctx.buffer@ =~= start.buffer@ + expression_bytes(*ast, vs, k0));
            Ok(scope)
        },
        DatexExpression::ComparisonOperation(op, left, right) => {
            ctx.mark_has_non_static_value();
            ctx.append_instruction_code(InstructionCode::from(*op));
            let scope = match compile_expression(ctx, left, CompileMetadata::default(), scope) {
                Ok(s) => s,
                Err(e) => {
                    return Err(e);
                },
            };
            let scope = match compile_expression(ctx, right, CompileMetadata::default(), scope) {
                Ok(s) => s,
                Err(e) => {
                    return Err(e);
                },
            };
            assert(ctx.buffer@ =~= start.buffer@ + expression_bytes(*ast, vs, k0));
            Ok(scope)
        },
        DatexExpression::Deref(inner) => {
            ctx.mark_has_non_static_value();
            ctx.append_instruction_code(InstructionCode::DEREF);
            let scope = match compile_expression(ctx, inner, CompileMetadata::default(), scope) {
                Ok(s) => s,
                Err(e) => {
                    return Err(e);
                },
            };
            assert(ctx.buffer@ =~= start.buffer@ + expression_bytes(*ast, vs, k0));
            Ok(scope)
        },
        DatexExpression::List(items) => {
            append_header(ctx, InstructionCode::SHORT_LIST, InstructionCode::LIST, items.len());
            assert(decreases_to!(*ast => *items));
            let res = compile_sequence(ctx, items, scope);
            assert(res is Ok ==> ctx.buffer@ =~= start.buffer@ + expression_bytes(*ast, vs, k0));
            res
        },
        DatexExpression::KeyValueMap(entries) => {
            append_header(ctx, InstructionCode::SHORT_MAP, InstructionCode::MAP, entries.len());
            assert(decreases_to!(*ast => *entries));
            let res = compile_entries(ctx, entries, scope);
            assert(res is Ok ==> ctx.buffer@ =~= start.buffer@ + expression_bytes(*ast, vs, k0));
            res
        },
        DatexExpression::Statements(statements, is_terminated, unbounded) => {
            ctx.mark_has_non_static_value();
            assert(decreases_to!(*ast => *statements));
            let len = statements.len();
            if unbounded.is_none() && len == 1 && !*is_terminated {
                // a single unterminated statement is compiled on its own
                assert(decreases_to!(*statements => statements@));
                assert(decreases_to!(statements@ => statements@[0]));
                assert(statements@.subrange(1, 1) =~= Seq::<DatexExpression>::empty());
                assert(first_undeclared_in(statements@, declared_names(scope)) == first_undeclared(
                    statements@[0],
                    declared_names(scope),
                )) by {
                    reveal_with_fuel(first_undeclared_in, 2);
                }
                assert(sequence_placeholders(statements@) == placeholder_count(statements@[0])) by {
                    reveal_with_fuel(sequence_placeholders, 2);
                }
                return compile_expression(ctx, &statements[0], CompileMetadata::default(), scope);
            }
            let is_outer_context = meta.is_outer_context();
            let ghost parent = scope;
            // a block that is not the outer context gets a scope of its own
            let child = if is_outer_context {
                scope
            } else {
                scope.push()
            };
            proof {
                if !is_outer_context {
                    assert forall|name: Seq<char>|
                        resolvable(child, name) && (resolve(child, name) == resolve(
                            parent,
                            name,
                        )) by {
                        lemma_push_keeps_resolution(parent, child, name);
                    }
                    assert(declared_names(child) =~= declared_names(parent));
                    assert(resolved_slots(child) =~= resolved_slots(parent));
                }
            }
            let ghost opening_start = ctx.buffer@;
            match unbounded {
                Some(section) => {
                    // only the first section of an unbounded script opens the block
                    if section.is_first {
                        ctx.append_instruction_code(InstructionCode::UNBOUNDED_STATEMENTS);
                    }
                },
                None => {
                    append_header(
                        ctx,
                        InstructionCode::SHORT_STATEMENTS,
                        InstructionCode::STATEMENTS,
                        len,
                    );
                    append_termination_flag(ctx, *is_terminated);
                },
            }
            assert(ctx.buffer@ =~= opening_start + statements_opening(
                len as nat,
                *is_terminated,
                *unbounded,
            ));
            let child = match compile_sequence(ctx, statements, child) {
                Ok(s) => s,
                Err(e) => {
                    return Err(e);
                },
            };
            let result_scope = if is_outer_context {
                child
            } else {
                proof {
                    lemma_pop_after_push(parent, child);
                }
                match child.pop() {
                    Some((scope, dropped)) => {
                        // the slots of the block's variables are dropped at its end
                        let ghost end = *ctx;
                        let mut k: usize = 0;
                        while k < dropped.len()
                            invariant
                                k <= dropped@.len() == 0,
                                *ctx == end,
                            decreases dropped@.len() - k,
                        {
                            ctx.append_instruction_code(InstructionCode::DROP_SLOT);
                            ctx.insert_virtual_slot_address(dropped[k]);
                            k = k + 1;
                        }
                        scope
                    },
                    None => {
                        return Err(CompilerError::ScopePopError);
                    },
                }
            };
            let ghost closing_start = ctx.buffer@;
            match unbounded {
                Some(section) => {
                    // the last section of an unbounded script closes the block
                    if section.is_last {
                        ctx.append_instruction_code(InstructionCode::UNBOUNDED_STATEMENTS_END);
                        append_termination_flag(ctx, *is_terminated);
                    }
                },
                None => {},
            }
            assert(ctx.buffer@ =~= closing_start + statements_closing(*is_terminated, *unbounded));
            assert(ctx.buffer@ =~= start.buffer@ + expression_bytes(*ast, vs, k0));
            Ok(result_scope)
        },
    }
}

/// Compiles `ast` as the outer context of a script, then replaces the placeholder of every
/// virtual slot by its slot address (see `remap_virtual_slots`). Fails as `compile_expression`
/// does, before any placeholder is replaced.
pub fn compile_rich_ast(
    ctx: &mut CompilationContext,
    ast: &DatexExpression,
    scope: CompilationScope,
) -> (res: Result<CompilationScope, CompilerError>)
    requires
        old(ctx).wf(),
        scope.wf(),
        forall|name: Seq<char>| resolvable(scope, name),
        insertable(
            old(ctx).inserted_values@,
            old(ctx).inserted_value_index as int,
            placeholder_count(*ast),
        ),
        old(ctx).buffer@.len() + expression_bytes(
            *ast,
            old(ctx).inserted_values@,
            old(ctx).inserted_value_index as int,
        ).len() < 0x1_0000_0000,
    ensures
        final(ctx).wf(),
        final(ctx).inserted_values == old(ctx).inserted_values,
        final(ctx).execution_mode == old(ctx).execution_mode,
        res is Ok <==> first_undeclared(*ast, declared_names(scope)) is None,
        match res {
            Ok(s) => {
                &&& s == scope
                &&& final(ctx).inserted_value_index == old(ctx).inserted_value_index
                    + placeholder_count(*ast)
                &&& final(ctx).has_non_static_value == (old(ctx).has_non_static_value
                    || non_static(*ast))
                &&& final(ctx).slots() == register_reads(
                    old(ctx).slots(),
                    *ast,
                    resolved_slots(scope),
                    old(ctx).buffer@.len() as int,
                    old(ctx).inserted_values@,
                    old(ctx).inserted_value_index as int,
                )
                &&& exists|externals: Seq<VirtualSlot>, locals: Seq<VirtualSlot>|
                    #![trigger is_address_order(externals, final(ctx).slots().dom(), true), is_address_order(locals, final(ctx).slots().dom(), false)]
                    is_address_order(externals, final(ctx).slots().dom(), true) && is_address_order(
                        locals,
                        final(ctx).slots().dom(),
                        false,
                    ) && slots_remapped(
                        final(ctx).buffer@,
                        old(ctx).buffer@ + expression_bytes(
                            *ast,
                            old(ctx).inserted_values@,
                            old(ctx).inserted_value_index as int,
                        ),
                        final(ctx).slots(),
                        externals + locals,
                    )
            },
            Err(e) => e matches CompilerError::UndeclaredVariable(name) && first_undeclared(
                *ast,
                declared_names(scope),
            ) == Some(name@),
        },
{
    let scope = match compile_expression(ctx, ast, CompileMetadata::outer(), scope) {
        Ok(s) => s,
        Err(e) => {
            return Err(e);
        },
    };
    ctx.remap_virtual_slots();
    Ok(scope)
}

/// The slot table of `ast` compiled as a whole script from an empty buffer.
pub open spec fn script_slots(ast: DatexExpression, scope: CompilationScope) -> Map<
    VirtualSlot,
    Seq<u32>,
> {
    register_reads(Map::empty(), ast, resolved_slots(scope), 0, Seq::empty(), 0)
}

/// Compiles `ast` as a whole script without inserted values in a new context. When nothing in
/// it is only known at run time, the value of the script is returned in place of its bytecode
/// (a script such as `1u8` gives the value `1u8`); an expression that is neither static nor
/// marks a run-time value fails with `NonStaticValue`.
pub fn compile_ast_or_return_static_value(
    ast: &DatexExpression,
    scope: CompilationScope,
    execution_mode: ExecutionMode,
) -> (res: Result<(StaticValueOrDXB, CompilationScope), CompilerError>)
    requires
        scope.wf(),
        forall|name: Seq<char>| resolvable(scope, name),
        placeholder_count(*ast) == 0,
        expression_bytes(*ast, Seq::empty(), 0).len() < 0x1_0000_0000,
    ensures
        res is Ok <==> (first_undeclared(*ast, declared_names(scope)) is None && (non_static(*ast)
            || is_static_expression(*ast))),
        match res {
            Ok((StaticValueOrDXB::DXB(bytes), s)) => {
                &&& non_static(*ast)
                &&& s == scope
                &&& exists|externals: Seq<VirtualSlot>, locals: Seq<VirtualSlot>|
                    #![trigger is_address_order(externals, script_slots(*ast, scope).dom(), true), is_address_order(locals, script_slots(*ast, scope).dom(), false)]
                    is_address_order(externals, script_slots(*ast, scope).dom(), true)
                        && is_address_order(locals, script_slots(*ast, scope).dom(), false)
                        && slots_remapped(
                        bytes@,
                        expression_bytes(*ast, Seq::empty(), 0),
                        script_slots(*ast, scope),
                        externals + locals,
                    )
            },
            Ok((StaticValueOrDXB::StaticValue(value), s)) => {
                &&& !non_static(*ast)
                &&& s == scope
                &&& value matches Some(v) && value_of_expression(*ast, v)
            },
            Err(e) => match first_undeclared(*ast, declared_names(scope)) {
                Some(name) => e matches CompilerError::UndeclaredVariable(n) && n@ == name,
                None => e == CompilerError::NonStaticValue,
            },
        },
{
    let mut ctx = CompilationContext::new(Vec::with_capacity(256), Vec::new(), execution_mode);
    assert(ctx.inserted_values@ =~= Seq::<ValueContainer>::empty());
    assert(ctx.buffer@.len() == 0);
    let ghost resolved = resolved_slots(scope);
    let scope = match compile_rich_ast(&mut ctx, ast, scope) {
        Ok(s) => s,
        Err(e) => {
            return Err(e);
        },
    };
    assert(ctx.slots() == register_reads(Map::empty(), *ast, resolved, 0, Seq::empty(), 0));
    assert(ctx.slots() == script_slots(*ast, scope));
    if ctx.has_non_static_value {
        Ok((StaticValueOrDXB::DXB(ctx.buffer), scope))
    } else {
        match extract_static_value_from_ast(ast) {
            Ok(value) => Ok((StaticValueOrDXB::StaticValue(Some(value)), scope)),
            Err(e) => Err(e),
        }
    }
}

/// `after` is `before` made a block that is the given section of an unbounded script (or a
/// block that is no section): a block takes the section; any other expression becomes a block
/// of one unterminated statement.
pub open spec fn made_statements(
    before: DatexExpression,
    after: DatexExpression,
    section: Option<UnboundedStatement>,
) -> bool {
    match before {
        DatexExpression::Statements(items, term, _) => after == DatexExpression::Statements(
            items,
            term,
            section,
        ),
        other => after matches DatexExpression::Statements(items, term, s) && items@ == seq![other]
            && !term && s == section,
    }
}

/// Makes `ast` a block of statements that is the section `unbounded_section` of an unbounded
/// script (see `made_statements`), and tells whether the block's last statement is terminated.
pub fn ensure_statements(
    ast: &mut DatexExpression,
    unbounded_section: Option<UnboundedStatement>,
) -> (is_terminated: bool)
    ensures
        made_statements(*old(ast), *final(ast), unbounded_section),
        is_terminated == (*old(ast) matches DatexExpression::Statements(_, true, _)),
{
    let mut original = DatexExpression::Null;
    std::mem::swap(&mut original, ast);
    match original {
        DatexExpression::Statements(items, term, _) => {
            *ast = DatexExpression::Statements(items, term, unbounded_section);
            term
        },
        other => {
            let mut items: Vec<DatexExpression> = Vec::new();
            items.push(other);
            *ast = DatexExpression::Statements(items, false, unbounded_section);
            false
        },
    }
}

/// The section that a script is of an unbounded execution: the first unless its scope was
/// used before, the last unless more follows; none in a static execution.
pub open spec fn script_section(mode: ExecutionMode, was_used: bool) -> Option<UnboundedStatement> {
    match mode {
        ExecutionMode::Unbounded { has_next } => Some(
            UnboundedStatement { is_first: !was_used, is_last: !has_next },
        ),
        ExecutionMode::Static => None,
    }
}

/// Prepares a parsed script for compilation in `mode` with a scope that `was_used` before: in
/// an unbounded execution the script becomes a block that is its section of the whole (see
/// `ensure_statements`); a static execution leaves it as it is. Whether the script's last
/// statement is terminated.
pub fn prepare_script(
    ast: &mut DatexExpression,
    mode: ExecutionMode,
    was_used: bool,
) -> (is_terminated: bool)
    ensures
        is_terminated == (*old(ast) matches DatexExpression::Statements(_, true, _)),
        match mode {
            ExecutionMode::Unbounded { .. } => made_statements(
                *old(ast),
                *final(ast),
                script_section(mode, was_used),
            ),
            ExecutionMode::Static => *final(ast) == *old(ast),
        },
{
    match mode {
        ExecutionMode::Unbounded { has_next } => ensure_statements(
            ast,
            Some(UnboundedStatement { is_first: !was_used, is_last: !has_next }),
        ),
        ExecutionMode::Static => match ast {
            DatexExpression::Statements(_, term, _) => *term,
            _ => false,
        },
    }
}


/// A decimal is whole exactly when its denominator divides its numerator, and then its whole
/// value is the exact quotient: the value times the denominator is the numerator, sign
/// included.
pub proof fn lemma_whole_decimal_value(n: i128, m: i128)
    ensures
        whole_decimal_value(
            Decimal::Finite { numerator: Integer { value: n }, denominator: Integer { value: m } },
        ) matches Some(w) ==> w * m == n,
        whole_decimal_value(
            Decimal::Finite { numerator: Integer { value: n }, denominator: Integer { value: m } },
        ) is Some <==> (m != 0 && exists|k: int| #[trigger] (k * m) == n),
{
    let d = Decimal::Finite { numerator: Integer { value: n }, denominator: Integer { value: m } };
    let a = magnitude(n as int) as int;
    let b = magnitude(m as int) as int;
    if m != 0 {
        if a % b == 0 {
            let q = a / b;
            assert(a == b * q + a % b) by {
                lemma_fundamental_div_mod(a, b);
            }
            let w: int = if (n < 0) != (m < 0) { -q } else { q };
            assert(w * m == n) by (nonlinear_arith)
                requires
                    a == b * q,
                    a == (if n < 0 { -n } else { n as int }),
                    b == (if m < 0 { -m } else { m as int }),
                    w == (if (n < 0) != (m < 0) { -q } else { q }),
            ;
            assert(whole_decimal_value(d) == Some(w));
        } else {
            assert forall|k: int| #[trigger] (k * m) != n by {
                if k * m == n {
                    let kk: int = if k < 0 { -k } else { k };
                    assert(a == kk * b) by (nonlinear_arith)
                        requires
                            k * m == n,
                            kk == (if k < 0 { -k } else { k }),
                            a == (if n < 0 { -n } else { n as int }),
                            b == (if m < 0 { -m } else { m as int }),
                    ;
                    assert((kk * b) % b == 0) by {
                        lemma_mod_multiples_basic(kk, b);
                    }
                }
            }
        }
    }
}

/// A whole decimal literal that fits 16 signed bits is written as `DECIMAL_AS_INT_16` and two
/// little-endian two's complement bytes, one that fits 32 signed bits but not 16 as
/// `DECIMAL_AS_INT_32` and four bytes; those bytes read back give the whole value. Any other
/// decimal is written exactly, as a `DECIMAL` value.
pub proof fn lemma_decimal_literal_bytes(d: Decimal)
    ensures
        decimal_literal_bytes(d).len() >= 1,
        instruction_code_of_byte(decimal_literal_bytes(d)[0]) == Some(
            InstructionCode::DECIMAL_AS_INT_16,
        ) ==> decimal_literal_bytes(d).len() == 3 && whole_decimal_value(d) == Some(
            le_signed(decimal_literal_bytes(d).skip(1)),
        ),
        instruction_code_of_byte(decimal_literal_bytes(d)[0]) == Some(
            InstructionCode::DECIMAL_AS_INT_32,
        ) ==> decimal_literal_bytes(d).len() == 5 && whole_decimal_value(d) == Some(
            le_signed(decimal_literal_bytes(d).skip(1)),
        ),
        instruction_code_of_byte(decimal_literal_bytes(d)[0]) == Some(InstructionCode::DECIMAL)
            ==> decimal_literal_bytes(d) == core_bytes(CoreValue::Decimal(d)),
        whole_decimal_value(d) matches Some(w) && -0x8000 <= w < 0x8000 ==> instruction_code_of_byte(
            decimal_literal_bytes(d)[0],
        ) == Some(InstructionCode::DECIMAL_AS_INT_16),
        whole_decimal_value(d) matches Some(w) && !(-0x8000 <= w < 0x8000) && -0x8000_0000 <= w
            < 0x8000_0000 ==> instruction_code_of_byte(decimal_literal_bytes(d)[0]) == Some(
            InstructionCode::DECIMAL_AS_INT_32,
        ),
{
    lemma_pow256_values();
    lemma_instruction_code_bytes(InstructionCode::DECIMAL_AS_INT_16);
    lemma_instruction_code_bytes(InstructionCode::DECIMAL_AS_INT_32);
    lemma_instruction_code_bytes(InstructionCode::DECIMAL);
    let b = decimal_literal_bytes(d);
    match whole_decimal_value(d) {
        Some(w) => if -0x8000 <= w < 0x8000 {
            lemma_le_signed_round_trip(w, 2);
            lemma_le_bytes_len(w, 2);
            assert(b.skip(1) =~= le_bytes(w, 2));
        } else if -0x8000_0000 <= w < 0x8000_0000 {
            lemma_le_signed_round_trip(w, 4);
            lemma_le_bytes_len(w, 4);
            assert(b.skip(1) =~= le_bytes(w, 4));
        } else {
        },
        None => {},
    }
}

} // verus!
