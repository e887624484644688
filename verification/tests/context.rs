use datex_compiler::compiler::context::{CompilationContext, ExecutionMode, VirtualSlot};
use datex_compiler::global::instruction_codes::{InstructionCode, TypeInstructionCode};
use datex_compiler::values::core_values::Integer;

fn new_context() -> CompilationContext {
    CompilationContext::new(Vec::new(), vec![], ExecutionMode::Static)
}

#[test]
fn virtual_slot_levels() {
    let local = VirtualSlot::local(3);
    assert_eq!(local, VirtualSlot { level: 0, virtual_address: 3 });
    assert!(!local.is_external());
    let down = local.downgrade();
    assert_eq!(down, VirtualSlot::external(1, 3));
    assert!(down.is_external());
    assert_eq!(down.upgrade(), local);
    assert_eq!(VirtualSlot::default(), VirtualSlot::local(0));
}

#[test]
fn execution_modes() {
    assert!(!ExecutionMode::Static.is_unbounded());
    assert!(ExecutionMode::Unbounded { has_next: true }.is_unbounded());
    assert!(ExecutionMode::Unbounded { has_next: false }.is_unbounded());
}

#[test]
fn new_context_is_empty() {
    let ctx = CompilationContext::new(vec![1, 2], vec![], ExecutionMode::Static);
    assert_eq!(ctx.buffer_index(), 2);
    assert_eq!(ctx.inserted_value_index, 0);
    assert!(!ctx.has_non_static_value);
    assert!(ctx.external_slots().is_empty());
    assert!(ctx.get_slot_byte_indices(false).is_empty());
}

#[test]
fn slot_placeholders_are_recorded() {
    let mut ctx = new_context();
    ctx.append_instruction_code(InstructionCode::NULL);
    ctx.insert_virtual_slot_address(VirtualSlot::local(7));
    ctx.insert_virtual_slot_address(VirtualSlot::local(2));
    ctx.insert_virtual_slot_address(VirtualSlot::local(7));
    assert_eq!(ctx.buffer_index(), 13);
    assert_eq!(&ctx.buffer[1..], &[0u8; 12]);
    assert_eq!(ctx.get_slot_byte_indices(false), vec![vec![5], vec![1, 9]]);
    assert!(ctx.get_slot_byte_indices(true).is_empty());
}

#[test]
fn external_slots_sorted_by_address() {
    let mut ctx = new_context();
    ctx.insert_virtual_slot_address(VirtualSlot::external(1, 5));
    ctx.insert_virtual_slot_address(VirtualSlot::local(0));
    ctx.insert_virtual_slot_address(VirtualSlot::external(2, 1));
    assert_eq!(
        ctx.external_slots(),
        vec![VirtualSlot::external(2, 1), VirtualSlot::external(1, 5)]
    );
    assert_eq!(ctx.get_slot_byte_indices(true), vec![vec![8], vec![0]]);
    assert_eq!(ctx.get_slot_byte_indices(false), vec![vec![4]]);
}

#[test]
fn remap_numbers_external_slots_first() {
    let mut ctx = new_context();
    ctx.append_instruction_code(InstructionCode::TRUE);
    ctx.insert_virtual_slot_address(VirtualSlot::local(10));
    ctx.insert_virtual_slot_address(VirtualSlot::external(1, 4));
    ctx.insert_virtual_slot_address(VirtualSlot::local(3));
    ctx.insert_virtual_slot_address(VirtualSlot::local(10));
    ctx.append_instruction_code(InstructionCode::FALSE);
    ctx.remap_virtual_slots();
    let mut expected = vec![InstructionCode::TRUE.byte()];
    expected.extend(2u32.to_le_bytes()); // local 10: after the external and local 3
    expected.extend(0u32.to_le_bytes()); // external 4
    expected.extend(1u32.to_le_bytes()); // local 3
    expected.extend(2u32.to_le_bytes()); // local 10 again
    expected.push(InstructionCode::FALSE.byte());
    assert_eq!(ctx.buffer, expected);
}

#[test]
fn set_u32_at_index_overwrites_four_bytes() {
    let mut ctx = CompilationContext::new(vec![9; 6], vec![], ExecutionMode::Static);
    ctx.set_u32_at_index(0x0403_0201, 1);
    assert_eq!(ctx.buffer, vec![9, 1, 2, 3, 4, 9]);
}

#[test]
fn non_static_flag() {
    let mut ctx = new_context();
    ctx.mark_has_non_static_value();
    assert!(ctx.has_non_static_value);
    assert!(ctx.buffer.is_empty());
}

#[test]
fn type_literals() {
    let mut ctx = new_context();
    ctx.insert_type_literal_integer(&Integer { value: 42 });
    assert_eq!(
        ctx.buffer,
        vec![TypeInstructionCode::TYPE_LITERAL_INTEGER.byte(), 2, 1, 0, 0, 0, 42]
    );

    let mut ctx = new_context();
    ctx.insert_type_literal_text("ab");
    assert_eq!(
        ctx.buffer,
        vec![TypeInstructionCode::TYPE_LITERAL_SHORT_TEXT.byte(), 2, b'a', b'b']
    );

    let long = "c".repeat(300);
    let mut ctx = new_context();
    ctx.insert_type_literal_text(&long);
    let mut expected = vec![TypeInstructionCode::TYPE_LITERAL_TEXT.byte()];
    expected.extend(300u32.to_le_bytes());
    expected.extend(long.bytes());
    assert_eq!(ctx.buffer, expected);

    let mut ctx = new_context();
    ctx.append_type_instruction_code(TypeInstructionCode::TYPE_LITERAL_INTEGER);
    assert_eq!(ctx.buffer, vec![TypeInstructionCode::TYPE_LITERAL_INTEGER.byte()]);
}

#[test]
fn type_literal_integer() {
    let mut ctx = new_context();
    ctx.insert_type_literal_integer(&Integer { value: 1 });
    assert_eq!(
        ctx.buffer,
        vec![
            TypeInstructionCode::TYPE_LITERAL_INTEGER.byte(),
            // sign, length as u32, magnitude
            2,
            1,
            0,
            0,
            0,
            1
        ]
    );
}
