//! Compilation of type expressions into the context's buffer.
use vstd::prelude::*;
use crate::compiler::context::CompilationContext;
use crate::core_compiler::type_compiler::append_bytes;
use crate::core_compiler::value_compiler::{append_big_integer, append_len_u32, big_integer_bytes};
use crate::global::instruction_codes::{type_instruction_code_byte, TypeInstructionCode};
use crate::utils::buffers::{append_u8, le_bytes};
use crate::values::core_values::Integer;
use vstd::utf8::encode_utf8;

verus! {

/// The encoding of a type literal text with the UTF-8 bytes `bytes`: short texts (under 256
/// bytes) carry a one-byte length, others a four-byte length.
pub open spec fn type_literal_text_bytes(bytes: Seq<u8>) -> Seq<u8> {
    if bytes.len() < 256 {
        seq![type_instruction_code_byte(TypeInstructionCode::TYPE_LITERAL_SHORT_TEXT), bytes.len() as u8]
            + bytes
    } else {
        seq![type_instruction_code_byte(TypeInstructionCode::TYPE_LITERAL_TEXT)] + le_bytes(
            bytes.len() as int,
            4,
        ) + bytes
    }
}

/// Compilation of type expressions.
impl CompilationContext {
    /// Appends a type instruction code.
    pub fn append_type_instruction_code(&mut self, code: TypeInstructionCode)
        requires
            old(self).wf(),
        ensures
            final(self).wf(),
            final(self).buffer@ == old(self).buffer@.push(type_instruction_code_byte(code)),
            final(self).slots() == old(self).slots(),
            final(self).has_non_static_value == old(self).has_non_static_value,
            final(self).keeps_inputs(&*old(self)),
    {
        let b = code.byte();
        append_u8(&mut self.buffer, b);
        assert(self.buffer@ =~= old(self).buffer@.push(type_instruction_code_byte(code)));
    }

    /// Appends an integer type literal.
    pub fn insert_type_literal_integer(&mut self, integer: &Integer)
        requires
            old(self).wf(),
        ensures
            final(self).wf(),
            final(self).buffer@ == old(self).buffer@.push(
                type_instruction_code_byte(TypeInstructionCode::TYPE_LITERAL_INTEGER),
            ) + big_integer_bytes(integer.value as int),
            final(self).slots() == old(self).slots(),
            final(self).has_non_static_value == old(self).has_non_static_value,
            final(self).keeps_inputs(&*old(self)),
    {
        self.append_type_instruction_code(TypeInstructionCode::TYPE_LITERAL_INTEGER);
        append_big_integer(&mut self.buffer, integer);
    }

    /// Appends a text type literal.
    pub fn insert_type_literal_text(&mut self, text: &str)
        requires
            old(self).wf(),
        ensures
            final(self).wf(),
            final(self).buffer@ == old(self).buffer@ + type_literal_text_bytes(encode_utf8(text@)),
            final(self).slots() == old(self).slots(),
            final(self).has_non_static_value == old(self).has_non_static_value,
            final(self).keeps_inputs(&*old(self)),
    {
        let ghost start = self.buffer@;
        let bytes = text.as_bytes();
        let len = bytes.len();
        if len < 256 {
            self.append_type_instruction_code(TypeInstructionCode::TYPE_LITERAL_SHORT_TEXT);
            append_u8(&mut self.buffer, len as u8);
        } else {
            self.append_type_instruction_code(TypeInstructionCode::TYPE_LITERAL_TEXT);
            append_len_u32(&mut self.buffer, len);
        }
        append_bytes(&mut self.buffer, bytes);
        assert(self.buffer@ =~= start + type_literal_text_bytes(encode_utf8(text@)));
    }
}

} // verus!
