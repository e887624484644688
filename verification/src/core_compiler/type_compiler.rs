//! Compiles types to their DXB encoding.
use vstd::prelude::*;
use crate::global::instruction_codes::{
    instruction_code_byte, type_mutability_code_byte, type_space_instruction_code_byte,
    InstructionCode, TypeMutabilityCode, TypeSpaceInstructionCode,
};
use crate::core_compiler::value_compiler::append_get_ref;
use crate::global::instruction_codes::{instruction_code_of_byte, lemma_instruction_code_bytes};
use crate::utils::buffers::append_u8;
use crate::values::core_values::{PointerAddress, ReferenceMutability};
use crate::values::types::{Type, TypeDefinition};

verus! {

/// The bytes of a pointer address.
pub open spec fn pointer_address_id(address: PointerAddress) -> Seq<u8> {
    match address {
        PointerAddress::Internal(id) => id@,
        PointerAddress::Local(id) => id@,
        PointerAddress::Remote(id) => id@,
    }
}

/// The encoding of a reference to the pointer at `address`.
pub open spec fn get_ref_bytes(address: PointerAddress) -> Seq<u8> {
    let code = match address {
        PointerAddress::Internal(_) => InstructionCode::GET_INTERNAL_REF,
        PointerAddress::Local(_) => InstructionCode::GET_LOCAL_REF,
        PointerAddress::Remote(_) => InstructionCode::GET_REF,
    };
    seq![instruction_code_byte(code)] + pointer_address_id(address)
}

/// The instruction code that opens a type definition.
pub open spec fn type_space_code_of(definition: TypeDefinition) -> TypeSpaceInstructionCode {
    match definition {
        TypeDefinition::ImplType(_, _) => TypeSpaceInstructionCode::IMPL_TYPE,
        TypeDefinition::Reference(_) => TypeSpaceInstructionCode::TYPE_REFERENCE,
    }
}

/// The mutability code of a type.
pub open spec fn mutability_code_of(mutability: Option<ReferenceMutability>) -> TypeMutabilityCode {
    match mutability {
        None => TypeMutabilityCode::NoReference,
        Some(ReferenceMutability::Immutable) => TypeMutabilityCode::Immutable,
        Some(ReferenceMutability::Mutable) => TypeMutabilityCode::Mutable,
        Some(ReferenceMutability::Final) => TypeMutabilityCode::Final,
    }
}

/// The references to the implemented types, one after the other.
pub open spec fn get_refs_bytes(impls: Seq<PointerAddress>) -> Seq<u8>
    decreases impls.len(),
{
    if impls.len() == 0 {
        Seq::empty()
    } else {
        get_refs_bytes(impls.drop_last()) + get_ref_bytes(impls.last())
    }
}

/// A type can be encoded when every type reference in it has a pointer address.
pub open spec fn type_encodable(ty: Type) -> bool
    decreases ty,
{
    match ty.type_definition {
        TypeDefinition::ImplType(base, _) => type_encodable(*base),
        TypeDefinition::Reference(address) => address is Some,
    }
}

/// The DXB encoding of a type: the definition's instruction code, the mutability code,
/// then the definition (for an impl type: the number of implemented types, references to
/// them, and the base type; for a type reference: a reference to its pointer).
pub open spec fn type_bytes(ty: Type) -> Seq<u8>
    decreases ty,
{
    seq![
        type_space_instruction_code_byte(type_space_code_of(ty.type_definition)),
        type_mutability_code_byte(mutability_code_of(ty.reference_mutability)),
    ] + match ty.type_definition {
        TypeDefinition::ImplType(base, impls) => seq![impls.len() as u8] + get_refs_bytes(impls@)
            + type_bytes(*base),
        TypeDefinition::Reference(address) => match address {
            Some(a) => get_ref_bytes(a),
            None => Seq::empty(),
        },
    }
}

/// Appends all bytes of `bytes`.
pub fn append_bytes(buffer: &mut Vec<u8>, bytes: &[u8])
    ensures
        final(buffer)@ == old(buffer)@ + bytes@,
{
    let ghost start = buffer@;
    let mut i: usize = 0;
    while i < bytes.len()
        invariant
            i <= bytes.len(),
            buffer@ == start + bytes@.subrange(0, i as int),
        decreases bytes.len() - i,
    {
        buffer.push(bytes[i]);
        i = i + 1;
        assert(buffer@ =~= start + bytes@.subrange(0, i as int));
    }
    assert(bytes@.subrange(0, i as int) =~= bytes@);
}

/// Appends a type space instruction code.
pub fn append_type_space_instruction_code(buffer: &mut Vec<u8>, code: TypeSpaceInstructionCode)
    ensures
        final(buffer)@ == old(buffer)@.push(type_space_instruction_code_byte(code)),
{
    let b = code.byte();
    append_u8(buffer, b);
}

/// Appends a type mutability code.
pub fn append_type_mutability_code(buffer: &mut Vec<u8>, code: TypeMutabilityCode)
    ensures
        final(buffer)@ == old(buffer)@.push(type_mutability_code_byte(code)),
{
    let b = code.byte();
    append_u8(buffer, b);
}

fn type_space_code(definition: &TypeDefinition) -> (code: TypeSpaceInstructionCode)
    ensures
        code == type_space_code_of(*definition),
{
    match definition {
        TypeDefinition::ImplType(_, _) => TypeSpaceInstructionCode::IMPL_TYPE,
        TypeDefinition::Reference(_) => TypeSpaceInstructionCode::TYPE_REFERENCE,
    }
}

fn mutability_code(mutability: &Option<ReferenceMutability>) -> (code: TypeMutabilityCode)
    ensures
        code == mutability_code_of(*mutability),
{
    match mutability {
        None => TypeMutabilityCode::NoReference,
        Some(ReferenceMutability::Immutable) => TypeMutabilityCode::Immutable,
        Some(ReferenceMutability::Mutable) => TypeMutabilityCode::Mutable,
        Some(ReferenceMutability::Final) => TypeMutabilityCode::Final,
    }
}

/// Appends the encoding of a type given by its definition and reference mutability.
pub fn append_type_parts(
    buffer: &mut Vec<u8>,
    definition: &TypeDefinition,
    mutability: &Option<ReferenceMutability>,
)
    requires
        type_encodable(Type { type_definition: *definition, reference_mutability: *mutability }),
    ensures
        final(buffer)@ == old(buffer)@ + type_bytes(
            Type { type_definition: *definition, reference_mutability: *mutability },
        ),
    decreases definition,
{
    let ghost start = buffer@;
    let ghost ty = Type { type_definition: *definition, reference_mutability: *mutability };
    append_type_space_instruction_code(buffer, type_space_code(definition));
    append_type_mutability_code(buffer, mutability_code(mutability));
    match definition {
        TypeDefinition::ImplType(base, impls) => {
            append_u8(buffer, impls.len() as u8);
            let ghost before_refs = buffer@;
            let mut i: usize = 0;
            while i < impls.len()
                invariant
                    i <= impls.len(),
                    buffer@ == before_refs + get_refs_bytes(impls@.subrange(0, i as int)),
                decreases impls.len() - i,
            {
                append_get_ref(buffer, &impls[i]);
                assert(impls@.subrange(0, i + 1).drop_last() =~= impls@.subrange(0, i as int));
                i = i + 1;
            }
            assert(impls@.subrange(0, i as int) =~= impls@);
            append_type_parts(buffer, &base.type_definition, &base.reference_mutability);
        },
        TypeDefinition::Reference(address) => {
            match address {
                Some(a) => append_get_ref(buffer, a),
                None => {},
            }
        },
    }
    assert(buffer@ =~= start + type_bytes(ty));
}

/// Appends the encoding of a type.
pub fn append_type(buffer: &mut Vec<u8>, ty: &Type)
    requires
        type_encodable(*ty),
    ensures
        final(buffer)@ == old(buffer)@ + type_bytes(*ty),
{
    append_type_parts(buffer, &ty.type_definition, &ty.reference_mutability);
}

/// Compiles a type to its DXB encoding.
pub fn compile_type(ty: &Type) -> (res: Vec<u8>)
    requires
        type_encodable(*ty),
    ensures
        res@ == type_bytes(*ty),
{
    let mut buffer: Vec<u8> = Vec::with_capacity(256);
    append_type(&mut buffer, ty);
    assert(buffer@ =~= type_bytes(*ty));
    buffer
}


/// The mutability code of a type names the type's own reference mutability: no reference,
/// immutable, mutable and final references each have the code of that name, so two
/// mutabilities share a code exactly when they are the same.
pub proof fn lemma_mutability_codes(a: Option<ReferenceMutability>, b: Option<ReferenceMutability>)
    ensures
        (mutability_code_of(a) == mutability_code_of(b)) <==> (a == b),
        (mutability_code_of(a) == TypeMutabilityCode::NoReference) <==> (a is None),
        (mutability_code_of(a) == TypeMutabilityCode::Immutable) <==> (a == Some(
            ReferenceMutability::Immutable,
        )),
        (mutability_code_of(a) == TypeMutabilityCode::Mutable) <==> (a == Some(
            ReferenceMutability::Mutable,
        )),
        (mutability_code_of(a) == TypeMutabilityCode::Final) <==> (a == Some(
            ReferenceMutability::Final,
        )),
{
}


/// A reference to a pointer is written as the instruction code for the address's own kind
/// (internal, local or remote) followed by the address's bytes, and a type definition opens
/// with the code of its own kind (a type reference or an impl type).
pub proof fn lemma_reference_codes(address: PointerAddress, definition: TypeDefinition)
    ensures
        get_ref_bytes(address).skip(1) == pointer_address_id(address),
        instruction_code_of_byte(get_ref_bytes(address)[0]) == Some(
            match address {
                PointerAddress::Internal(_) => InstructionCode::GET_INTERNAL_REF,
                PointerAddress::Local(_) => InstructionCode::GET_LOCAL_REF,
                PointerAddress::Remote(_) => InstructionCode::GET_REF,
            },
        ),
        pointer_address_id(address).len() == match address {
            PointerAddress::Internal(_) => 3nat,
            PointerAddress::Local(_) => 5nat,
            PointerAddress::Remote(_) => 26nat,
        },
        (type_space_code_of(definition) == TypeSpaceInstructionCode::TYPE_REFERENCE) <==> (
        definition is Reference),
        (type_space_code_of(definition) == TypeSpaceInstructionCode::IMPL_TYPE) <==> (
        definition is ImplType),
{
    lemma_instruction_code_bytes(InstructionCode::GET_INTERNAL_REF);
    lemma_instruction_code_bytes(InstructionCode::GET_LOCAL_REF);
    lemma_instruction_code_bytes(InstructionCode::GET_REF);
    assert(get_ref_bytes(address).skip(1) =~= pointer_address_id(address));
}

} // verus!
