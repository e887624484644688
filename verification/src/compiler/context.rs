//! The compilation context: the output buffer and the placeholders of virtual slots that are
//! resolved to slot addresses once the whole script has been compiled.
use vstd::prelude::*;
use crate::core_compiler::value_compiler::{
    append_instruction_code, append_value_container, container_bytes, container_encodable, instr,
};
use crate::global::instruction_codes::InstructionCode;
use crate::utils::buffers::{append_u32, le_bytes, lemma_le_bytes_len};
use crate::values::value::ValueContainer;

verus! {

/// A slot of a scope: `level` is 0 for a slot of the current scope and counts the parent
/// scopes up to the one that owns the slot otherwise; `virtual_address` is its address there.
#[derive(Debug, Clone, Copy, PartialEq, Eq, Structural, Hash)]
pub struct VirtualSlot {
    pub level: u8,
    pub virtual_address: u32,
}

impl Default for VirtualSlot {
    fn default() -> (slot: Self)
        ensures
            slot == (VirtualSlot { level: 0, virtual_address: 0 }),
    {
        VirtualSlot { level: 0, virtual_address: 0 }
    }
}

/// The slot `slot` seen from a scope one level deeper.
pub open spec fn downgraded(slot: VirtualSlot) -> VirtualSlot {
    VirtualSlot { level: (slot.level + 1) as u8, virtual_address: slot.virtual_address }
}

/// The slot `slot` seen from the parent scope.
pub open spec fn upgraded(slot: VirtualSlot) -> VirtualSlot {
    VirtualSlot { level: (slot.level - 1) as u8, virtual_address: slot.virtual_address }
}

/// Seeing a slot from one scope deeper makes it external, and seeing it from the parent
/// scope again gives back the same slot.
pub proof fn lemma_downgrade_upgrade(slot: VirtualSlot)
    requires
        slot.level < 255,
    ensures
        downgraded(slot).level > 0,
        upgraded(downgraded(slot)) == slot,
{
}

impl VirtualSlot {
    /// A slot of the current scope.
    pub fn local(virtual_address: u32) -> (slot: Self)
        ensures
            slot == (VirtualSlot { level: 0, virtual_address }),
    {
        VirtualSlot { level: 0, virtual_address }
    }

    /// Whether the slot belongs to a parent scope.
    pub fn is_external(&self) -> (b: bool)
        ensures
            b == (self.level > 0),
    {
        self.level > 0
    }

    /// A slot of the parent scope `level` levels up.
    pub fn external(level: u8, virtual_address: u32) -> (slot: Self)
        ensures
            slot == (VirtualSlot { level, virtual_address }),
    {
        VirtualSlot { level, virtual_address }
    }

    /// The same slot seen from a scope one level deeper.
    pub fn downgrade(&self) -> (slot: Self)
        requires
            self.level < 255,
        ensures
            slot == downgraded(*self),
    {
        VirtualSlot { level: self.level + 1, virtual_address: self.virtual_address }
    }

    /// The same slot seen from the parent scope; a local slot has no such view.
    pub fn upgrade(&self) -> (slot: Self)
        requires
            self.level > 0,
        ensures
            slot == upgraded(*self),
    {
        VirtualSlot { level: self.level - 1, virtual_address: self.virtual_address }
    }
}

/// How a script is executed: all at once, or as an unbounded stream of blocks.
#[derive(Debug, Clone, Copy, PartialEq, Eq, Structural)]
pub enum ExecutionMode {
    Static,
    Unbounded { has_next: bool },
}

impl ExecutionMode {
    /// Whether the execution is unbounded.
    pub fn is_unbounded(&self) -> (b: bool)
        ensures
            b == (*self is Unbounded),
    {
        match self {
            ExecutionMode::Unbounded { .. } => true,
            ExecutionMode::Static => false,
        }
    }
}

/// The bytes of `buffer` with the four bytes at `index` replaced by `value`, little-endian.
pub open spec fn write_u32(buffer: Seq<u8>, index: int, value: int) -> Seq<u8> {
    buffer.subrange(0, index) + le_bytes(value, 4) + buffer.subrange(index + 4, buffer.len() as int)
}

/// The map from slot to the byte indices of its placeholders, given as a list of entries.
pub open spec fn entries_map(entries: Seq<(VirtualSlot, Seq<u32>)>) -> Map<VirtualSlot, Seq<u32>> {
    Map::new(
        |s: VirtualSlot| exists|i: int| 0 <= i < entries.len() && entries[i].0 == s,
        |s: VirtualSlot| entries[choose|i: int| 0 <= i < entries.len() && entries[i].0 == s].1,
    )
}

/// No slot has two entries.
pub open spec fn keys_distinct(entries: Seq<(VirtualSlot, Seq<u32>)>) -> bool {
    forall|i: int, j: int|
        0 <= i < entries.len() && 0 <= j < entries.len() && i != j ==> entries[i].0 != entries[j].0
}

/// `order` lists each slot of `dom` that is external (`externals`) or local (`!externals`)
/// exactly once, by ascending address.
pub open spec fn is_address_order(order: Seq<VirtualSlot>, dom: Set<VirtualSlot>, externals: bool) -> bool {
    &&& order.no_duplicates()
    &&& forall|s: VirtualSlot| order.contains(s) <==> (dom.contains(s) && (s.level > 0) == externals)
    &&& forall|i: int, j: int|
        0 <= i < j < order.len() ==> order[i].virtual_address <= order[j].virtual_address
}

/// The four-byte ranges at the indices of `slots` lie in a buffer of `len` bytes and do not
/// overlap.
pub open spec fn placeholders_fit(slots: Map<VirtualSlot, Seq<u32>>, len: nat) -> bool {
    &&& forall|s: VirtualSlot, j: int|
        slots.dom().contains(s) && 0 <= j < slots[s].len() ==> slots[s][j] + 4 <= len
    &&& forall|s1: VirtualSlot, j1: int, s2: VirtualSlot, j2: int|
        slots.dom().contains(s1) && 0 <= j1 < slots[s1].len() && slots.dom().contains(s2) && 0
            <= j2 < slots[s2].len() && (s1 != s2 || j1 != j2) ==> slots[s1][j1] + 4 <= slots[s2][j2]
            || slots[s2][j2] + 4 <= slots[s1][j1]
}

/// In the order that `remap_virtual_slots` numbers the slots (external slots, then local
/// ones), every slot has exactly one position: each slot gets one address, and different
/// slots get different addresses.
pub proof fn lemma_slot_addresses_unique(
    dom: Set<VirtualSlot>,
    externals: Seq<VirtualSlot>,
    locals: Seq<VirtualSlot>,
    slot: VirtualSlot,
)
    requires
        is_address_order(externals, dom, true),
        is_address_order(locals, dom, false),
        dom.contains(slot),
    ensures
        exists|k: int| 0 <= k < (externals + locals).len() && (externals + locals)[k] == slot,
        forall|k1: int, k2: int|
            0 <= k1 < (externals + locals).len() && 0 <= k2 < (externals + locals).len() && (
            externals + locals)[k1] == slot && (externals + locals)[k2] == slot ==> k1 == k2,
{
    let order = externals + locals;
    if slot.level > 0 {
        assert(externals.contains(slot));
        let k = choose|k: int| 0 <= k < externals.len() && externals[k] == slot;
        assert(order[k] == slot);
    } else {
        assert(locals.contains(slot));
        let k = choose|k: int| 0 <= k < locals.len() && locals[k] == slot;
        assert(order[externals.len() + k] == slot);
    }
    assert forall|k1: int, k2: int|
        0 <= k1 < order.len() && 0 <= k2 < order.len() && order[k1] == slot && order[k2] == slot
        implies k1 == k2 by {
        if k1 != k2 {
            if k1 < externals.len() && k2 < externals.len() {
                assert(externals[k1] == externals[k2]);
            } else if k1 >= externals.len() && k2 >= externals.len() {
                assert(locals[k1 - externals.len()] == locals[k2 - externals.len()]);
            } else if k1 < externals.len() {
                assert(externals.contains(externals[k1]));
                assert(locals.contains(locals[k2 - externals.len()]));
            } else {
                assert(externals.contains(externals[k2]));
                assert(locals.contains(locals[k1 - externals.len()]));
            }
        }
    }
}

/// The four bytes of `buffer` at `index`.
pub open spec fn placeholder(buffer: Seq<u8>, index: int) -> Seq<u8> {
    buffer.subrange(index, index + 4)
}

/// Byte `p` lies in one of the placeholders of `slots`.
pub open spec fn in_placeholder(slots: Map<VirtualSlot, Seq<u32>>, p: int) -> bool {
    exists|s: VirtualSlot, j: int|
        slots.dom().contains(s) && 0 <= j < slots[s].len() && #[trigger] slots[s][j] <= p < slots[s][j]
            + 4
}

/// `after` is `before` with each placeholder of the slot at position `k` of `order` set to
/// `k`, four bytes little-endian.
pub open spec fn slots_remapped(
    after: Seq<u8>,
    before: Seq<u8>,
    slots: Map<VirtualSlot, Seq<u32>>,
    order: Seq<VirtualSlot>,
) -> bool {
    &&& after.len() == before.len()
    &&& forall|k: int, j: int|
        0 <= k < order.len() && 0 <= j < slots[order[k]].len() ==> #[trigger] placeholder(
            after,
            slots[order[k]][j] as int,
        ) == le_bytes(k, 4)
    &&& forall|p: int| 0 <= p < before.len() && !in_placeholder(slots, p) ==> after[p] == before[p]
}

proof fn lemma_write_u32(buffer: Seq<u8>, index: int, value: int)
    requires
        0 <= index,
        index + 4 <= buffer.len(),
    ensures
        write_u32(buffer, index, value).len() == buffer.len(),
        placeholder(write_u32(buffer, index, value), index) == le_bytes(value, 4),
        forall|p: int|
            0 <= p < buffer.len() && (p < index || index + 4 <= p) ==> #[trigger] write_u32(
                buffer,
                index,
                value,
            )[p] == buffer[p],
        forall|t: int|
            0 <= t < 4 ==> #[trigger] write_u32(buffer, index, value)[index + t] == le_bytes(
                value,
                4,
            )[t],
{
    lemma_le_bytes_len(value, 4);
    let w = write_u32(buffer, index, value);
    assert(placeholder(w, index) =~= le_bytes(value, 4));
}

/// The compilation context, created for each compiler call.
pub struct CompilationContext {
    pub inserted_value_index: usize,
    pub buffer: Vec<u8>,
    pub inserted_values: Vec<ValueContainer>,
    /// Set when any non-static value is encountered.
    pub has_non_static_value: bool,
    pub execution_mode: ExecutionMode,
    /// The byte indices of the placeholders of each virtual slot, one entry per slot; the
    /// methods keep it consistent with the buffer (see `wf`).
    pub slot_indices: Vec<(VirtualSlot, Vec<u32>)>,
}

impl CompilationContext {
    /// The entries of the slot table as plain values.
    pub open spec fn slot_entries(&self) -> Seq<(VirtualSlot, Seq<u32>)> {
        self.slot_indices@.map_values(|e: (VirtualSlot, Vec<u32>)| (e.0, e.1@))
    }

    /// The byte indices of the placeholders of each virtual slot.
    pub open spec fn slots(&self) -> Map<VirtualSlot, Seq<u32>> {
        entries_map(self.slot_entries())
    }

    /// `self` has the inserted values, the index of the next one and the execution mode of
    /// `other`.
    pub open spec fn keeps_inputs(&self, other: &Self) -> bool {
        &&& self.inserted_values == other.inserted_values
        &&& self.inserted_value_index == other.inserted_value_index
        &&& self.execution_mode == other.execution_mode
    }

    /// The slot table has one entry per slot, and every placeholder is a distinct four-byte
    /// range inside the buffer.
    pub open spec fn wf(&self) -> bool {
        &&& keys_distinct(self.slot_entries())
        &&& placeholders_fit(self.slots(), self.buffer@.len())
        &&& self.slot_indices@.len() * 4 <= self.buffer@.len()
        &&& self.slot_indices@.len() <= 0x4000_0000
    }

    proof fn lemma_entries_map(&self)
        requires
            keys_distinct(self.slot_entries()),
        ensures
            forall|i: int|
                #![trigger self.slot_entries()[i]]
                0 <= i < self.slot_entries().len() ==> self.slots().dom().contains(
                    self.slot_entries()[i].0,
                ) && self.slots()[self.slot_entries()[i].0] == self.slot_entries()[i].1,
            forall|s: VirtualSlot|
                #![trigger self.slots().dom().contains(s)]
                self.slots().dom().contains(s) ==> exists|i: int|
                    0 <= i < self.slot_entries().len() && self.slot_entries()[i].0 == s,
    {
        let e = self.slot_entries();
        assert forall|i: int| 0 <= i < e.len() implies #[trigger] self.slots().dom().contains(
            e[i].0,
        ) && self.slots()[e[i].0] == e[i].1 by {
            assert(0 <= i < e.len() && e[i].0 == e[i].0);
            let k = choose|k: int| 0 <= k < e.len() && e[k].0 == e[i].0;
            assert(k == i);
        }
    }

    /// A new context that writes to `buffer`.
    pub fn new(
        buffer: Vec<u8>,
        inserted_values: Vec<ValueContainer>,
        execution_mode: ExecutionMode,
    ) -> (ctx: Self)
        ensures
            ctx.wf(),
            ctx.inserted_value_index == 0,
            ctx.buffer@ == buffer@,
            ctx.inserted_values@ == inserted_values@,
            !ctx.has_non_static_value,
            ctx.execution_mode == execution_mode,
            ctx.slots() == Map::<VirtualSlot, Seq<u32>>::empty(),
    {
        let ctx = CompilationContext {
            inserted_value_index: 0,
            buffer,
            inserted_values,
            has_non_static_value: false,
            slot_indices: Vec::new(),
            execution_mode,
        };
        assert(ctx.slots() =~= Map::<VirtualSlot, Seq<u32>>::empty());
        ctx
    }

    /// The index at which the next byte is written.
    pub fn buffer_index(&self) -> (index: usize)
        ensures
            index == self.buffer@.len(),
    {
        self.buffer.len()
    }

    /// Appends the encoding of a value container.
    fn insert_value_container(&mut self, value_container: &ValueContainer)
        requires
            old(self).wf(),
            container_encodable(*value_container),
        ensures
            final(self).wf(),
            final(self).buffer@ == old(self).buffer@ + container_bytes(*value_container),
            final(self).slots() == old(self).slots(),
            final(self).has_non_static_value == old(self).has_non_static_value,
            final(self).keeps_inputs(&*old(self)),
    {
        append_value_container(&mut self.buffer, value_container);
    }

    /// Sets the flag that a non-static value was encountered.
    pub fn mark_has_non_static_value(&mut self)
        requires
            old(self).wf(),
        ensures
            final(self).wf(),
            final(self).has_non_static_value,
            final(self).buffer@ == old(self).buffer@,
            final(self).slots() == old(self).slots(),
            final(self).keeps_inputs(&*old(self)),
    {
        self.has_non_static_value = true;
    }

    /// Appends an instruction code.
    pub fn append_instruction_code(&mut self, code: InstructionCode)
        requires
            old(self).wf(),
        ensures
            final(self).wf(),
            final(self).buffer@ == old(self).buffer@ + instr(code),
            final(self).slots() == old(self).slots(),
            final(self).has_non_static_value == old(self).has_non_static_value,
            final(self).keeps_inputs(&*old(self)),
    {
        append_instruction_code(&mut self.buffer, code);
        assert(self.buffer@ =~= old(self).buffer@ + instr(code));
    }

    /// Writes `value` little-endian into the four bytes at `index`.
    pub fn set_u32_at_index(&mut self, value: u32, index: usize)
        requires
            index + 4 <= old(self).buffer@.len(),
        ensures
            final(self).buffer@ == write_u32(old(self).buffer@, index as int, value as int),
            final(self).slots() == old(self).slots(),
            final(self).wf() == old(self).wf(),
            final(self).has_non_static_value == old(self).has_non_static_value,
            final(self).inserted_value_index == old(self).inserted_value_index,
            final(self).execution_mode == old(self).execution_mode,
            final(self).inserted_values == old(self).inserted_values,
    {
        let ghost start = self.buffer@;
        let len = self.buffer.len();
        let mut bytes: Vec<u8> = Vec::new();
        append_u32(&mut bytes, value);
        proof {
            lemma_le_bytes_len(value as int, 4);
        }
        let mut t: usize = 0;
        while t < 4
            invariant
                t <= 4,
                index + 4 <= start.len() == len,
                bytes@ == le_bytes(value as int, 4),
                bytes@.len() == 4,
                self.slot_indices == old(self).slot_indices,
                self.has_non_static_value == old(self).has_non_static_value,
                self.inserted_value_index == old(self).inserted_value_index,
                self.execution_mode == old(self).execution_mode,
                self.inserted_values == old(self).inserted_values,
                self.buffer@ == start.subrange(0, index as int) + bytes@.subrange(0, t as int)
                    + start.subrange(index + t, start.len() as int),
            decreases 4 - t,
        {
            self.buffer.set(index + t, bytes[t]);
            t = t + 1;
            assert(self.buffer@ =~= start.subrange(0, index as int) + bytes@.subrange(0, t as int)
                + start.subrange(index + t, start.len() as int));
        }
        assert(bytes@.subrange(0, 4) =~= bytes@);
    }

    /// Writes a placeholder for the address of `virtual_slot` and records its byte index; the
    /// placeholder is replaced by `remap_virtual_slots`.
    pub fn insert_virtual_slot_address(&mut self, virtual_slot: VirtualSlot)
        requires
            old(self).wf(),
            old(self).buffer@.len() < 0x1_0000_0000,
        ensures
            final(self).wf(),
            final(self).buffer@ == old(self).buffer@ + le_bytes(0, 4),
            final(self).slots() == old(self).slots().insert(
                virtual_slot,
                (if old(self).slots().dom().contains(virtual_slot) {
                    old(self).slots()[virtual_slot]
                } else {
                    Seq::empty()
                }).push(old(self).buffer@.len() as u32),
            ),
            final(self).has_non_static_value == old(self).has_non_static_value,
            final(self).inserted_value_index == old(self).inserted_value_index,
            final(self).execution_mode == old(self).execution_mode,
            final(self).inserted_values == old(self).inserted_values,
    {
        let ghost old_slots = self.slots();
        let ghost old_entries = self.slot_entries();
        let ghost old_len = self.buffer@.len();
        proof {
            self.lemma_entries_map();
        }
        let buffer_index = self.buffer.len() as u32;
        let mut pos: usize = 0;
        let n = self.slot_indices.len();
        while pos < n && self.slot_indices[pos].0 != virtual_slot
            invariant
                pos <= n == self.slot_indices@.len(),
                self.slot_entries() == old_entries,
                forall|i: int| 0 <= i < pos ==> old_entries[i].0 != virtual_slot,
            decreases n - pos,
        {
            pos = pos + 1;
        }
        let ghost new_indices = (if old_slots.dom().contains(virtual_slot) {
            old_slots[virtual_slot]
        } else {
            Seq::empty()
        }).push(buffer_index);
        if pos < n {
            assert(old_entries[pos as int].0 == virtual_slot);
            let mut entry = self.slot_indices.remove(pos);
            entry.1.push(buffer_index);
            self.slot_indices.insert(pos, entry);
            assert(self.slot_entries() =~= old_entries.update(pos as int, (virtual_slot, new_indices)));
        } else {
            assert(!old_slots.dom().contains(virtual_slot));
            let mut indices: Vec<u32> = Vec::new();
            indices.push(buffer_index);
            self.slot_indices.push((virtual_slot, indices));
            assert(new_indices =~= seq![buffer_index]);
            assert(self.slot_entries() =~= old_entries.push((virtual_slot, new_indices)));
        }
        append_u32(&mut self.buffer, 0);
        proof {
            lemma_le_bytes_len(0, 4);
            let e = self.slot_entries();
            assert(keys_distinct(e));
            self.lemma_entries_map();
            assert(self.slots() =~= old_slots.insert(virtual_slot, new_indices)) by {
                assert forall|s: VirtualSlot|
                    #[trigger] self.slots().dom().contains(s) <==> old_slots.insert(
                        virtual_slot,
                        new_indices,
                    ).dom().contains(s) by {
                    if self.slots().dom().contains(s) {
                        let i = choose|i: int| 0 <= i < e.len() && e[i].0 == s;
                        if s != virtual_slot {
                            assert(old_entries[i].0 == s);
                        }
                    }
                    if old_slots.dom().contains(s) {
                        let i = choose|i: int| 0 <= i < old_entries.len() && old_entries[i].0 == s;
                        assert(e[i].0 == s);
                    }
                    if s == virtual_slot {
                        if pos < n {
                            assert(e[pos as int].0 == s);
                        } else {
                            assert(e[n as int].0 == s);
                        }
                    }
                }
                assert forall|s: VirtualSlot| #[trigger]
                    self.slots().dom().contains(s) implies self.slots()[s] == old_slots.insert(
                    virtual_slot,
                    new_indices,
                )[s] by {
                    let i = choose|i: int| 0 <= i < e.len() && e[i].0 == s;
                    assert(self.slots()[e[i].0] == e[i].1);
                    if s != virtual_slot {
                        assert(old_entries[i].0 == s);
                        assert(old_slots[old_entries[i].0] == old_entries[i].1);
                    }
                }
            }
            let m = self.slots();
            let len = self.buffer@.len();
            assert forall|s: VirtualSlot, j: int|
                m.dom().contains(s) && 0 <= j < m[s].len() implies m[s][j] + 4 <= len by {
                if s != virtual_slot || j + 1 < m[s].len() {
                    assert(old_slots.dom().contains(s) && old_slots[s][j] == m[s][j]);
                }
            }
            assert forall|s1: VirtualSlot, j1: int, s2: VirtualSlot, j2: int|
                m.dom().contains(s1) && 0 <= j1 < m[s1].len() && m.dom().contains(s2) && 0 <= j2
                    < m[s2].len() && (s1 != s2 || j1 != j2) implies m[s1][j1] + 4 <= m[s2][j2]
                || m[s2][j2] + 4 <= m[s1][j1] by {
                let new1 = s1 == virtual_slot && j1 + 1 == m[s1].len();
                let new2 = s2 == virtual_slot && j2 + 1 == m[s2].len();
                if !new1 {
                    assert(old_slots.dom().contains(s1) && old_slots[s1][j1] == m[s1][j1]);
                    assert(old_slots[s1][j1] + 4 <= old_len);
                }
                if !new2 {
                    assert(old_slots.dom().contains(s2) && old_slots[s2][j2] == m[s2][j2]);
                    assert(old_slots[s2][j2] + 4 <= old_len);
                }
            }
        }
    }

    /// `positions` lists the positions in the slot table of the slots that are external
    /// (`externals`) or local (`!externals`), each once, by ascending address.
    pub open spec fn positions_ok(&self, positions: Seq<usize>, externals: bool) -> bool {
        let e = self.slot_entries();
        &&& positions.no_duplicates()
        &&& forall|k: int| 0 <= k < positions.len() ==> positions[k] < e.len()
        &&& forall|p: int|
            0 <= p < e.len() ==> (positions.contains(p as usize) <==> (e[p].0.level > 0)
                == externals)
        &&& forall|i: int, j: int|
            0 <= i < j < positions.len() ==> e[positions[i] as int].0.virtual_address
                <= e[positions[j] as int].0.virtual_address
    }

    /// The slots at `positions`.
    pub open spec fn slots_at(&self, positions: Seq<usize>) -> Seq<VirtualSlot> {
        positions.map_values(|p: usize| self.slot_entries()[p as int].0)
    }

    proof fn lemma_positions_order(&self, positions: Seq<usize>, externals: bool)
        requires
            keys_distinct(self.slot_entries()),
            self.positions_ok(positions, externals),
            self.slot_entries().len() <= usize::MAX,
        ensures
            is_address_order(self.slots_at(positions), self.slots().dom(), externals),
            forall|k: int|
                0 <= k < positions.len() ==> #[trigger] self.slots()[self.slots_at(positions)[k]]
                    == self.slot_entries()[positions[k] as int].1,
    {
        let e = self.slot_entries();
        let order = self.slots_at(positions);
        self.lemma_entries_map();
        assert forall|i: int, j: int|
            0 <= i < order.len() && 0 <= j < order.len() && i != j implies order[i]
            != order[j] by {
            assert(positions[i] != positions[j]);
        }
        assert forall|s: VirtualSlot| order.contains(s) <==> (self.slots().dom().contains(s) && (
        s.level > 0) == externals) by {
            if order.contains(s) {
                let k = choose|k: int| 0 <= k < order.len() && order[k] == s;
                assert(positions.contains(positions[k]));
                assert(e[positions[k] as int].0 == s);
            }
            if self.slots().dom().contains(s) && (s.level > 0) == externals {
                let p = choose|p: int| 0 <= p < e.len() && e[p].0 == s;
                assert(positions.contains(p as usize));
                let k = choose|k: int| 0 <= k < positions.len() && positions[k] == p as usize;
                assert(positions[k] as int == p);
                assert(order[k] == e[positions[k] as int].0);
            }
        }
        assert forall|k: int| 0 <= k < positions.len() implies #[trigger] self.slots()[order[k]]
            == e[positions[k] as int].1 by {
            assert(order[k] == e[positions[k] as int].0);
        }
    }

    /// The positions in the slot table of the external (or local) slots, ordered by address,
    /// slots of equal address in the order of the table.
    fn matching_positions(&self, externals: bool) -> (positions: Vec<usize>)
        ensures
            self.positions_ok(positions@, externals),
            self.slot_entries().len() <= usize::MAX,
            positions@.len() <= self.slot_entries().len(),
    {
        let ghost e = self.slot_entries();
        let mut res: Vec<usize> = Vec::new();
        let n = self.slot_indices.len();
        let mut p: usize = 0;
        while p < n
            invariant
                p <= n == e.len(),
                e == self.slot_entries(),
                res@.no_duplicates(),
                res@.len() <= p,
                forall|k: int| 0 <= k < res@.len() ==> res@[k] < p,
                forall|q: int|
                    0 <= q < n ==> (res@.contains(q as usize) <==> (q < p && (e[q].0.level > 0)
                        == externals)),
                forall|i: int, j: int|
                    0 <= i < j < res@.len() ==> e[res@[i] as int].0.virtual_address
                        <= e[res@[j] as int].0.virtual_address,
            decreases n - p,
        {
            let slot = self.slot_indices[p].0;
            assert(slot == e[p as int].0);
            if slot.is_external() == externals {
                let address = slot.virtual_address;
                let mut q: usize = 0;
                while q < res.len() && self.slot_indices[res[q]].0.virtual_address <= address
                    invariant
                        q <= res@.len(),
                        forall|k: int| 0 <= k < res@.len() ==> res@[k] < p,
                        p < n == e.len(),
                        e == self.slot_entries(),
                        forall|k: int|
                            0 <= k < q ==> e[res@[k] as int].0.virtual_address <= address,
                    decreases res@.len() - q,
                {
                    q = q + 1;
                }
                let ghost old_res = res@;
                assert forall|k: int| q <= k < old_res.len() implies address < e[old_res[k] as int].0.virtual_address by {
                    assert(address < e[old_res[q as int] as int].0.virtual_address);
                    if k > q {
                        assert(e[old_res[q as int] as int].0.virtual_address
                            <= e[old_res[k] as int].0.virtual_address);
                    }
                }
                res.insert(q, p);
                proof {
                    old_res.insert_ensures(q as int, p);
                    let r = res@;
                    assert forall|k: int| 0 <= k < r.len() implies r[k] == (if k < q {
                        old_res[k]
                    } else if k == q {
                        p
                    } else {
                        old_res[k - 1]
                    }) by {
                        if k > q {
                            assert(r[(k - 1) + 1] == old_res[k - 1]);
                        }
                    }
                    assert forall|i: int, j: int|
                        0 <= i < r.len() && 0 <= j < r.len() && i != j implies r[i] != r[j] by {
                        if i != q && j != q {
                            let oi = if i < q { i } else { i - 1 };
                            let oj = if j < q { j } else { j - 1 };
                            assert(old_res[oi] == r[i] && old_res[oj] == r[j]);
                        }
                    }
                    assert forall|x: int| 0 <= x < n implies (r.contains(x as usize) <==> (x < p + 1
                        && (e[x].0.level > 0) == externals)) by {
                        if r.contains(x as usize) {
                            let k = choose|k: int| 0 <= k < r.len() && r[k] == x as usize;
                            if k != q {
                                let ok = if k < q { k } else { k - 1 };
                                assert(old_res[ok] == x as usize);
                                assert(old_res.contains(x as usize));
                            }
                        }
                        if x < p + 1 && (e[x].0.level > 0) == externals {
                            if x == p {
                                assert(r[q as int] == p);
                            } else {
                                assert(old_res.contains(x as usize));
                                let k = choose|k: int|
                                    0 <= k < old_res.len() && old_res[k] == x as usize;
                                let nk = if k < q { k } else { k + 1 };
                                assert(r[nk] == x as usize);
                            }
                        }
                    }
                }
            }
            p = p + 1;
        }
        res
    }

    /// The external slots, ordered by address.
    pub fn external_slots(&self) -> (slots: Vec<VirtualSlot>)
        requires
            self.wf(),
        ensures
            is_address_order(slots@, self.slots().dom(), true),
    {
        let positions = self.matching_positions(true);
        let mut res: Vec<VirtualSlot> = Vec::new();
        let mut k: usize = 0;
        while k < positions.len()
            invariant
                k <= positions@.len(),
                self.positions_ok(positions@, true),
                res@ == self.slots_at(positions@).subrange(0, k as int),
            decreases positions@.len() - k,
        {
            res.push(self.slot_indices[positions[k]].0);
            k = k + 1;
            assert(res@ =~= self.slots_at(positions@).subrange(0, k as int));
        }
        proof {
            self.lemma_positions_order(positions@, true);
            assert(res@ =~= self.slots_at(positions@));
        }
        res
    }

    /// The byte indices of the placeholders of the external (`match_externals`) or local
    /// slots, one list per slot, the slots ordered by address.
    pub fn get_slot_byte_indices(&self, match_externals: bool) -> (indices: Vec<Vec<u32>>)
        requires
            self.wf(),
        ensures
            exists|order: Seq<VirtualSlot>|
                #![trigger is_address_order(order, self.slots().dom(), match_externals)]
                is_address_order(order, self.slots().dom(), match_externals) && indices@.len()
                    == order.len() && forall|k: int|
                    0 <= k < order.len() ==> #[trigger] indices@[k]@ == self.slots()[order[k]],
            indices@.len() <= self.slot_entries().len(),
    {
        let positions = self.matching_positions(match_externals);
        let mut res: Vec<Vec<u32>> = Vec::new();
        let mut k: usize = 0;
        while k < positions.len()
            invariant
                k <= positions@.len(),
                self.positions_ok(positions@, match_externals),
                res@.len() == k,
                forall|i: int|
                    0 <= i < k ==> #[trigger] res@[i]@ == self.slot_entries()[positions@[i] as int].1,
            decreases positions@.len() - k,
        {
            let indices = self.slot_indices[positions[k]].1.clone();
            res.push(indices);
            k = k + 1;
        }
        proof {
            self.lemma_positions_order(positions@, match_externals);
            let order = self.slots_at(positions@);
            assert(forall|i: int| 0 <= i < order.len() ==> #[trigger] res@[i]@ == self.slots()[order[i]]);
        }
        res
    }

    /// Writes the placeholders of the slots of `byte_indices` (one list per slot) with the
    /// slot addresses `first`, `first + 1`, ..., in order.
    fn write_slot_addresses(
        &mut self,
        byte_indices: &Vec<Vec<u32>>,
        first: u32,
        Ghost(order): Ghost<Seq<VirtualSlot>>,
        Ghost(done): Ghost<Seq<VirtualSlot>>,
        Ghost(before): Ghost<Seq<u8>>,
    )
        requires
            old(self).wf(),
            first + byte_indices@.len() <= u32::MAX,
            first == done.len(),
            order.len() == byte_indices@.len(),
            forall|k: int| 0 <= k < order.len() ==> old(self).slots().dom().contains(#[trigger] order[k]),
            forall|k: int|
                0 <= k < order.len() ==> #[trigger] byte_indices@[k]@ == old(self).slots()[order[k]],
            (done + order).no_duplicates(),
            forall|k: int| 0 <= k < done.len() ==> old(self).slots().dom().contains(#[trigger] done[k]),
            old(self).buffer@.len() == before.len(),
            forall|k: int, j: int|
                0 <= k < done.len() && 0 <= j < old(self).slots()[done[k]].len()
                    ==> #[trigger] placeholder(old(self).buffer@, old(self).slots()[done[k]][j] as int)
                    == le_bytes(k, 4),
            forall|p: int|
                0 <= p < before.len() ==> old(self).buffer@[p] == before[p] || in_placeholder(
                    old(self).slots(),
                    p,
                ),
        ensures
            final(self).wf(),
            final(self).slots() == old(self).slots(),
            final(self).has_non_static_value == old(self).has_non_static_value,
            final(self).inserted_value_index == old(self).inserted_value_index,
            final(self).execution_mode == old(self).execution_mode,
            final(self).inserted_values == old(self).inserted_values,
            final(self).buffer@.len() == before.len(),
            forall|k: int, j: int|
                0 <= k < (done + order).len() && 0 <= j < old(self).slots()[(done + order)[k]].len()
                    ==> #[trigger] placeholder(
                    final(self).buffer@,
                    old(self).slots()[(done + order)[k]][j] as int,
                ) == le_bytes(k, 4),
            forall|p: int|
                0 <= p < before.len() ==> final(self).buffer@[p] == before[p] || in_placeholder(
                    old(self).slots(),
                    p,
                ),
    {
        let ghost m = self.slots();
        let ghost all = done + order;
        assert(all.len() == done.len() + order.len());
        assert forall|i: int| 0 <= i < all.len() implies #[trigger] all[i] == if i < done.len() {
            done[i]
        } else {
            order[i - done.len()]
        } by {}
        let mut address: u32 = first;
        let mut k: usize = 0;
        while k < byte_indices.len()
            invariant
                k <= byte_indices@.len() == order.len(),
                first + byte_indices@.len() <= u32::MAX,
                address == first + k,
                first == done.len(),
                all == done + order,
                all.no_duplicates(),
                self.wf(),
                self.slots() == m,
                self.has_non_static_value == old(self).has_non_static_value,
                self.inserted_value_index == old(self).inserted_value_index,
                self.execution_mode == old(self).execution_mode,
                self.inserted_values == old(self).inserted_values,
                self.buffer@.len() == before.len(),
                forall|i: int| 0 <= i < order.len() ==> m.dom().contains(#[trigger] order[i]),
                forall|i: int|
                    0 <= i < order.len() ==> #[trigger] byte_indices@[i]@ == m[order[i]],
                all.len() == done.len() + order.len(),
                forall|i: int|
                    0 <= i < all.len() ==> #[trigger] all[i] == if i < done.len() {
                        done[i]
                    } else {
                        order[i - done.len()]
                    },
                forall|i: int| 0 <= i < done.len() ==> m.dom().contains(done[i]),
                forall|i: int, j: int|
                    0 <= i < first + k && 0 <= j < m[all[i]].len() ==> #[trigger] placeholder(
                        self.buffer@,
                        m[all[i]][j] as int,
                    ) == le_bytes(i, 4),
                forall|p: int|
                    0 <= p < before.len() ==> self.buffer@[p] == before[p] || in_placeholder(m, p),
            decreases byte_indices@.len() - k,
        {
            let indices = &byte_indices[k];
            let ghost slot = order[k as int];
            assert(all[first + k] == slot);
            assert(indices@ == m[slot]);
            let mut j: usize = 0;
            while j < indices.len()
                invariant
                    j <= indices@.len(),
                    indices@ == m[slot],
                    m.dom().contains(slot),
                    k < order.len(),
                    slot == order[k as int],
                    address == first + k,
                    first == done.len(),
                    all == done + order,
                    all.no_duplicates(),
                    all[first + k] == slot,
                    self.wf(),
                    self.slots() == m,
                    self.has_non_static_value == old(self).has_non_static_value,
                    self.inserted_value_index == old(self).inserted_value_index,
                    self.execution_mode == old(self).execution_mode,
                    self.inserted_values == old(self).inserted_values,
                    self.buffer@.len() == before.len(),
                    forall|i: int| 0 <= i < order.len() ==> m.dom().contains(#[trigger] order[i]),
                    forall|i: int| 0 <= i < done.len() ==> m.dom().contains(#[trigger] done[i]),
                    all.len() == done.len() + order.len(),
                    forall|i: int|
                        0 <= i < all.len() ==> #[trigger] all[i] == if i < done.len() {
                            done[i]
                        } else {
                            order[i - done.len()]
                        },
                    forall|i: int, jj: int|
                        0 <= i < first + k && 0 <= jj < m[all[i]].len() ==> #[trigger] placeholder(
                            self.buffer@,
                            m[all[i]][jj] as int,
                        ) == le_bytes(i, 4),
                    forall|jj: int|
                        0 <= jj < j ==> #[trigger] placeholder(self.buffer@, m[slot][jj] as int)
                            == le_bytes(first + k, 4),
                    forall|p: int|
                        0 <= p < before.len() ==> self.buffer@[p] == before[p] || in_placeholder(
                            m,
                            p,
                        ),
                decreases indices@.len() - j,
            {
                let index = indices[j] as usize;
                let ghost b0 = self.buffer@;
                assert(m[slot][j as int] + 4 <= b0.len());
                self.set_u32_at_index(address, index);
                proof {
                    lemma_write_u32(b0, index as int, address as int);
                    let b1 = self.buffer@;
                    assert forall|i: int, jj: int|
                        0 <= i < first + k && 0 <= jj < m[all[i]].len() implies #[trigger] placeholder(
                            b1,
                            m[all[i]][jj] as int,
                        ) == le_bytes(i, 4) by {
                        let r = m[all[i]][jj] as int;
                        assert(i != first + k);
                        assert(all[i] != all[first + k]);
                        assert(m.dom().contains(all[i])) by {
                            if i < done.len() {
                                assert(all[i] == done[i]);
                            } else {
                                assert(all[i] == order[i - done.len()]);
                            }
                        }
                        assert(r + 4 <= index || index + 4 <= r);
                        assert(placeholder(b1, r) =~= placeholder(b0, r));
                    }
                    assert forall|jj: int| 0 <= jj < j + 1 implies #[trigger] placeholder(
                        b1,
                        m[slot][jj] as int,
                    ) == le_bytes(first + k, 4) by {
                        if jj < j {
                            let r = m[slot][jj] as int;
                            assert(r + 4 <= index || index + 4 <= r);
                            assert(placeholder(b1, r) =~= placeholder(b0, r));
                        }
                    }
                    assert forall|p: int| 0 <= p < before.len() implies b1[p] == before[p]
                        || in_placeholder(m, p) by {
                        if index <= p < index + 4 {
                            assert(m.dom().contains(slot) && 0 <= j < m[slot].len() && m[slot][j as int]
                                <= p < m[slot][j as int] + 4);
                        }
                    }
                }
                j = j + 1;
            }
            proof {
                assert forall|i: int, jj: int|
                    0 <= i < first + k + 1 && 0 <= jj < m[all[i]].len() implies #[trigger] placeholder(
                        self.buffer@,
                        m[all[i]][jj] as int,
                    ) == le_bytes(i, 4) by {
                    if i == first + k {
                        assert(placeholder(self.buffer@, m[slot][jj] as int) == le_bytes(first + k, 4));
                    }
                }
            }
            address = address + 1;
            k = k + 1;
        }
    }

    /// Replaces the placeholder of every virtual slot by its slot address: the external slots
    /// get the addresses 0, 1, ... by ascending virtual address, then the local slots get the
    /// following addresses, by ascending virtual address.
    pub fn remap_virtual_slots(&mut self)
        requires
            old(self).wf(),
        ensures
            final(self).wf(),
            final(self).slots() == old(self).slots(),
            final(self).has_non_static_value == old(self).has_non_static_value,
            final(self).inserted_value_index == old(self).inserted_value_index,
            final(self).execution_mode == old(self).execution_mode,
            final(self).inserted_values == old(self).inserted_values,
            exists|externals: Seq<VirtualSlot>, locals: Seq<VirtualSlot>|
                #![trigger is_address_order(externals, old(self).slots().dom(), true), is_address_order(locals, old(self).slots().dom(), false)]
                is_address_order(externals, old(self).slots().dom(), true) && is_address_order(
                    locals,
                    old(self).slots().dom(),
                    false,
                ) && slots_remapped(
                    final(self).buffer@,
                    old(self).buffer@,
                    old(self).slots(),
                    externals + locals,
                ),
    {
        let ghost m = self.slots();
        let ghost before = self.buffer@;
        let ghost dom = m.dom();
        let external_indices = self.get_slot_byte_indices(true);
        let ghost ext = choose|order: Seq<VirtualSlot>|
            #![trigger is_address_order(order, dom, true)]
            is_address_order(order, dom, true) && external_indices@.len() == order.len() && forall|
                k: int,
            |
                0 <= k < order.len() ==> #[trigger] external_indices@[k]@ == m[order[k]];
        let local_indices = self.get_slot_byte_indices(false);
        let ghost loc = choose|order: Seq<VirtualSlot>|
            #![trigger is_address_order(order, dom, false)]
            is_address_order(order, dom, false) && local_indices@.len() == order.len() && forall|
                k: int,
            |
                0 <= k < order.len() ==> #[trigger] local_indices@[k]@ == m[order[k]];
        proof {
            assert(ext.no_duplicates());
            assert forall|k: int| 0 <= k < ext.len() implies m.dom().contains(ext[k]) by {
                assert(ext.contains(ext[k]));
            }
            assert forall|k: int| 0 <= k < loc.len() implies m.dom().contains(loc[k]) by {
                assert(loc.contains(loc[k]));
            }
            assert((Seq::<VirtualSlot>::empty() + ext) =~= ext);
            assert forall|i: int, j: int|
                0 <= i < (ext + loc).len() && 0 <= j < (ext + loc).len() && i != j implies (ext
                + loc)[i] != (ext + loc)[j] by {
                if i < ext.len() && j >= ext.len() {
                    assert(ext.contains(ext[i]) && loc.contains(loc[j - ext.len()]));
                }
                if j < ext.len() && i >= ext.len() {
                    assert(ext.contains(ext[j]) && loc.contains(loc[i - ext.len()]));
                }
            }
        }
        self.write_slot_addresses(
            &external_indices,
            0,
            Ghost(ext),
            Ghost(Seq::empty()),
            Ghost(before),
        );
        let count = external_indices.len() as u32;
        self.write_slot_addresses(&local_indices, count, Ghost(loc), Ghost(ext), Ghost(before));
        proof {
            let order = ext + loc;
            let after = self.buffer@;
            assert forall|p: int| 0 <= p < before.len() && !in_placeholder(m, p) implies after[p]
                == before[p] by {}
            assert(slots_remapped(after, before, m, order));
        }
    }
}

} // verus!
