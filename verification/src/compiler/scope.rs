//! Compilation scopes: the variables of a block, its parent block and the scope of an
//! enclosing context (a remote execution or a function body).
use vstd::prelude::*;
use crate::ast::expression::VariableKind;
use crate::compiler::context::{downgraded, VirtualSlot};
use crate::compiler::{representation_slots, Variable, VariableRepresentation};

verus! {

/// The slot through which a variable is accessed: the container slot of a variable held by a
/// reference, the only slot otherwise.
pub open spec fn access_slot(representation: VariableRepresentation) -> VirtualSlot {
    match representation {
        VariableRepresentation::Constant(slot) => slot,
        VariableRepresentation::VariableReference { container_slot, .. } => container_slot,
        VariableRepresentation::VariableSlot(slot) => slot,
    }
}

/// The position of the variable named `name` in `variables`, if there is one.
pub open spec fn has_name(variables: Seq<Variable>, name: Seq<char>) -> bool {
    exists|i: int| 0 <= i < variables.len() && variables[i].name@ == name
}

/// The variable named `name` in `variables` (meaningful when there is one).
pub open spec fn named(variables: Seq<Variable>, name: Seq<char>) -> Variable {
    variables[choose|i: int| 0 <= i < variables.len() && variables[i].name@ == name]
}

/// No two variables have the same name.
pub open spec fn names_unique(variables: Seq<Variable>) -> bool {
    forall|i: int, j: int|
        0 <= i < variables.len() && 0 <= j < variables.len() && i != j ==> variables[i].name@
            != variables[j].name@
}

/// The slots of all `variables`, in order.
pub open spec fn all_slots(variables: Seq<Variable>) -> Seq<VirtualSlot>
    decreases variables.len(),
{
    if variables.len() == 0 {
        Seq::empty()
    } else {
        all_slots(variables.drop_last()) + representation_slots(variables.last().representation)
    }
}

/// The scope of a block during compilation.
#[derive(Debug)]
pub struct CompilationScope {
    /// The variables declared in this scope, one per name.
    pub variables: Vec<Variable>,
    /// The scope of the enclosing block.
    pub parent_scope: Option<Box<CompilationScope>>,
    /// The scope of the enclosing context, e.g. around a remote execution or a function body.
    pub external_parent_scope: Option<Box<CompilationScope>>,
    pub next_slot_address: u32,
    /// Whether the scope can only be used for one compilation (a REPL reuses its scope).
    pub once: bool,
    /// Whether the scope has been used for a compilation.
    pub was_used: bool,
}

/// The slot and kind of the variable `name` as seen from `scope`: a variable of the scope
/// itself, else one of the enclosing context (seen one level deeper), else one of the parent
/// scope.
pub open spec fn resolve(scope: CompilationScope, name: Seq<char>) -> Option<(VirtualSlot, VariableKind)>
    decreases scope,
{
    if has_name(scope.variables@, name) {
        let v = named(scope.variables@, name);
        Some((access_slot(v.representation), v.kind))
    } else if scope.external_parent_scope is Some {
        match resolve(*scope.external_parent_scope->0, name) {
            Some((slot, kind)) => Some((downgraded(slot), kind)),
            None => None,
        }
    } else if scope.parent_scope is Some {
        resolve(*scope.parent_scope->0, name)
    } else {
        None
    }
}

/// Resolving `name` from `scope` raises no slot level above 255.
pub open spec fn resolvable(scope: CompilationScope, name: Seq<char>) -> bool
    decreases scope,
{
    if has_name(scope.variables@, name) {
        true
    } else if scope.external_parent_scope is Some {
        &&& resolvable(*scope.external_parent_scope->0, name)
        &&& resolve(*scope.external_parent_scope->0, name) matches Some((slot, _)) ==> slot.level
            < 255
    } else if scope.parent_scope is Some {
        resolvable(*scope.parent_scope->0, name)
    } else {
        true
    }
}

impl CompilationScope {
    /// Every scope of the chain has one variable per name.
    pub open spec fn wf(&self) -> bool
        decreases *self,
    {
        &&& names_unique(self.variables@)
        &&& match self.parent_scope {
            Some(p) => p.wf(),
            None => true,
        }
        &&& match self.external_parent_scope {
            Some(p) => p.wf(),
            None => true,
        }
    }

    /// A root scope.
    pub fn new(once: bool) -> (scope: Self)
        ensures
            scope.wf(),
            scope.variables@.len() == 0,
            scope.parent_scope is None,
            scope.external_parent_scope is None,
            scope.next_slot_address == 0,
            scope.once == once,
            !scope.was_used,
    {
        CompilationScope {
            variables: Vec::new(),
            parent_scope: None,
            external_parent_scope: None,
            next_slot_address: 0,
            once,
            was_used: false,
        }
    }

    /// A root scope inside the context of `parent_context`.
    pub fn new_with_external_parent_scope(parent_context: CompilationScope) -> (scope: Self)
        ensures
            scope.variables@.len() == 0,
            scope.parent_scope is None,
            scope.external_parent_scope == Some(Box::new(parent_context)),
            scope.next_slot_address == 0,
            !scope.once,
            !scope.was_used,
    {
        CompilationScope {
            variables: Vec::new(),
            parent_scope: None,
            external_parent_scope: Some(Box::new(parent_context)),
            next_slot_address: 0,
            once: false,
            was_used: false,
        }
    }

    /// Whether the scope lies inside another context.
    pub fn has_external_parent_scope(&self) -> (b: bool)
        ensures
            b == self.external_parent_scope is Some,
    {
        self.external_parent_scope.is_some()
    }

    /// Declares `variable` in this scope, replacing a variable of the same name.
    pub fn register_variable_slot(&mut self, variable: Variable)
        requires
            old(self).wf(),
        ensures
            final(self).wf(),
            final(self).parent_scope == old(self).parent_scope,
            final(self).external_parent_scope == old(self).external_parent_scope,
            final(self).next_slot_address == old(self).next_slot_address,
            has_name(final(self).variables@, variable.name@),
            named(final(self).variables@, variable.name@) == variable,
            forall|name: Seq<char>|
                name != variable.name@ ==> (has_name(final(self).variables@, name) == has_name(
                    old(self).variables@,
                    name,
                ) && (has_name(old(self).variables@, name) ==> named(final(self).variables@, name)
                    == named(old(self).variables@, name))),
    {
        let ghost old_vars = self.variables@;
        let ghost key = variable.name@;
        let n = self.variables.len();
        let mut pos: usize = 0;
        while pos < n && self.variables[pos].name != variable.name
            invariant
                pos <= n == self.variables@.len(),
                self.variables@ == old_vars,
                key == variable.name@,
                forall|i: int| 0 <= i < pos ==> old_vars[i].name@ != key,
            decreases n - pos,
        {
            pos = pos + 1;
        }
        let ghost new_vars: Seq<Variable>;
        if pos < n {
            let _ = self.variables.remove(pos);
            self.variables.insert(pos, variable);
            proof {
                new_vars = old_vars.update(pos as int, variable);
                assert(self.variables@ =~= new_vars);
            }
        } else {
            self.variables.push(variable);
            proof {
                new_vars = old_vars.push(variable);
                assert(self.variables@ =~= new_vars);
            }
        }
        proof {
            let p = if pos < n { pos as int } else { n as int };
            assert(new_vars[p] == variable);
            assert forall|i: int| 0 <= i < new_vars.len() && i != p implies new_vars[i] == old_vars[i]
                && old_vars[i].name@ != key by {}
            assert(has_name(new_vars, key));
            let c = choose|i: int| 0 <= i < new_vars.len() && new_vars[i].name@ == key;
            assert(c == p);
            assert forall|name: Seq<char>| name != key implies (has_name(new_vars, name) == has_name(
                old_vars,
                name,
            ) && (has_name(old_vars, name) ==> named(new_vars, name) == named(old_vars, name))) by {
                if has_name(new_vars, name) {
                    let i = choose|i: int| 0 <= i < new_vars.len() && new_vars[i].name@ == name;
                    assert(old_vars[i].name@ == name);
                }
                if has_name(old_vars, name) {
                    let i = choose|i: int| 0 <= i < old_vars.len() && old_vars[i].name@ == name;
                    assert(new_vars[i].name@ == name);
                    let j = choose|j: int| 0 <= j < new_vars.len() && new_vars[j].name@ == name;
                    assert(j == i);
                }
            }
        }
    }

    /// Hands out the next free slot address of the scope.
    pub fn get_next_virtual_slot(&mut self) -> (slot_address: u32)
        requires
            old(self).next_slot_address < u32::MAX,
        ensures
            slot_address == old(self).next_slot_address,
            final(self).next_slot_address == old(self).next_slot_address + 1,
            final(self).variables == old(self).variables,
            final(self).parent_scope == old(self).parent_scope,
            final(self).external_parent_scope == old(self).external_parent_scope,
    {
        let slot_address = self.next_slot_address;
        self.next_slot_address = self.next_slot_address + 1;
        slot_address
    }

    /// The variable `name` of this scope, if it has one.
    fn find_variable(&self, name: &str) -> (res: Option<&Variable>)
        requires
            names_unique(self.variables@),
        ensures
            has_name(self.variables@, name@) ==> res == Some(&named(self.variables@, name@)),
            !has_name(self.variables@, name@) ==> res is None,
    {
        let key = name.to_owned();
        let n = self.variables.len();
        let mut pos: usize = 0;
        while pos < n && self.variables[pos].name != key
            invariant
                pos <= n == self.variables@.len(),
                key@ == name@,
                forall|i: int| 0 <= i < pos ==> self.variables@[i].name@ != name@,
            decreases n - pos,
        {
            pos = pos + 1;
        }
        if pos < n {
            proof {
                let c = choose|i: int|
                    0 <= i < self.variables@.len() && self.variables@[i].name@ == name@;
                assert(c == pos);
            }
            Some(&self.variables[pos])
        } else {
            None
        }
    }

    /// The slot and kind of the variable `name` as seen from this scope (see `resolve`).
    pub fn resolve_variable_name_to_virtual_slot(&self, name: &str) -> (res: Option<
        (VirtualSlot, VariableKind),
    >)
        requires
            self.wf(),
            resolvable(*self, name@),
        ensures
            res == resolve(*self, name@),
        decreases self,
    {
        match self.find_variable(name) {
            Some(variable) => {
                let slot = match variable.representation {
                    VariableRepresentation::Constant(slot) => slot,
                    VariableRepresentation::VariableReference { container_slot, .. } => container_slot,
                    VariableRepresentation::VariableSlot(slot) => slot,
                };
                Some((slot, variable.kind))
            },
            None => {
                match &self.external_parent_scope {
                    Some(external_parent) => {
                        match external_parent.resolve_variable_name_to_virtual_slot(name) {
                            Some((slot, kind)) => Some((slot.downgrade(), kind)),
                            None => None,
                        }
                    },
                    None => match &self.parent_scope {
                        Some(parent) => parent.resolve_variable_name_to_virtual_slot(name),
                        None => None,
                    },
                }
            },
        }
    }

    /// A new scope inside this one, continuing its slot addresses.
    pub fn push(self) -> (child: CompilationScope)
        ensures
            child.variables@.len() == 0,
            child.parent_scope == Some(Box::new(self)),
            child.external_parent_scope is None,
            child.next_slot_address == self.next_slot_address,
            child.once,
            !child.was_used,
    {
        let next_slot_address = self.next_slot_address;
        CompilationScope {
            next_slot_address,
            parent_scope: Some(Box::new(self)),
            external_parent_scope: None,
            variables: Vec::new(),
            once: true,
            was_used: false,
        }
    }

    /// Leaves this scope: the parent scope, which continues with this scope's next slot
    /// address, and the slots of this scope's variables, which can be dropped; `None` for a
    /// root scope.
    pub fn pop(self) -> (res: Option<(CompilationScope, Vec<VirtualSlot>)>)
        ensures
            match self.parent_scope {
                Some(parent) => res matches Some((p, slots)) && p == (CompilationScope {
                    next_slot_address: self.next_slot_address,
                    ..*parent
                }) && slots@ == all_slots(self.variables@),
                None => res is None,
            },
    {
        let CompilationScope { variables, parent_scope, next_slot_address, .. } = self;
        match parent_scope {
            Some(parent) => {
                let mut p = *parent;
                p.next_slot_address = next_slot_address;
                let mut slots: Vec<VirtualSlot> = Vec::new();
                let mut i: usize = 0;
                while i < variables.len()
                    invariant
                        i <= variables@.len(),
                        slots@ == all_slots(variables@.subrange(0, i as int)),
                    decreases variables@.len() - i,
                {
                    let more = variables[i].slots();
                    let mut k: usize = 0;
                    let ghost before = slots@;
                    while k < more.len()
                        invariant
                            k <= more@.len(),
                            slots@ == before + more@.subrange(0, k as int),
                        decreases more@.len() - k,
                    {
                        slots.push(more[k]);
                        k = k + 1;
                        assert(slots@ =~= before + more@.subrange(0, k as int));
                    }
                    proof {
                        let next = variables@.subrange(0, i + 1);
                        assert(next.drop_last() =~= variables@.subrange(0, i as int));
                        assert(more@.subrange(0, k as int) =~= more@);
                    }
                    i = i + 1;
                }
                assert(variables@.subrange(0, i as int) =~= variables@);
                Some((p, slots))
            },
            None => None,
        }
    }

    /// Leaves the context: the scope of the enclosing context, if there is one.
    pub fn pop_external(self) -> (res: Option<CompilationScope>)
        ensures
            match self.external_parent_scope {
                Some(p) => res == Some(*p),
                None => res is None,
            },
    {
        match self.external_parent_scope {
            Some(external_parent) => Some(*external_parent),
            None => None,
        }
    }
}

impl Default for CompilationScope {
    fn default() -> (scope: Self)
        ensures
            scope.wf(),
            scope.variables@.len() == 0,
            scope.parent_scope is None,
            scope.external_parent_scope is None,
            scope.next_slot_address == 0,
            !scope.once,
            !scope.was_used,
    {
        CompilationScope::new(false)
    }
}

/// A variable of a scope, or of its enclosing context, stays visible in a new scope pushed
/// onto it.
pub proof fn lemma_push_keeps_resolution(scope: CompilationScope, child: CompilationScope, name: Seq<char>)
    requires
        child.variables@.len() == 0,
        child.parent_scope == Some(Box::new(scope)),
        child.external_parent_scope is None,
    ensures
        resolve(child, name) == resolve(scope, name),
        resolvable(child, name) == resolvable(scope, name),
{
}

/// A variable of the enclosing context is seen one level deeper from a scope inside it.
pub proof fn lemma_external_resolution(
    context: CompilationScope,
    scope: CompilationScope,
    name: Seq<char>,
)
    requires
        scope.variables@.len() == 0,
        scope.external_parent_scope == Some(Box::new(context)),
    ensures
        resolve(scope, name) == (match resolve(context, name) {
            Some((slot, kind)) => Some((downgraded(slot), kind)),
            None => None,
        }),
{
}

/// A variable registered in a scope is resolved to its access slot from that scope.
pub proof fn lemma_registered_variable_resolves(scope: CompilationScope, variable: Variable)
    requires
        has_name(scope.variables@, variable.name@),
        named(scope.variables@, variable.name@) == variable,
    ensures
        resolve(scope, variable.name@) == Some((access_slot(variable.representation), variable.kind)),
{
}

/// Leaving a new, still empty scope gives back the scope it was pushed onto, with nothing to
/// drop.
pub proof fn lemma_pop_after_push(scope: CompilationScope, child: CompilationScope)
    requires
        child.variables@.len() == 0,
        child.parent_scope == Some(Box::new(scope)),
        child.next_slot_address == scope.next_slot_address,
    ensures
        (CompilationScope { next_slot_address: child.next_slot_address, ..scope }) == scope,
        all_slots(child.variables@) == Seq::<VirtualSlot>::empty(),
{
}

} // verus!
