//! The stack of scopes of the precompiler: where variables are declared and looked up.
use vstd::prelude::*;
use crate::compiler::error::CompilerError;
use crate::compiler::precompiler::precompiled_ast::{AstMetadata, VariableMetadata, VariableShape};
use crate::compiler::precompiler::scope::PrecompilerScope;

verus! {

/// A scope as plain values: its realm index and the ids of its variables by name.
pub type ScopeView = (usize, Map<Seq<char>, usize>);

/// The id of the variable `name` in the innermost scope of `scopes` that declares it.
pub open spec fn lookup(scopes: Seq<ScopeView>, name: Seq<char>) -> Option<usize>
    decreases scopes.len(),
{
    if scopes.len() == 0 {
        None
    } else if scopes.last().1.contains_key(name) {
        Some(scopes.last().1[name])
    } else {
        lookup(scopes.drop_last(), name)
    }
}

/// The scope in which new variables are declared: the second innermost one, or the only one.
pub open spec fn active_index(len: nat) -> int {
    if len > 1 {
        len - 2
    } else {
        0
    }
}

/// The realm index of the innermost scope, 0 without scopes.
pub open spec fn current_realm(scopes: Seq<ScopeView>) -> usize {
    if scopes.len() == 0 {
        0
    } else {
        scopes.last().0
    }
}

/// `scopes` with the variable `name` declared with id `id` in the active scope.
pub open spec fn with_variable(scopes: Seq<ScopeView>, name: Seq<char>, id: usize) -> Seq<ScopeView> {
    let a = active_index(scopes.len());
    scopes.update(a, (scopes[a].0, scopes[a].1.insert(name, id)))
}

proof fn lemma_lookup_agree(a: Seq<ScopeView>, b: Seq<ScopeView>, name: Seq<char>)
    requires
        a.len() == b.len(),
        forall|i: int|
            0 <= i < a.len() ==> (#[trigger] a[i].1.contains_key(name) == b[i].1.contains_key(name))
                && (a[i].1.contains_key(name) ==> a[i].1[name] == b[i].1[name]),
    ensures
        lookup(a, name) == lookup(b, name),
    decreases a.len(),
{
    if a.len() > 0 {
        assert(a.last() == a[a.len() - 1] && b.last() == b[b.len() - 1]);
        assert(a[a.len() - 1].1.contains_key(name) == b[a.len() - 1].1.contains_key(name));
        lemma_lookup_agree(a.drop_last(), b.drop_last(), name);
    }
}

/// A variable declared in the active scope is found under its name, unless the innermost
/// scope, when it is not the active one, declares the same name.
pub proof fn lemma_lookup_after_declare(scopes: Seq<ScopeView>, name: Seq<char>, id: usize)
    requires
        scopes.len() > 0,
        scopes.len() == 1 || !scopes.last().1.contains_key(name),
    ensures
        lookup(with_variable(scopes, name, id), name) == Some(id),
{
    let w = with_variable(scopes, name, id);
    if scopes.len() > 1 {
        assert(w.last() == scopes.last());
        assert(lookup(w, name) == lookup(w.drop_last(), name));
        assert(w.drop_last().last() == w[scopes.len() - 2]);
        assert(w.drop_last().last().1.contains_key(name));
    } else {
        assert(w.last() == w[0]);
        assert(w.last().1.contains_key(name));
    }
}

/// Declaring a variable leaves the lookup of every other name unchanged.
pub proof fn lemma_lookup_other_after_declare(
    scopes: Seq<ScopeView>,
    name: Seq<char>,
    id: usize,
    other: Seq<char>,
)
    requires
        scopes.len() > 0,
        other != name,
    ensures
        lookup(with_variable(scopes, name, id), other) == lookup(scopes, other),
{
    let w = with_variable(scopes, name, id);
    assert forall|i: int| 0 <= i < w.len() implies (#[trigger] w[i].1.contains_key(other)
        == scopes[i].1.contains_key(other)) && (w[i].1.contains_key(other) ==> w[i].1[other]
        == scopes[i].1[other]) by {}
    lemma_lookup_agree(w, scopes, other);
}

/// Opening a new scope changes no lookup and keeps the current realm; closing it again gives
/// back the scopes before.
pub proof fn lemma_push_scope(scopes: Seq<ScopeView>, name: Seq<char>)
    ensures
        lookup(scopes.push((current_realm(scopes), Map::empty())), name) == lookup(scopes, name),
        current_realm(scopes.push((current_realm(scopes), Map::empty()))) == current_realm(scopes),
        scopes.push((current_realm(scopes), Map::empty())).drop_last() == scopes,
{
    let p = scopes.push((current_realm(scopes), Map::<Seq<char>, usize>::empty()));
    assert(p.drop_last() =~= scopes);
}

/// The stack of scopes of the precompiler.
#[derive(Debug)]
pub struct PrecompilerScopeStack {
    pub scopes: Vec<PrecompilerScope>,
}

impl View for PrecompilerScopeStack {
    type V = Seq<ScopeView>;

    open spec fn view(&self) -> Seq<ScopeView> {
        self.scopes@.map_values(|s: PrecompilerScope| (s.realm_index, s.ids()))
    }
}

impl Default for PrecompilerScopeStack {
    fn default() -> (stack: Self)
        ensures
            stack.wf(),
            stack@ == seq![(0usize, Map::<Seq<char>, usize>::empty())],
    {
        let mut scopes: Vec<PrecompilerScope> = Vec::new();
        scopes.push(PrecompilerScope::default());
        let stack = PrecompilerScopeStack { scopes };
        assert(stack@ =~= seq![(0usize, Map::<Seq<char>, usize>::empty())]);
        stack
    }
}

impl PrecompilerScopeStack {
    /// Every scope has one entry per name.
    pub open spec fn wf(&self) -> bool {
        forall|i: int| 0 <= i < self.scopes@.len() ==> #[trigger] self.scopes@[i].wf()
    }

    /// Opens a new innermost scope, in the realm of the current innermost scope.
    pub fn push_scope(&mut self)
        requires
            old(self).wf(),
        ensures
            final(self).wf(),
            final(self)@ == old(self)@.push((current_realm(old(self)@), Map::empty())),
    {
        let realm_index = self.current_realm_index();
        self.scopes.push(PrecompilerScope::new_with_realm_index(realm_index));
        assert(self@ =~= old(self)@.push((current_realm(old(self)@), Map::empty())));
    }

    /// Closes the innermost scope.
    pub fn pop_scope(&mut self)
        requires
            old(self).scopes@.len() > 0,
            old(self).wf(),
        ensures
            final(self).wf(),
            final(self)@ == old(self)@.drop_last(),
    {
        self.scopes.pop();
        assert(self@ =~= old(self)@.drop_last());
    }

    /// Increments the realm index of the innermost scope (e.g. inside a remote execution
    /// call or a function body).
    pub fn increment_realm_index(&mut self)
        requires
            old(self).scopes@.len() > 0,
            old(self).wf(),
            old(self)@.last().0 < usize::MAX,
        ensures
            final(self).wf(),
            final(self)@ == old(self)@.update(
                old(self)@.len() - 1,
                ((old(self)@.last().0 + 1) as usize, old(self)@.last().1),
            ),
    {
        let last = self.scopes.len() - 1;
        assert(old(self).scopes@[last as int].wf());
        let mut scope = self.scopes.pop().unwrap();
        scope.realm_index = scope.realm_index + 1;
        assert(scope.entries() == old(self).scopes@[last as int].entries());
        self.scopes.push(scope);
        assert forall|i: int| 0 <= i < self.scopes@.len() implies #[trigger] self.scopes@[i].wf() by {
            if i < last {
                assert(self.scopes@[i] == old(self).scopes@[i]);
            }
        }
        assert(self@ =~= old(self)@.update(
            old(self)@.len() - 1,
            ((old(self)@.last().0 + 1) as usize, old(self)@.last().1),
        ));
    }

    /// The realm index of the innermost scope, 0 without scopes.
    pub fn current_realm_index(&self) -> (index: usize)
        ensures
            index == current_realm(self@),
    {
        if self.scopes.len() == 0 {
            0
        } else {
            self.scopes[self.scopes.len() - 1].realm_index
        }
    }

    /// Declares the variable `name` with id `id` in the active scope and returns its new
    /// metadata: declared in the current realm, not (yet) used across realms, no type.
    pub fn add_new_variable(&mut self, name: String, id: usize, kind: VariableShape) -> (metadata:
        VariableMetadata)
        requires
            old(self).scopes@.len() > 0,
            old(self).wf(),
        ensures
            final(self).wf(),
            final(self)@ == with_variable(old(self)@, name@, id),
            metadata.original_realm_index == current_realm(old(self)@),
            !metadata.is_cross_realm,
            metadata.shape == kind,
            metadata.var_type is None,
            metadata.name@ == name@,
    {
        let current_realm_index = self.current_realm_index();
        let metadata = VariableMetadata {
            is_cross_realm: false,
            original_realm_index: current_realm_index,
            shape: kind,
            var_type: None,
            name: name.clone(),
        };
        self.set_variable(name, id);
        metadata
    }

    /// The id of the variable `name`; its metadata is marked as used across realms when it
    /// was declared in another realm than the current one.
    pub fn get_variable_and_update_metadata(&self, name: &str, metadata: &mut AstMetadata) -> (res:
        Result<usize, CompilerError>)
        requires
            self.wf(),
            lookup(self@, name@) matches Some(id) ==> id < old(metadata).variables@.len(),
        ensures
            match lookup(self@, name@) {
                Some(id) => {
                    let m = old(metadata).variables@[id as int];
                    &&& res == Ok::<usize, CompilerError>(id)
                    &&& final(metadata).variables@ == old(metadata).variables@.update(
                        id as int,
                        VariableMetadata {
                            is_cross_realm: m.is_cross_realm || m.original_realm_index
                                != current_realm(self@),
                            ..m
                        },
                    )
                },
                None => {
                    &&& res matches Err(CompilerError::UndeclaredVariable(n)) && n@ == name@
                    &&& *final(metadata) == *old(metadata)
                },
            },
    {
        match self.get_variable(name) {
            Some(var_id) => {
                let current = self.current_realm_index();
                let var_metadata = metadata.variable_metadata_mut(var_id).unwrap();
                if var_metadata.original_realm_index != current {
                    var_metadata.is_cross_realm = true;
                }
                Ok(var_id)
            },
            None => Err(CompilerError::UndeclaredVariable(name.to_owned())),
        }
    }

    /// Declares the variable `name` with id `id` in the active scope.
    pub fn set_variable(&mut self, name: String, id: usize)
        requires
            old(self).scopes@.len() > 0,
            old(self).wf(),
        ensures
            final(self).wf(),
            final(self)@ == with_variable(old(self)@, name@, id),
    {
        let ghost key = name@;
        let scope = self.get_active_scope_mut();
        scope.set_id(name, id);
        proof {
            let a = active_index(old(self).scopes@.len());
            assert(self@ =~= with_variable(old(self)@, key, id));
        }
    }

    /// The index of the active scope: the second innermost one, or the only one.
    fn get_active_scope_index(&self) -> (index: usize)
        ensures
            index == active_index(self.scopes@.len()),
    {
        if self.scopes.len() > 1 {
            self.scopes.len() - 2
        } else {
            0
        }
    }

    /// The active scope: the second innermost one, or the only one.
    pub fn get_active_scope(&self) -> (scope: &PrecompilerScope)
        requires
            self.scopes@.len() > 0,
        ensures
            *scope == self.scopes@[active_index(self.scopes@.len())],
    {
        let index = self.get_active_scope_index();
        &self.scopes[index]
    }

    /// The active scope, for updating.
    pub fn get_active_scope_mut(&mut self) -> (scope: &mut PrecompilerScope)
        requires
            old(self).scopes@.len() > 0,
        ensures
            *scope == old(self).scopes@[active_index(old(self).scopes@.len())],
            final(self).scopes@ == old(self).scopes@.update(
                active_index(old(self).scopes@.len()),
                *final(scope),
            ),
    {
        let index = self.get_active_scope_index();
        &mut self.scopes[index]
    }

    /// The id of the variable `name` in the innermost scope that declares it.
    pub fn get_variable(&self, name: &str) -> (res: Option<usize>)
        requires
            self.wf(),
        ensures
            res == lookup(self@, name@),
    {
        let mut i = self.scopes.len();
        assert(self@.subrange(0, i as int) =~= self@);
        while i > 0
            invariant
                i <= self.scopes@.len(),
                self.wf(),
                lookup(self@, name@) == lookup(self@.subrange(0, i as int), name@),
            decreases i,
        {
            let ghost prefix = self@.subrange(0, i as int);
            assert(prefix.drop_last() =~= self@.subrange(0, i - 1));
            assert(prefix.last() == (self.scopes@[i - 1].realm_index, self.scopes@[i - 1].ids()));
            match self.scopes[i - 1].get_id(name) {
                Some(id) => {
                    return Some(id);
                },
                None => {},
            }
            i = i - 1;
        }
        None
    }

    /// Whether a scope declares the variable `name`.
    pub fn has_variable(&self, name: &str) -> (b: bool)
        requires
            self.wf(),
        ensures
            b == lookup(self@, name@) is Some,
    {
        self.get_variable(name).is_some()
    }

    /// The metadata of the variable `name`, if it is declared and has metadata.
    pub fn metadata<'a>(&self, name: &str, metadata: &'a AstMetadata) -> (res: Option<
        &'a VariableMetadata,
    >)
        requires
            self.wf(),
        ensures
            res == (match lookup(self@, name@) {
                Some(id) => if id < metadata.variables@.len() {
                    Some(&metadata.variables@[id as int])
                } else {
                    None
                },
                None => None,
            }),
    {
        match self.get_variable(name) {
            Some(var_id) => metadata.variable_metadata(var_id),
            None => None,
        }
    }

    /// The shape of the variable `name`, if it is declared and has metadata.
    pub fn variable_kind(&self, name: &str, metadata: &AstMetadata) -> (res: Option<VariableShape>)
        requires
            self.wf(),
        ensures
            res == (match lookup(self@, name@) {
                Some(id) => if id < metadata.variables@.len() {
                    Some(metadata.variables@[id as int].shape)
                } else {
                    None
                },
                None => None,
            }),
    {
        match self.get_variable(name) {
            Some(var_id) => match metadata.variable_metadata(var_id) {
                Some(m) => Some(m.shape),
                None => None,
            },
            None => None,
        }
    }
}

} // verus!
