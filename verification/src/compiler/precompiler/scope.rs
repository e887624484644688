//! A scope of the precompiler: the ids of the variables declared in it, by name.
use vstd::prelude::*;

verus! {

/// The map from name to id given by a list of entries.
pub open spec fn names_map(entries: Seq<(Seq<char>, usize)>) -> Map<Seq<char>, usize> {
    Map::new(
        |name: Seq<char>| exists|i: int| 0 <= i < entries.len() && entries[i].0 == name,
        |name: Seq<char>| entries[choose|i: int| 0 <= i < entries.len() && entries[i].0 == name].1,
    )
}

/// No name has two entries.
pub open spec fn names_distinct(entries: Seq<(Seq<char>, usize)>) -> bool {
    forall|i: int, j: int|
        0 <= i < entries.len() && 0 <= j < entries.len() && i != j ==> entries[i].0 != entries[j].0
}

/// A scope of the precompiler.
#[derive(Debug)]
pub struct PrecompilerScope {
    /// The realm the scope belongs to (a remote execution or function body opens a new one).
    pub realm_index: usize,
    /// The ids of the variables declared in the scope, one entry per name.
    pub variable_ids_by_name: Vec<(String, usize)>,
}

impl PrecompilerScope {
    /// The entries of the scope as plain values.
    pub open spec fn entries(&self) -> Seq<(Seq<char>, usize)> {
        self.variable_ids_by_name@.map_values(|e: (String, usize)| (e.0@, e.1))
    }

    /// The ids of the variables of the scope, by name.
    pub open spec fn ids(&self) -> Map<Seq<char>, usize> {
        names_map(self.entries())
    }

    /// Every name has one entry.
    pub open spec fn wf(&self) -> bool {
        names_distinct(self.entries())
    }

    proof fn lemma_names_map(&self)
        requires
            self.wf(),
        ensures
            forall|i: int|
                #![trigger self.entries()[i]]
                0 <= i < self.entries().len() ==> self.ids().contains_key(self.entries()[i].0)
                    && self.ids()[self.entries()[i].0] == self.entries()[i].1,
            forall|name: Seq<char>|
                #![trigger self.ids().contains_key(name)]
                self.ids().contains_key(name) ==> exists|i: int|
                    0 <= i < self.entries().len() && self.entries()[i].0 == name,
    {
        let e = self.entries();
        assert forall|i: int| 0 <= i < e.len() implies #[trigger] self.ids().contains_key(e[i].0)
            && self.ids()[e[i].0] == e[i].1 by {
            assert(0 <= i < e.len() && e[i].0 == e[i].0);
            let k = choose|k: int| 0 <= k < e.len() && e[k].0 == e[i].0;
            assert(k == i);
        }
    }

    /// An empty scope of the realm `realm_index`.
    pub fn new_with_realm_index(realm_index: usize) -> (scope: Self)
        ensures
            scope.wf(),
            scope.realm_index == realm_index,
            scope.ids() == Map::<Seq<char>, usize>::empty(),
    {
        let scope = PrecompilerScope { realm_index, variable_ids_by_name: Vec::new() };
        assert(scope.ids() =~= Map::<Seq<char>, usize>::empty());
        scope
    }

    /// The position of the entry of `name`, if there is one.
    fn position_of(&self, name: &str) -> (pos: usize)
        ensures
            pos <= self.entries().len(),
            pos < self.entries().len() ==> self.entries()[pos as int].0 == name@,
            pos == self.entries().len() ==> forall|i: int|
                0 <= i < self.entries().len() ==> self.entries()[i].0 != name@,
    {
        let key = name.to_owned();
        let n = self.variable_ids_by_name.len();
        let mut pos: usize = 0;
        while pos < n && self.variable_ids_by_name[pos].0 != key
            invariant
                pos <= n == self.entries().len(),
                key@ == name@,
                forall|i: int| 0 <= i < pos ==> self.entries()[i].0 != name@,
            decreases n - pos,
        {
            pos = pos + 1;
        }
        pos
    }

    /// The id of the variable `name` of this scope, if it has one.
    pub fn get_id(&self, name: &str) -> (res: Option<usize>)
        requires
            self.wf(),
        ensures
            res == (if self.ids().contains_key(name@) {
                Some(self.ids()[name@])
            } else {
                None::<usize>
            }),
    {
        proof {
            self.lemma_names_map();
        }
        let pos = self.position_of(name);
        if pos < self.variable_ids_by_name.len() {
            Some(self.variable_ids_by_name[pos].1)
        } else {
            proof {
                if self.ids().contains_key(name@) {
                    let i = choose|i: int| 0 <= i < self.entries().len() && self.entries()[i].0 == name@;
                }
            }
            None
        }
    }

    /// Declares the variable `name` with id `id` in this scope, replacing an earlier one.
    pub fn set_id(&mut self, name: String, id: usize)
        requires
            old(self).wf(),
        ensures
            final(self).wf(),
            final(self).realm_index == old(self).realm_index,
            final(self).ids() == old(self).ids().insert(name@, id),
    {
        let ghost old_ids = self.ids();
        let ghost old_entries = self.entries();
        proof {
            self.lemma_names_map();
        }
        let pos = self.position_of(name.as_str());
        let ghost key = name@;
        if pos < self.variable_ids_by_name.len() {
            let mut entry = self.variable_ids_by_name.remove(pos);
            entry.1 = id;
            self.variable_ids_by_name.insert(pos, entry);
            assert(self.entries() =~= old_entries.update(pos as int, (key, id)));
        } else {
            self.variable_ids_by_name.push((name, id));
            assert(self.entries() =~= old_entries.push((key, id)));
        }
        proof {
            let e = self.entries();
            self.lemma_names_map();
            assert forall|n: Seq<char>| #[trigger]
                self.ids().contains_key(n) <==> old_ids.insert(key, id).contains_key(n) by {
                if self.ids().contains_key(n) {
                    let i = choose|i: int| 0 <= i < e.len() && e[i].0 == n;
                    if n != key {
                        assert(old_entries[i].0 == n);
                    }
                }
                if old_ids.contains_key(n) {
                    let i = choose|i: int| 0 <= i < old_entries.len() && old_entries[i].0 == n;
                    if n != key {
                        assert(e[i].0 == n);
                    }
                }
                if n == key {
                    if pos < old_entries.len() {
                        assert(e[pos as int].0 == n);
                    } else {
                        assert(e[old_entries.len() as int].0 == n);
                    }
                }
            }
            assert forall|n: Seq<char>| #[trigger]
                self.ids().contains_key(n) implies self.ids()[n] == old_ids.insert(key, id)[n] by {
                let i = choose|i: int| 0 <= i < e.len() && e[i].0 == n;
                assert(self.ids()[e[i].0] == e[i].1);
                if n != key {
                    assert(old_entries[i].0 == n);
                    assert(old_ids[old_entries[i].0] == old_entries[i].1);
                }
            }
            assert(self.ids() =~= old_ids.insert(key, id));
        }
    }
}

impl Default for PrecompilerScope {
    fn default() -> (scope: Self)
        ensures
            scope.wf(),
            scope.realm_index == 0,
            scope.ids() == Map::<Seq<char>, usize>::empty(),
    {
        PrecompilerScope::new_with_realm_index(0)
    }
}

} // verus!
