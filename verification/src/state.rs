//! The variables that a session keeps.
use vstd::prelude::*;

use crate::assoc;

verus! {

/// Whether a variable belongs to one session or to all of them.
#[derive(Clone, Copy, Debug, Eq, PartialEq, Structural)]
pub enum VariableScope {
    Local,
    Global,
}

/// The name of a variable within its scope.
#[derive(Clone, Debug, Eq, PartialEq)]
pub struct StateKey {
    pub scope: VariableScope,
    pub name: String,
}

/// The value of a variable, who set it and how.
#[derive(Clone, Debug, Eq, PartialEq)]
pub struct StateCell {
    pub raw_value: String,
    pub owner: String,
    pub origin: String,
}

/// The abstract value of a [`StateCell`].
pub struct CellView {
    pub raw_value: Seq<char>,
    pub owner: Seq<char>,
    pub origin: Seq<char>,
}

/// The variables of a session while it is being changed, by scope and in
/// ascending order of their names.
#[derive(Clone, Debug, Eq, PartialEq)]
pub struct StateTransaction {
    pub local: Vec<(String, StateCell)>,
    pub global: Vec<(String, StateCell)>,
}

/// The variables of each scope.
pub struct Variables {
    pub local: Map<Seq<char>, CellView>,
    pub global: Map<Seq<char>, CellView>,
}

/// The abstract value of a cell.
pub open spec fn cell_view(cell: StateCell) -> CellView {
    CellView { raw_value: cell.raw_value@, owner: cell.owner@, origin: cell.origin@ }
}

/// The variables that a list of cells holds.
pub open spec fn cells_view(cells: Seq<(String, StateCell)>) -> Map<Seq<char>, CellView> {
    Map::new(
        |name: Seq<char>| assoc::lookup(cells, name) is Some,
        |name: Seq<char>| cell_view(assoc::lookup(cells, name)->0),
    )
}

impl View for StateTransaction {
    type V = Variables;

    open spec fn view(&self) -> Variables {
        Variables { local: cells_view(self.local@), global: cells_view(self.global@) }
    }
}

impl Variables {
    /// The variables of a scope.
    pub open spec fn of(self, scope: VariableScope) -> Map<Seq<char>, CellView> {
        match scope {
            VariableScope::Local => self.local,
            VariableScope::Global => self.global,
        }
    }

    /// The raw value of a variable.
    pub open spec fn raw(self, scope: VariableScope, name: Seq<char>) -> Option<Seq<char>> {
        if self.of(scope).contains_key(name) {
            Some(self.of(scope)[name].raw_value)
        } else {
            None
        }
    }

    /// The variables with one of them set.
    pub open spec fn with(
        self,
        scope: VariableScope,
        name: Seq<char>,
        raw_value: Seq<char>,
        owner: Seq<char>,
        origin: Seq<char>,
    ) -> Variables {
        let cell = CellView { raw_value, owner, origin };
        match scope {
            VariableScope::Local => Variables { local: self.local.insert(name, cell), ..self },
            VariableScope::Global => Variables { global: self.global.insert(name, cell), ..self },
        }
    }

    /// The variables without one of them.
    pub open spec fn without(self, scope: VariableScope, name: Seq<char>) -> Variables {
        match scope {
            VariableScope::Local => Variables { local: self.local.remove(name), ..self },
            VariableScope::Global => Variables { global: self.global.remove(name), ..self },
        }
    }
}

proof fn lemma_set_view(cells: Seq<(String, StateCell)>, name: String, cell: StateCell)
    ensures
        cells_view(assoc::with_entry(cells, name, cell)) == cells_view(cells).insert(
            name@,
            cell_view(cell),
        ),
{
    let after = assoc::with_entry(cells, name, cell);
    assert forall|other: Seq<char>| #[trigger]
        cells_view(after).contains_key(other) == cells_view(cells).insert(
            name@,
            cell_view(cell),
        ).contains_key(other) by {
        assoc::lemma_with_entry_found(cells, name, cell, other);
    }
    assert forall|other: Seq<char>| #[trigger] cells_view(after).contains_key(other) implies
        cells_view(after)[other] == cells_view(cells).insert(name@, cell_view(cell))[other] by {
        assoc::lemma_with_entry_found(cells, name, cell, other);
    }
    assert(cells_view(after) =~= cells_view(cells).insert(name@, cell_view(cell)));
}

proof fn lemma_remove_view(cells: Seq<(String, StateCell)>, name: Seq<char>)
    requires
        assoc::ascending(cells),
    ensures
        cells_view(assoc::without_entry(cells, name)) == cells_view(cells).remove(name),
{
    let after = assoc::without_entry(cells, name);
    assert forall|other: Seq<char>| #[trigger]
        cells_view(after).contains_key(other) == cells_view(cells).remove(name).contains_key(
            other,
        ) by {
        assoc::lemma_without_entry_found(cells, name, other);
    }
    assert forall|other: Seq<char>| #[trigger] cells_view(after).contains_key(other) implies
        cells_view(after)[other] == cells_view(cells).remove(name)[other] by {
        assoc::lemma_without_entry_found(cells, name, other);
    }
    assert(cells_view(after) =~= cells_view(cells).remove(name));
}

impl StateTransaction {
    /// The variables of each scope stand in ascending order of their names.
    pub open spec fn wf(self) -> bool {
        assoc::ascending(self.local@) && assoc::ascending(self.global@)
    }

    /// No variables.
    pub fn empty() -> (state: StateTransaction)
        ensures
            state.wf(),
            state@.local == Map::<Seq<char>, CellView>::empty(),
            state@.global == Map::<Seq<char>, CellView>::empty(),
    {
        let state = StateTransaction { local: Vec::new(), global: Vec::new() };
        proof {
            assert(state@.local =~= Map::<Seq<char>, CellView>::empty());
            assert(state@.global =~= Map::<Seq<char>, CellView>::empty());
        }
        state
    }

    /// The cell of a variable.
    pub fn get(&self, scope: VariableScope, name: &str) -> (cell: Option<&StateCell>)
        ensures
            match cell {
                Some(c) => self@.of(scope).contains_key(name@) && self@.of(scope)[name@]
                    == cell_view(*c) && self@.raw(scope, name@) == Some(c.raw_value@),
                None => self@.raw(scope, name@) is None,
            },
    {
        match scope {
            VariableScope::Local => assoc::find(&self.local, name),
            VariableScope::Global => assoc::find(&self.global, name),
        }
    }

    /// Sets a variable.
    pub fn set_raw(
        &mut self,
        scope: VariableScope,
        name: &str,
        value: &str,
        owner: &str,
        origin: &str,
    )
        requires
            old(self).wf(),
        ensures
            final(self).wf(),
            final(self)@ == old(self)@.with(scope, name@, value@, owner@, origin@),
    {
        let key = name.to_owned();
        let cell = StateCell {
            raw_value: value.to_owned(),
            owner: owner.to_owned(),
            origin: origin.to_owned(),
        };
        match scope {
            VariableScope::Local => {
                proof {
                    lemma_set_view(self.local@, key, cell);
                    assoc::lemma_with_entry_ascending(self.local@, key, cell);
                }
                assoc::set(&mut self.local, key, cell);
            },
            VariableScope::Global => {
                proof {
                    lemma_set_view(self.global@, key, cell);
                    assoc::lemma_with_entry_ascending(self.global@, key, cell);
                }
                assoc::set(&mut self.global, key, cell);
            },
        }
    }

    /// Deletes a variable.
    pub fn delete(&mut self, scope: VariableScope, name: &str)
        requires
            old(self).wf(),
        ensures
            final(self).wf(),
            final(self)@ == old(self)@.without(scope, name@),
    {
        match scope {
            VariableScope::Local => {
                proof {
                    lemma_remove_view(self.local@, name@);
                    assoc::lemma_without_entry_ascending(self.local@, name@);
                }
                assoc::remove(&mut self.local, name);
            },
            VariableScope::Global => {
                proof {
                    lemma_remove_view(self.global@, name@);
                    assoc::lemma_without_entry_ascending(self.global@, name@);
                }
                assoc::remove(&mut self.global, name);
            },
        }
    }
}

} // verus!
