use std::collections::HashSet;
use vstd::prelude::*;

use crate::entity::{Entities, Entity};

pub mod anti_components;

verus! {

broadcast use vstd::std_specs::hash::group_hash_axioms;

/// A type whose values entities can carry. A world gives each such type an
/// index of its own when it first meets it.
pub trait Component: 'static {

}

/// The ids of the entities that carry one component.
pub struct ComponentStorage {
    ids: HashSet<u64>,
}

impl View for ComponentStorage {
    type V = Set<u64>;

    closed spec fn view(&self) -> Set<u64> {
        self.ids@
    }
}

impl ComponentStorage {
    pub fn new() -> (s: ComponentStorage)
        ensures
            s@ == Set::<u64>::empty(),
    {
        ComponentStorage { ids: HashSet::new() }
    }

    pub fn contains(&self, entity: Entity) -> (r: bool)
        ensures
            r == self@.contains(entity@),
    {
        let id = entity.id();
        self.ids.contains(&id)
    }

    pub fn len(&self) -> (n: usize)
        ensures
            n == self@.len(),
    {
        self.ids.len()
    }

    /// Adds `entity`; returns whether it was absent.
    pub fn insert(&mut self, entity: Entity) -> (fresh: bool)
        ensures
            final(self)@ == old(self)@.insert(entity@),
            fresh == !old(self)@.contains(entity@),
    {
        self.ids.insert(entity.id())
    }

    /// Drops `entity`; returns whether it was present.
    pub fn remove(&mut self, entity: Entity) -> (present: bool)
        ensures
            final(self)@ == old(self)@.remove(entity@),
            present == old(self)@.contains(entity@),
    {
        let id = entity.id();
        self.ids.remove(&id)
    }
}

/// The entities of a world together with the storage of one component.
pub struct Components<'r> {
    pub entities: &'r Entities,
    pub storage: &'r ComponentStorage,
}

impl<'r> Components<'r> {
    /// Every id in the storage names a living entity.
    pub open spec fn wf(&self) -> bool {
        &&& self.entities.wf()
        &&& self.storage@.subset_of(self.entities.components().dom())
    }
}

} // verus!
