use std::collections::HashMap;
use vstd::prelude::*;

use crate::component::{Component, ComponentStorage, Components};
use crate::registry::{extends, lemma_lookups_agree, looked_up, registered, ComponentRegistry};
use crate::entity::{add_component, Entities, Entity};

verus! {

broadcast use vstd::std_specs::hash::group_hash_axioms;

/// The entities of a program and, for each registered component, the
/// storage of the entities that carry it.
pub struct World {
    pub(crate) entities: Entities,
    pub(crate) storages: HashMap<usize, ComponentStorage>,
    pub(crate) registry: ComponentRegistry,
    pub(crate) uncreated: Option<Entity>,
}

/// The storages after `id` leaves each of them.
pub open spec fn storages_without(m: Map<usize, Set<u64>>, id: u64) -> Map<usize, Set<u64>> {
    Map::new(|c: usize| m.contains_key(c), |c: usize| m[c].remove(id))
}

/// The storages after `id` joins storage `c`, which is created if absent.
pub open spec fn storages_with(m: Map<usize, Set<u64>>, c: usize, id: u64) -> Map<usize, Set<u64>> {
    if m.contains_key(c) {
        m.insert(c, m[c].insert(id))
    } else {
        m.insert(c, set![id])
    }
}

/// A component type keeps its index in a world: a lookup of `C` in a world
/// whose registry grew from the one an earlier lookup of `C` left, as every
/// call on a world keeps or grows it, gives the same index; so `with` and
/// `component_index` for one type always reach one storage.
pub proof fn lemma_component_index_kept<C: ?Sized>(
    w0: World,
    w1: World,
    i: usize,
    w2: World,
    w3: World,
    j: usize,
)
    requires
        looked_up::<C>(w0.registry()@, w1.registry()@, i),
        extends(w1.registry()@, w2.registry()@),
        looked_up::<C>(w2.registry()@, w3.registry()@, j),
        w3.wf(),
    ensures
        i == j,
{
    lemma_lookups_agree::<C>(w0.registry()@, w1.registry()@, i, w2.registry()@, w3.registry()@, j);
}

impl World {
    /// The entities of the world.
    pub closed spec fn entities(&self) -> Entities {
        self.entities
    }

    /// The component types met so far; a type's index is its position.
    pub closed spec fn registry(&self) -> ComponentRegistry {
        self.registry
    }

    /// The entity of the latest creator while its `create` has not been
    /// called. A creator borrows the world mutably, so once anything else
    /// reaches the world that creator is gone: its entity counts as killed,
    /// and the next call that changes the world kills it.
    pub closed spec fn uncreated(&self) -> Option<Entity> {
        self.uncreated
    }

    /// Each registered component index, mapped to the ids that carry it.
    pub closed spec fn storages(&self) -> Map<usize, Set<u64>> {
        Map::new(|c: usize| self.storages@.contains_key(c), |c: usize| self.storages@[c]@)
    }

    /// The entities are well formed, and an entity lies in the storage of a
    /// component exactly when it lives and carries that component.
    pub open spec fn wf(&self) -> bool {
        &&& self.entities().wf()
        &&& self.registry().wf()
        &&& forall|c: usize, id: u64|
            (#[trigger] self.storages().contains_key(c) && self.storages()[c].contains(id))
                <==> (#[trigger] self.entities().components().contains_key(id)
                && self.entities().components()[id].contains(c))
        &&& self.uncreated() matches Some(e) ==> self.entities().components().contains_key(e@)
    }

    /// The living entities as a user of the world sees them: the entity of a
    /// creator dropped before `create` is not among them.
    pub open spec fn settled_components(&self) -> Map<u64, Set<usize>> {
        match self.uncreated() {
            Some(e) => self.entities().components().remove(e@),
            None => self.entities().components(),
        }
    }

    /// The storages as a user of the world sees them: the entity of a
    /// creator dropped before `create` lies in none of them.
    pub open spec fn settled_storages(&self) -> Map<usize, Set<u64>> {
        match self.uncreated() {
            Some(e) => storages_without(self.storages(), e@),
            None => self.storages(),
        }
    }

    /// The storage clause of `wf`, at one component and one id.
    pub proof fn lemma_storage_at(&self, c: usize, x: u64)
        requires
            self.wf(),
        ensures
            (self.storages().contains_key(c) && self.storages()[c].contains(x)) <==> (
            self.entities().components().contains_key(x) && self.entities().components()[x].contains(
                c,
            )),
    {
    }

    pub fn new() -> (w: World)
        ensures
            w.wf(),
            w.uncreated() is None,
            w.entities().archetype_count() == 0,
            w.entities().components() == Map::<u64, Set<usize>>::empty(),
            w.entities().next_id() == 0,
            w.entities().created() == 0,
            w.storages() == Map::<usize, Set<u64>>::empty(),
    {
        let w = World {
            entities: Entities::new(),
            storages: HashMap::new(),
            registry: ComponentRegistry::new(),
            uncreated: None,
        };
        assert(w.storages() =~= Map::<usize, Set<u64>>::empty());
        w
    }

    /// Kills the entity of a creator that was dropped before `create`; a
    /// world without one is left alone.
    fn settle(&mut self)
        requires
            old(self).wf(),
        ensures
            final(self).wf(),
            final(self).uncreated() is None,
            final(self).registry() == old(self).registry(),
            final(self).entities().components() == old(self).settled_components(),
            final(self).entities().next_id() == old(self).entities().next_id(),
            final(self).entities().created() == old(self).entities().created(),
            final(self).storages() == old(self).settled_storages(),
            old(self).uncreated() is None ==> *final(self) == *old(self),
    {
        match self.uncreated {
            Some(e) => {
                self.set_uncreated(None);
                self.kill_entity(e);
            },
            None => {},
        }
    }

    /// Records `e` as the entity of a creator whose `create` has not been
    /// called, or records none.
    pub(crate) fn set_uncreated(&mut self, e: Option<Entity>)
        requires
            old(self).wf(),
            e matches Some(x) ==> old(self).entities().components().contains_key(x@),
        ensures
            final(self).wf(),
            final(self).uncreated() == e,
            final(self).entities() == old(self).entities(),
            final(self).storages() == old(self).storages(),
            final(self).registry() == old(self).registry(),
    {
        let ghost o = *self;
        self.uncreated = e;
        assert(self.storages() =~= o.storages());
        assert forall|c: usize, id: u64|
            (#[trigger] self.storages().contains_key(c) && self.storages()[c].contains(id))
                <==> (#[trigger] self.entities().components().contains_key(id)
                && self.entities().components()[id].contains(c)) by {
            o.lemma_storage_at(c, id);
        }
    }

    /// The world's entities, once the entity of a creator dropped before
    /// `create` is killed; that is why this takes the world mutably.
    pub fn fetch_entities(&mut self) -> (e: &Entities)
        requires
            old(self).wf(),
        ensures
            final(self).wf(),
            final(self).uncreated() is None,
            *e == final(self).entities(),
            e.wf(),
            e.components() == old(self).settled_components(),
            e.next_id() == old(self).entities().next_id(),
            e.created() == old(self).entities().created(),
            final(self).storages() == old(self).settled_storages(),
            final(self).registry() == old(self).registry(),
    {
        self.settle();
        &self.entities
    }

    /// Whether `entity` lives; the entity of a creator dropped before
    /// `create` does not.
    pub fn is_alive(&self, entity: Entity) -> (alive: bool)
        ensures
            alive == self.settled_components().contains_key(entity@),
    {
        let placed = self.entities.is_alive(entity);
        match self.uncreated {
            Some(e) => placed && e.id() != entity.id(),
            None => placed,
        }
    }

    /// Takes the next id for an entity that is not placed yet.
    pub fn reserve_entity(&mut self) -> (entity: Entity)
        requires
            old(self).wf(),
            old(self).entities().next_id() < u64::MAX,
            old(self).entities().created() < usize::MAX,
        ensures
            final(self).registry() == old(self).registry(),
            final(self).wf(),
            final(self).uncreated() is None,
            entity@ == old(self).entities().next_id(),
            !final(self).entities().components().contains_key(entity@),
            final(self).entities().components() == old(self).settled_components(),
            final(self).entities().next_id() == old(self).entities().next_id() + 1,
            final(self).entities().created() == old(self).entities().created() + 1,
            final(self).storages() == old(self).settled_storages(),
    {
        self.settle();
        let ghost mid = *self;
        let entity = self.entities.reserve_entity();
        proof {
            assert forall|c: usize, x: u64|
                (#[trigger] self.storages().contains_key(c) && self.storages()[c].contains(x))
                    <==> (#[trigger] self.entities().components().contains_key(x)
                    && self.entities().components()[x].contains(c)) by {
                mid.lemma_storage_at(c, x);
            }
        }
        entity
    }

    /// Places `entity`, whose id was taken but under which no entity lives,
    /// with no component.
    pub fn spawn(&mut self, entity: Entity)
        requires
            old(self).wf(),
            entity@ < old(self).entities().next_id(),
            !old(self).settled_components().contains_key(entity@),
        ensures
            final(self).registry() == old(self).registry(),
            final(self).wf(),
            final(self).uncreated() is None,
            final(self).entities().components() == old(self).settled_components().insert(
                entity@,
                Set::<usize>::empty(),
            ),
            final(self).entities().next_id() == old(self).entities().next_id(),
            final(self).entities().created() == old(self).entities().created(),
            final(self).storages() == old(self).settled_storages(),
    {
        self.settle();
        let ghost mid = *self;
        self.entities.spawn(entity);
        proof {
            assert forall|c: usize, x: u64|
                (#[trigger] self.storages().contains_key(c) && self.storages()[c].contains(x))
                    <==> (#[trigger] self.entities().components().contains_key(x)
                    && self.entities().components()[x].contains(c)) by {
                mid.lemma_storage_at(c, x);
                if x == entity@ {
                    assert(!self.entities().components()[x].contains(c));
                }
            }
        }
    }

    /// Creates an entity with the next id and no component.
    pub fn new_entity(&mut self) -> (entity: Entity)
        requires
            old(self).wf(),
            old(self).entities().next_id() < u64::MAX,
            old(self).entities().created() < usize::MAX,
        ensures
            final(self).registry() == old(self).registry(),
            final(self).wf(),
            final(self).uncreated() is None,
            entity@ == old(self).entities().next_id(),
            !old(self).entities().components().contains_key(entity@),
            final(self).entities().components() == old(self).settled_components().insert(
                entity@,
                Set::<usize>::empty(),
            ),
            final(self).entities().next_id() == old(self).entities().next_id() + 1,
            final(self).entities().created() == old(self).entities().created() + 1,
            final(self).storages() == old(self).settled_storages(),
    {
        proof {
            old(self).entities().lemma_ids_below_next();
        }
        let entity = self.reserve_entity();
        self.spawn(entity);
        entity
    }

    /// The index of component type `C`, the world not settled first: its
    /// position in the registry, appended if absent.
    pub(crate) fn register_component<C: Component>(&mut self) -> (index: usize)
        requires
            old(self).wf(),
        ensures
            final(self).wf(),
            index < usize::MAX,
            registered(old(self).registry()@, final(self).registry()@, index),
            looked_up::<C>(old(self).registry()@, final(self).registry()@, index),
            final(self).entities() == old(self).entities(),
            final(self).storages() == old(self).storages(),
            final(self).uncreated() == old(self).uncreated(),
    {
        let index = self.registry.index_of::<C>();
        proof {
            assert forall|c: usize, x: u64|
                (#[trigger] self.storages().contains_key(c) && self.storages()[c].contains(x))
                    <==> (#[trigger] self.entities().components().contains_key(x)
                    && self.entities().components()[x].contains(c)) by {
                old(self).lemma_storage_at(c, x);
            }
        }
        index
    }

    /// The index of component type `C`: its position in the world's
    /// registry, where the type is appended when the world meets it first.
    /// The registry holds each type once; which position belongs to which
    /// type rests on `TypeId`, whose values the contracts do not name.
    pub fn component_index<C: Component>(&mut self) -> (index: usize)
        requires
            old(self).wf(),
        ensures
            final(self).wf(),
            final(self).uncreated() is None,
            index < usize::MAX,
            registered(old(self).registry()@, final(self).registry()@, index),
            looked_up::<C>(old(self).registry()@, final(self).registry()@, index),
            final(self).entities().components() == old(self).settled_components(),
            final(self).entities().next_id() == old(self).entities().next_id(),
            final(self).entities().created() == old(self).entities().created(),
            final(self).storages() == old(self).settled_storages(),
            old(self).uncreated() is None ==> final(self).entities() == old(self).entities(),
    {
        self.settle();
        self.register_component::<C>()
    }

    /// Registers the storage of `component`, empty, unless it exists.
    pub fn insert_components(&mut self, component: usize)
        requires
            old(self).wf(),
        ensures
            final(self).registry() == old(self).registry(),
            final(self).wf(),
            final(self).uncreated() is None,
            final(self).entities().components() == old(self).settled_components(),
            final(self).entities().next_id() == old(self).entities().next_id(),
            final(self).entities().created() == old(self).entities().created(),
            final(self).storages() == (if old(self).settled_storages().contains_key(component) {
                old(self).settled_storages()
            } else {
                old(self).settled_storages().insert(component, Set::<u64>::empty())
            }),
    {
        self.settle();
        let ghost mid = *self;
        if !self.storages.contains_key(&component) {
            self.storages.insert(component, ComponentStorage::new());
            proof {
                assert(self.storages() =~= mid.storages().insert(component, Set::<u64>::empty()));
                assert forall|c: usize, id: u64|
                    (#[trigger] self.storages().contains_key(c) && self.storages()[c].contains(id))
                        <==> (#[trigger] self.entities().components().contains_key(id)
                        && self.entities().components()[id].contains(c)) by {
                    if c != component {
                        assert(self.storages().contains_key(c) == mid.storages().contains_key(c));
                    } else {
                        assert(!mid.storages().contains_key(c));
                    }
                }
            }
        } else {
            assert(self.storages() =~= mid.storages());
        }
    }

    /// Puts `entity`, if it lives, into the storage of `component` and
    /// records that it carries the component, the world not settled first;
    /// returns whether it lives.
    pub(crate) fn add_component_to(&mut self, entity: Entity, component: usize) -> (alive: bool)
        requires
            old(self).wf(),
            old(self).entities().components().contains_key(entity@) ==> component < usize::MAX,
        ensures
            final(self).registry() == old(self).registry(),
            final(self).uncreated() == old(self).uncreated(),
            final(self).wf(),
            alive == old(self).entities().components().contains_key(entity@),
            final(self).entities().next_id() == old(self).entities().next_id(),
            final(self).entities().created() == old(self).entities().created(),
            final(self).entities().components() == add_component(
                old(self).entities().components(),
                entity@,
                component,
            ),
            alive ==> final(self).storages() == storages_with(
                old(self).storages(),
                component,
                entity@,
            ),
            !alive ==> *final(self) == *old(self),
    {
        if !self.entities.is_alive(entity) {
            assert(add_component(old(self).entities().components(), entity@, component)
                =~= old(self).entities().components());
            return false;
        }
        let mut storage = match self.storages.remove(&component) {
            Some(storage) => storage,
            None => ComponentStorage::new(),
        };
        storage.insert(entity);
        self.storages.insert(component, storage);
        self.entities.on_component_inserted(entity, component);
        proof {
            let o = old(self);
            let id = entity@;
            assert(self.storages() =~= storages_with(o.storages(), component, id));
            assert(self.entities().components() =~= add_component(
                o.entities().components(),
                id,
                component,
            ));
            assert forall|c: usize, x: u64|
                (#[trigger] self.storages().contains_key(c) && self.storages()[c].contains(x))
                    <==> (#[trigger] self.entities().components().contains_key(x)
                    && self.entities().components()[x].contains(c)) by {
                if c != component {
                    assert(self.storages().contains_key(c) == o.storages().contains_key(c));
                    if o.storages().contains_key(c) {
                        assert(self.storages()[c] == o.storages()[c]);
                    }
                }
                if x != id {
                    assert(self.entities().components().contains_key(x)
                        == o.entities().components().contains_key(x));
                }
                assert(o.storages().contains_key(c) && o.storages()[c].contains(x) <==> (
                o.entities().components().contains_key(x) && o.entities().components()[x].contains(
                    c,
                )));
            }
            if o.uncreated() is Some {
                assert(self.entities().components().contains_key(o.uncreated()->0@));
            }
        }
        true
    }

    /// Puts living `entity` into the storage of `component` and records that
    /// it carries the component; returns whether it lives. A dead entity
    /// changes nothing but the settling of the world.
    pub fn insert_component(&mut self, entity: Entity, component: usize) -> (alive: bool)
        requires
            old(self).wf(),
            old(self).settled_components().contains_key(entity@) ==> component < usize::MAX,
        ensures
            final(self).registry() == old(self).registry(),
            final(self).wf(),
            final(self).uncreated() is None,
            alive == old(self).settled_components().contains_key(entity@),
            final(self).entities().next_id() == old(self).entities().next_id(),
            final(self).entities().created() == old(self).entities().created(),
            final(self).entities().components() == add_component(
                old(self).settled_components(),
                entity@,
                component,
            ),
            alive ==> final(self).storages() == storages_with(
                old(self).settled_storages(),
                component,
                entity@,
            ),
            !alive ==> final(self).storages() == old(self).settled_storages(),
            !alive && old(self).uncreated() is None ==> *final(self) == *old(self),
    {
        self.settle();
        self.add_component_to(entity, component)
    }

    /// Kills `entity`, the world not settled first, and drops it from the
    /// storage of every component that it carried.
    fn kill_entity(&mut self, entity: Entity)
        requires
            old(self).wf(),
            old(self).uncreated() is None,
        ensures
            final(self).registry() == old(self).registry(),
            final(self).uncreated() is None,
            final(self).wf(),
            final(self).entities().next_id() == old(self).entities().next_id(),
            final(self).entities().created() == old(self).entities().created(),
            final(self).entities().components() == old(self).entities().components().remove(
                entity@,
            ),
            final(self).storages() == storages_without(old(self).storages(), entity@),
            !old(self).entities().components().contains_key(entity@) ==> *final(self) == *old(self),
    {
        let ghost o = *old(self);
        let ghost id = entity@;
        let components = self.entities.kill(entity);
        let ghost comps = components@;
        let ghost e1 = self.entities();
        let mut k: usize = 0;
        while k < components.len()
            invariant
                self.entities() == e1,
                e1.wf(),
                o == *old(self),
                id == entity@,
                self.registry() == o.registry(),
                self.uncreated() == o.uncreated(),
                !o.entities().components().contains_key(id) ==> *self == o && comps.len() == 0,
                k <= components@.len(),
                components@ == comps,
                comps.no_duplicates(),
                self.storages().dom() == o.storages().dom(),
                forall|c: usize|
                    #[trigger] self.storages().contains_key(c) ==> self.storages()[c] == (if comps.subrange(
                        0,
                        k as int,
                    ).contains(c) {
                        o.storages()[c].remove(id)
                    } else {
                        o.storages()[c]
                    }),
            decreases components@.len() - k,
        {
            let c = components[k];
            let ghost prev = self.storages();
            let removed = self.storages.remove(&c);
            if removed.is_some() {
                let mut storage = removed.unwrap();
                assert(prev.contains_key(c) && storage@ == prev[c]);
                storage.remove(entity);
                self.storages.insert(c, storage);
                assert(self.storages()[c] == prev[c].remove(id));
            }
            proof {
                assert forall|d: usize| #[trigger] self.storages().contains_key(d) implies
                    self.storages()[d] == (if comps.subrange(0, k + 1).contains(d) {
                    o.storages()[d].remove(id)
                } else {
                    o.storages()[d]
                }) by {
                    assert(comps.subrange(0, k + 1) =~= comps.subrange(0, k as int).push(c));
                    if d != c {
                        assert(prev.contains_key(d));
                        assert(self.storages()[d] == prev[d]);
                        assert(comps.subrange(0, k + 1).contains(d) == comps.subrange(
                            0,
                            k as int,
                        ).contains(d)) by {
                            if comps.subrange(0, k + 1).contains(d) {
                                let j = choose|j: int|
                                    0 <= j < k + 1 && #[trigger] comps.subrange(0, k + 1)[j] == d;
                                assert(j < k);
                                assert(comps.subrange(0, k as int)[j] == d);
                            }
                            if comps.subrange(0, k as int).contains(d) {
                                let j = choose|j: int|
                                    0 <= j < k && #[trigger] comps.subrange(0, k as int)[j] == d;
                                assert(comps.subrange(0, k + 1)[j] == d);
                            }
                        }
                    } else {
                        assert(comps.subrange(0, k + 1)[k as int] == c);
                        assert(prev.contains_key(c));
                        assert(self.storages()[c] == prev[c].remove(id));
                        assert(!comps.subrange(0, k as int).contains(c)) by {
                            if comps.subrange(0, k as int).contains(c) {
                                let j = choose|j: int|
                                    0 <= j < k && #[trigger] comps.subrange(0, k as int)[j] == c;
                                assert(comps[j] == comps[k as int]);
                            }
                        }
                    }
                }
                assert(self.storages().dom() =~= o.storages().dom());
            }
            k = k + 1;
        }
        proof {
            assert(comps.subrange(0, comps.len() as int) == comps);
            assert(self.storages() =~= storages_without(o.storages(), id)) by {
                assert forall|c: usize| #[trigger] self.storages().contains_key(c) implies
                    self.storages()[c] == o.storages()[c].remove(id) by {
                    if !comps.contains(c) {
                        if o.storages()[c].contains(id) {
                            assert(o.entities().components().contains_key(id));
                            assert(comps.to_set().contains(c));
                        }
                        assert(o.storages()[c].remove(id) =~= o.storages()[c]);
                    }
                }
            }
            if !o.entities().components().contains_key(id) {
                assert(o.entities().components().remove(id) =~= o.entities().components());
            }
            assert forall|c: usize, x: u64|
                (#[trigger] self.storages().contains_key(c) && self.storages()[c].contains(x))
                    <==> (#[trigger] self.entities().components().contains_key(x)
                    && self.entities().components()[x].contains(c)) by {
                assert(o.storages().contains_key(c) && o.storages()[c].contains(x) <==> (
                o.entities().components().contains_key(x) && o.entities().components()[x].contains(
                    c,
                )));
            }
        }
    }

    /// Kills `entity` and drops it from the storage of every component that
    /// it carried. A dead entity changes nothing but the settling of the
    /// world.
    pub fn kill(&mut self, entity: Entity)
        requires
            old(self).wf(),
        ensures
            final(self).registry() == old(self).registry(),
            final(self).wf(),
            final(self).uncreated() is None,
            final(self).entities().next_id() == old(self).entities().next_id(),
            final(self).entities().created() == old(self).entities().created(),
            final(self).entities().components() == old(self).settled_components().remove(entity@),
            final(self).storages() == storages_without(old(self).settled_storages(), entity@),
            old(self).uncreated() is None && !old(self).entities().components().contains_key(
                entity@,
            ) ==> *final(self) == *old(self),
    {
        self.settle();
        self.kill_entity(entity);
    }

    /// The entities together with the storage of `component`, once the
    /// world is settled; `None` while the component is not registered.
    pub fn components(&mut self, component: usize) -> (r: Option<Components<'_>>)
        requires
            old(self).wf(),
        ensures
            final(self).wf(),
            final(self).uncreated() is None,
            final(self).registry() == old(self).registry(),
            final(self).entities().components() == old(self).settled_components(),
            final(self).entities().next_id() == old(self).entities().next_id(),
            final(self).entities().created() == old(self).entities().created(),
            final(self).storages() == old(self).settled_storages(),
            r is Some <==> final(self).storages().contains_key(component),
            r matches Some(v) ==> {
                &&& *v.entities == final(self).entities()
                &&& v.storage@ == final(self).storages()[component]
                &&& v.wf()
            },
    {
        self.settle();
        match self.storages.get(&component) {
            Some(storage) => {
                proof {
                    assert forall|x: u64| storage@.contains(x) implies
                        self.entities().components().dom().contains(x) by {
                        assert(self.storages().contains_key(component) && self.storages()[component].contains(x));
                    }
                }
                Some(Components { entities: &self.entities, storage })
            },
            None => None,
        }
    }
}

impl Default for World {
    fn default() -> (w: World)
        ensures
            w.wf(),
            w.uncreated() is None,
            w.entities().archetype_count() == 0,
            w.entities().components() == Map::<u64, Set<usize>>::empty(),
            w.entities().next_id() == 0,
            w.entities().created() == 0,
            w.storages() == Map::<usize, Set<u64>>::empty(),
    {
        World::new()
    }
}

} // verus!
