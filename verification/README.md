# tb_ecs

An entity-component store whose core is verified with Verus.

- `src/entity.rs`: entities and their archetypes. Every living entity lies in
  the archetype of its exact set of components; entities are created, killed
  and moved between archetypes as they gain components, and each step keeps
  the archetype tables consistent.
- `src/component_mask.rs`: the set of components of an archetype, held in a
  `bit_set::BitSet`.
- `src/world.rs`: the entities of a world, the storage of each component,
  and the registry that gives each component type its index. An entity
  creator places its entity at once and has no destructor: when a creator
  is dropped before `create`, the world treats its entity as killed from
  then on and kills it at the next call that changes the world.
- `src/registry.rs`: component types by `std::any::TypeId`, each once.
- `src/component/`: the component trait, storages, and the complement of a
  storage among the living entities.
- `src/system/`: systems, the data they fetch, and the order of their
  resource accesses.
- `app/lib.rs`: the `system` and `component` attribute expansions, on token
  streams.
