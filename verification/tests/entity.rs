use tb_ecs::{Component, Entities, Entity, World};

const POS: usize = 3;
const VEL: usize = 5;

struct Pos {}

impl Component for Pos {}

struct Vel {}

impl Component for Vel {}

#[test]
fn entity_life() {
    let mut world = World::default();
    let entity0 = world.new_entity();
    assert_eq!(entity0.id(), 0);
    let entity1 = world.new_entity();
    assert_eq!(entity1.id(), 1);
    assert!(world.fetch_entities().is_alive(entity0));
    assert!(world.fetch_entities().is_alive(entity1));
    world.kill(entity0);
    assert!(!world.fetch_entities().is_alive(entity0));
    let entity0 = world.new_entity();
    assert_eq!(entity0.id(), 2);
    assert!(world.fetch_entities().is_alive(entity0));
}

#[test]
fn create_entity_failed() {
    let mut world = World::default();
    let entity = world.create_entity().create();
    assert_eq!(entity.id(), 0);
    assert!(world.fetch_entities().is_alive(entity));
    world.create_entity();
    let entities = world.fetch_entities();
    assert!(!entities.is_alive(Entity::new(1)));
}

#[test]
fn failed_creation_still_takes_its_id() {
    let mut world = World::default();
    world.create_entity().with(Pos {});
    let next = world.create_entity().create();
    assert_eq!(next.id(), 1);
    assert!(!world.is_alive(Entity::new(0)));
    let pos_index = world.component_index::<Pos>();
    assert_eq!(world.components(pos_index).unwrap().storage.len(), 0);
    assert_eq!(world.fetch_entities().len(), 2);
}

#[test]
fn entities_len_counts_created_entities() {
    let mut entities = Entities::default();
    assert!(entities.is_empty());
    let a = entities.new_entity();
    let b = entities.new_entity();
    assert_eq!(entities.len(), 2);
    assert!(!entities.is_empty());
    assert!(entities.kill(a).is_empty());
    assert_eq!(entities.len(), 2);
    assert!(entities.is_alive(b));
    assert!(!entities.is_alive(a));
}

#[test]
fn kill_of_dead_entity_changes_nothing() {
    let mut entities = Entities::default();
    let a = entities.new_entity();
    assert!(entities.kill(a).is_empty());
    assert!(entities.kill(a).is_empty());
    assert!(entities.kill(Entity::new(42)).is_empty());
    assert_eq!(entities.iter().len(), 0);
}

#[test]
fn iter_lists_each_living_entity_once() {
    let mut world = World::default();
    let a = world.create_entity().with(Pos {}).create();
    let b = world.create_entity().with(Pos {}).with(Vel {}).create();
    let c = world.create_entity().create();
    let d = world.create_entity().with(Vel {}).create();
    world.kill(c);
    let listed = world.fetch_entities().iter();
    assert_eq!(listed.len(), 3);
    for e in [a, b, d] {
        assert_eq!(listed.iter().filter(|x| **x == e).count(), 1);
    }
}

#[test]
fn kill_reports_the_components_it_carried() {
    let mut entities = Entities::default();
    let a = entities.new_entity();
    entities.on_component_inserted(a, VEL);
    entities.on_component_inserted(a, POS);
    entities.on_component_inserted(a, POS);
    assert_eq!(entities.kill(a), vec![3, 5]);
}

#[test]
fn kill_removes_the_entity_from_every_storage() {
    let mut world = World::default();
    let a = world.create_entity().with(Pos {}).with(Vel {}).create();
    let b = world.create_entity().with(Pos {}).create();
    world.kill(a);
    let pos_index = world.component_index::<Pos>();
    let pos = world.components(pos_index).unwrap();
    assert!(!pos.storage.contains(a));
    assert!(pos.storage.contains(b));
    let vel_index = world.component_index::<Vel>();
    assert_eq!(world.components(vel_index).unwrap().storage.len(), 0);
}

#[test]
fn with_after_create_adds_to_the_living_entity() {
    let mut world = World::default();
    let mut creator = world.create_entity();
    let e = creator.create();
    creator.with(Vel {});
    drop(creator);
    let vel_index = world.component_index::<Vel>();
    assert!(world.components(vel_index).unwrap().storage.contains(e));
}

#[test]
fn archetype_visitor_visits_each_archetype_once() {
    let mut entities = Entities::default();
    let a = entities.new_entity();
    entities.on_component_inserted(a, POS);
    let mut visitor = entities.new_archetype_visitor();
    let first = entities.visit_archetype(&mut visitor);
    assert_eq!(first, vec![0, 1]);
    let b = entities.new_entity();
    entities.on_component_inserted(b, VEL);
    assert_eq!(entities.visit_archetype(&mut visitor), vec![2]);
    assert!(entities.visit_archetype(&mut visitor).is_empty());
}

#[test]
fn same_components_share_an_archetype() {
    let mut entities = Entities::default();
    let a = entities.new_entity();
    entities.on_component_inserted(a, POS);
    entities.on_component_inserted(a, VEL);
    let b = entities.new_entity();
    entities.on_component_inserted(b, VEL);
    entities.on_component_inserted(b, POS);
    let c = entities.new_entity();
    entities.on_component_inserted(c, POS);
    let mut visitor = entities.new_archetype_visitor();
    // empty, {Pos}, {Pos, Vel}, {Vel}
    assert_eq!(entities.visit_archetype(&mut visitor), vec![0, 1, 2, 3]);
    assert_eq!(entities.kill(b), vec![3, 5]);
    assert_eq!(entities.kill(a), vec![3, 5]);
    assert_eq!(entities.kill(c), vec![3]);
}

#[test]
fn insert_component_on_dead_entity_changes_nothing() {
    let mut world = World::default();
    let a = world.new_entity();
    world.kill(a);
    assert!(!world.insert_component(a, 3));
    assert!(world.components(3).is_none());
    let b = world.new_entity();
    world.insert_components(3);
    assert!(world.insert_component(b, 3));
    assert!(world.components(3).unwrap().storage.contains(b));
    assert!(world.components(4).is_none());
}

#[test]
fn component_types_get_distinct_indices() {
    let mut world = World::default();
    let pos = world.component_index::<Pos>();
    let vel = world.component_index::<Vel>();
    assert_eq!(pos, 0);
    assert_eq!(vel, 1);
    assert_eq!(world.component_index::<Pos>(), pos);
    let e = world.create_entity().with(Vel {}).with(Pos {}).create();
    assert!(world.components(vel).unwrap().storage.contains(e));
    assert!(world.components(pos).unwrap().storage.contains(e));
}

#[test]
fn moved_entity_lands_last_in_its_new_archetype() {
    let mut entities = Entities::default();
    let a = entities.new_entity();
    let b = entities.new_entity();
    entities.on_component_inserted(a, POS);
    assert_eq!(entities.iter(), vec![b, a]);
    let c = entities.new_entity();
    entities.on_component_inserted(c, POS);
    assert_eq!(entities.iter(), vec![b, a, c]);
    let mut visitor = entities.new_archetype_visitor();
    assert_eq!(entities.visit_archetype(&mut visitor), vec![0, 1]);
    entities.on_component_inserted(a, POS);
    assert_eq!(entities.iter(), vec![b, c, a]);
    assert!(entities.visit_archetype(&mut visitor).is_empty());
}

#[test]
fn dropped_creator_entity_is_gone_at_once() {
    let mut world = World::default();
    world.create_entity().with(Pos {});
    assert!(!world.is_alive(Entity::new(0)));
    let pos_index = world.component_index::<Pos>();
    assert_eq!(world.components(pos_index).unwrap().storage.len(), 0);
    assert!(!world.fetch_entities().is_alive(Entity::new(0)));
}

#[test]
fn created_entity_keeps_its_components() {
    let mut world = World::default();
    let e = world.create_entity().with(Pos {}).create();
    assert!(world.is_alive(e));
    let pos_index = world.component_index::<Pos>();
    assert!(world.components(pos_index).unwrap().storage.contains(e));
    let next = world.create_entity().create();
    assert!(world.is_alive(e));
    assert!(world.is_alive(next));
}
