use tb_ecs::{AntiComponents, Component, World};

struct Comp {}

impl Component for Comp {}

struct Other {}

impl Component for Other {}

#[test]
fn get_none() {
    let mut world = World::default();
    let entity = world.create_entity().with(Comp {}).create();
    let comp_index = world.component_index::<Comp>();
    let comps = world.components(comp_index).unwrap();
    let mut not_comps = AntiComponents::new(&comps);
    assert_eq!(not_comps.elem_fetcher().fetch_elem(entity), None);
}

#[test]
fn anti_components_open_lists_entities_without_the_component() {
    let mut world = World::default();
    let with_comp = world.create_entity().with(Comp {}).create();
    let with_other = world.create_entity().with(Other {}).create();
    let bare = world.create_entity().create();
    let comp_index = world.component_index::<Comp>();
    let comps = world.components(comp_index).unwrap();
    let anti = AntiComponents::new(&comps);
    assert_eq!(anti.len(), 2);
    let (lacking, mut fetcher) = anti.open();
    assert_eq!(lacking.len(), 2);
    assert!(lacking.contains(&with_other));
    assert!(lacking.contains(&bare));
    assert!(!lacking.contains(&with_comp));
    assert_eq!(fetcher.fetch_elem(with_comp), None);
    assert_eq!(fetcher.fetch_elem(bare), None);
}

#[test]
fn anti_components_len_counts_killed_entities() {
    let mut world = World::default();
    let a = world.create_entity().with(Comp {}).create();
    let _b = world.create_entity().create();
    world.kill(a);
    let comp_index = world.component_index::<Comp>();
    let comps = world.components(comp_index).unwrap();
    assert_eq!(comps.storage.len(), 0);
    let anti = AntiComponents::new(&comps);
    // two entities were created; one of them was killed
    assert_eq!(anti.len(), 2);
    let (lacking, _) = anti.open();
    assert_eq!(lacking.len(), 1);
}
