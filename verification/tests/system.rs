use tb_ecs::system::access_order::Write as WriteOrder;
use tb_ecs::{
    Entities, ReadAfterWrite, ReadBeforeWrite, Resource, ResourceAccessor, ResourceId, System,
    SystemData, World, RAW, RBW,
};

struct Score(u32);

impl Resource for Score {
    fn spec_resource_id() -> ResourceId {
        ResourceId::new(7)
    }

    fn spec_fetch(_world: &World) -> Self {
        Score(7)
    }

    fn resource_id() -> ResourceId {
        ResourceId::new(7)
    }

    fn fetch(_world: &World) -> &Self {
        &Score(7)
    }

    fn fetch_mut(_world: &World) -> &mut Self {
        Box::leak(Box::new(Score(7)))
    }
}

struct Count(u64);

impl Resource for Count {
    fn spec_resource_id() -> ResourceId {
        ResourceId::new(9)
    }

    fn spec_fetch(_world: &World) -> Self {
        Count(3)
    }

    fn resource_id() -> ResourceId {
        ResourceId::new(9)
    }

    fn fetch(_world: &World) -> &Self {
        &Count(3)
    }

    fn fetch_mut(_world: &World) -> &mut Self {
        Box::leak(Box::new(Count(3)))
    }
}

struct TestSystem {}

impl<'r> System<'r> for TestSystem {
    type SystemData = ();

    fn run(&mut self, _system_data: &mut Self::SystemData) {}
}

#[test]
fn empty_system_data_accesses_nothing() {
    let world = World::default();
    let mut data = <() as SystemData>::fetch(&world);
    let mut system = TestSystem {};
    system.run(&mut data);
    assert!(<() as SystemData>::reads_before_write().is_empty());
    assert!(<() as SystemData>::writes().is_empty());
    assert!(<() as SystemData>::reads_after_write().is_empty());
}

#[test]
fn tuple_accesses_follow_the_tuple_order() {
    type Data<'r> = (RBW<'r, Score>, tb_ecs::system::Write<'r, Count>, RAW<'r, Score>, );
    let reads = <Data as SystemData>::reads_before_write();
    assert_eq!(reads, vec![ResourceId::new(7)]);
    assert_eq!(<Data as SystemData>::writes(), vec![ResourceId::new(9)]);
    assert_eq!(<Data as SystemData>::reads_after_write(), vec![ResourceId::new(7)]);
    type Two<'r> = (RBW<'r, Score>, RBW<'r, Count>);
    assert_eq!(
        <Two as SystemData>::reads_before_write(),
        vec![ResourceId::new(7), ResourceId::new(9)]
    );
    assert!(<Two as SystemData>::writes().is_empty());
}

#[test]
fn accessors_hand_out_their_resource() {
    let mut world = World::default();
    let read: RBW<Score> = SystemData::fetch(&world);
    assert_eq!(read.resource().0, 7);
    assert_eq!(read.0, 7);
    let mut write: ResourceAccessor<&mut Count, WriteOrder> = SystemData::fetch(&world);
    write.resource_mut().0 += 1;
    assert_eq!(write.resource().0, 4);
    assert_eq!(write.0, 4);
    let raw: ResourceAccessor<&u32, ReadAfterWrite> = ResourceAccessor::new(&5);
    assert_eq!(**raw.resource(), 5);
    let rbw: ResourceAccessor<&Entities, ReadBeforeWrite> = ResourceAccessor::new(world.fetch_entities());
    assert!(rbw.resource().is_empty());
}

#[test]
fn join_accesses_concatenates() {
    let a = vec![ResourceId::new(1), ResourceId::new(2)];
    let b = vec![ResourceId::new(3)];
    assert_eq!(
        tb_ecs::system::join_accesses(a, b),
        vec![ResourceId::new(1), ResourceId::new(2), ResourceId::new(3)]
    );
}
