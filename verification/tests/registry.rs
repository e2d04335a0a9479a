use std::any::TypeId;
use tb_ecs::registry::ComponentRegistry;

#[test]
fn registry_finds_each_id_once() {
    let mut registry = ComponentRegistry::new();
    assert_eq!(registry.index_of_id(TypeId::of::<u8>()), 0);
    assert_eq!(registry.index_of_id(TypeId::of::<u16>()), 1);
    assert_eq!(registry.index_of_id(TypeId::of::<u8>()), 0);
    assert_eq!(registry.index_of::<u16>(), 1);
    assert_eq!(registry.index_of::<u32>(), 2);
}
