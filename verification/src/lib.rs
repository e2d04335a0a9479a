pub mod component;
pub mod component_mask;
pub mod entity;
pub mod registry;
pub mod system;
pub mod world;

pub use component::anti_components::{AntiComponents, AntiComponentsFetch};
pub use component::{Component, ComponentStorage, Components};
pub use entity::{Entities, Entity, EntityCreator};
pub use system::{
    AccessOrder, Read, ReadAfterWrite, ReadBeforeWrite, Resource, ResourceAccessor, ResourceId,
    System, SystemData, RAW, RBW,
};
pub use world::World;
