use std::marker::PhantomData;
use vstd::prelude::*;

use crate::world::World;

pub mod access_order;

pub use access_order::{AccessOrder, ReadAfterWrite, ReadBeforeWrite};

verus! {

/// A unit of work over the data it fetches from a world.
pub trait System<'r> {
    type SystemData: SystemData<'r>;

    fn run(&mut self, system_data: &mut Self::SystemData);
}

/// Names a resource of a world.
#[derive(Clone, Copy, PartialEq, Eq, Structural, Hash, Debug)]
pub struct ResourceId {
    id: u64,
}

impl View for ResourceId {
    type V = u64;

    closed spec fn view(&self) -> u64 {
        self.id
    }
}

impl ResourceId {
    pub fn new(id: u64) -> (r: ResourceId)
        ensures
            r@ == id,
    {
        ResourceId { id }
    }
}

/// A value that a world holds once: it has a name, and it can be looked up
/// in a world for reading or for writing.
pub trait Resource: Sized {
    /// The name of this resource.
    spec fn spec_resource_id() -> ResourceId;

    /// The value of this resource that `world` holds.
    spec fn spec_fetch(world: &World) -> Self;

    fn resource_id() -> (id: ResourceId)
        ensures
            id == Self::spec_resource_id(),
    ;

    fn fetch(world: &World) -> (r: &Self)
        ensures
            *r == Self::spec_fetch(world),
    ;

    fn fetch_mut(world: &World) -> (r: &mut Self)
        ensures
            *r == Self::spec_fetch(world),
    ;
}

/// What a system reads and writes, fetched from a world, with the lists of
/// the resources it reads before the writes of the same step, writes, and
/// reads after them.
pub trait SystemData<'r>: Sized {
    /// Whether `data` is what `fetch` takes from `world`.
    spec fn fetched(world: &'r World, data: Self) -> bool;

    fn fetch(world: &'r World) -> (data: Self)
        ensures
            Self::fetched(world, data),
    ;

    fn reads_before_write() -> (r: Vec<ResourceId>)
        default_ensures
            r@ == Seq::<ResourceId>::empty(),
    {
        Vec::new()
    }

    fn writes() -> (r: Vec<ResourceId>)
        default_ensures
            r@ == Seq::<ResourceId>::empty(),
    {
        Vec::new()
    }

    fn reads_after_write() -> (r: Vec<ResourceId>)
        default_ensures
            r@ == Seq::<ResourceId>::empty(),
    {
        Vec::new()
    }
}

/// Shared access to resource `R` in access order `A`.
pub type Read<'r, R, A> = ResourceAccessor<&'r R, A>;

/// Reads resource `R` before the writes of a step.
pub type RBW<'r, R> = Read<'r, R, ReadBeforeWrite>;

/// Reads resource `R` after the writes of a step.
pub type RAW<'r, R> = Read<'r, R, ReadAfterWrite>;

/// Writes resource `R`.
pub type Write<'r, R> = ResourceAccessor<&'r mut R, access_order::Write>;

/// Access to one resource, in one access order.
pub struct ResourceAccessor<R, A: AccessOrder> {
    resource: R,
    _phantom: PhantomData<A>,
}

impl<R, A: AccessOrder> ResourceAccessor<R, A> {
    pub closed spec fn resource_spec(&self) -> R {
        self.resource
    }

    pub fn new(resource: R) -> (r: ResourceAccessor<R, A>)
        ensures
            r.resource_spec() == resource,
    {
        ResourceAccessor { resource, _phantom: PhantomData }
    }

    pub fn resource(&self) -> (r: &R)
        ensures
            *r == self.resource_spec(),
    {
        &self.resource
    }
}

impl<'r, R> ResourceAccessor<&'r mut R, access_order::Write> {
    pub fn resource_mut(&mut self) -> (r: &mut R)
        ensures
            *r == *old(self).resource_spec(),
            *final(self).resource_spec() == *final(r),
    {
        self.resource
    }
}

impl<'r, R, A: AccessOrder> std::ops::Deref for ResourceAccessor<&'r R, A> {
    type Target = R;

    fn deref(&self) -> (r: &R)
        ensures
            r == self.resource_spec(),
    {
        self.resource
    }
}

impl<'r, R> std::ops::Deref for ResourceAccessor<&'r mut R, access_order::Write> {
    type Target = R;

    fn deref(&self) -> (r: &R)
        ensures
            *r == *self.resource_spec(),
    {
        self.resource
    }
}

/// The one-element list that names `id`.
fn single_access(id: ResourceId) -> (r: Vec<ResourceId>)
    ensures
        r@ == seq![id],
{
    let mut r: Vec<ResourceId> = Vec::new();
    r.push(id);
    r
}

/// The accesses of a first part of a system's data followed by those of
/// the rest.
pub fn join_accesses(first: Vec<ResourceId>, rest: Vec<ResourceId>) -> (r: Vec<ResourceId>)
    ensures
        r@ == first@ + rest@,
{
    let mut r = first;
    let mut more = rest;
    r.append(&mut more);
    r
}

impl<'r> SystemData<'r> for () {
    open spec fn fetched(world: &'r World, data: Self) -> bool {
        true
    }

    fn fetch(world: &'r World) -> Self {
    }
}

impl<'r, R: Resource> SystemData<'r> for RBW<'r, R> {
    open spec fn fetched(world: &'r World, data: Self) -> bool {
        *data.resource_spec() == R::spec_fetch(world)
    }

    fn fetch(world: &'r World) -> Self {
        ResourceAccessor::new(R::fetch(world))
    }

    fn reads_before_write() -> (r: Vec<ResourceId>)
        ensures
            r@ == seq![R::spec_resource_id()],
    {
        single_access(R::resource_id())
    }
}

impl<'r, R: Resource> SystemData<'r> for Write<'r, R> {
    open spec fn fetched(world: &'r World, data: Self) -> bool {
        *data.resource_spec() == R::spec_fetch(world)
    }

    fn fetch(world: &'r World) -> Self {
        ResourceAccessor::new(R::fetch_mut(world))
    }

    fn writes() -> (r: Vec<ResourceId>)
        ensures
            r@ == seq![R::spec_resource_id()],
    {
        single_access(R::resource_id())
    }
}

impl<'r, R: Resource> SystemData<'r> for RAW<'r, R> {
    open spec fn fetched(world: &'r World, data: Self) -> bool {
        *data.resource_spec() == R::spec_fetch(world)
    }

    fn fetch(world: &'r World) -> Self {
        ResourceAccessor::new(R::fetch(world))
    }

    fn reads_after_write() -> (r: Vec<ResourceId>)
        ensures
            r@ == seq![R::spec_resource_id()],
    {
        single_access(R::resource_id())
    }
}

impl<'r, S0: SystemData<'r>, S1: SystemData<'r>> SystemData<'r> for (S0, S1) {
    open spec fn fetched(world: &'r World, data: Self) -> bool {
        S0::fetched(world, data.0)
            && S1::fetched(world, data.1)
    }

    fn fetch(world: &'r World) -> Self {
        (S0::fetch(world), S1::fetch(world))
    }

    /// The lists of the parts, joined in order.
    fn reads_before_write() -> (r: Vec<ResourceId>)
        ensures
            exists|a0: Vec<ResourceId>, a1: Vec<ResourceId>|
                {
                &&& call_ensures(S0::reads_before_write, (), a0)
                &&& call_ensures(S1::reads_before_write, (), a1)
                &&& r@ == a0@ + (a1@)
            },
    {
        let a0 = S0::reads_before_write();
        let a1 = S1::reads_before_write();
        let ghost parts = (a0, a1,);
        let r = join_accesses(a0, a1);
        proof {
            assert({
                &&& call_ensures(S0::reads_before_write, (), parts.0)
                &&& call_ensures(S1::reads_before_write, (), parts.1)
                &&& r@ == parts.0@ + (parts.1@)
            });
        }
        r
    }

    /// The lists of the parts, joined in order.
    fn writes() -> (r: Vec<ResourceId>)
        ensures
            exists|a0: Vec<ResourceId>, a1: Vec<ResourceId>|
                {
                &&& call_ensures(S0::writes, (), a0)
                &&& call_ensures(S1::writes, (), a1)
                &&& r@ == a0@ + (a1@)
            },
    {
        let a0 = S0::writes();
        let a1 = S1::writes();
        let ghost parts = (a0, a1,);
        let r = join_accesses(a0, a1);
        proof {
            assert({
                &&& call_ensures(S0::writes, (), parts.0)
                &&& call_ensures(S1::writes, (), parts.1)
                &&& r@ == parts.0@ + (parts.1@)
            });
        }
        r
    }

    /// The lists of the parts, joined in order.
    fn reads_after_write() -> (r: Vec<ResourceId>)
        ensures
            exists|a0: Vec<ResourceId>, a1: Vec<ResourceId>|
                {
                &&& call_ensures(S0::reads_after_write, (), a0)
                &&& call_ensures(S1::reads_after_write, (), a1)
                &&& r@ == a0@ + (a1@)
            },
    {
        let a0 = S0::reads_after_write();
        let a1 = S1::reads_after_write();
        let ghost parts = (a0, a1,);
        let r = join_accesses(a0, a1);
        proof {
            assert({
                &&& call_ensures(S0::reads_after_write, (), parts.0)
                &&& call_ensures(S1::reads_after_write, (), parts.1)
                &&& r@ == parts.0@ + (parts.1@)
            });
        }
        r
    }
}

impl<'r, S0: SystemData<'r>, S1: SystemData<'r>, S2: SystemData<'r>> SystemData<'r> for (S0, S1, S2) {
    open spec fn fetched(world: &'r World, data: Self) -> bool {
        S0::fetched(world, data.0)
            && S1::fetched(world, data.1)
            && S2::fetched(world, data.2)
    }

    fn fetch(world: &'r World) -> Self {
        (S0::fetch(world), S1::fetch(world), S2::fetch(world))
    }

    /// The lists of the parts, joined in order.
    fn reads_before_write() -> (r: Vec<ResourceId>)
        ensures
            exists|a0: Vec<ResourceId>, a1: Vec<ResourceId>, a2: Vec<ResourceId>|
                {
                &&& call_ensures(S0::reads_before_write, (), a0)
                &&& call_ensures(S1::reads_before_write, (), a1)
                &&& call_ensures(S2::reads_before_write, (), a2)
                &&& r@ == a0@ + (a1@ + (a2@))
            },
    {
        let a0 = S0::reads_before_write();
        let a1 = S1::reads_before_write();
        let a2 = S2::reads_before_write();
        let ghost parts = (a0, a1, a2,);
        let r = join_accesses(a0, join_accesses(a1, a2));
        proof {
            assert({
                &&& call_ensures(S0::reads_before_write, (), parts.0)
                &&& call_ensures(S1::reads_before_write, (), parts.1)
                &&& call_ensures(S2::reads_before_write, (), parts.2)
                &&& r@ == parts.0@ + (parts.1@ + (parts.2@))
            });
        }
        r
    }

    /// The lists of the parts, joined in order.
    fn writes() -> (r: Vec<ResourceId>)
        ensures
            exists|a0: Vec<ResourceId>, a1: Vec<ResourceId>, a2: Vec<ResourceId>|
                {
                &&& call_ensures(S0::writes, (), a0)
                &&& call_ensures(S1::writes, (), a1)
                &&& call_ensures(S2::writes, (), a2)
                &&& r@ == a0@ + (a1@ + (a2@))
            },
    {
        let a0 = S0::writes();
        let a1 = S1::writes();
        let a2 = S2::writes();
        let ghost parts = (a0, a1, a2,);
        let r = join_accesses(a0, join_accesses(a1, a2));
        proof {
            assert({
                &&& call_ensures(S0::writes, (), parts.0)
                &&& call_ensures(S1::writes, (), parts.1)
                &&& call_ensures(S2::writes, (), parts.2)
                &&& r@ == parts.0@ + (parts.1@ + (parts.2@))
            });
        }
        r
    }

    /// The lists of the parts, joined in order.
    fn reads_after_write() -> (r: Vec<ResourceId>)
        ensures
            exists|a0: Vec<ResourceId>, a1: Vec<ResourceId>, a2: Vec<ResourceId>|
                {
                &&& call_ensures(S0::reads_after_write, (), a0)
                &&& call_ensures(S1::reads_after_write, (), a1)
                &&& call_ensures(S2::reads_after_write, (), a2)
                &&& r@ == a0@ + (a1@ + (a2@))
            },
    {
        let a0 = S0::reads_after_write();
        let a1 = S1::reads_after_write();
        let a2 = S2::reads_after_write();
        let ghost parts = (a0, a1, a2,);
        let r = join_accesses(a0, join_accesses(a1, a2));
        proof {
            assert({
                &&& call_ensures(S0::reads_after_write, (), parts.0)
                &&& call_ensures(S1::reads_after_write, (), parts.1)
                &&& call_ensures(S2::reads_after_write, (), parts.2)
                &&& r@ == parts.0@ + (parts.1@ + (parts.2@))
            });
        }
        r
    }
}

impl<'r, S0: SystemData<'r>, S1: SystemData<'r>, S2: SystemData<'r>, S3: SystemData<'r>> SystemData<'r> for (S0, S1, S2, S3) {
    open spec fn fetched(world: &'r World, data: Self) -> bool {
        S0::fetched(world, data.0)
            && S1::fetched(world, data.1)
            && S2::fetched(world, data.2)
            && S3::fetched(world, data.3)
    }

    fn fetch(world: &'r World) -> Self {
        (S0::fetch(world), S1::fetch(world), S2::fetch(world), S3::fetch(world))
    }

    /// The lists of the parts, joined in order.
    fn reads_before_write() -> (r: Vec<ResourceId>)
        ensures
            exists|a0: Vec<ResourceId>, a1: Vec<ResourceId>, a2: Vec<ResourceId>, a3: Vec<ResourceId>|
                {
                &&& call_ensures(S0::reads_before_write, (), a0)
                &&& call_ensures(S1::reads_before_write, (), a1)
                &&& call_ensures(S2::reads_before_write, (), a2)
                &&& call_ensures(S3::reads_before_write, (), a3)
                &&& r@ == a0@ + (a1@ + (a2@ + (a3@)))
            },
    {
        let a0 = S0::reads_before_write();
        let a1 = S1::reads_before_write();
        let a2 = S2::reads_before_write();
        let a3 = S3::reads_before_write();
        let ghost parts = (a0, a1, a2, a3,);
        let r = join_accesses(a0, join_accesses(a1, join_accesses(a2, a3)));
        proof {
            assert({
                &&& call_ensures(S0::reads_before_write, (), parts.0)
                &&& call_ensures(S1::reads_before_write, (), parts.1)
                &&& call_ensures(S2::reads_before_write, (), parts.2)
                &&& call_ensures(S3::reads_before_write, (), parts.3)
                &&& r@ == parts.0@ + (parts.1@ + (parts.2@ + (parts.3@)))
            });
        }
        r
    }

    /// The lists of the parts, joined in order.
    fn writes() -> (r: Vec<ResourceId>)
        ensures
            exists|a0: Vec<ResourceId>, a1: Vec<ResourceId>, a2: Vec<ResourceId>, a3: Vec<ResourceId>|
                {
                &&& call_ensures(S0::writes, (), a0)
                &&& call_ensures(S1::writes, (), a1)
                &&& call_ensures(S2::writes, (), a2)
                &&& call_ensures(S3::writes, (), a3)
                &&& r@ == a0@ + (a1@ + (a2@ + (a3@)))
            },
    {
        let a0 = S0::writes();
        let a1 = S1::writes();
        let a2 = S2::writes();
        let a3 = S3::writes();
        let ghost parts = (a0, a1, a2, a3,);
        let r = join_accesses(a0, join_accesses(a1, join_accesses(a2, a3)));
        proof {
            assert({
                &&& call_ensures(S0::writes, (), parts.0)
                &&& call_ensures(S1::writes, (), parts.1)
                &&& call_ensures(S2::writes, (), parts.2)
                &&& call_ensures(S3::writes, (), parts.3)
                &&& r@ == parts.0@ + (parts.1@ + (parts.2@ + (parts.3@)))
            });
        }
        r
    }

    /// The lists of the parts, joined in order.
    fn reads_after_write() -> (r: Vec<ResourceId>)
        ensures
            exists|a0: Vec<ResourceId>, a1: Vec<ResourceId>, a2: Vec<ResourceId>, a3: Vec<ResourceId>|
                {
                &&& call_ensures(S0::reads_after_write, (), a0)
                &&& call_ensures(S1::reads_after_write, (), a1)
                &&& call_ensures(S2::reads_after_write, (), a2)
                &&& call_ensures(S3::reads_after_write, (), a3)
                &&& r@ == a0@ + (a1@ + (a2@ + (a3@)))
            },
    {
        let a0 = S0::reads_after_write();
        let a1 = S1::reads_after_write();
        let a2 = S2::reads_after_write();
        let a3 = S3::reads_after_write();
        let ghost parts = (a0, a1, a2, a3,);
        let r = join_accesses(a0, join_accesses(a1, join_accesses(a2, a3)));
        proof {
            assert({
                &&& call_ensures(S0::reads_after_write, (), parts.0)
                &&& call_ensures(S1::reads_after_write, (), parts.1)
                &&& call_ensures(S2::reads_after_write, (), parts.2)
                &&& call_ensures(S3::reads_after_write, (), parts.3)
                &&& r@ == parts.0@ + (parts.1@ + (parts.2@ + (parts.3@)))
            });
        }
        r
    }
}

impl<'r, S0: SystemData<'r>, S1: SystemData<'r>, S2: SystemData<'r>, S3: SystemData<'r>, S4: SystemData<'r>> SystemData<'r> for (S0, S1, S2, S3, S4) {
    open spec fn fetched(world: &'r World, data: Self) -> bool {
        S0::fetched(world, data.0)
            && S1::fetched(world, data.1)
            && S2::fetched(world, data.2)
            && S3::fetched(world, data.3)
            && S4::fetched(world, data.4)
    }

    fn fetch(world: &'r World) -> Self {
        (S0::fetch(world), S1::fetch(world), S2::fetch(world), S3::fetch(world), S4::fetch(world))
    }

    /// The lists of the parts, joined in order.
    fn reads_before_write() -> (r: Vec<ResourceId>)
        ensures
            exists|a0: Vec<ResourceId>, a1: Vec<ResourceId>, a2: Vec<ResourceId>, a3: Vec<ResourceId>, a4: Vec<ResourceId>|
                {
                &&& call_ensures(S0::reads_before_write, (), a0)
                &&& call_ensures(S1::reads_before_write, (), a1)
                &&& call_ensures(S2::reads_before_write, (), a2)
                &&& call_ensures(S3::reads_before_write, (), a3)
                &&& call_ensures(S4::reads_before_write, (), a4)
                &&& r@ == a0@ + (a1@ + (a2@ + (a3@ + (a4@))))
            },
    {
        let a0 = S0::reads_before_write();
        let a1 = S1::reads_before_write();
        let a2 = S2::reads_before_write();
        let a3 = S3::reads_before_write();
        let a4 = S4::reads_before_write();
        let ghost parts = (a0, a1, a2, a3, a4,);
        let r = join_accesses(a0, join_accesses(a1, join_accesses(a2, join_accesses(a3, a4))));
        proof {
            assert({
                &&& call_ensures(S0::reads_before_write, (), parts.0)
                &&& call_ensures(S1::reads_before_write, (), parts.1)
                &&& call_ensures(S2::reads_before_write, (), parts.2)
                &&& call_ensures(S3::reads_before_write, (), parts.3)
                &&& call_ensures(S4::reads_before_write, (), parts.4)
                &&& r@ == parts.0@ + (parts.1@ + (parts.2@ + (parts.3@ + (parts.4@))))
            });
        }
        r
    }

    /// The lists of the parts, joined in order.
    fn writes() -> (r: Vec<ResourceId>)
        ensures
            exists|a0: Vec<ResourceId>, a1: Vec<ResourceId>, a2: Vec<ResourceId>, a3: Vec<ResourceId>, a4: Vec<ResourceId>|
                {
                &&& call_ensures(S0::writes, (), a0)
                &&& call_ensures(S1::writes, (), a1)
                &&& call_ensures(S2::writes, (), a2)
                &&& call_ensures(S3::writes, (), a3)
                &&& call_ensures(S4::writes, (), a4)
                &&& r@ == a0@ + (a1@ + (a2@ + (a3@ + (a4@))))
            },
    {
        let a0 = S0::writes();
        let a1 = S1::writes();
        let a2 = S2::writes();
        let a3 = S3::writes();
        let a4 = S4::writes();
        let ghost parts = (a0, a1, a2, a3, a4,);
        let r = join_accesses(a0, join_accesses(a1, join_accesses(a2, join_accesses(a3, a4))));
        proof {
            assert({
                &&& call_ensures(S0::writes, (), parts.0)
                &&& call_ensures(S1::writes, (), parts.1)
                &&& call_ensures(S2::writes, (), parts.2)
                &&& call_ensures(S3::writes, (), parts.3)
                &&& call_ensures(S4::writes, (), parts.4)
                &&& r@ == parts.0@ + (parts.1@ + (parts.2@ + (parts.3@ + (parts.4@))))
            });
        }
        r
    }

    /// The lists of the parts, joined in order.
    fn reads_after_write() -> (r: Vec<ResourceId>)
        ensures
            exists|a0: Vec<ResourceId>, a1: Vec<ResourceId>, a2: Vec<ResourceId>, a3: Vec<ResourceId>, a4: Vec<ResourceId>|
                {
                &&& call_ensures(S0::reads_after_write, (), a0)
                &&& call_ensures(S1::reads_after_write, (), a1)
                &&& call_ensures(S2::reads_after_write, (), a2)
                &&& call_ensures(S3::reads_after_write, (), a3)
                &&& call_ensures(S4::reads_after_write, (), a4)
                &&& r@ == a0@ + (a1@ + (a2@ + (a3@ + (a4@))))
            },
    {
        let a0 = S0::reads_after_write();
        let a1 = S1::reads_after_write();
        let a2 = S2::reads_after_write();
        let a3 = S3::reads_after_write();
        let a4 = S4::reads_after_write();
        let ghost parts = (a0, a1, a2, a3, a4,);
        let r = join_accesses(a0, join_accesses(a1, join_accesses(a2, join_accesses(a3, a4))));
        proof {
            assert({
                &&& call_ensures(S0::reads_after_write, (), parts.0)
                &&& call_ensures(S1::reads_after_write, (), parts.1)
                &&& call_ensures(S2::reads_after_write, (), parts.2)
                &&& call_ensures(S3::reads_after_write, (), parts.3)
                &&& call_ensures(S4::reads_after_write, (), parts.4)
                &&& r@ == parts.0@ + (parts.1@ + (parts.2@ + (parts.3@ + (parts.4@))))
            });
        }
        r
    }
}

impl<'r, S0: SystemData<'r>, S1: SystemData<'r>, S2: SystemData<'r>, S3: SystemData<'r>, S4: SystemData<'r>, S5: SystemData<'r>> SystemData<'r> for (S0, S1, S2, S3, S4, S5) {
    open spec fn fetched(world: &'r World, data: Self) -> bool {
        S0::fetched(world, data.0)
            && S1::fetched(world, data.1)
            && S2::fetched(world, data.2)
            && S3::fetched(world, data.3)
            && S4::fetched(world, data.4)
            && S5::fetched(world, data.5)
    }

    fn fetch(world: &'r World) -> Self {
        (S0::fetch(world), S1::fetch(world), S2::fetch(world), S3::fetch(world), S4::fetch(world), S5::fetch(world))
    }

    /// The lists of the parts, joined in order.
    fn reads_before_write() -> (r: Vec<ResourceId>)
        ensures
            exists|a0: Vec<ResourceId>, a1: Vec<ResourceId>, a2: Vec<ResourceId>, a3: Vec<ResourceId>, a4: Vec<ResourceId>, a5: Vec<ResourceId>|
                {
                &&& call_ensures(S0::reads_before_write, (), a0)
                &&& call_ensures(S1::reads_before_write, (), a1)
                &&& call_ensures(S2::reads_before_write, (), a2)
                &&& call_ensures(S3::reads_before_write, (), a3)
                &&& call_ensures(S4::reads_before_write, (), a4)
                &&& call_ensures(S5::reads_before_write, (), a5)
                &&& r@ == a0@ + (a1@ + (a2@ + (a3@ + (a4@ + (a5@)))))
            },
    {
        let a0 = S0::reads_before_write();
        let a1 = S1::reads_before_write();
        let a2 = S2::reads_before_write();
        let a3 = S3::reads_before_write();
        let a4 = S4::reads_before_write();
        let a5 = S5::reads_before_write();
        let ghost parts = (a0, a1, a2, a3, a4, a5,);
        let r = join_accesses(a0, join_accesses(a1, join_accesses(a2, join_accesses(a3, join_accesses(a4, a5)))));
        proof {
            assert({
                &&& call_ensures(S0::reads_before_write, (), parts.0)
                &&& call_ensures(S1::reads_before_write, (), parts.1)
                &&& call_ensures(S2::reads_before_write, (), parts.2)
                &&& call_ensures(S3::reads_before_write, (), parts.3)
                &&& call_ensures(S4::reads_before_write, (), parts.4)
                &&& call_ensures(S5::reads_before_write, (), parts.5)
                &&& r@ == parts.0@ + (parts.1@ + (parts.2@ + (parts.3@ + (parts.4@ + (parts.5@)))))
            });
        }
        r
    }

    /// The lists of the parts, joined in order.
    fn writes() -> (r: Vec<ResourceId>)
        ensures
            exists|a0: Vec<ResourceId>, a1: Vec<ResourceId>, a2: Vec<ResourceId>, a3: Vec<ResourceId>, a4: Vec<ResourceId>, a5: Vec<ResourceId>|
                {
                &&& call_ensures(S0::writes, (), a0)
                &&& call_ensures(S1::writes, (), a1)
                &&& call_ensures(S2::writes, (), a2)
                &&& call_ensures(S3::writes, (), a3)
                &&& call_ensures(S4::writes, (), a4)
                &&& call_ensures(S5::writes, (), a5)
                &&& r@ == a0@ + (a1@ + (a2@ + (a3@ + (a4@ + (a5@)))))
            },
    {
        let a0 = S0::writes();
        let a1 = S1::writes();
        let a2 = S2::writes();
        let a3 = S3::writes();
        let a4 = S4::writes();
        let a5 = S5::writes();
        let ghost parts = (a0, a1, a2, a3, a4, a5,);
        let r = join_accesses(a0, join_accesses(a1, join_accesses(a2, join_accesses(a3, join_accesses(a4, a5)))));
        proof {
            assert({
                &&& call_ensures(S0::writes, (), parts.0)
                &&& call_ensures(S1::writes, (), parts.1)
                &&& call_ensures(S2::writes, (), parts.2)
                &&& call_ensures(S3::writes, (), parts.3)
                &&& call_ensures(S4::writes, (), parts.4)
                &&& call_ensures(S5::writes, (), parts.5)
                &&& r@ == parts.0@ + (parts.1@ + (parts.2@ + (parts.3@ + (parts.4@ + (parts.5@)))))
            });
        }
        r
    }

    /// The lists of the parts, joined in order.
    fn reads_after_write() -> (r: Vec<ResourceId>)
        ensures
            exists|a0: Vec<ResourceId>, a1: Vec<ResourceId>, a2: Vec<ResourceId>, a3: Vec<ResourceId>, a4: Vec<ResourceId>, a5: Vec<ResourceId>|
                {
                &&& call_ensures(S0::reads_after_write, (), a0)
                &&& call_ensures(S1::reads_after_write, (), a1)
                &&& call_ensures(S2::reads_after_write, (), a2)
                &&& call_ensures(S3::reads_after_write, (), a3)
                &&& call_ensures(S4::reads_after_write, (), a4)
                &&& call_ensures(S5::reads_after_write, (), a5)
                &&& r@ == a0@ + (a1@ + (a2@ + (a3@ + (a4@ + (a5@)))))
            },
    {
        let a0 = S0::reads_after_write();
        let a1 = S1::reads_after_write();
        let a2 = S2::reads_after_write();
        let a3 = S3::reads_after_write();
        let a4 = S4::reads_after_write();
        let a5 = S5::reads_after_write();
        let ghost parts = (a0, a1, a2, a3, a4, a5,);
        let r = join_accesses(a0, join_accesses(a1, join_accesses(a2, join_accesses(a3, join_accesses(a4, a5)))));
        proof {
            assert({
                &&& call_ensures(S0::reads_after_write, (), parts.0)
                &&& call_ensures(S1::reads_after_write, (), parts.1)
                &&& call_ensures(S2::reads_after_write, (), parts.2)
                &&& call_ensures(S3::reads_after_write, (), parts.3)
                &&& call_ensures(S4::reads_after_write, (), parts.4)
                &&& call_ensures(S5::reads_after_write, (), parts.5)
                &&& r@ == parts.0@ + (parts.1@ + (parts.2@ + (parts.3@ + (parts.4@ + (parts.5@)))))
            });
        }
        r
    }
}

impl<'r, S0: SystemData<'r>, S1: SystemData<'r>, S2: SystemData<'r>, S3: SystemData<'r>, S4: SystemData<'r>, S5: SystemData<'r>, S6: SystemData<'r>> SystemData<'r> for (S0, S1, S2, S3, S4, S5, S6) {
    open spec fn fetched(world: &'r World, data: Self) -> bool {
        S0::fetched(world, data.0)
            && S1::fetched(world, data.1)
            && S2::fetched(world, data.2)
            && S3::fetched(world, data.3)
            && S4::fetched(world, data.4)
            && S5::fetched(world, data.5)
            && S6::fetched(world, data.6)
    }

    fn fetch(world: &'r World) -> Self {
        (S0::fetch(world), S1::fetch(world), S2::fetch(world), S3::fetch(world), S4::fetch(world), S5::fetch(world), S6::fetch(world))
    }

    /// The lists of the parts, joined in order.
    fn reads_before_write() -> (r: Vec<ResourceId>)
        ensures
            exists|a0: Vec<ResourceId>, a1: Vec<ResourceId>, a2: Vec<ResourceId>, a3: Vec<ResourceId>, a4: Vec<ResourceId>, a5: Vec<ResourceId>, a6: Vec<ResourceId>|
                {
                &&& call_ensures(S0::reads_before_write, (), a0)
                &&& call_ensures(S1::reads_before_write, (), a1)
                &&& call_ensures(S2::reads_before_write, (), a2)
                &&& call_ensures(S3::reads_before_write, (), a3)
                &&& call_ensures(S4::reads_before_write, (), a4)
                &&& call_ensures(S5::reads_before_write, (), a5)
                &&& call_ensures(S6::reads_before_write, (), a6)
                &&& r@ == a0@ + (a1@ + (a2@ + (a3@ + (a4@ + (a5@ + (a6@))))))
            },
    {
        let a0 = S0::reads_before_write();
        let a1 = S1::reads_before_write();
        let a2 = S2::reads_before_write();
        let a3 = S3::reads_before_write();
        let a4 = S4::reads_before_write();
        let a5 = S5::reads_before_write();
        let a6 = S6::reads_before_write();
        let ghost parts = (a0, a1, a2, a3, a4, a5, a6,);
        let r = join_accesses(a0, join_accesses(a1, join_accesses(a2, join_accesses(a3, join_accesses(a4, join_accesses(a5, a6))))));
        proof {
            assert({
                &&& call_ensures(S0::reads_before_write, (), parts.0)
                &&& call_ensures(S1::reads_before_write, (), parts.1)
                &&& call_ensures(S2::reads_before_write, (), parts.2)
                &&& call_ensures(S3::reads_before_write, (), parts.3)
                &&& call_ensures(S4::reads_before_write, (), parts.4)
                &&& call_ensures(S5::reads_before_write, (), parts.5)
                &&& call_ensures(S6::reads_before_write, (), parts.6)
                &&& r@ == parts.0@ + (parts.1@ + (parts.2@ + (parts.3@ + (parts.4@ + (parts.5@ + (parts.6@))))))
            });
        }
        r
    }

    /// The lists of the parts, joined in order.
    fn writes() -> (r: Vec<ResourceId>)
        ensures
            exists|a0: Vec<ResourceId>, a1: Vec<ResourceId>, a2: Vec<ResourceId>, a3: Vec<ResourceId>, a4: Vec<ResourceId>, a5: Vec<ResourceId>, a6: Vec<ResourceId>|
                {
                &&& call_ensures(S0::writes, (), a0)
                &&& call_ensures(S1::writes, (), a1)
                &&& call_ensures(S2::writes, (), a2)
                &&& call_ensures(S3::writes, (), a3)
                &&& call_ensures(S4::writes, (), a4)
                &&& call_ensures(S5::writes, (), a5)
                &&& call_ensures(S6::writes, (), a6)
                &&& r@ == a0@ + (a1@ + (a2@ + (a3@ + (a4@ + (a5@ + (a6@))))))
            },
    {
        let a0 = S0::writes();
        let a1 = S1::writes();
        let a2 = S2::writes();
        let a3 = S3::writes();
        let a4 = S4::writes();
        let a5 = S5::writes();
        let a6 = S6::writes();
        let ghost parts = (a0, a1, a2, a3, a4, a5, a6,);
        let r = join_accesses(a0, join_accesses(a1, join_accesses(a2, join_accesses(a3, join_accesses(a4, join_accesses(a5, a6))))));
        proof {
            assert({
                &&& call_ensures(S0::writes, (), parts.0)
                &&& call_ensures(S1::writes, (), parts.1)
                &&& call_ensures(S2::writes, (), parts.2)
                &&& call_ensures(S3::writes, (), parts.3)
                &&& call_ensures(S4::writes, (), parts.4)
                &&& call_ensures(S5::writes, (), parts.5)
                &&& call_ensures(S6::writes, (), parts.6)
                &&& r@ == parts.0@ + (parts.1@ + (parts.2@ + (parts.3@ + (parts.4@ + (parts.5@ + (parts.6@))))))
            });
        }
        r
    }

    /// The lists of the parts, joined in order.
    fn reads_after_write() -> (r: Vec<ResourceId>)
        ensures
            exists|a0: Vec<ResourceId>, a1: Vec<ResourceId>, a2: Vec<ResourceId>, a3: Vec<ResourceId>, a4: Vec<ResourceId>, a5: Vec<ResourceId>, a6: Vec<ResourceId>|
                {
                &&& call_ensures(S0::reads_after_write, (), a0)
                &&& call_ensures(S1::reads_after_write, (), a1)
                &&& call_ensures(S2::reads_after_write, (), a2)
                &&& call_ensures(S3::reads_after_write, (), a3)
                &&& call_ensures(S4::reads_after_write, (), a4)
                &&& call_ensures(S5::reads_after_write, (), a5)
                &&& call_ensures(S6::reads_after_write, (), a6)
                &&& r@ == a0@ + (a1@ + (a2@ + (a3@ + (a4@ + (a5@ + (a6@))))))
            },
    {
        let a0 = S0::reads_after_write();
        let a1 = S1::reads_after_write();
        let a2 = S2::reads_after_write();
        let a3 = S3::reads_after_write();
        let a4 = S4::reads_after_write();
        let a5 = S5::reads_after_write();
        let a6 = S6::reads_after_write();
        let ghost parts = (a0, a1, a2, a3, a4, a5, a6,);
        let r = join_accesses(a0, join_accesses(a1, join_accesses(a2, join_accesses(a3, join_accesses(a4, join_accesses(a5, a6))))));
        proof {
            assert({
                &&& call_ensures(S0::reads_after_write, (), parts.0)
                &&& call_ensures(S1::reads_after_write, (), parts.1)
                &&& call_ensures(S2::reads_after_write, (), parts.2)
                &&& call_ensures(S3::reads_after_write, (), parts.3)
                &&& call_ensures(S4::reads_after_write, (), parts.4)
                &&& call_ensures(S5::reads_after_write, (), parts.5)
                &&& call_ensures(S6::reads_after_write, (), parts.6)
                &&& r@ == parts.0@ + (parts.1@ + (parts.2@ + (parts.3@ + (parts.4@ + (parts.5@ + (parts.6@))))))
            });
        }
        r
    }
}

impl<'r, S0: SystemData<'r>, S1: SystemData<'r>, S2: SystemData<'r>, S3: SystemData<'r>, S4: SystemData<'r>, S5: SystemData<'r>, S6: SystemData<'r>, S7: SystemData<'r>> SystemData<'r> for (S0, S1, S2, S3, S4, S5, S6, S7) {
    open spec fn fetched(world: &'r World, data: Self) -> bool {
        S0::fetched(world, data.0)
            && S1::fetched(world, data.1)
            && S2::fetched(world, data.2)
            && S3::fetched(world, data.3)
            && S4::fetched(world, data.4)
            && S5::fetched(world, data.5)
            && S6::fetched(world, data.6)
            && S7::fetched(world, data.7)
    }

    fn fetch(world: &'r World) -> Self {
        (S0::fetch(world), S1::fetch(world), S2::fetch(world), S3::fetch(world), S4::fetch(world), S5::fetch(world), S6::fetch(world), S7::fetch(world))
    }

    /// The lists of the parts, joined in order.
    fn reads_before_write() -> (r: Vec<ResourceId>)
        ensures
            exists|a0: Vec<ResourceId>, a1: Vec<ResourceId>, a2: Vec<ResourceId>, a3: Vec<ResourceId>, a4: Vec<ResourceId>, a5: Vec<ResourceId>, a6: Vec<ResourceId>, a7: Vec<ResourceId>|
                {
                &&& call_ensures(S0::reads_before_write, (), a0)
                &&& call_ensures(S1::reads_before_write, (), a1)
                &&& call_ensures(S2::reads_before_write, (), a2)
                &&& call_ensures(S3::reads_before_write, (), a3)
                &&& call_ensures(S4::reads_before_write, (), a4)
                &&& call_ensures(S5::reads_before_write, (), a5)
                &&& call_ensures(S6::reads_before_write, (), a6)
                &&& call_ensures(S7::reads_before_write, (), a7)
                &&& r@ == a0@ + (a1@ + (a2@ + (a3@ + (a4@ + (a5@ + (a6@ + (a7@)))))))
            },
    {
        let a0 = S0::reads_before_write();
        let a1 = S1::reads_before_write();
        let a2 = S2::reads_before_write();
        let a3 = S3::reads_before_write();
        let a4 = S4::reads_before_write();
        let a5 = S5::reads_before_write();
        let a6 = S6::reads_before_write();
        let a7 = S7::reads_before_write();
        let ghost parts = (a0, a1, a2, a3, a4, a5, a6, a7,);
        let r = join_accesses(a0, join_accesses(a1, join_accesses(a2, join_accesses(a3, join_accesses(a4, join_accesses(a5, join_accesses(a6, a7)))))));
        proof {
            assert({
                &&& call_ensures(S0::reads_before_write, (), parts.0)
                &&& call_ensures(S1::reads_before_write, (), parts.1)
                &&& call_ensures(S2::reads_before_write, (), parts.2)
                &&& call_ensures(S3::reads_before_write, (), parts.3)
                &&& call_ensures(S4::reads_before_write, (), parts.4)
                &&& call_ensures(S5::reads_before_write, (), parts.5)
                &&& call_ensures(S6::reads_before_write, (), parts.6)
                &&& call_ensures(S7::reads_before_write, (), parts.7)
                &&& r@ == parts.0@ + (parts.1@ + (parts.2@ + (parts.3@ + (parts.4@ + (parts.5@ + (parts.6@ + (parts.7@)))))))
            });
        }
        r
    }

    /// The lists of the parts, joined in order.
    fn writes() -> (r: Vec<ResourceId>)
        ensures
            exists|a0: Vec<ResourceId>, a1: Vec<ResourceId>, a2: Vec<ResourceId>, a3: Vec<ResourceId>, a4: Vec<ResourceId>, a5: Vec<ResourceId>, a6: Vec<ResourceId>, a7: Vec<ResourceId>|
                {
                &&& call_ensures(S0::writes, (), a0)
                &&& call_ensures(S1::writes, (), a1)
                &&& call_ensures(S2::writes, (), a2)
                &&& call_ensures(S3::writes, (), a3)
                &&& call_ensures(S4::writes, (), a4)
                &&& call_ensures(S5::writes, (), a5)
                &&& call_ensures(S6::writes, (), a6)
                &&& call_ensures(S7::writes, (), a7)
                &&& r@ == a0@ + (a1@ + (a2@ + (a3@ + (a4@ + (a5@ + (a6@ + (a7@)))))))
            },
    {
        let a0 = S0::writes();
        let a1 = S1::writes();
        let a2 = S2::writes();
        let a3 = S3::writes();
        let a4 = S4::writes();
        let a5 = S5::writes();
        let a6 = S6::writes();
        let a7 = S7::writes();
        let ghost parts = (a0, a1, a2, a3, a4, a5, a6, a7,);
        let r = join_accesses(a0, join_accesses(a1, join_accesses(a2, join_accesses(a3, join_accesses(a4, join_accesses(a5, join_accesses(a6, a7)))))));
        proof {
            assert({
                &&& call_ensures(S0::writes, (), parts.0)
                &&& call_ensures(S1::writes, (), parts.1)
                &&& call_ensures(S2::writes, (), parts.2)
                &&& call_ensures(S3::writes, (), parts.3)
                &&& call_ensures(S4::writes, (), parts.4)
                &&& call_ensures(S5::writes, (), parts.5)
                &&& call_ensures(S6::writes, (), parts.6)
                &&& call_ensures(S7::writes, (), parts.7)
                &&& r@ == parts.0@ + (parts.1@ + (parts.2@ + (parts.3@ + (parts.4@ + (parts.5@ + (parts.6@ + (parts.7@)))))))
            });
        }
        r
    }

    /// The lists of the parts, joined in order.
    fn reads_after_write() -> (r: Vec<ResourceId>)
        ensures
            exists|a0: Vec<ResourceId>, a1: Vec<ResourceId>, a2: Vec<ResourceId>, a3: Vec<ResourceId>, a4: Vec<ResourceId>, a5: Vec<ResourceId>, a6: Vec<ResourceId>, a7: Vec<ResourceId>|
                {
                &&& call_ensures(S0::reads_after_write, (), a0)
                &&& call_ensures(S1::reads_after_write, (), a1)
                &&& call_ensures(S2::reads_after_write, (), a2)
                &&& call_ensures(S3::reads_after_write, (), a3)
                &&& call_ensures(S4::reads_after_write, (), a4)
                &&& call_ensures(S5::reads_after_write, (), a5)
                &&& call_ensures(S6::reads_after_write, (), a6)
                &&& call_ensures(S7::reads_after_write, (), a7)
                &&& r@ == a0@ + (a1@ + (a2@ + (a3@ + (a4@ + (a5@ + (a6@ + (a7@)))))))
            },
    {
        let a0 = S0::reads_after_write();
        let a1 = S1::reads_after_write();
        let a2 = S2::reads_after_write();
        let a3 = S3::reads_after_write();
        let a4 = S4::reads_after_write();
        let a5 = S5::reads_after_write();
        let a6 = S6::reads_after_write();
        let a7 = S7::reads_after_write();
        let ghost parts = (a0, a1, a2, a3, a4, a5, a6, a7,);
        let r = join_accesses(a0, join_accesses(a1, join_accesses(a2, join_accesses(a3, join_accesses(a4, join_accesses(a5, join_accesses(a6, a7)))))));
        proof {
            assert({
                &&& call_ensures(S0::reads_after_write, (), parts.0)
                &&& call_ensures(S1::reads_after_write, (), parts.1)
                &&& call_ensures(S2::reads_after_write, (), parts.2)
                &&& call_ensures(S3::reads_after_write, (), parts.3)
                &&& call_ensures(S4::reads_after_write, (), parts.4)
                &&& call_ensures(S5::reads_after_write, (), parts.5)
                &&& call_ensures(S6::reads_after_write, (), parts.6)
                &&& call_ensures(S7::reads_after_write, (), parts.7)
                &&& r@ == parts.0@ + (parts.1@ + (parts.2@ + (parts.3@ + (parts.4@ + (parts.5@ + (parts.6@ + (parts.7@)))))))
            });
        }
        r
    }
}

impl<'r, S0: SystemData<'r>, S1: SystemData<'r>, S2: SystemData<'r>, S3: SystemData<'r>, S4: SystemData<'r>, S5: SystemData<'r>, S6: SystemData<'r>, S7: SystemData<'r>, S8: SystemData<'r>> SystemData<'r> for (S0, S1, S2, S3, S4, S5, S6, S7, S8) {
    open spec fn fetched(world: &'r World, data: Self) -> bool {
        S0::fetched(world, data.0)
            && S1::fetched(world, data.1)
            && S2::fetched(world, data.2)
            && S3::fetched(world, data.3)
            && S4::fetched(world, data.4)
            && S5::fetched(world, data.5)
            && S6::fetched(world, data.6)
            && S7::fetched(world, data.7)
            && S8::fetched(world, data.8)
    }

    fn fetch(world: &'r World) -> Self {
        (S0::fetch(world), S1::fetch(world), S2::fetch(world), S3::fetch(world), S4::fetch(world), S5::fetch(world), S6::fetch(world), S7::fetch(world), S8::fetch(world))
    }

    /// The lists of the parts, joined in order.
    fn reads_before_write() -> (r: Vec<ResourceId>)
        ensures
            exists|a0: Vec<ResourceId>, a1: Vec<ResourceId>, a2: Vec<ResourceId>, a3: Vec<ResourceId>, a4: Vec<ResourceId>, a5: Vec<ResourceId>, a6: Vec<ResourceId>, a7: Vec<ResourceId>, a8: Vec<ResourceId>|
                {
                &&& call_ensures(S0::reads_before_write, (), a0)
                &&& call_ensures(S1::reads_before_write, (), a1)
                &&& call_ensures(S2::reads_before_write, (), a2)
                &&& call_ensures(S3::reads_before_write, (), a3)
                &&& call_ensures(S4::reads_before_write, (), a4)
                &&& call_ensures(S5::reads_before_write, (), a5)
                &&& call_ensures(S6::reads_before_write, (), a6)
                &&& call_ensures(S7::reads_before_write, (), a7)
                &&& call_ensures(S8::reads_before_write, (), a8)
                &&& r@ == a0@ + (a1@ + (a2@ + (a3@ + (a4@ + (a5@ + (a6@ + (a7@ + (a8@))))))))
            },
    {
        let a0 = S0::reads_before_write();
        let a1 = S1::reads_before_write();
        let a2 = S2::reads_before_write();
        let a3 = S3::reads_before_write();
        let a4 = S4::reads_before_write();
        let a5 = S5::reads_before_write();
        let a6 = S6::reads_before_write();
        let a7 = S7::reads_before_write();
        let a8 = S8::reads_before_write();
        let ghost parts = (a0, a1, a2, a3, a4, a5, a6, a7, a8,);
        let r = join_accesses(a0, join_accesses(a1, join_accesses(a2, join_accesses(a3, join_accesses(a4, join_accesses(a5, join_accesses(a6, join_accesses(a7, a8))))))));
        proof {
            assert({
                &&& call_ensures(S0::reads_before_write, (), parts.0)
                &&& call_ensures(S1::reads_before_write, (), parts.1)
                &&& call_ensures(S2::reads_before_write, (), parts.2)
                &&& call_ensures(S3::reads_before_write, (), parts.3)
                &&& call_ensures(S4::reads_before_write, (), parts.4)
                &&& call_ensures(S5::reads_before_write, (), parts.5)
                &&& call_ensures(S6::reads_before_write, (), parts.6)
                &&& call_ensures(S7::reads_before_write, (), parts.7)
                &&& call_ensures(S8::reads_before_write, (), parts.8)
                &&& r@ == parts.0@ + (parts.1@ + (parts.2@ + (parts.3@ + (parts.4@ + (parts.5@ + (parts.6@ + (parts.7@ + (parts.8@))))))))
            });
        }
        r
    }

    /// The lists of the parts, joined in order.
    fn writes() -> (r: Vec<ResourceId>)
        ensures
            exists|a0: Vec<ResourceId>, a1: Vec<ResourceId>, a2: Vec<ResourceId>, a3: Vec<ResourceId>, a4: Vec<ResourceId>, a5: Vec<ResourceId>, a6: Vec<ResourceId>, a7: Vec<ResourceId>, a8: Vec<ResourceId>|
                {
                &&& call_ensures(S0::writes, (), a0)
                &&& call_ensures(S1::writes, (), a1)
                &&& call_ensures(S2::writes, (), a2)
                &&& call_ensures(S3::writes, (), a3)
                &&& call_ensures(S4::writes, (), a4)
                &&& call_ensures(S5::writes, (), a5)
                &&& call_ensures(S6::writes, (), a6)
                &&& call_ensures(S7::writes, (), a7)
                &&& call_ensures(S8::writes, (), a8)
                &&& r@ == a0@ + (a1@ + (a2@ + (a3@ + (a4@ + (a5@ + (a6@ + (a7@ + (a8@))))))))
            },
    {
        let a0 = S0::writes();
        let a1 = S1::writes();
        let a2 = S2::writes();
        let a3 = S3::writes();
        let a4 = S4::writes();
        let a5 = S5::writes();
        let a6 = S6::writes();
        let a7 = S7::writes();
        let a8 = S8::writes();
        let ghost parts = (a0, a1, a2, a3, a4, a5, a6, a7, a8,);
        let r = join_accesses(a0, join_accesses(a1, join_accesses(a2, join_accesses(a3, join_accesses(a4, join_accesses(a5, join_accesses(a6, join_accesses(a7, a8))))))));
        proof {
            assert({
                &&& call_ensures(S0::writes, (), parts.0)
                &&& call_ensures(S1::writes, (), parts.1)
                &&& call_ensures(S2::writes, (), parts.2)
                &&& call_ensures(S3::writes, (), parts.3)
                &&& call_ensures(S4::writes, (), parts.4)
                &&& call_ensures(S5::writes, (), parts.5)
                &&& call_ensures(S6::writes, (), parts.6)
                &&& call_ensures(S7::writes, (), parts.7)
                &&& call_ensures(S8::writes, (), parts.8)
                &&& r@ == parts.0@ + (parts.1@ + (parts.2@ + (parts.3@ + (parts.4@ + (parts.5@ + (parts.6@ + (parts.7@ + (parts.8@))))))))
            });
        }
        r
    }

    /// The lists of the parts, joined in order.
    fn reads_after_write() -> (r: Vec<ResourceId>)
        ensures
            exists|a0: Vec<ResourceId>, a1: Vec<ResourceId>, a2: Vec<ResourceId>, a3: Vec<ResourceId>, a4: Vec<ResourceId>, a5: Vec<ResourceId>, a6: Vec<ResourceId>, a7: Vec<ResourceId>, a8: Vec<ResourceId>|
                {
                &&& call_ensures(S0::reads_after_write, (), a0)
                &&& call_ensures(S1::reads_after_write, (), a1)
                &&& call_ensures(S2::reads_after_write, (), a2)
                &&& call_ensures(S3::reads_after_write, (), a3)
                &&& call_ensures(S4::reads_after_write, (), a4)
                &&& call_ensures(S5::reads_after_write, (), a5)
                &&& call_ensures(S6::reads_after_write, (), a6)
                &&& call_ensures(S7::reads_after_write, (), a7)
                &&& call_ensures(S8::reads_after_write, (), a8)
                &&& r@ == a0@ + (a1@ + (a2@ + (a3@ + (a4@ + (a5@ + (a6@ + (a7@ + (a8@))))))))
            },
    {
        let a0 = S0::reads_after_write();
        let a1 = S1::reads_after_write();
        let a2 = S2::reads_after_write();
        let a3 = S3::reads_after_write();
        let a4 = S4::reads_after_write();
        let a5 = S5::reads_after_write();
        let a6 = S6::reads_after_write();
        let a7 = S7::reads_after_write();
        let a8 = S8::reads_after_write();
        let ghost parts = (a0, a1, a2, a3, a4, a5, a6, a7, a8,);
        let r = join_accesses(a0, join_accesses(a1, join_accesses(a2, join_accesses(a3, join_accesses(a4, join_accesses(a5, join_accesses(a6, join_accesses(a7, a8))))))));
        proof {
            assert({
                &&& call_ensures(S0::reads_after_write, (), parts.0)
                &&& call_ensures(S1::reads_after_write, (), parts.1)
                &&& call_ensures(S2::reads_after_write, (), parts.2)
                &&& call_ensures(S3::reads_after_write, (), parts.3)
                &&& call_ensures(S4::reads_after_write, (), parts.4)
                &&& call_ensures(S5::reads_after_write, (), parts.5)
                &&& call_ensures(S6::reads_after_write, (), parts.6)
                &&& call_ensures(S7::reads_after_write, (), parts.7)
                &&& call_ensures(S8::reads_after_write, (), parts.8)
                &&& r@ == parts.0@ + (parts.1@ + (parts.2@ + (parts.3@ + (parts.4@ + (parts.5@ + (parts.6@ + (parts.7@ + (parts.8@))))))))
            });
        }
        r
    }
}

impl<'r, S0: SystemData<'r>, S1: SystemData<'r>, S2: SystemData<'r>, S3: SystemData<'r>, S4: SystemData<'r>, S5: SystemData<'r>, S6: SystemData<'r>, S7: SystemData<'r>, S8: SystemData<'r>, S9: SystemData<'r>> SystemData<'r> for (S0, S1, S2, S3, S4, S5, S6, S7, S8, S9) {
    open spec fn fetched(world: &'r World, data: Self) -> bool {
        S0::fetched(world, data.0)
            && S1::fetched(world, data.1)
            && S2::fetched(world, data.2)
            && S3::fetched(world, data.3)
            && S4::fetched(world, data.4)
            && S5::fetched(world, data.5)
            && S6::fetched(world, data.6)
            && S7::fetched(world, data.7)
            && S8::fetched(world, data.8)
            && S9::fetched(world, data.9)
    }

    fn fetch(world: &'r World) -> Self {
        (S0::fetch(world), S1::fetch(world), S2::fetch(world), S3::fetch(world), S4::fetch(world), S5::fetch(world), S6::fetch(world), S7::fetch(world), S8::fetch(world), S9::fetch(world))
    }

    /// The lists of the parts, joined in order.
    fn reads_before_write() -> (r: Vec<ResourceId>)
        ensures
            exists|a0: Vec<ResourceId>, a1: Vec<ResourceId>, a2: Vec<ResourceId>, a3: Vec<ResourceId>, a4: Vec<ResourceId>, a5: Vec<ResourceId>, a6: Vec<ResourceId>, a7: Vec<ResourceId>, a8: Vec<ResourceId>, a9: Vec<ResourceId>|
                {
                &&& call_ensures(S0::reads_before_write, (), a0)
                &&& call_ensures(S1::reads_before_write, (), a1)
                &&& call_ensures(S2::reads_before_write, (), a2)
                &&& call_ensures(S3::reads_before_write, (), a3)
                &&& call_ensures(S4::reads_before_write, (), a4)
                &&& call_ensures(S5::reads_before_write, (), a5)
                &&& call_ensures(S6::reads_before_write, (), a6)
                &&& call_ensures(S7::reads_before_write, (), a7)
                &&& call_ensures(S8::reads_before_write, (), a8)
                &&& call_ensures(S9::reads_before_write, (), a9)
                &&& r@ == a0@ + (a1@ + (a2@ + (a3@ + (a4@ + (a5@ + (a6@ + (a7@ + (a8@ + (a9@)))))))))
            },
    {
        let a0 = S0::reads_before_write();
        let a1 = S1::reads_before_write();
        let a2 = S2::reads_before_write();
        let a3 = S3::reads_before_write();
        let a4 = S4::reads_before_write();
        let a5 = S5::reads_before_write();
        let a6 = S6::reads_before_write();
        let a7 = S7::reads_before_write();
        let a8 = S8::reads_before_write();
        let a9 = S9::reads_before_write();
        let ghost parts = (a0, a1, a2, a3, a4, a5, a6, a7, a8, a9,);
        let r = join_accesses(a0, join_accesses(a1, join_accesses(a2, join_accesses(a3, join_accesses(a4, join_accesses(a5, join_accesses(a6, join_accesses(a7, join_accesses(a8, a9)))))))));
        proof {
            assert({
                &&& call_ensures(S0::reads_before_write, (), parts.0)
                &&& call_ensures(S1::reads_before_write, (), parts.1)
                &&& call_ensures(S2::reads_before_write, (), parts.2)
                &&& call_ensures(S3::reads_before_write, (), parts.3)
                &&& call_ensures(S4::reads_before_write, (), parts.4)
                &&& call_ensures(S5::reads_before_write, (), parts.5)
                &&& call_ensures(S6::reads_before_write, (), parts.6)
                &&& call_ensures(S7::reads_before_write, (), parts.7)
                &&& call_ensures(S8::reads_before_write, (), parts.8)
                &&& call_ensures(S9::reads_before_write, (), parts.9)
                &&& r@ == parts.0@ + (parts.1@ + (parts.2@ + (parts.3@ + (parts.4@ + (parts.5@ + (parts.6@ + (parts.7@ + (parts.8@ + (parts.9@)))))))))
            });
        }
        r
    }

    /// The lists of the parts, joined in order.
    fn writes() -> (r: Vec<ResourceId>)
        ensures
            exists|a0: Vec<ResourceId>, a1: Vec<ResourceId>, a2: Vec<ResourceId>, a3: Vec<ResourceId>, a4: Vec<ResourceId>, a5: Vec<ResourceId>, a6: Vec<ResourceId>, a7: Vec<ResourceId>, a8: Vec<ResourceId>, a9: Vec<ResourceId>|
                {
                &&& call_ensures(S0::writes, (), a0)
                &&& call_ensures(S1::writes, (), a1)
                &&& call_ensures(S2::writes, (), a2)
                &&& call_ensures(S3::writes, (), a3)
                &&& call_ensures(S4::writes, (), a4)
                &&& call_ensures(S5::writes, (), a5)
                &&& call_ensures(S6::writes, (), a6)
                &&& call_ensures(S7::writes, (), a7)
                &&& call_ensures(S8::writes, (), a8)
                &&& call_ensures(S9::writes, (), a9)
                &&& r@ == a0@ + (a1@ + (a2@ + (a3@ + (a4@ + (a5@ + (a6@ + (a7@ + (a8@ + (a9@)))))))))
            },
    {
        let a0 = S0::writes();
        let a1 = S1::writes();
        let a2 = S2::writes();
        let a3 = S3::writes();
        let a4 = S4::writes();
        let a5 = S5::writes();
        let a6 = S6::writes();
        let a7 = S7::writes();
        let a8 = S8::writes();
        let a9 = S9::writes();
        let ghost parts = (a0, a1, a2, a3, a4, a5, a6, a7, a8, a9,);
        let r = join_accesses(a0, join_accesses(a1, join_accesses(a2, join_accesses(a3, join_accesses(a4, join_accesses(a5, join_accesses(a6, join_accesses(a7, join_accesses(a8, a9)))))))));
        proof {
            assert({
                &&& call_ensures(S0::writes, (), parts.0)
                &&& call_ensures(S1::writes, (), parts.1)
                &&& call_ensures(S2::writes, (), parts.2)
                &&& call_ensures(S3::writes, (), parts.3)
                &&& call_ensures(S4::writes, (), parts.4)
                &&& call_ensures(S5::writes, (), parts.5)
                &&& call_ensures(S6::writes, (), parts.6)
                &&& call_ensures(S7::writes, (), parts.7)
                &&& call_ensures(S8::writes, (), parts.8)
                &&& call_ensures(S9::writes, (), parts.9)
                &&& r@ == parts.0@ + (parts.1@ + (parts.2@ + (parts.3@ + (parts.4@ + (parts.5@ + (parts.6@ + (parts.7@ + (parts.8@ + (parts.9@)))))))))
            });
        }
        r
    }

    /// The lists of the parts, joined in order.
    fn reads_after_write() -> (r: Vec<ResourceId>)
        ensures
            exists|a0: Vec<ResourceId>, a1: Vec<ResourceId>, a2: Vec<ResourceId>, a3: Vec<ResourceId>, a4: Vec<ResourceId>, a5: Vec<ResourceId>, a6: Vec<ResourceId>, a7: Vec<ResourceId>, a8: Vec<ResourceId>, a9: Vec<ResourceId>|
                {
                &&& call_ensures(S0::reads_after_write, (), a0)
                &&& call_ensures(S1::reads_after_write, (), a1)
                &&& call_ensures(S2::reads_after_write, (), a2)
                &&& call_ensures(S3::reads_after_write, (), a3)
                &&& call_ensures(S4::reads_after_write, (), a4)
                &&& call_ensures(S5::reads_after_write, (), a5)
                &&& call_ensures(S6::reads_after_write, (), a6)
                &&& call_ensures(S7::reads_after_write, (), a7)
                &&& call_ensures(S8::reads_after_write, (), a8)
                &&& call_ensures(S9::reads_after_write, (), a9)
                &&& r@ == a0@ + (a1@ + (a2@ + (a3@ + (a4@ + (a5@ + (a6@ + (a7@ + (a8@ + (a9@)))))))))
            },
    {
        let a0 = S0::reads_after_write();
        let a1 = S1::reads_after_write();
        let a2 = S2::reads_after_write();
        let a3 = S3::reads_after_write();
        let a4 = S4::reads_after_write();
        let a5 = S5::reads_after_write();
        let a6 = S6::reads_after_write();
        let a7 = S7::reads_after_write();
        let a8 = S8::reads_after_write();
        let a9 = S9::reads_after_write();
        let ghost parts = (a0, a1, a2, a3, a4, a5, a6, a7, a8, a9,);
        let r = join_accesses(a0, join_accesses(a1, join_accesses(a2, join_accesses(a3, join_accesses(a4, join_accesses(a5, join_accesses(a6, join_accesses(a7, join_accesses(a8, a9)))))))));
        proof {
            assert({
                &&& call_ensures(S0::reads_after_write, (), parts.0)
                &&& call_ensures(S1::reads_after_write, (), parts.1)
                &&& call_ensures(S2::reads_after_write, (), parts.2)
                &&& call_ensures(S3::reads_after_write, (), parts.3)
                &&& call_ensures(S4::reads_after_write, (), parts.4)
                &&& call_ensures(S5::reads_after_write, (), parts.5)
                &&& call_ensures(S6::reads_after_write, (), parts.6)
                &&& call_ensures(S7::reads_after_write, (), parts.7)
                &&& call_ensures(S8::reads_after_write, (), parts.8)
                &&& call_ensures(S9::reads_after_write, (), parts.9)
                &&& r@ == parts.0@ + (parts.1@ + (parts.2@ + (parts.3@ + (parts.4@ + (parts.5@ + (parts.6@ + (parts.7@ + (parts.8@ + (parts.9@)))))))))
            });
        }
        r
    }
}

impl<'r, S0: SystemData<'r>, S1: SystemData<'r>, S2: SystemData<'r>, S3: SystemData<'r>, S4: SystemData<'r>, S5: SystemData<'r>, S6: SystemData<'r>, S7: SystemData<'r>, S8: SystemData<'r>, S9: SystemData<'r>, S10: SystemData<'r>> SystemData<'r> for (S0, S1, S2, S3, S4, S5, S6, S7, S8, S9, S10) {
    open spec fn fetched(world: &'r World, data: Self) -> bool {
        S0::fetched(world, data.0)
            && S1::fetched(world, data.1)
            && S2::fetched(world, data.2)
            && S3::fetched(world, data.3)
            && S4::fetched(world, data.4)
            && S5::fetched(world, data.5)
            && S6::fetched(world, data.6)
            && S7::fetched(world, data.7)
            && S8::fetched(world, data.8)
            && S9::fetched(world, data.9)
            && S10::fetched(world, data.10)
    }

    fn fetch(world: &'r World) -> Self {
        (S0::fetch(world), S1::fetch(world), S2::fetch(world), S3::fetch(world), S4::fetch(world), S5::fetch(world), S6::fetch(world), S7::fetch(world), S8::fetch(world), S9::fetch(world), S10::fetch(world))
    }

    /// The lists of the parts, joined in order.
    fn reads_before_write() -> (r: Vec<ResourceId>)
        ensures
            exists|a0: Vec<ResourceId>, a1: Vec<ResourceId>, a2: Vec<ResourceId>, a3: Vec<ResourceId>, a4: Vec<ResourceId>, a5: Vec<ResourceId>, a6: Vec<ResourceId>, a7: Vec<ResourceId>, a8: Vec<ResourceId>, a9: Vec<ResourceId>, a10: Vec<ResourceId>|
                {
                &&& call_ensures(S0::reads_before_write, (), a0)
                &&& call_ensures(S1::reads_before_write, (), a1)
                &&& call_ensures(S2::reads_before_write, (), a2)
                &&& call_ensures(S3::reads_before_write, (), a3)
                &&& call_ensures(S4::reads_before_write, (), a4)
                &&& call_ensures(S5::reads_before_write, (), a5)
                &&& call_ensures(S6::reads_before_write, (), a6)
                &&& call_ensures(S7::reads_before_write, (), a7)
                &&& call_ensures(S8::reads_before_write, (), a8)
                &&& call_ensures(S9::reads_before_write, (), a9)
                &&& call_ensures(S10::reads_before_write, (), a10)
                &&& r@ == a0@ + (a1@ + (a2@ + (a3@ + (a4@ + (a5@ + (a6@ + (a7@ + (a8@ + (a9@ + (a10@))))))))))
            },
    {
        let a0 = S0::reads_before_write();
        let a1 = S1::reads_before_write();
        let a2 = S2::reads_before_write();
        let a3 = S3::reads_before_write();
        let a4 = S4::reads_before_write();
        let a5 = S5::reads_before_write();
        let a6 = S6::reads_before_write();
        let a7 = S7::reads_before_write();
        let a8 = S8::reads_before_write();
        let a9 = S9::reads_before_write();
        let a10 = S10::reads_before_write();
        let ghost parts = (a0, a1, a2, a3, a4, a5, a6, a7, a8, a9, a10,);
        let r = join_accesses(a0, join_accesses(a1, join_accesses(a2, join_accesses(a3, join_accesses(a4, join_accesses(a5, join_accesses(a6, join_accesses(a7, join_accesses(a8, join_accesses(a9, a10))))))))));
        proof {
            assert({
                &&& call_ensures(S0::reads_before_write, (), parts.0)
                &&& call_ensures(S1::reads_before_write, (), parts.1)
                &&& call_ensures(S2::reads_before_write, (), parts.2)
                &&& call_ensures(S3::reads_before_write, (), parts.3)
                &&& call_ensures(S4::reads_before_write, (), parts.4)
                &&& call_ensures(S5::reads_before_write, (), parts.5)
                &&& call_ensures(S6::reads_before_write, (), parts.6)
                &&& call_ensures(S7::reads_before_write, (), parts.7)
                &&& call_ensures(S8::reads_before_write, (), parts.8)
                &&& call_ensures(S9::reads_before_write, (), parts.9)
                &&& call_ensures(S10::reads_before_write, (), parts.10)
                &&& r@ == parts.0@ + (parts.1@ + (parts.2@ + (parts.3@ + (parts.4@ + (parts.5@ + (parts.6@ + (parts.7@ + (parts.8@ + (parts.9@ + (parts.10@))))))))))
            });
        }
        r
    }

    /// The lists of the parts, joined in order.
    fn writes() -> (r: Vec<ResourceId>)
        ensures
            exists|a0: Vec<ResourceId>, a1: Vec<ResourceId>, a2: Vec<ResourceId>, a3: Vec<ResourceId>, a4: Vec<ResourceId>, a5: Vec<ResourceId>, a6: Vec<ResourceId>, a7: Vec<ResourceId>, a8: Vec<ResourceId>, a9: Vec<ResourceId>, a10: Vec<ResourceId>|
                {
                &&& call_ensures(S0::writes, (), a0)
                &&& call_ensures(S1::writes, (), a1)
                &&& call_ensures(S2::writes, (), a2)
                &&& call_ensures(S3::writes, (), a3)
                &&& call_ensures(S4::writes, (), a4)
                &&& call_ensures(S5::writes, (), a5)
                &&& call_ensures(S6::writes, (), a6)
                &&& call_ensures(S7::writes, (), a7)
                &&& call_ensures(S8::writes, (), a8)
                &&& call_ensures(S9::writes, (), a9)
                &&& call_ensures(S10::writes, (), a10)
                &&& r@ == a0@ + (a1@ + (a2@ + (a3@ + (a4@ + (a5@ + (a6@ + (a7@ + (a8@ + (a9@ + (a10@))))))))))
            },
    {
        let a0 = S0::writes();
        let a1 = S1::writes();
        let a2 = S2::writes();
        let a3 = S3::writes();
        let a4 = S4::writes();
        let a5 = S5::writes();
        let a6 = S6::writes();
        let a7 = S7::writes();
        let a8 = S8::writes();
        let a9 = S9::writes();
        let a10 = S10::writes();
        let ghost parts = (a0, a1, a2, a3, a4, a5, a6, a7, a8, a9, a10,);
        let r = join_accesses(a0, join_accesses(a1, join_accesses(a2, join_accesses(a3, join_accesses(a4, join_accesses(a5, join_accesses(a6, join_accesses(a7, join_accesses(a8, join_accesses(a9, a10))))))))));
        proof {
            assert({
                &&& call_ensures(S0::writes, (), parts.0)
                &&& call_ensures(S1::writes, (), parts.1)
                &&& call_ensures(S2::writes, (), parts.2)
                &&& call_ensures(S3::writes, (), parts.3)
                &&& call_ensures(S4::writes, (), parts.4)
                &&& call_ensures(S5::writes, (), parts.5)
                &&& call_ensures(S6::writes, (), parts.6)
                &&& call_ensures(S7::writes, (), parts.7)
                &&& call_ensures(S8::writes, (), parts.8)
                &&& call_ensures(S9::writes, (), parts.9)
                &&& call_ensures(S10::writes, (), parts.10)
                &&& r@ == parts.0@ + (parts.1@ + (parts.2@ + (parts.3@ + (parts.4@ + (parts.5@ + (parts.6@ + (parts.7@ + (parts.8@ + (parts.9@ + (parts.10@))))))))))
            });
        }
        r
    }

    /// The lists of the parts, joined in order.
    fn reads_after_write() -> (r: Vec<ResourceId>)
        ensures
            exists|a0: Vec<ResourceId>, a1: Vec<ResourceId>, a2: Vec<ResourceId>, a3: Vec<ResourceId>, a4: Vec<ResourceId>, a5: Vec<ResourceId>, a6: Vec<ResourceId>, a7: Vec<ResourceId>, a8: Vec<ResourceId>, a9: Vec<ResourceId>, a10: Vec<ResourceId>|
                {
                &&& call_ensures(S0::reads_after_write, (), a0)
                &&& call_ensures(S1::reads_after_write, (), a1)
                &&& call_ensures(S2::reads_after_write, (), a2)
                &&& call_ensures(S3::reads_after_write, (), a3)
                &&& call_ensures(S4::reads_after_write, (), a4)
                &&& call_ensures(S5::reads_after_write, (), a5)
                &&& call_ensures(S6::reads_after_write, (), a6)
                &&& call_ensures(S7::reads_after_write, (), a7)
                &&& call_ensures(S8::reads_after_write, (), a8)
                &&& call_ensures(S9::reads_after_write, (), a9)
                &&& call_ensures(S10::reads_after_write, (), a10)
                &&& r@ == a0@ + (a1@ + (a2@ + (a3@ + (a4@ + (a5@ + (a6@ + (a7@ + (a8@ + (a9@ + (a10@))))))))))
            },
    {
        let a0 = S0::reads_after_write();
        let a1 = S1::reads_after_write();
        let a2 = S2::reads_after_write();
        let a3 = S3::reads_after_write();
        let a4 = S4::reads_after_write();
        let a5 = S5::reads_after_write();
        let a6 = S6::reads_after_write();
        let a7 = S7::reads_after_write();
        let a8 = S8::reads_after_write();
        let a9 = S9::reads_after_write();
        let a10 = S10::reads_after_write();
        let ghost parts = (a0, a1, a2, a3, a4, a5, a6, a7, a8, a9, a10,);
        let r = join_accesses(a0, join_accesses(a1, join_accesses(a2, join_accesses(a3, join_accesses(a4, join_accesses(a5, join_accesses(a6, join_accesses(a7, join_accesses(a8, join_accesses(a9, a10))))))))));
        proof {
            assert({
                &&& call_ensures(S0::reads_after_write, (), parts.0)
                &&& call_ensures(S1::reads_after_write, (), parts.1)
                &&& call_ensures(S2::reads_after_write, (), parts.2)
                &&& call_ensures(S3::reads_after_write, (), parts.3)
                &&& call_ensures(S4::reads_after_write, (), parts.4)
                &&& call_ensures(S5::reads_after_write, (), parts.5)
                &&& call_ensures(S6::reads_after_write, (), parts.6)
                &&& call_ensures(S7::reads_after_write, (), parts.7)
                &&& call_ensures(S8::reads_after_write, (), parts.8)
                &&& call_ensures(S9::reads_after_write, (), parts.9)
                &&& call_ensures(S10::reads_after_write, (), parts.10)
                &&& r@ == parts.0@ + (parts.1@ + (parts.2@ + (parts.3@ + (parts.4@ + (parts.5@ + (parts.6@ + (parts.7@ + (parts.8@ + (parts.9@ + (parts.10@))))))))))
            });
        }
        r
    }
}

impl<'r, S0: SystemData<'r>, S1: SystemData<'r>, S2: SystemData<'r>, S3: SystemData<'r>, S4: SystemData<'r>, S5: SystemData<'r>, S6: SystemData<'r>, S7: SystemData<'r>, S8: SystemData<'r>, S9: SystemData<'r>, S10: SystemData<'r>, S11: SystemData<'r>> SystemData<'r> for (S0, S1, S2, S3, S4, S5, S6, S7, S8, S9, S10, S11) {
    open spec fn fetched(world: &'r World, data: Self) -> bool {
        S0::fetched(world, data.0)
            && S1::fetched(world, data.1)
            && S2::fetched(world, data.2)
            && S3::fetched(world, data.3)
            && S4::fetched(world, data.4)
            && S5::fetched(world, data.5)
            && S6::fetched(world, data.6)
            && S7::fetched(world, data.7)
            && S8::fetched(world, data.8)
            && S9::fetched(world, data.9)
            && S10::fetched(world, data.10)
            && S11::fetched(world, data.11)
    }

    fn fetch(world: &'r World) -> Self {
        (S0::fetch(world), S1::fetch(world), S2::fetch(world), S3::fetch(world), S4::fetch(world), S5::fetch(world), S6::fetch(world), S7::fetch(world), S8::fetch(world), S9::fetch(world), S10::fetch(world), S11::fetch(world))
    }

    /// The lists of the parts, joined in order.
    fn reads_before_write() -> (r: Vec<ResourceId>)
        ensures
            exists|a0: Vec<ResourceId>, a1: Vec<ResourceId>, a2: Vec<ResourceId>, a3: Vec<ResourceId>, a4: Vec<ResourceId>, a5: Vec<ResourceId>, a6: Vec<ResourceId>, a7: Vec<ResourceId>, a8: Vec<ResourceId>, a9: Vec<ResourceId>, a10: Vec<ResourceId>, a11: Vec<ResourceId>|
                {
                &&& call_ensures(S0::reads_before_write, (), a0)
                &&& call_ensures(S1::reads_before_write, (), a1)
                &&& call_ensures(S2::reads_before_write, (), a2)
                &&& call_ensures(S3::reads_before_write, (), a3)
                &&& call_ensures(S4::reads_before_write, (), a4)
                &&& call_ensures(S5::reads_before_write, (), a5)
                &&& call_ensures(S6::reads_before_write, (), a6)
                &&& call_ensures(S7::reads_before_write, (), a7)
                &&& call_ensures(S8::reads_before_write, (), a8)
                &&& call_ensures(S9::reads_before_write, (), a9)
                &&& call_ensures(S10::reads_before_write, (), a10)
                &&& call_ensures(S11::reads_before_write, (), a11)
                &&& r@ == a0@ + (a1@ + (a2@ + (a3@ + (a4@ + (a5@ + (a6@ + (a7@ + (a8@ + (a9@ + (a10@ + (a11@)))))))))))
            },
    {
        let a0 = S0::reads_before_write();
        let a1 = S1::reads_before_write();
        let a2 = S2::reads_before_write();
        let a3 = S3::reads_before_write();
        let a4 = S4::reads_before_write();
        let a5 = S5::reads_before_write();
        let a6 = S6::reads_before_write();
        let a7 = S7::reads_before_write();
        let a8 = S8::reads_before_write();
        let a9 = S9::reads_before_write();
        let a10 = S10::reads_before_write();
        let a11 = S11::reads_before_write();
        let ghost parts = (a0, a1, a2, a3, a4, a5, a6, a7, a8, a9, a10, a11,);
        let r = join_accesses(a0, join_accesses(a1, join_accesses(a2, join_accesses(a3, join_accesses(a4, join_accesses(a5, join_accesses(a6, join_accesses(a7, join_accesses(a8, join_accesses(a9, join_accesses(a10, a11)))))))))));
        proof {
            assert({
                &&& call_ensures(S0::reads_before_write, (), parts.0)
                &&& call_ensures(S1::reads_before_write, (), parts.1)
                &&& call_ensures(S2::reads_before_write, (), parts.2)
                &&& call_ensures(S3::reads_before_write, (), parts.3)
                &&& call_ensures(S4::reads_before_write, (), parts.4)
                &&& call_ensures(S5::reads_before_write, (), parts.5)
                &&& call_ensures(S6::reads_before_write, (), parts.6)
                &&& call_ensures(S7::reads_before_write, (), parts.7)
                &&& call_ensures(S8::reads_before_write, (), parts.8)
                &&& call_ensures(S9::reads_before_write, (), parts.9)
                &&& call_ensures(S10::reads_before_write, (), parts.10)
                &&& call_ensures(S11::reads_before_write, (), parts.11)
                &&& r@ == parts.0@ + (parts.1@ + (parts.2@ + (parts.3@ + (parts.4@ + (parts.5@ + (parts.6@ + (parts.7@ + (parts.8@ + (parts.9@ + (parts.10@ + (parts.11@)))))))))))
            });
        }
        r
    }

    /// The lists of the parts, joined in order.
    fn writes() -> (r: Vec<ResourceId>)
        ensures
            exists|a0: Vec<ResourceId>, a1: Vec<ResourceId>, a2: Vec<ResourceId>, a3: Vec<ResourceId>, a4: Vec<ResourceId>, a5: Vec<ResourceId>, a6: Vec<ResourceId>, a7: Vec<ResourceId>, a8: Vec<ResourceId>, a9: Vec<ResourceId>, a10: Vec<ResourceId>, a11: Vec<ResourceId>|
                {
                &&& call_ensures(S0::writes, (), a0)
                &&& call_ensures(S1::writes, (), a1)
                &&& call_ensures(S2::writes, (), a2)
                &&& call_ensures(S3::writes, (), a3)
                &&& call_ensures(S4::writes, (), a4)
                &&& call_ensures(S5::writes, (), a5)
                &&& call_ensures(S6::writes, (), a6)
                &&& call_ensures(S7::writes, (), a7)
                &&& call_ensures(S8::writes, (), a8)
                &&& call_ensures(S9::writes, (), a9)
                &&& call_ensures(S10::writes, (), a10)
                &&& call_ensures(S11::writes, (), a11)
                &&& r@ == a0@ + (a1@ + (a2@ + (a3@ + (a4@ + (a5@ + (a6@ + (a7@ + (a8@ + (a9@ + (a10@ + (a11@)))))))))))
            },
    {
        let a0 = S0::writes();
        let a1 = S1::writes();
        let a2 = S2::writes();
        let a3 = S3::writes();
        let a4 = S4::writes();
        let a5 = S5::writes();
        let a6 = S6::writes();
        let a7 = S7::writes();
        let a8 = S8::writes();
        let a9 = S9::writes();
        let a10 = S10::writes();
        let a11 = S11::writes();
        let ghost parts = (a0, a1, a2, a3, a4, a5, a6, a7, a8, a9, a10, a11,);
        let r = join_accesses(a0, join_accesses(a1, join_accesses(a2, join_accesses(a3, join_accesses(a4, join_accesses(a5, join_accesses(a6, join_accesses(a7, join_accesses(a8, join_accesses(a9, join_accesses(a10, a11)))))))))));
        proof {
            assert({
                &&& call_ensures(S0::writes, (), parts.0)
                &&& call_ensures(S1::writes, (), parts.1)
                &&& call_ensures(S2::writes, (), parts.2)
                &&& call_ensures(S3::writes, (), parts.3)
                &&& call_ensures(S4::writes, (), parts.4)
                &&& call_ensures(S5::writes, (), parts.5)
                &&& call_ensures(S6::writes, (), parts.6)
                &&& call_ensures(S7::writes, (), parts.7)
                &&& call_ensures(S8::writes, (), parts.8)
                &&& call_ensures(S9::writes, (), parts.9)
                &&& call_ensures(S10::writes, (), parts.10)
                &&& call_ensures(S11::writes, (), parts.11)
                &&& r@ == parts.0@ + (parts.1@ + (parts.2@ + (parts.3@ + (parts.4@ + (parts.5@ + (parts.6@ + (parts.7@ + (parts.8@ + (parts.9@ + (parts.10@ + (parts.11@)))))))))))
            });
        }
        r
    }

    /// The lists of the parts, joined in order.
    fn reads_after_write() -> (r: Vec<ResourceId>)
        ensures
            exists|a0: Vec<ResourceId>, a1: Vec<ResourceId>, a2: Vec<ResourceId>, a3: Vec<ResourceId>, a4: Vec<ResourceId>, a5: Vec<ResourceId>, a6: Vec<ResourceId>, a7: Vec<ResourceId>, a8: Vec<ResourceId>, a9: Vec<ResourceId>, a10: Vec<ResourceId>, a11: Vec<ResourceId>|
                {
                &&& call_ensures(S0::reads_after_write, (), a0)
                &&& call_ensures(S1::reads_after_write, (), a1)
                &&& call_ensures(S2::reads_after_write, (), a2)
                &&& call_ensures(S3::reads_after_write, (), a3)
                &&& call_ensures(S4::reads_after_write, (), a4)
                &&& call_ensures(S5::reads_after_write, (), a5)
                &&& call_ensures(S6::reads_after_write, (), a6)
                &&& call_ensures(S7::reads_after_write, (), a7)
                &&& call_ensures(S8::reads_after_write, (), a8)
                &&& call_ensures(S9::reads_after_write, (), a9)
                &&& call_ensures(S10::reads_after_write, (), a10)
                &&& call_ensures(S11::reads_after_write, (), a11)
                &&& r@ == a0@ + (a1@ + (a2@ + (a3@ + (a4@ + (a5@ + (a6@ + (a7@ + (a8@ + (a9@ + (a10@ + (a11@)))))))))))
            },
    {
        let a0 = S0::reads_after_write();
        let a1 = S1::reads_after_write();
        let a2 = S2::reads_after_write();
        let a3 = S3::reads_after_write();
        let a4 = S4::reads_after_write();
        let a5 = S5::reads_after_write();
        let a6 = S6::reads_after_write();
        let a7 = S7::reads_after_write();
        let a8 = S8::reads_after_write();
        let a9 = S9::reads_after_write();
        let a10 = S10::reads_after_write();
        let a11 = S11::reads_after_write();
        let ghost parts = (a0, a1, a2, a3, a4, a5, a6, a7, a8, a9, a10, a11,);
        let r = join_accesses(a0, join_accesses(a1, join_accesses(a2, join_accesses(a3, join_accesses(a4, join_accesses(a5, join_accesses(a6, join_accesses(a7, join_accesses(a8, join_accesses(a9, join_accesses(a10, a11)))))))))));
        proof {
            assert({
                &&& call_ensures(S0::reads_after_write, (), parts.0)
                &&& call_ensures(S1::reads_after_write, (), parts.1)
                &&& call_ensures(S2::reads_after_write, (), parts.2)
                &&& call_ensures(S3::reads_after_write, (), parts.3)
                &&& call_ensures(S4::reads_after_write, (), parts.4)
                &&& call_ensures(S5::reads_after_write, (), parts.5)
                &&& call_ensures(S6::reads_after_write, (), parts.6)
                &&& call_ensures(S7::reads_after_write, (), parts.7)
                &&& call_ensures(S8::reads_after_write, (), parts.8)
                &&& call_ensures(S9::reads_after_write, (), parts.9)
                &&& call_ensures(S10::reads_after_write, (), parts.10)
                &&& call_ensures(S11::reads_after_write, (), parts.11)
                &&& r@ == parts.0@ + (parts.1@ + (parts.2@ + (parts.3@ + (parts.4@ + (parts.5@ + (parts.6@ + (parts.7@ + (parts.8@ + (parts.9@ + (parts.10@ + (parts.11@)))))))))))
            });
        }
        r
    }
}

impl<'r, S0: SystemData<'r>, S1: SystemData<'r>, S2: SystemData<'r>, S3: SystemData<'r>, S4: SystemData<'r>, S5: SystemData<'r>, S6: SystemData<'r>, S7: SystemData<'r>, S8: SystemData<'r>, S9: SystemData<'r>, S10: SystemData<'r>, S11: SystemData<'r>, S12: SystemData<'r>> SystemData<'r> for (S0, S1, S2, S3, S4, S5, S6, S7, S8, S9, S10, S11, S12) {
    open spec fn fetched(world: &'r World, data: Self) -> bool {
        S0::fetched(world, data.0)
            && S1::fetched(world, data.1)
            && S2::fetched(world, data.2)
            && S3::fetched(world, data.3)
            && S4::fetched(world, data.4)
            && S5::fetched(world, data.5)
            && S6::fetched(world, data.6)
            && S7::fetched(world, data.7)
            && S8::fetched(world, data.8)
            && S9::fetched(world, data.9)
            && S10::fetched(world, data.10)
            && S11::fetched(world, data.11)
            && S12::fetched(world, data.12)
    }

    fn fetch(world: &'r World) -> Self {
        (S0::fetch(world), S1::fetch(world), S2::fetch(world), S3::fetch(world), S4::fetch(world), S5::fetch(world), S6::fetch(world), S7::fetch(world), S8::fetch(world), S9::fetch(world), S10::fetch(world), S11::fetch(world), S12::fetch(world))
    }

    /// The lists of the parts, joined in order.
    fn reads_before_write() -> (r: Vec<ResourceId>)
        ensures
            exists|a0: Vec<ResourceId>, a1: Vec<ResourceId>, a2: Vec<ResourceId>, a3: Vec<ResourceId>, a4: Vec<ResourceId>, a5: Vec<ResourceId>, a6: Vec<ResourceId>, a7: Vec<ResourceId>, a8: Vec<ResourceId>, a9: Vec<ResourceId>, a10: Vec<ResourceId>, a11: Vec<ResourceId>, a12: Vec<ResourceId>|
                {
                &&& call_ensures(S0::reads_before_write, (), a0)
                &&& call_ensures(S1::reads_before_write, (), a1)
                &&& call_ensures(S2::reads_before_write, (), a2)
                &&& call_ensures(S3::reads_before_write, (), a3)
                &&& call_ensures(S4::reads_before_write, (), a4)
                &&& call_ensures(S5::reads_before_write, (), a5)
                &&& call_ensures(S6::reads_before_write, (), a6)
                &&& call_ensures(S7::reads_before_write, (), a7)
                &&& call_ensures(S8::reads_before_write, (), a8)
                &&& call_ensures(S9::reads_before_write, (), a9)
                &&& call_ensures(S10::reads_before_write, (), a10)
                &&& call_ensures(S11::reads_before_write, (), a11)
                &&& call_ensures(S12::reads_before_write, (), a12)
                &&& r@ == a0@ + (a1@ + (a2@ + (a3@ + (a4@ + (a5@ + (a6@ + (a7@ + (a8@ + (a9@ + (a10@ + (a11@ + (a12@))))))))))))
            },
    {
        let a0 = S0::reads_before_write();
        let a1 = S1::reads_before_write();
        let a2 = S2::reads_before_write();
        let a3 = S3::reads_before_write();
        let a4 = S4::reads_before_write();
        let a5 = S5::reads_before_write();
        let a6 = S6::reads_before_write();
        let a7 = S7::reads_before_write();
        let a8 = S8::reads_before_write();
        let a9 = S9::reads_before_write();
        let a10 = S10::reads_before_write();
        let a11 = S11::reads_before_write();
        let a12 = S12::reads_before_write();
        let ghost parts = (a0, a1, a2, a3, a4, a5, a6, a7, a8, a9, a10, a11, a12,);
        let r = join_accesses(a0, join_accesses(a1, join_accesses(a2, join_accesses(a3, join_accesses(a4, join_accesses(a5, join_accesses(a6, join_accesses(a7, join_accesses(a8, join_accesses(a9, join_accesses(a10, join_accesses(a11, a12))))))))))));
        proof {
            assert({
                &&& call_ensures(S0::reads_before_write, (), parts.0)
                &&& call_ensures(S1::reads_before_write, (), parts.1)
                &&& call_ensures(S2::reads_before_write, (), parts.2)
                &&& call_ensures(S3::reads_before_write, (), parts.3)
                &&& call_ensures(S4::reads_before_write, (), parts.4)
                &&& call_ensures(S5::reads_before_write, (), parts.5)
                &&& call_ensures(S6::reads_before_write, (), parts.6)
                &&& call_ensures(S7::reads_before_write, (), parts.7)
                &&& call_ensures(S8::reads_before_write, (), parts.8)
                &&& call_ensures(S9::reads_before_write, (), parts.9)
                &&& call_ensures(S10::reads_before_write, (), parts.10)
                &&& call_ensures(S11::reads_before_write, (), parts.11)
                &&& call_ensures(S12::reads_before_write, (), parts.12)
                &&& r@ == parts.0@ + (parts.1@ + (parts.2@ + (parts.3@ + (parts.4@ + (parts.5@ + (parts.6@ + (parts.7@ + (parts.8@ + (parts.9@ + (parts.10@ + (parts.11@ + (parts.12@))))))))))))
            });
        }
        r
    }

    /// The lists of the parts, joined in order.
    fn writes() -> (r: Vec<ResourceId>)
        ensures
            exists|a0: Vec<ResourceId>, a1: Vec<ResourceId>, a2: Vec<ResourceId>, a3: Vec<ResourceId>, a4: Vec<ResourceId>, a5: Vec<ResourceId>, a6: Vec<ResourceId>, a7: Vec<ResourceId>, a8: Vec<ResourceId>, a9: Vec<ResourceId>, a10: Vec<ResourceId>, a11: Vec<ResourceId>, a12: Vec<ResourceId>|
                {
                &&& call_ensures(S0::writes, (), a0)
                &&& call_ensures(S1::writes, (), a1)
                &&& call_ensures(S2::writes, (), a2)
                &&& call_ensures(S3::writes, (), a3)
                &&& call_ensures(S4::writes, (), a4)
                &&& call_ensures(S5::writes, (), a5)
                &&& call_ensures(S6::writes, (), a6)
                &&& call_ensures(S7::writes, (), a7)
                &&& call_ensures(S8::writes, (), a8)
                &&& call_ensures(S9::writes, (), a9)
                &&& call_ensures(S10::writes, (), a10)
                &&& call_ensures(S11::writes, (), a11)
                &&& call_ensures(S12::writes, (), a12)
                &&& r@ == a0@ + (a1@ + (a2@ + (a3@ + (a4@ + (a5@ + (a6@ + (a7@ + (a8@ + (a9@ + (a10@ + (a11@ + (a12@))))))))))))
            },
    {
        let a0 = S0::writes();
        let a1 = S1::writes();
        let a2 = S2::writes();
        let a3 = S3::writes();
        let a4 = S4::writes();
        let a5 = S5::writes();
        let a6 = S6::writes();
        let a7 = S7::writes();
        let a8 = S8::writes();
        let a9 = S9::writes();
        let a10 = S10::writes();
        let a11 = S11::writes();
        let a12 = S12::writes();
        let ghost parts = (a0, a1, a2, a3, a4, a5, a6, a7, a8, a9, a10, a11, a12,);
        let r = join_accesses(a0, join_accesses(a1, join_accesses(a2, join_accesses(a3, join_accesses(a4, join_accesses(a5, join_accesses(a6, join_accesses(a7, join_accesses(a8, join_accesses(a9, join_accesses(a10, join_accesses(a11, a12))))))))))));
        proof {
            assert({
                &&& call_ensures(S0::writes, (), parts.0)
                &&& call_ensures(S1::writes, (), parts.1)
                &&& call_ensures(S2::writes, (), parts.2)
                &&& call_ensures(S3::writes, (), parts.3)
                &&& call_ensures(S4::writes, (), parts.4)
                &&& call_ensures(S5::writes, (), parts.5)
                &&& call_ensures(S6::writes, (), parts.6)
                &&& call_ensures(S7::writes, (), parts.7)
                &&& call_ensures(S8::writes, (), parts.8)
                &&& call_ensures(S9::writes, (), parts.9)
                &&& call_ensures(S10::writes, (), parts.10)
                &&& call_ensures(S11::writes, (), parts.11)
                &&& call_ensures(S12::writes, (), parts.12)
                &&& r@ == parts.0@ + (parts.1@ + (parts.2@ + (parts.3@ + (parts.4@ + (parts.5@ + (parts.6@ + (parts.7@ + (parts.8@ + (parts.9@ + (parts.10@ + (parts.11@ + (parts.12@))))))))))))
            });
        }
        r
    }

    /// The lists of the parts, joined in order.
    fn reads_after_write() -> (r: Vec<ResourceId>)
        ensures
            exists|a0: Vec<ResourceId>, a1: Vec<ResourceId>, a2: Vec<ResourceId>, a3: Vec<ResourceId>, a4: Vec<ResourceId>, a5: Vec<ResourceId>, a6: Vec<ResourceId>, a7: Vec<ResourceId>, a8: Vec<ResourceId>, a9: Vec<ResourceId>, a10: Vec<ResourceId>, a11: Vec<ResourceId>, a12: Vec<ResourceId>|
                {
                &&& call_ensures(S0::reads_after_write, (), a0)
                &&& call_ensures(S1::reads_after_write, (), a1)
                &&& call_ensures(S2::reads_after_write, (), a2)
                &&& call_ensures(S3::reads_after_write, (), a3)
                &&& call_ensures(S4::reads_after_write, (), a4)
                &&& call_ensures(S5::reads_after_write, (), a5)
                &&& call_ensures(S6::reads_after_write, (), a6)
                &&& call_ensures(S7::reads_after_write, (), a7)
                &&& call_ensures(S8::reads_after_write, (), a8)
                &&& call_ensures(S9::reads_after_write, (), a9)
                &&& call_ensures(S10::reads_after_write, (), a10)
                &&& call_ensures(S11::reads_after_write, (), a11)
                &&& call_ensures(S12::reads_after_write, (), a12)
                &&& r@ == a0@ + (a1@ + (a2@ + (a3@ + (a4@ + (a5@ + (a6@ + (a7@ + (a8@ + (a9@ + (a10@ + (a11@ + (a12@))))))))))))
            },
    {
        let a0 = S0::reads_after_write();
        let a1 = S1::reads_after_write();
        let a2 = S2::reads_after_write();
        let a3 = S3::reads_after_write();
        let a4 = S4::reads_after_write();
        let a5 = S5::reads_after_write();
        let a6 = S6::reads_after_write();
        let a7 = S7::reads_after_write();
        let a8 = S8::reads_after_write();
        let a9 = S9::reads_after_write();
        let a10 = S10::reads_after_write();
        let a11 = S11::reads_after_write();
        let a12 = S12::reads_after_write();
        let ghost parts = (a0, a1, a2, a3, a4, a5, a6, a7, a8, a9, a10, a11, a12,);
        let r = join_accesses(a0, join_accesses(a1, join_accesses(a2, join_accesses(a3, join_accesses(a4, join_accesses(a5, join_accesses(a6, join_accesses(a7, join_accesses(a8, join_accesses(a9, join_accesses(a10, join_accesses(a11, a12))))))))))));
        proof {
            assert({
                &&& call_ensures(S0::reads_after_write, (), parts.0)
                &&& call_ensures(S1::reads_after_write, (), parts.1)
                &&& call_ensures(S2::reads_after_write, (), parts.2)
                &&& call_ensures(S3::reads_after_write, (), parts.3)
                &&& call_ensures(S4::reads_after_write, (), parts.4)
                &&& call_ensures(S5::reads_after_write, (), parts.5)
                &&& call_ensures(S6::reads_after_write, (), parts.6)
                &&& call_ensures(S7::reads_after_write, (), parts.7)
                &&& call_ensures(S8::reads_after_write, (), parts.8)
                &&& call_ensures(S9::reads_after_write, (), parts.9)
                &&& call_ensures(S10::reads_after_write, (), parts.10)
                &&& call_ensures(S11::reads_after_write, (), parts.11)
                &&& call_ensures(S12::reads_after_write, (), parts.12)
                &&& r@ == parts.0@ + (parts.1@ + (parts.2@ + (parts.3@ + (parts.4@ + (parts.5@ + (parts.6@ + (parts.7@ + (parts.8@ + (parts.9@ + (parts.10@ + (parts.11@ + (parts.12@))))))))))))
            });
        }
        r
    }
}

impl<'r, S0: SystemData<'r>, S1: SystemData<'r>, S2: SystemData<'r>, S3: SystemData<'r>, S4: SystemData<'r>, S5: SystemData<'r>, S6: SystemData<'r>, S7: SystemData<'r>, S8: SystemData<'r>, S9: SystemData<'r>, S10: SystemData<'r>, S11: SystemData<'r>, S12: SystemData<'r>, S13: SystemData<'r>> SystemData<'r> for (S0, S1, S2, S3, S4, S5, S6, S7, S8, S9, S10, S11, S12, S13) {
    open spec fn fetched(world: &'r World, data: Self) -> bool {
        S0::fetched(world, data.0)
            && S1::fetched(world, data.1)
            && S2::fetched(world, data.2)
            && S3::fetched(world, data.3)
            && S4::fetched(world, data.4)
            && S5::fetched(world, data.5)
            && S6::fetched(world, data.6)
            && S7::fetched(world, data.7)
            && S8::fetched(world, data.8)
            && S9::fetched(world, data.9)
            && S10::fetched(world, data.10)
            && S11::fetched(world, data.11)
            && S12::fetched(world, data.12)
            && S13::fetched(world, data.13)
    }

    fn fetch(world: &'r World) -> Self {
        (S0::fetch(world), S1::fetch(world), S2::fetch(world), S3::fetch(world), S4::fetch(world), S5::fetch(world), S6::fetch(world), S7::fetch(world), S8::fetch(world), S9::fetch(world), S10::fetch(world), S11::fetch(world), S12::fetch(world), S13::fetch(world))
    }

    /// The lists of the parts, joined in order.
    fn reads_before_write() -> (r: Vec<ResourceId>)
        ensures
            exists|a0: Vec<ResourceId>, a1: Vec<ResourceId>, a2: Vec<ResourceId>, a3: Vec<ResourceId>, a4: Vec<ResourceId>, a5: Vec<ResourceId>, a6: Vec<ResourceId>, a7: Vec<ResourceId>, a8: Vec<ResourceId>, a9: Vec<ResourceId>, a10: Vec<ResourceId>, a11: Vec<ResourceId>, a12: Vec<ResourceId>, a13: Vec<ResourceId>|
                {
                &&& call_ensures(S0::reads_before_write, (), a0)
                &&& call_ensures(S1::reads_before_write, (), a1)
                &&& call_ensures(S2::reads_before_write, (), a2)
                &&& call_ensures(S3::reads_before_write, (), a3)
                &&& call_ensures(S4::reads_before_write, (), a4)
                &&& call_ensures(S5::reads_before_write, (), a5)
                &&& call_ensures(S6::reads_before_write, (), a6)
                &&& call_ensures(S7::reads_before_write, (), a7)
                &&& call_ensures(S8::reads_before_write, (), a8)
                &&& call_ensures(S9::reads_before_write, (), a9)
                &&& call_ensures(S10::reads_before_write, (), a10)
                &&& call_ensures(S11::reads_before_write, (), a11)
                &&& call_ensures(S12::reads_before_write, (), a12)
                &&& call_ensures(S13::reads_before_write, (), a13)
                &&& r@ == a0@ + (a1@ + (a2@ + (a3@ + (a4@ + (a5@ + (a6@ + (a7@ + (a8@ + (a9@ + (a10@ + (a11@ + (a12@ + (a13@)))))))))))))
            },
    {
        let a0 = S0::reads_before_write();
        let a1 = S1::reads_before_write();
        let a2 = S2::reads_before_write();
        let a3 = S3::reads_before_write();
        let a4 = S4::reads_before_write();
        let a5 = S5::reads_before_write();
        let a6 = S6::reads_before_write();
        let a7 = S7::reads_before_write();
        let a8 = S8::reads_before_write();
        let a9 = S9::reads_before_write();
        let a10 = S10::reads_before_write();
        let a11 = S11::reads_before_write();
        let a12 = S12::reads_before_write();
        let a13 = S13::reads_before_write();
        let ghost parts = (a0, a1, a2, a3, a4, a5, a6, a7, a8, a9, a10, a11, a12, a13,);
        let r = join_accesses(a0, join_accesses(a1, join_accesses(a2, join_accesses(a3, join_accesses(a4, join_accesses(a5, join_accesses(a6, join_accesses(a7, join_accesses(a8, join_accesses(a9, join_accesses(a10, join_accesses(a11, join_accesses(a12, a13)))))))))))));
        proof {
            assert({
                &&& call_ensures(S0::reads_before_write, (), parts.0)
                &&& call_ensures(S1::reads_before_write, (), parts.1)
                &&& call_ensures(S2::reads_before_write, (), parts.2)
                &&& call_ensures(S3::reads_before_write, (), parts.3)
                &&& call_ensures(S4::reads_before_write, (), parts.4)
                &&& call_ensures(S5::reads_before_write, (), parts.5)
                &&& call_ensures(S6::reads_before_write, (), parts.6)
                &&& call_ensures(S7::reads_before_write, (), parts.7)
                &&& call_ensures(S8::reads_before_write, (), parts.8)
                &&& call_ensures(S9::reads_before_write, (), parts.9)
                &&& call_ensures(S10::reads_before_write, (), parts.10)
                &&& call_ensures(S11::reads_before_write, (), parts.11)
                &&& call_ensures(S12::reads_before_write, (), parts.12)
                &&& call_ensures(S13::reads_before_write, (), parts.13)
                &&& r@ == parts.0@ + (parts.1@ + (parts.2@ + (parts.3@ + (parts.4@ + (parts.5@ + (parts.6@ + (parts.7@ + (parts.8@ + (parts.9@ + (parts.10@ + (parts.11@ + (parts.12@ + (parts.13@)))))))))))))
            });
        }
        r
    }

    /// The lists of the parts, joined in order.
    fn writes() -> (r: Vec<ResourceId>)
        ensures
            exists|a0: Vec<ResourceId>, a1: Vec<ResourceId>, a2: Vec<ResourceId>, a3: Vec<ResourceId>, a4: Vec<ResourceId>, a5: Vec<ResourceId>, a6: Vec<ResourceId>, a7: Vec<ResourceId>, a8: Vec<ResourceId>, a9: Vec<ResourceId>, a10: Vec<ResourceId>, a11: Vec<ResourceId>, a12: Vec<ResourceId>, a13: Vec<ResourceId>|
                {
                &&& call_ensures(S0::writes, (), a0)
                &&& call_ensures(S1::writes, (), a1)
                &&& call_ensures(S2::writes, (), a2)
                &&& call_ensures(S3::writes, (), a3)
                &&& call_ensures(S4::writes, (), a4)
                &&& call_ensures(S5::writes, (), a5)
                &&& call_ensures(S6::writes, (), a6)
                &&& call_ensures(S7::writes, (), a7)
                &&& call_ensures(S8::writes, (), a8)
                &&& call_ensures(S9::writes, (), a9)
                &&& call_ensures(S10::writes, (), a10)
                &&& call_ensures(S11::writes, (), a11)
                &&& call_ensures(S12::writes, (), a12)
                &&& call_ensures(S13::writes, (), a13)
                &&& r@ == a0@ + (a1@ + (a2@ + (a3@ + (a4@ + (a5@ + (a6@ + (a7@ + (a8@ + (a9@ + (a10@ + (a11@ + (a12@ + (a13@)))))))))))))
            },
    {
        let a0 = S0::writes();
        let a1 = S1::writes();
        let a2 = S2::writes();
        let a3 = S3::writes();
        let a4 = S4::writes();
        let a5 = S5::writes();
        let a6 = S6::writes();
        let a7 = S7::writes();
        let a8 = S8::writes();
        let a9 = S9::writes();
        let a10 = S10::writes();
        let a11 = S11::writes();
        let a12 = S12::writes();
        let a13 = S13::writes();
        let ghost parts = (a0, a1, a2, a3, a4, a5, a6, a7, a8, a9, a10, a11, a12, a13,);
        let r = join_accesses(a0, join_accesses(a1, join_accesses(a2, join_accesses(a3, join_accesses(a4, join_accesses(a5, join_accesses(a6, join_accesses(a7, join_accesses(a8, join_accesses(a9, join_accesses(a10, join_accesses(a11, join_accesses(a12, a13)))))))))))));
        proof {
            assert({
                &&& call_ensures(S0::writes, (), parts.0)
                &&& call_ensures(S1::writes, (), parts.1)
                &&& call_ensures(S2::writes, (), parts.2)
                &&& call_ensures(S3::writes, (), parts.3)
                &&& call_ensures(S4::writes, (), parts.4)
                &&& call_ensures(S5::writes, (), parts.5)
                &&& call_ensures(S6::writes, (), parts.6)
                &&& call_ensures(S7::writes, (), parts.7)
                &&& call_ensures(S8::writes, (), parts.8)
                &&& call_ensures(S9::writes, (), parts.9)
                &&& call_ensures(S10::writes, (), parts.10)
                &&& call_ensures(S11::writes, (), parts.11)
                &&& call_ensures(S12::writes, (), parts.12)
                &&& call_ensures(S13::writes, (), parts.13)
                &&& r@ == parts.0@ + (parts.1@ + (parts.2@ + (parts.3@ + (parts.4@ + (parts.5@ + (parts.6@ + (parts.7@ + (parts.8@ + (parts.9@ + (parts.10@ + (parts.11@ + (parts.12@ + (parts.13@)))))))))))))
            });
        }
        r
    }

    /// The lists of the parts, joined in order.
    fn reads_after_write() -> (r: Vec<ResourceId>)
        ensures
            exists|a0: Vec<ResourceId>, a1: Vec<ResourceId>, a2: Vec<ResourceId>, a3: Vec<ResourceId>, a4: Vec<ResourceId>, a5: Vec<ResourceId>, a6: Vec<ResourceId>, a7: Vec<ResourceId>, a8: Vec<ResourceId>, a9: Vec<ResourceId>, a10: Vec<ResourceId>, a11: Vec<ResourceId>, a12: Vec<ResourceId>, a13: Vec<ResourceId>|
                {
                &&& call_ensures(S0::reads_after_write, (), a0)
                &&& call_ensures(S1::reads_after_write, (), a1)
                &&& call_ensures(S2::reads_after_write, (), a2)
                &&& call_ensures(S3::reads_after_write, (), a3)
                &&& call_ensures(S4::reads_after_write, (), a4)
                &&& call_ensures(S5::reads_after_write, (), a5)
                &&& call_ensures(S6::reads_after_write, (), a6)
                &&& call_ensures(S7::reads_after_write, (), a7)
                &&& call_ensures(S8::reads_after_write, (), a8)
                &&& call_ensures(S9::reads_after_write, (), a9)
                &&& call_ensures(S10::reads_after_write, (), a10)
                &&& call_ensures(S11::reads_after_write, (), a11)
                &&& call_ensures(S12::reads_after_write, (), a12)
                &&& call_ensures(S13::reads_after_write, (), a13)
                &&& r@ == a0@ + (a1@ + (a2@ + (a3@ + (a4@ + (a5@ + (a6@ + (a7@ + (a8@ + (a9@ + (a10@ + (a11@ + (a12@ + (a13@)))))))))))))
            },
    {
        let a0 = S0::reads_after_write();
        let a1 = S1::reads_after_write();
        let a2 = S2::reads_after_write();
        let a3 = S3::reads_after_write();
        let a4 = S4::reads_after_write();
        let a5 = S5::reads_after_write();
        let a6 = S6::reads_after_write();
        let a7 = S7::reads_after_write();
        let a8 = S8::reads_after_write();
        let a9 = S9::reads_after_write();
        let a10 = S10::reads_after_write();
        let a11 = S11::reads_after_write();
        let a12 = S12::reads_after_write();
        let a13 = S13::reads_after_write();
        let ghost parts = (a0, a1, a2, a3, a4, a5, a6, a7, a8, a9, a10, a11, a12, a13,);
        let r = join_accesses(a0, join_accesses(a1, join_accesses(a2, join_accesses(a3, join_accesses(a4, join_accesses(a5, join_accesses(a6, join_accesses(a7, join_accesses(a8, join_accesses(a9, join_accesses(a10, join_accesses(a11, join_accesses(a12, a13)))))))))))));
        proof {
            assert({
                &&& call_ensures(S0::reads_after_write, (), parts.0)
                &&& call_ensures(S1::reads_after_write, (), parts.1)
                &&& call_ensures(S2::reads_after_write, (), parts.2)
                &&& call_ensures(S3::reads_after_write, (), parts.3)
                &&& call_ensures(S4::reads_after_write, (), parts.4)
                &&& call_ensures(S5::reads_after_write, (), parts.5)
                &&& call_ensures(S6::reads_after_write, (), parts.6)
                &&& call_ensures(S7::reads_after_write, (), parts.7)
                &&& call_ensures(S8::reads_after_write, (), parts.8)
                &&& call_ensures(S9::reads_after_write, (), parts.9)
                &&& call_ensures(S10::reads_after_write, (), parts.10)
                &&& call_ensures(S11::reads_after_write, (), parts.11)
                &&& call_ensures(S12::reads_after_write, (), parts.12)
                &&& call_ensures(S13::reads_after_write, (), parts.13)
                &&& r@ == parts.0@ + (parts.1@ + (parts.2@ + (parts.3@ + (parts.4@ + (parts.5@ + (parts.6@ + (parts.7@ + (parts.8@ + (parts.9@ + (parts.10@ + (parts.11@ + (parts.12@ + (parts.13@)))))))))))))
            });
        }
        r
    }
}

impl<'r, S0: SystemData<'r>, S1: SystemData<'r>, S2: SystemData<'r>, S3: SystemData<'r>, S4: SystemData<'r>, S5: SystemData<'r>, S6: SystemData<'r>, S7: SystemData<'r>, S8: SystemData<'r>, S9: SystemData<'r>, S10: SystemData<'r>, S11: SystemData<'r>, S12: SystemData<'r>, S13: SystemData<'r>, S14: SystemData<'r>> SystemData<'r> for (S0, S1, S2, S3, S4, S5, S6, S7, S8, S9, S10, S11, S12, S13, S14) {
    open spec fn fetched(world: &'r World, data: Self) -> bool {
        S0::fetched(world, data.0)
            && S1::fetched(world, data.1)
            && S2::fetched(world, data.2)
            && S3::fetched(world, data.3)
            && S4::fetched(world, data.4)
            && S5::fetched(world, data.5)
            && S6::fetched(world, data.6)
            && S7::fetched(world, data.7)
            && S8::fetched(world, data.8)
            && S9::fetched(world, data.9)
            && S10::fetched(world, data.10)
            && S11::fetched(world, data.11)
            && S12::fetched(world, data.12)
            && S13::fetched(world, data.13)
            && S14::fetched(world, data.14)
    }

    fn fetch(world: &'r World) -> Self {
        (S0::fetch(world), S1::fetch(world), S2::fetch(world), S3::fetch(world), S4::fetch(world), S5::fetch(world), S6::fetch(world), S7::fetch(world), S8::fetch(world), S9::fetch(world), S10::fetch(world), S11::fetch(world), S12::fetch(world), S13::fetch(world), S14::fetch(world))
    }

    /// The lists of the parts, joined in order.
    fn reads_before_write() -> (r: Vec<ResourceId>)
        ensures
            exists|a0: Vec<ResourceId>, a1: Vec<ResourceId>, a2: Vec<ResourceId>, a3: Vec<ResourceId>, a4: Vec<ResourceId>, a5: Vec<ResourceId>, a6: Vec<ResourceId>, a7: Vec<ResourceId>, a8: Vec<ResourceId>, a9: Vec<ResourceId>, a10: Vec<ResourceId>, a11: Vec<ResourceId>, a12: Vec<ResourceId>, a13: Vec<ResourceId>, a14: Vec<ResourceId>|
                {
                &&& call_ensures(S0::reads_before_write, (), a0)
                &&& call_ensures(S1::reads_before_write, (), a1)
                &&& call_ensures(S2::reads_before_write, (), a2)
                &&& call_ensures(S3::reads_before_write, (), a3)
                &&& call_ensures(S4::reads_before_write, (), a4)
                &&& call_ensures(S5::reads_before_write, (), a5)
                &&& call_ensures(S6::reads_before_write, (), a6)
                &&& call_ensures(S7::reads_before_write, (), a7)
                &&& call_ensures(S8::reads_before_write, (), a8)
                &&& call_ensures(S9::reads_before_write, (), a9)
                &&& call_ensures(S10::reads_before_write, (), a10)
                &&& call_ensures(S11::reads_before_write, (), a11)
                &&& call_ensures(S12::reads_before_write, (), a12)
                &&& call_ensures(S13::reads_before_write, (), a13)
                &&& call_ensures(S14::reads_before_write, (), a14)
                &&& r@ == a0@ + (a1@ + (a2@ + (a3@ + (a4@ + (a5@ + (a6@ + (a7@ + (a8@ + (a9@ + (a10@ + (a11@ + (a12@ + (a13@ + (a14@))))))))))))))
            },
    {
        let a0 = S0::reads_before_write();
        let a1 = S1::reads_before_write();
        let a2 = S2::reads_before_write();
        let a3 = S3::reads_before_write();
        let a4 = S4::reads_before_write();
        let a5 = S5::reads_before_write();
        let a6 = S6::reads_before_write();
        let a7 = S7::reads_before_write();
        let a8 = S8::reads_before_write();
        let a9 = S9::reads_before_write();
        let a10 = S10::reads_before_write();
        let a11 = S11::reads_before_write();
        let a12 = S12::reads_before_write();
        let a13 = S13::reads_before_write();
        let a14 = S14::reads_before_write();
        let ghost parts = (a0, a1, a2, a3, a4, a5, a6, a7, a8, a9, a10, a11, a12, a13, a14,);
        let r = join_accesses(a0, join_accesses(a1, join_accesses(a2, join_accesses(a3, join_accesses(a4, join_accesses(a5, join_accesses(a6, join_accesses(a7, join_accesses(a8, join_accesses(a9, join_accesses(a10, join_accesses(a11, join_accesses(a12, join_accesses(a13, a14))))))))))))));
        proof {
            assert({
                &&& call_ensures(S0::reads_before_write, (), parts.0)
                &&& call_ensures(S1::reads_before_write, (), parts.1)
                &&& call_ensures(S2::reads_before_write, (), parts.2)
                &&& call_ensures(S3::reads_before_write, (), parts.3)
                &&& call_ensures(S4::reads_before_write, (), parts.4)
                &&& call_ensures(S5::reads_before_write, (), parts.5)
                &&& call_ensures(S6::reads_before_write, (), parts.6)
                &&& call_ensures(S7::reads_before_write, (), parts.7)
                &&& call_ensures(S8::reads_before_write, (), parts.8)
                &&& call_ensures(S9::reads_before_write, (), parts.9)
                &&& call_ensures(S10::reads_before_write, (), parts.10)
                &&& call_ensures(S11::reads_before_write, (), parts.11)
                &&& call_ensures(S12::reads_before_write, (), parts.12)
                &&& call_ensures(S13::reads_before_write, (), parts.13)
                &&& call_ensures(S14::reads_before_write, (), parts.14)
                &&& r@ == parts.0@ + (parts.1@ + (parts.2@ + (parts.3@ + (parts.4@ + (parts.5@ + (parts.6@ + (parts.7@ + (parts.8@ + (parts.9@ + (parts.10@ + (parts.11@ + (parts.12@ + (parts.13@ + (parts.14@))))))))))))))
            });
        }
        r
    }

    /// The lists of the parts, joined in order.
    fn writes() -> (r: Vec<ResourceId>)
        ensures
            exists|a0: Vec<ResourceId>, a1: Vec<ResourceId>, a2: Vec<ResourceId>, a3: Vec<ResourceId>, a4: Vec<ResourceId>, a5: Vec<ResourceId>, a6: Vec<ResourceId>, a7: Vec<ResourceId>, a8: Vec<ResourceId>, a9: Vec<ResourceId>, a10: Vec<ResourceId>, a11: Vec<ResourceId>, a12: Vec<ResourceId>, a13: Vec<ResourceId>, a14: Vec<ResourceId>|
                {
                &&& call_ensures(S0::writes, (), a0)
                &&& call_ensures(S1::writes, (), a1)
                &&& call_ensures(S2::writes, (), a2)
                &&& call_ensures(S3::writes, (), a3)
                &&& call_ensures(S4::writes, (), a4)
                &&& call_ensures(S5::writes, (), a5)
                &&& call_ensures(S6::writes, (), a6)
                &&& call_ensures(S7::writes, (), a7)
                &&& call_ensures(S8::writes, (), a8)
                &&& call_ensures(S9::writes, (), a9)
                &&& call_ensures(S10::writes, (), a10)
                &&& call_ensures(S11::writes, (), a11)
                &&& call_ensures(S12::writes, (), a12)
                &&& call_ensures(S13::writes, (), a13)
                &&& call_ensures(S14::writes, (), a14)
                &&& r@ == a0@ + (a1@ + (a2@ + (a3@ + (a4@ + (a5@ + (a6@ + (a7@ + (a8@ + (a9@ + (a10@ + (a11@ + (a12@ + (a13@ + (a14@))))))))))))))
            },
    {
        let a0 = S0::writes();
        let a1 = S1::writes();
        let a2 = S2::writes();
        let a3 = S3::writes();
        let a4 = S4::writes();
        let a5 = S5::writes();
        let a6 = S6::writes();
        let a7 = S7::writes();
        let a8 = S8::writes();
        let a9 = S9::writes();
        let a10 = S10::writes();
        let a11 = S11::writes();
        let a12 = S12::writes();
        let a13 = S13::writes();
        let a14 = S14::writes();
        let ghost parts = (a0, a1, a2, a3, a4, a5, a6, a7, a8, a9, a10, a11, a12, a13, a14,);
        let r = join_accesses(a0, join_accesses(a1, join_accesses(a2, join_accesses(a3, join_accesses(a4, join_accesses(a5, join_accesses(a6, join_accesses(a7, join_accesses(a8, join_accesses(a9, join_accesses(a10, join_accesses(a11, join_accesses(a12, join_accesses(a13, a14))))))))))))));
        proof {
            assert({
                &&& call_ensures(S0::writes, (), parts.0)
                &&& call_ensures(S1::writes, (), parts.1)
                &&& call_ensures(S2::writes, (), parts.2)
                &&& call_ensures(S3::writes, (), parts.3)
                &&& call_ensures(S4::writes, (), parts.4)
                &&& call_ensures(S5::writes, (), parts.5)
                &&& call_ensures(S6::writes, (), parts.6)
                &&& call_ensures(S7::writes, (), parts.7)
                &&& call_ensures(S8::writes, (), parts.8)
                &&& call_ensures(S9::writes, (), parts.9)
                &&& call_ensures(S10::writes, (), parts.10)
                &&& call_ensures(S11::writes, (), parts.11)
                &&& call_ensures(S12::writes, (), parts.12)
                &&& call_ensures(S13::writes, (), parts.13)
                &&& call_ensures(S14::writes, (), parts.14)
                &&& r@ == parts.0@ + (parts.1@ + (parts.2@ + (parts.3@ + (parts.4@ + (parts.5@ + (parts.6@ + (parts.7@ + (parts.8@ + (parts.9@ + (parts.10@ + (parts.11@ + (parts.12@ + (parts.13@ + (parts.14@))))))))))))))
            });
        }
        r
    }

    /// The lists of the parts, joined in order.
    fn reads_after_write() -> (r: Vec<ResourceId>)
        ensures
            exists|a0: Vec<ResourceId>, a1: Vec<ResourceId>, a2: Vec<ResourceId>, a3: Vec<ResourceId>, a4: Vec<ResourceId>, a5: Vec<ResourceId>, a6: Vec<ResourceId>, a7: Vec<ResourceId>, a8: Vec<ResourceId>, a9: Vec<ResourceId>, a10: Vec<ResourceId>, a11: Vec<ResourceId>, a12: Vec<ResourceId>, a13: Vec<ResourceId>, a14: Vec<ResourceId>|
                {
                &&& call_ensures(S0::reads_after_write, (), a0)
                &&& call_ensures(S1::reads_after_write, (), a1)
                &&& call_ensures(S2::reads_after_write, (), a2)
                &&& call_ensures(S3::reads_after_write, (), a3)
                &&& call_ensures(S4::reads_after_write, (), a4)
                &&& call_ensures(S5::reads_after_write, (), a5)
                &&& call_ensures(S6::reads_after_write, (), a6)
                &&& call_ensures(S7::reads_after_write, (), a7)
                &&& call_ensures(S8::reads_after_write, (), a8)
                &&& call_ensures(S9::reads_after_write, (), a9)
                &&& call_ensures(S10::reads_after_write, (), a10)
                &&& call_ensures(S11::reads_after_write, (), a11)
                &&& call_ensures(S12::reads_after_write, (), a12)
                &&& call_ensures(S13::reads_after_write, (), a13)
                &&& call_ensures(S14::reads_after_write, (), a14)
                &&& r@ == a0@ + (a1@ + (a2@ + (a3@ + (a4@ + (a5@ + (a6@ + (a7@ + (a8@ + (a9@ + (a10@ + (a11@ + (a12@ + (a13@ + (a14@))))))))))))))
            },
    {
        let a0 = S0::reads_after_write();
        let a1 = S1::reads_after_write();
        let a2 = S2::reads_after_write();
        let a3 = S3::reads_after_write();
        let a4 = S4::reads_after_write();
        let a5 = S5::reads_after_write();
        let a6 = S6::reads_after_write();
        let a7 = S7::reads_after_write();
        let a8 = S8::reads_after_write();
        let a9 = S9::reads_after_write();
        let a10 = S10::reads_after_write();
        let a11 = S11::reads_after_write();
        let a12 = S12::reads_after_write();
        let a13 = S13::reads_after_write();
        let a14 = S14::reads_after_write();
        let ghost parts = (a0, a1, a2, a3, a4, a5, a6, a7, a8, a9, a10, a11, a12, a13, a14,);
        let r = join_accesses(a0, join_accesses(a1, join_accesses(a2, join_accesses(a3, join_accesses(a4, join_accesses(a5, join_accesses(a6, join_accesses(a7, join_accesses(a8, join_accesses(a9, join_accesses(a10, join_accesses(a11, join_accesses(a12, join_accesses(a13, a14))))))))))))));
        proof {
            assert({
                &&& call_ensures(S0::reads_after_write, (), parts.0)
                &&& call_ensures(S1::reads_after_write, (), parts.1)
                &&& call_ensures(S2::reads_after_write, (), parts.2)
                &&& call_ensures(S3::reads_after_write, (), parts.3)
                &&& call_ensures(S4::reads_after_write, (), parts.4)
                &&& call_ensures(S5::reads_after_write, (), parts.5)
                &&& call_ensures(S6::reads_after_write, (), parts.6)
                &&& call_ensures(S7::reads_after_write, (), parts.7)
                &&& call_ensures(S8::reads_after_write, (), parts.8)
                &&& call_ensures(S9::reads_after_write, (), parts.9)
                &&& call_ensures(S10::reads_after_write, (), parts.10)
                &&& call_ensures(S11::reads_after_write, (), parts.11)
                &&& call_ensures(S12::reads_after_write, (), parts.12)
                &&& call_ensures(S13::reads_after_write, (), parts.13)
                &&& call_ensures(S14::reads_after_write, (), parts.14)
                &&& r@ == parts.0@ + (parts.1@ + (parts.2@ + (parts.3@ + (parts.4@ + (parts.5@ + (parts.6@ + (parts.7@ + (parts.8@ + (parts.9@ + (parts.10@ + (parts.11@ + (parts.12@ + (parts.13@ + (parts.14@))))))))))))))
            });
        }
        r
    }
}

impl<'r, S0: SystemData<'r>, S1: SystemData<'r>, S2: SystemData<'r>, S3: SystemData<'r>, S4: SystemData<'r>, S5: SystemData<'r>, S6: SystemData<'r>, S7: SystemData<'r>, S8: SystemData<'r>, S9: SystemData<'r>, S10: SystemData<'r>, S11: SystemData<'r>, S12: SystemData<'r>, S13: SystemData<'r>, S14: SystemData<'r>, S15: SystemData<'r>> SystemData<'r> for (S0, S1, S2, S3, S4, S5, S6, S7, S8, S9, S10, S11, S12, S13, S14, S15) {
    open spec fn fetched(world: &'r World, data: Self) -> bool {
        S0::fetched(world, data.0)
            && S1::fetched(world, data.1)
            && S2::fetched(world, data.2)
            && S3::fetched(world, data.3)
            && S4::fetched(world, data.4)
            && S5::fetched(world, data.5)
            && S6::fetched(world, data.6)
            && S7::fetched(world, data.7)
            && S8::fetched(world, data.8)
            && S9::fetched(world, data.9)
            && S10::fetched(world, data.10)
            && S11::fetched(world, data.11)
            && S12::fetched(world, data.12)
            && S13::fetched(world, data.13)
            && S14::fetched(world, data.14)
            && S15::fetched(world, data.15)
    }

    fn fetch(world: &'r World) -> Self {
        (S0::fetch(world), S1::fetch(world), S2::fetch(world), S3::fetch(world), S4::fetch(world), S5::fetch(world), S6::fetch(world), S7::fetch(world), S8::fetch(world), S9::fetch(world), S10::fetch(world), S11::fetch(world), S12::fetch(world), S13::fetch(world), S14::fetch(world), S15::fetch(world))
    }

    /// The lists of the parts, joined in order.
    fn reads_before_write() -> (r: Vec<ResourceId>)
        ensures
            exists|a0: Vec<ResourceId>, a1: Vec<ResourceId>, a2: Vec<ResourceId>, a3: Vec<ResourceId>, a4: Vec<ResourceId>, a5: Vec<ResourceId>, a6: Vec<ResourceId>, a7: Vec<ResourceId>, a8: Vec<ResourceId>, a9: Vec<ResourceId>, a10: Vec<ResourceId>, a11: Vec<ResourceId>, a12: Vec<ResourceId>, a13: Vec<ResourceId>, a14: Vec<ResourceId>, a15: Vec<ResourceId>|
                {
                &&& call_ensures(S0::reads_before_write, (), a0)
                &&& call_ensures(S1::reads_before_write, (), a1)
                &&& call_ensures(S2::reads_before_write, (), a2)
                &&& call_ensures(S3::reads_before_write, (), a3)
                &&& call_ensures(S4::reads_before_write, (), a4)
                &&& call_ensures(S5::reads_before_write, (), a5)
                &&& call_ensures(S6::reads_before_write, (), a6)
                &&& call_ensures(S7::reads_before_write, (), a7)
                &&& call_ensures(S8::reads_before_write, (), a8)
                &&& call_ensures(S9::reads_before_write, (), a9)
                &&& call_ensures(S10::reads_before_write, (), a10)
                &&& call_ensures(S11::reads_before_write, (), a11)
                &&& call_ensures(S12::reads_before_write, (), a12)
                &&& call_ensures(S13::reads_before_write, (), a13)
                &&& call_ensures(S14::reads_before_write, (), a14)
                &&& call_ensures(S15::reads_before_write, (), a15)
                &&& r@ == a0@ + (a1@ + (a2@ + (a3@ + (a4@ + (a5@ + (a6@ + (a7@ + (a8@ + (a9@ + (a10@ + (a11@ + (a12@ + (a13@ + (a14@ + (a15@)))))))))))))))
            },
    {
        let a0 = S0::reads_before_write();
        let a1 = S1::reads_before_write();
        let a2 = S2::reads_before_write();
        let a3 = S3::reads_before_write();
        let a4 = S4::reads_before_write();
        let a5 = S5::reads_before_write();
        let a6 = S6::reads_before_write();
        let a7 = S7::reads_before_write();
        let a8 = S8::reads_before_write();
        let a9 = S9::reads_before_write();
        let a10 = S10::reads_before_write();
        let a11 = S11::reads_before_write();
        let a12 = S12::reads_before_write();
        let a13 = S13::reads_before_write();
        let a14 = S14::reads_before_write();
        let a15 = S15::reads_before_write();
        let ghost parts = (a0, a1, a2, a3, a4, a5, a6, a7, a8, a9, a10, a11, a12, a13, a14, a15,);
        let r = join_accesses(a0, join_accesses(a1, join_accesses(a2, join_accesses(a3, join_accesses(a4, join_accesses(a5, join_accesses(a6, join_accesses(a7, join_accesses(a8, join_accesses(a9, join_accesses(a10, join_accesses(a11, join_accesses(a12, join_accesses(a13, join_accesses(a14, a15)))))))))))))));
        proof {
            assert({
                &&& call_ensures(S0::reads_before_write, (), parts.0)
                &&& call_ensures(S1::reads_before_write, (), parts.1)
                &&& call_ensures(S2::reads_before_write, (), parts.2)
                &&& call_ensures(S3::reads_before_write, (), parts.3)
                &&& call_ensures(S4::reads_before_write, (), parts.4)
                &&& call_ensures(S5::reads_before_write, (), parts.5)
                &&& call_ensures(S6::reads_before_write, (), parts.6)
                &&& call_ensures(S7::reads_before_write, (), parts.7)
                &&& call_ensures(S8::reads_before_write, (), parts.8)
                &&& call_ensures(S9::reads_before_write, (), parts.9)
                &&& call_ensures(S10::reads_before_write, (), parts.10)
                &&& call_ensures(S11::reads_before_write, (), parts.11)
                &&& call_ensures(S12::reads_before_write, (), parts.12)
                &&& call_ensures(S13::reads_before_write, (), parts.13)
                &&& call_ensures(S14::reads_before_write, (), parts.14)
                &&& call_ensures(S15::reads_before_write, (), parts.15)
                &&& r@ == parts.0@ + (parts.1@ + (parts.2@ + (parts.3@ + (parts.4@ + (parts.5@ + (parts.6@ + (parts.7@ + (parts.8@ + (parts.9@ + (parts.10@ + (parts.11@ + (parts.12@ + (parts.13@ + (parts.14@ + (parts.15@)))))))))))))))
            });
        }
        r
    }

    /// The lists of the parts, joined in order.
    fn writes() -> (r: Vec<ResourceId>)
        ensures
            exists|a0: Vec<ResourceId>, a1: Vec<ResourceId>, a2: Vec<ResourceId>, a3: Vec<ResourceId>, a4: Vec<ResourceId>, a5: Vec<ResourceId>, a6: Vec<ResourceId>, a7: Vec<ResourceId>, a8: Vec<ResourceId>, a9: Vec<ResourceId>, a10: Vec<ResourceId>, a11: Vec<ResourceId>, a12: Vec<ResourceId>, a13: Vec<ResourceId>, a14: Vec<ResourceId>, a15: Vec<ResourceId>|
                {
                &&& call_ensures(S0::writes, (), a0)
                &&& call_ensures(S1::writes, (), a1)
                &&& call_ensures(S2::writes, (), a2)
                &&& call_ensures(S3::writes, (), a3)
                &&& call_ensures(S4::writes, (), a4)
                &&& call_ensures(S5::writes, (), a5)
                &&& call_ensures(S6::writes, (), a6)
                &&& call_ensures(S7::writes, (), a7)
                &&& call_ensures(S8::writes, (), a8)
                &&& call_ensures(S9::writes, (), a9)
                &&& call_ensures(S10::writes, (), a10)
                &&& call_ensures(S11::writes, (), a11)
                &&& call_ensures(S12::writes, (), a12)
                &&& call_ensures(S13::writes, (), a13)
                &&& call_ensures(S14::writes, (), a14)
                &&& call_ensures(S15::writes, (), a15)
                &&& r@ == a0@ + (a1@ + (a2@ + (a3@ + (a4@ + (a5@ + (a6@ + (a7@ + (a8@ + (a9@ + (a10@ + (a11@ + (a12@ + (a13@ + (a14@ + (a15@)))))))))))))))
            },
    {
        let a0 = S0::writes();
        let a1 = S1::writes();
        let a2 = S2::writes();
        let a3 = S3::writes();
        let a4 = S4::writes();
        let a5 = S5::writes();
        let a6 = S6::writes();
        let a7 = S7::writes();
        let a8 = S8::writes();
        let a9 = S9::writes();
        let a10 = S10::writes();
        let a11 = S11::writes();
        let a12 = S12::writes();
        let a13 = S13::writes();
        let a14 = S14::writes();
        let a15 = S15::writes();
        let ghost parts = (a0, a1, a2, a3, a4, a5, a6, a7, a8, a9, a10, a11, a12, a13, a14, a15,);
        let r = join_accesses(a0, join_accesses(a1, join_accesses(a2, join_accesses(a3, join_accesses(a4, join_accesses(a5, join_accesses(a6, join_accesses(a7, join_accesses(a8, join_accesses(a9, join_accesses(a10, join_accesses(a11, join_accesses(a12, join_accesses(a13, join_accesses(a14, a15)))))))))))))));
        proof {
            assert({
                &&& call_ensures(S0::writes, (), parts.0)
                &&& call_ensures(S1::writes, (), parts.1)
                &&& call_ensures(S2::writes, (), parts.2)
                &&& call_ensures(S3::writes, (), parts.3)
                &&& call_ensures(S4::writes, (), parts.4)
                &&& call_ensures(S5::writes, (), parts.5)
                &&& call_ensures(S6::writes, (), parts.6)
                &&& call_ensures(S7::writes, (), parts.7)
                &&& call_ensures(S8::writes, (), parts.8)
                &&& call_ensures(S9::writes, (), parts.9)
                &&& call_ensures(S10::writes, (), parts.10)
                &&& call_ensures(S11::writes, (), parts.11)
                &&& call_ensures(S12::writes, (), parts.12)
                &&& call_ensures(S13::writes, (), parts.13)
                &&& call_ensures(S14::writes, (), parts.14)
                &&& call_ensures(S15::writes, (), parts.15)
                &&& r@ == parts.0@ + (parts.1@ + (parts.2@ + (parts.3@ + (parts.4@ + (parts.5@ + (parts.6@ + (parts.7@ + (parts.8@ + (parts.9@ + (parts.10@ + (parts.11@ + (parts.12@ + (parts.13@ + (parts.14@ + (parts.15@)))))))))))))))
            });
        }
        r
    }

    /// The lists of the parts, joined in order.
    fn reads_after_write() -> (r: Vec<ResourceId>)
        ensures
            exists|a0: Vec<ResourceId>, a1: Vec<ResourceId>, a2: Vec<ResourceId>, a3: Vec<ResourceId>, a4: Vec<ResourceId>, a5: Vec<ResourceId>, a6: Vec<ResourceId>, a7: Vec<ResourceId>, a8: Vec<ResourceId>, a9: Vec<ResourceId>, a10: Vec<ResourceId>, a11: Vec<ResourceId>, a12: Vec<ResourceId>, a13: Vec<ResourceId>, a14: Vec<ResourceId>, a15: Vec<ResourceId>|
                {
                &&& call_ensures(S0::reads_after_write, (), a0)
                &&& call_ensures(S1::reads_after_write, (), a1)
                &&& call_ensures(S2::reads_after_write, (), a2)
                &&& call_ensures(S3::reads_after_write, (), a3)
                &&& call_ensures(S4::reads_after_write, (), a4)
                &&& call_ensures(S5::reads_after_write, (), a5)
                &&& call_ensures(S6::reads_after_write, (), a6)
                &&& call_ensures(S7::reads_after_write, (), a7)
                &&& call_ensures(S8::reads_after_write, (), a8)
                &&& call_ensures(S9::reads_after_write, (), a9)
                &&& call_ensures(S10::reads_after_write, (), a10)
                &&& call_ensures(S11::reads_after_write, (), a11)
                &&& call_ensures(S12::reads_after_write, (), a12)
                &&& call_ensures(S13::reads_after_write, (), a13)
                &&& call_ensures(S14::reads_after_write, (), a14)
                &&& call_ensures(S15::reads_after_write, (), a15)
                &&& r@ == a0@ + (a1@ + (a2@ + (a3@ + (a4@ + (a5@ + (a6@ + (a7@ + (a8@ + (a9@ + (a10@ + (a11@ + (a12@ + (a13@ + (a14@ + (a15@)))))))))))))))
            },
    {
        let a0 = S0::reads_after_write();
        let a1 = S1::reads_after_write();
        let a2 = S2::reads_after_write();
        let a3 = S3::reads_after_write();
        let a4 = S4::reads_after_write();
        let a5 = S5::reads_after_write();
        let a6 = S6::reads_after_write();
        let a7 = S7::reads_after_write();
        let a8 = S8::reads_after_write();
        let a9 = S9::reads_after_write();
        let a10 = S10::reads_after_write();
        let a11 = S11::reads_after_write();
        let a12 = S12::reads_after_write();
        let a13 = S13::reads_after_write();
        let a14 = S14::reads_after_write();
        let a15 = S15::reads_after_write();
        let ghost parts = (a0, a1, a2, a3, a4, a5, a6, a7, a8, a9, a10, a11, a12, a13, a14, a15,);
        let r = join_accesses(a0, join_accesses(a1, join_accesses(a2, join_accesses(a3, join_accesses(a4, join_accesses(a5, join_accesses(a6, join_accesses(a7, join_accesses(a8, join_accesses(a9, join_accesses(a10, join_accesses(a11, join_accesses(a12, join_accesses(a13, join_accesses(a14, a15)))))))))))))));
        proof {
            assert({
                &&& call_ensures(S0::reads_after_write, (), parts.0)
                &&& call_ensures(S1::reads_after_write, (), parts.1)
                &&& call_ensures(S2::reads_after_write, (), parts.2)
                &&& call_ensures(S3::reads_after_write, (), parts.3)
                &&& call_ensures(S4::reads_after_write, (), parts.4)
                &&& call_ensures(S5::reads_after_write, (), parts.5)
                &&& call_ensures(S6::reads_after_write, (), parts.6)
                &&& call_ensures(S7::reads_after_write, (), parts.7)
                &&& call_ensures(S8::reads_after_write, (), parts.8)
                &&& call_ensures(S9::reads_after_write, (), parts.9)
                &&& call_ensures(S10::reads_after_write, (), parts.10)
                &&& call_ensures(S11::reads_after_write, (), parts.11)
                &&& call_ensures(S12::reads_after_write, (), parts.12)
                &&& call_ensures(S13::reads_after_write, (), parts.13)
                &&& call_ensures(S14::reads_after_write, (), parts.14)
                &&& call_ensures(S15::reads_after_write, (), parts.15)
                &&& r@ == parts.0@ + (parts.1@ + (parts.2@ + (parts.3@ + (parts.4@ + (parts.5@ + (parts.6@ + (parts.7@ + (parts.8@ + (parts.9@ + (parts.10@ + (parts.11@ + (parts.12@ + (parts.13@ + (parts.14@ + (parts.15@)))))))))))))))
            });
        }
        r
    }
}

} // verus!
