use std::any::TypeId;
use std::marker::PhantomData;
use vstd::prelude::*;

verus! {

#[verifier::external_type_specification]
#[verifier::external_body]
pub struct ExTypeId(TypeId);

/// The identity that std gives type `C`: one value per type, fixed for the
/// whole program. Nothing but `type_id_of` says which value it is.
pub open spec fn type_identity<C: ?Sized>() -> TypeId {
    vstd::pervasive::arbitrary::<spec_fn(PhantomData<C>) -> TypeId>()(PhantomData)
}

/// `TypeId::of::<C>()`: the identity of type `C`. The contract claims what
/// std documents, that the result is the same on every call for one type;
/// it says that by naming the result `type_identity::<C>()`. That distinct
/// types get distinct identities is not stated.
#[verifier::external_body]
fn type_id_of<C: ?Sized + 'static>() -> (id: TypeId)
    ensures
        id == type_identity::<C>(),
{
    TypeId::of::<C>()
}

/// `TypeId::eq`: whether the two identities are the same.
#[verifier::external_body]
fn type_id_eq(a: &TypeId, b: &TypeId) -> (r: bool)
    ensures
        r == (*a == *b),
{
    a == b
}

/// The component types of a world, each once; a type's index is its
/// position.
pub struct ComponentRegistry {
    types: Vec<TypeId>,
}

/// Whether registry `n` is registry `o` after the type now at index `i` was
/// looked up: either it was there already and nothing changed, or it was
/// absent and was appended.
pub open spec fn registered(o: Seq<TypeId>, n: Seq<TypeId>, i: usize) -> bool {
    ||| (i < o.len() && n == o)
    ||| (i == o.len() && !o.contains(n[i as int]) && n == o.push(n[i as int]))
}

/// Whether registry `n` is registry `o` after a lookup of type `C` that gave
/// index `i`: the identity of `C` stands at `i`, and the registry grew only
/// if it lacked that identity, by that identity alone.
pub open spec fn looked_up<C: ?Sized>(o: Seq<TypeId>, n: Seq<TypeId>, i: usize) -> bool {
    &&& i < n.len()
    &&& n[i as int] == type_identity::<C>()
    &&& o.contains(type_identity::<C>()) ==> n == o
    &&& !o.contains(type_identity::<C>()) ==> n == o.push(type_identity::<C>())
}

/// Whether registry `n` holds registry `o` as its first entries.
pub open spec fn extends(o: Seq<TypeId>, n: Seq<TypeId>) -> bool {
    o.len() <= n.len() && n.subrange(0, o.len() as int) == o
}

/// A type keeps its index: a later lookup of `C`, in a registry grown from
/// the one an earlier lookup of `C` left, gives the same index.
pub proof fn lemma_lookups_agree<C: ?Sized>(
    o1: Seq<TypeId>,
    n1: Seq<TypeId>,
    i: usize,
    o2: Seq<TypeId>,
    n2: Seq<TypeId>,
    j: usize,
)
    requires
        looked_up::<C>(o1, n1, i),
        extends(n1, o2),
        looked_up::<C>(o2, n2, j),
        n2.no_duplicates(),
    ensures
        i == j,
{
    assert(o2[i as int] == n1[i as int]);
    assert(o2.contains(type_identity::<C>()));
    assert(n2[i as int] == type_identity::<C>());
}

/// Types with different identities get different indices: a lookup of `D`
/// in a registry grown from the one a lookup of `C` left gives another index
/// than `C`'s.
pub proof fn lemma_lookups_differ<C: ?Sized, D: ?Sized>(
    o1: Seq<TypeId>,
    n1: Seq<TypeId>,
    i: usize,
    o2: Seq<TypeId>,
    n2: Seq<TypeId>,
    j: usize,
)
    requires
        looked_up::<C>(o1, n1, i),
        extends(n1, o2),
        looked_up::<D>(o2, n2, j),
        type_identity::<C>() != type_identity::<D>(),
    ensures
        i != j,
{
    assert(o2[i as int] == n1[i as int]);
    if o2.contains(type_identity::<D>()) {
        assert(n2[i as int] == o2[i as int]);
    } else {
        assert(n2[i as int] == o2[i as int]);
    }
}

/// A lookup of a type that the registry lacks appends it: its index is the
/// registry's old length, and every earlier type keeps its place.
pub proof fn lemma_new_type_appended<C: ?Sized>(o: Seq<TypeId>, n: Seq<TypeId>, i: usize)
    requires
        looked_up::<C>(o, n, i),
        !o.contains(type_identity::<C>()),
    ensures
        i == o.len(),
        extends(o, n),
{
    if i < o.len() {
        assert(o[i as int] == n[i as int]);
    }
    assert(n.subrange(0, o.len() as int) =~= o);
}

/// A lookup never moves a type: the registry it leaves extends the one it
/// found.
pub proof fn lemma_lookup_extends<C: ?Sized>(o: Seq<TypeId>, n: Seq<TypeId>, i: usize)
    requires
        looked_up::<C>(o, n, i),
    ensures
        extends(o, n),
{
    assert(o.subrange(0, o.len() as int) =~= o);
    assert(o.push(type_identity::<C>()).subrange(0, o.len() as int) =~= o);
}

impl View for ComponentRegistry {
    type V = Seq<TypeId>;

    closed spec fn view(&self) -> Seq<TypeId> {
        self.types@
    }
}

impl ComponentRegistry {
    /// No type is registered twice.
    pub open spec fn wf(&self) -> bool {
        self@.no_duplicates()
    }

    pub fn new() -> (r: ComponentRegistry)
        ensures
            r.wf(),
            r@ == Seq::<TypeId>::empty(),
    {
        ComponentRegistry { types: Vec::new() }
    }

    /// The position of `id`, appended when absent.
    pub fn index_of_id(&mut self, id: TypeId) -> (index: usize)
        requires
            old(self).wf(),
        ensures
            final(self).wf(),
            index < final(self)@.len(),
            index < usize::MAX,
            final(self)@[index as int] == id,
            old(self)@.contains(id) ==> final(self)@ == old(self)@,
            !old(self)@.contains(id) ==> final(self)@ == old(self)@.push(id),
            registered(old(self)@, final(self)@, index),
    {
        let n = self.types.len();
        let mut i: usize = 0;
        while i < n
            invariant
                n == self.types@.len(),
                i <= n,
                self.types@ == old(self).types@,
                old(self).wf(),
                forall|j: int| 0 <= j < i ==> self.types@[j] != id,
            decreases n - i,
        {
            if type_id_eq(&self.types[i], &id) {
                return i;
            }
            i = i + 1;
        }
        proof {
            assert(!old(self)@.contains(id)) by {
                if old(self)@.contains(id) {
                    let j = choose|j: int| 0 <= j < n && old(self)@[j] == id;
                    assert(self.types@[j] != id);
                }
            }
        }
        self.types.push(id);
        let len = self.types.len();
        proof {
            assert(len == n + 1);
            assert forall|a: int, b: int|
                0 <= a < self.types@.len() && 0 <= b < self.types@.len() && a != b implies
                self.types@[a] != self.types@[b] by {
                if a < n && b < n {
                    assert(old(self).types@[a] != old(self).types@[b]);
                }
            }
        }
        n
    }

    /// The position of type `C`: the position of its identity, which is
    /// appended when absent. Each type so gets one index, kept for good, and
    /// types with different identities get different indices.
    pub fn index_of<C: ?Sized + 'static>(&mut self) -> (index: usize)
        requires
            old(self).wf(),
        ensures
            final(self).wf(),
            index < final(self)@.len(),
            index < usize::MAX,
            final(self)@[index as int] == type_identity::<C>(),
            old(self)@.contains(type_identity::<C>()) ==> final(self)@ == old(self)@,
            !old(self)@.contains(type_identity::<C>()) ==> final(self)@ == old(self)@.push(
                type_identity::<C>(),
            ),
            registered(old(self)@, final(self)@, index),
            looked_up::<C>(old(self)@, final(self)@, index),
    {
        self.index_of_id(type_id_of::<C>())
    }
}

} // verus!
