use vstd::prelude::*;

use crate::component::Components;
use crate::entity::Entity;

verus! {

/// The entities that lack one component: the complement of a component
/// storage within the living entities.
pub struct AntiComponents<'r> {
    components: &'r Components<'r>,
}

impl<'r> AntiComponents<'r> {
    pub closed spec fn components(&self) -> Components<'r> {
        *self.components
    }

    /// Whether `id` names a living entity that lacks the component.
    pub open spec fn lacks(&self, id: u64) -> bool {
        &&& self.components().entities.components().contains_key(id)
        &&& !self.components().storage@.contains(id)
    }

    pub fn new(components: &'r Components<'r>) -> (r: AntiComponents<'r>)
        ensures
            r.components() == *components,
    {
        AntiComponents { components }
    }

    /// The living entities that lack the component, each once, together
    /// with the fetcher of their elements.
    pub fn open(self) -> (r: (Vec<Entity>, AntiComponentsFetch<'r>))
        requires
            self.components().wf(),
        ensures
            r.0@ == self.components().entities.store().listing().filter(
                |e: Entity| !self.components().storage@.contains(e@),
            ),
            r.0@.no_duplicates(),
            forall|k: int| 0 <= k < r.0@.len() ==> self.lacks(#[trigger] r.0@[k]@),
            forall|id: u64|
                self.lacks(id) ==> exists|k: int| 0 <= k < r.0@.len() && #[trigger] r.0@[k]@ == id,
            r.1.components() == self.components(),
    {
        let mut this = self;
        let all = this.components.entities.iter();
        let storage = this.components.storage;
        let mut lacking: Vec<Entity> = Vec::new();
        let ghost mut pos: Seq<int> = Seq::empty();
        let mut i: usize = 0;
        while i < all.len()
            invariant
                i <= all@.len(),
                storage == this.components().storage,
                this.components() == self.components(),
                all@.no_duplicates(),
                forall|k: int|
                    0 <= k < all@.len() ==> self.components().entities.components().contains_key(
                        #[trigger] all@[k]@,
                    ),
                pos.len() == lacking@.len(),
                all@ == self.components().entities.store().listing(),
                lacking@ == all@.subrange(0, i as int).filter(|e: Entity| !storage@.contains(e@)),
                forall|k: int|
                    0 <= k < lacking@.len() ==> 0 <= #[trigger] pos[k] < i && lacking@[k]
                        == all@[pos[k]] && !storage@.contains(lacking@[k]@),
                forall|k1: int, k2: int|
                    0 <= k1 < k2 < lacking@.len() ==> #[trigger] pos[k1] < #[trigger] pos[k2],
                forall|j: int|
                    0 <= j < i && !storage@.contains(#[trigger] all@[j]@) ==> exists|k: int|
                        0 <= k < lacking@.len() && lacking@[k] == all@[j],
            decreases all@.len() - i,
        {
            let e = all[i];
            proof {
                let pred = |x: Entity| !storage@.contains(x@);
                let next = all@.subrange(0, i + 1);
                assert(next.drop_last() =~= all@.subrange(0, i as int));
                assert(next.last() == e);
                reveal_with_fuel(Seq::filter, 1);
                assert(next.filter(pred) == if pred(e) {
                    all@.subrange(0, i as int).filter(pred).push(e)
                } else {
                    all@.subrange(0, i as int).filter(pred)
                });
            }
            if !storage.contains(e) {
                let ghost before = lacking@;
                lacking.push(e);
                proof {
                    pos = pos.push(i as int);
                    assert(lacking@[before.len() as int] == e);
                    assert forall|k: int| 0 <= k < before.len() implies #[trigger] lacking@[k]
                        == before[k] by {}
                    assert forall|j: int|
                        0 <= j < i + 1 && !storage@.contains(#[trigger] all@[j]@) implies exists|
                        k: int,
                    | 0 <= k < lacking@.len() && lacking@[k] == all@[j] by {
                        if j < i {
                            let k = choose|k: int| 0 <= k < before.len() && before[k] == all@[j];
                            assert(lacking@[k] == before[k]);
                        } else {
                            assert(lacking@[before.len() as int] == all@[j]);
                        }
                    }
                }
            }
            i = i + 1;
        }
        proof {
            assert(all@.subrange(0, all@.len() as int) =~= all@);
            assert forall|k1: int, k2: int|
                0 <= k1 < lacking@.len() && 0 <= k2 < lacking@.len() && k1 != k2 implies lacking@[k1]
                != lacking@[k2] by {
                if k1 < k2 {
                    assert(pos[k1] < pos[k2]);
                } else {
                    assert(pos[k2] < pos[k1]);
                }
            }
            assert forall|k: int| 0 <= k < lacking@.len() implies self.lacks(#[trigger] lacking@[k]@) by {
                assert(lacking@[k] == all@[pos[k]]);
            }
            assert forall|id: u64| self.lacks(id) implies exists|k: int|
                0 <= k < lacking@.len() && #[trigger] lacking@[k]@ == id by {
                let j = choose|j: int| 0 <= j < all@.len() && #[trigger] all@[j]@ == id;
                assert(!storage@.contains(all@[j]@));
                let k = choose|k: int| 0 <= k < lacking@.len() && lacking@[k] == all@[j];
                assert(lacking@[k]@ == id);
            }
        }
        let fetcher = this.elem_fetcher();
        (lacking, fetcher)
    }

    /// How many entities were ever created, less how many carry the
    /// component.
    pub fn len(&self) -> (n: usize)
        requires
            self.components().wf(),
        ensures
            n == self.components().entities.created() - self.components().storage@.len(),
    {
        proof {
            self.components().entities.lemma_alive_bounded();
            vstd::set_lib::lemma_len_subset(
                self.components().storage@,
                self.components().entities.components().dom(),
            );
        }
        self.components.entities.len() - self.components.storage.len()
    }

    /// There are no more entities lacking the component than `len` counts.
    pub proof fn lemma_lacking_within_len(&self)
        requires
            self.components().wf(),
        ensures
            Set::new(|id: u64| self.lacks(id)).finite(),
            Set::new(|id: u64| self.lacks(id)).len() <= self.components().entities.created()
                - self.components().storage@.len(),
    {
        let alive = self.components().entities.components().dom();
        let stored = self.components().storage@;
        let lacking = Set::new(|id: u64| self.lacks(id));
        self.components().entities.lemma_alive_bounded();
        assert(lacking =~= alive.difference(stored));
        vstd::set_lib::lemma_len_subset(stored, alive);
        assert(alive.intersect(stored) =~= stored);
        vstd::set_lib::lemma_set_difference_len(alive, stored);
    }

    pub fn elem_fetcher(&mut self) -> (f: AntiComponentsFetch<'r>)
        ensures
            f.components() == old(self).components(),
            *final(self) == *old(self),
    {
        AntiComponentsFetch { components: self.components }
    }
}

/// Fetches the element of an entity that lacks a component: there is none.
#[derive(Clone, Copy)]
pub struct AntiComponentsFetch<'r> {
    components: &'r Components<'r>,
}

impl<'r> AntiComponentsFetch<'r> {
    pub closed spec fn components(&self) -> Components<'r> {
        *self.components
    }

    /// Always `None`: a missing component has no element.
    pub fn fetch_elem(&mut self, entity: Entity) -> (elem: Option<()>)
        ensures
            elem == None::<()>,
            *final(self) == *old(self),
    {
        None
    }
}

} // verus!
