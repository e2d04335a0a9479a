use std::collections::HashMap;
use vstd::prelude::*;

use crate::component::Component;
use crate::component_mask::ComponentMask;
use crate::registry::{looked_up, registered};
use crate::world::{storages_with, World};

verus! {

broadcast use vstd::std_specs::hash::group_hash_axioms;

/// A handle to an entity of a world: its id.
#[derive(Clone, Copy, PartialEq, Eq, Structural, Hash, Debug)]
pub struct Entity {
    id: u64,
}

impl View for Entity {
    type V = u64;

    closed spec fn view(&self) -> u64 {
        self.id
    }
}

impl Entity {
    pub fn new(id: u64) -> (e: Entity)
        ensures
            e@ == id,
    {
        Entity { id }
    }

    pub fn id(&self) -> (id: u64)
        ensures
            id == self@,
    {
        self.id
    }

    /// Two entities are equal exactly when their ids are.
    pub broadcast proof fn lemma_view_injective(a: Entity, b: Entity)
        ensures
            (#[trigger] a@ == #[trigger] b@) <==> a == b,
    {
    }
}

/// The position of an archetype in the archetype tables.
#[derive(Clone, Copy, PartialEq, Eq, Structural)]
pub struct ArchetypeIndex(pub usize);

/// Where an entity lies: its archetype and its slot in that archetype.
#[derive(Clone, Copy, PartialEq, Eq, Structural)]
pub struct EntityIndex {
    pub archetype: ArchetypeIndex,
    pub index_in_archetype: usize,
}

/// The entities of an archetype after the one in slot `i` leaves it: the
/// last one takes that slot.
pub open spec fn swap_removed(s: Seq<Entity>, i: int) -> Seq<Entity> {
    s.update(i, s.last()).drop_last()
}

/// How the archetype tables of `o` and `n` relate after `entity` was placed
/// with no component: it lies last in the archetype `t` with the empty mask,
/// which is appended, with empty edges, when there is none; nothing else
/// changes.
pub open spec fn spawned_tables(o: EntitiesInner, n: EntitiesInner, entity: Entity) -> bool {
    let ix = n.index_map()[entity@];
    let t = ix.archetype.0 as int;
    &&& 0 <= t < n.n_arch()
    &&& n.mask_of(t) == Set::<usize>::empty()
    &&& t < o.n_arch() <==> exists|b: int|
        0 <= b < o.n_arch() && #[trigger] o.mask_of(b) == Set::<usize>::empty()
    &&& t < o.n_arch() ==> n.n_arch() == o.n_arch() && n.arch(t) == o.arch(t).push(entity)
    &&& t >= o.n_arch() ==> {
        &&& t == o.n_arch()
        &&& n.n_arch() == o.n_arch() + 1
        &&& n.arch(t) == seq![entity]
        &&& n.add_edges(t) == Map::<usize, ArchetypeIndex>::empty()
        &&& n.remove_edges(t) == Map::<usize, ArchetypeIndex>::empty()
    }
    &&& index_at(ix, t, n.arch(t).len() - 1)
    &&& forall|b: int| 0 <= b < o.n_arch() ==> #[trigger] n.mask_of(b) == o.mask_of(b)
    &&& forall|b: int| 0 <= b < o.n_arch() ==> #[trigger] n.add_edges(b) == o.add_edges(b)
    &&& forall|b: int| 0 <= b < o.n_arch() ==> #[trigger] n.remove_edges(b) == o.remove_edges(b)
    &&& forall|b: int| 0 <= b < o.n_arch() && b != t ==> #[trigger] n.arch(b) == o.arch(b)
    &&& n.index_map() == o.index_map().insert(entity@, ix)
}

/// Placing an entity relates the tables the same way from any state whose
/// tables agree with the one it started from.
pub proof fn lemma_spawned_tables_frame(o: EntitiesInner, m: EntitiesInner, n: EntitiesInner, entity: Entity)
    requires
        m.same_tables(o),
        spawned_tables(m, n, entity),
    ensures
        spawned_tables(o, n, entity),
{
    assert(m.n_arch() == o.n_arch());
    assert(m.index_map() == o.index_map());
    assert forall|b: int|
        #![trigger o.arch(b)]
        #![trigger o.mask_of(b)]
        #![trigger o.add_edges(b)]
        #![trigger o.remove_edges(b)]
        true implies m.arch(b) == o.arch(b) && m.mask_of(b) == o.mask_of(b) && m.add_edges(b)
        == o.add_edges(b) && m.remove_edges(b) == o.remove_edges(b) by {}
    let t = n.index_map()[entity@].archetype.0 as int;
    if t < o.n_arch() {
        let w = choose|b: int| 0 <= b < m.n_arch() && #[trigger] m.mask_of(b) == Set::<usize>::empty();
        assert(o.mask_of(w) == Set::<usize>::empty());
    } else {
        if exists|b: int| 0 <= b < o.n_arch() && #[trigger] o.mask_of(b) == Set::<usize>::empty() {
            let w = choose|b: int| 0 <= b < o.n_arch() && #[trigger] o.mask_of(b) == Set::<usize>::empty();
            assert(m.mask_of(w) == Set::<usize>::empty());
        }
    }
}

/// How the archetype tables of `o` and `n` relate after living `entity`
/// gained component `c`. It moves to the end of the archetype `t` whose
/// mask is its old mask with `c`: the cached one if the edge was there, an
/// existing one with that mask, or one appended with empty edges. The edge
/// is cached; its old archetype closes the gap with its last entity; nothing
/// else changes.
pub open spec fn grown_tables(o: EntitiesInner, n: EntitiesInner, entity: Entity, c: usize) -> bool {
    let ix = o.index_map()[entity@];
    let a = ix.archetype.0 as int;
    let t = n.index_map()[entity@].archetype.0 as int;
    let target = o.mask_of(a).insert(c);
    let removed = swap_removed(o.arch(a), ix.index_in_archetype as int);
    let last = o.arch(a).last();
    &&& 0 <= t < n.n_arch()
    &&& n.mask_of(t) == target
    &&& o.add_edges(a).contains_key(c) ==> t == o.add_edges(a)[c].0
    &&& t < o.n_arch() <==> exists|b: int| 0 <= b < o.n_arch() && #[trigger] o.mask_of(b) == target
    &&& t < o.n_arch() ==> n.n_arch() == o.n_arch()
    &&& t >= o.n_arch() ==> {
        &&& t == o.n_arch()
        &&& n.n_arch() == o.n_arch() + 1
        &&& n.remove_edges(t) == Map::<usize, ArchetypeIndex>::empty()
        &&& n.add_edges(t) == Map::<usize, ArchetypeIndex>::empty()
    }
    &&& n.add_edges(a) == o.add_edges(a).insert(c, ArchetypeIndex(t as usize))
    &&& forall|b: int| 0 <= b < o.n_arch() ==> #[trigger] n.mask_of(b) == o.mask_of(b)
    &&& forall|b: int| 0 <= b < o.n_arch() ==> #[trigger] n.remove_edges(b) == o.remove_edges(b)
    &&& forall|b: int| 0 <= b < o.n_arch() && b != a ==> #[trigger] n.add_edges(b) == o.add_edges(b)
    &&& forall|b: int| 0 <= b < o.n_arch() && b != a && b != t ==> #[trigger] n.arch(b) == o.arch(b)
    &&& t != a ==> {
        &&& n.arch(a) == removed
        &&& n.arch(t) == (if t < o.n_arch() { o.arch(t) } else { Seq::<Entity>::empty() }).push(entity)
    }
    &&& t == a ==> n.arch(a) == removed.push(entity)
    &&& index_at(n.index_map()[entity@], t, n.arch(t).len() - 1)
    &&& n.index_map() == (if last == entity {
        o.index_map()
    } else {
        o.index_map().insert(last@, ix)
    }).insert(entity@, n.index_map()[entity@])
}

/// How the archetype tables of `o` and `n` relate after living `entity` was
/// killed: its archetype closes the gap with its last entity, which takes
/// over the slot in the index; nothing else changes.
pub open spec fn killed_tables(o: EntitiesInner, n: EntitiesInner, entity: Entity) -> bool {
    let ix = o.index_map()[entity@];
    let a = ix.archetype.0 as int;
    let last = o.arch(a).last();
    &&& n.n_arch() == o.n_arch()
    &&& forall|b: int| 0 <= b < o.n_arch() ==> #[trigger] n.mask_of(b) == o.mask_of(b)
    &&& forall|b: int| 0 <= b < o.n_arch() ==> #[trigger] n.add_edges(b) == o.add_edges(b)
    &&& forall|b: int| 0 <= b < o.n_arch() ==> #[trigger] n.remove_edges(b) == o.remove_edges(b)
    &&& forall|b: int| 0 <= b < o.n_arch() && b != a ==> #[trigger] n.arch(b) == o.arch(b)
    &&& n.arch(a) == swap_removed(o.arch(a), ix.index_in_archetype as int)
    &&& n.index_map() == if last == entity {
        o.index_map().remove(entity@)
    } else {
        o.index_map().remove(entity@).insert(last@, ix)
    }
}

/// How the archetype tables of `o` and `n` relate after `entity`, which lay
/// at `from`, moved to the end of archetype `t`: its old archetype closes the
/// gap with its last entity, no other archetype's entities change, masks and
/// edges stay, and the moved entity lies in the last slot of `t`.
pub open spec fn moved_tables(o: EntitiesInner, n: EntitiesInner, entity: Entity, from: EntityIndex, t: int) -> bool {
    let a = from.archetype.0 as int;
    let removed = swap_removed(o.arch(a), from.index_in_archetype as int);
    &&& n.n_arch() == o.n_arch()
    &&& forall|b: int| 0 <= b < o.n_arch() ==> #[trigger] n.mask_of(b) == o.mask_of(b)
    &&& forall|b: int| 0 <= b < o.n_arch() ==> #[trigger] n.add_edges(b) == o.add_edges(b)
    &&& forall|b: int| 0 <= b < o.n_arch() ==> #[trigger] n.remove_edges(b) == o.remove_edges(b)
    &&& forall|b: int| 0 <= b < o.n_arch() && b != a && b != t ==> #[trigger] n.arch(b) == o.arch(b)
    &&& t != a ==> n.arch(a) == removed && n.arch(t) == o.arch(t).push(entity)
    &&& t == a ==> n.arch(a) == removed.push(entity)
    &&& index_at(n.index_map()[entity@], t, n.arch(t).len() - 1)
    &&& n.index_map() == (if o.arch(a).last() == entity {
        o.index_map()
    } else {
        o.index_map().insert(o.arch(a).last()@, from)
    }).insert(entity@, n.index_map()[entity@])
}

/// Whether `ix` names slot `i` of archetype `a`.
pub open spec fn index_at(ix: EntityIndex, a: int, i: int) -> bool {
    ix.archetype.0 as int == a && ix.index_in_archetype as int == i
}

/// Whether `x` comes strictly before `y` in archetype-then-slot order.
pub open spec fn index_before(x: EntityIndex, y: EntityIndex) -> bool {
    x.archetype.0 < y.archetype.0 || (x.archetype.0 == y.archetype.0 && x.index_in_archetype
        < y.index_in_archetype)
}

impl EntityIndex {
    pub fn new(archetype: ArchetypeIndex, index_in_archetype: usize) -> (r: EntityIndex)
        ensures
            r.archetype == archetype,
            r.index_in_archetype == index_in_archetype,
    {
        EntityIndex { archetype, index_in_archetype }
    }
}

/// The component map after entity `id`, if it lives, gains component `c`.
pub open spec fn add_component(m: Map<u64, Set<usize>>, id: u64, c: usize) -> Map<u64, Set<usize>> {
    if m.contains_key(id) {
        m.insert(id, m[id].insert(c))
    } else {
        m
    }
}

/// Giving an entity a component it already carries changes nothing, so
/// giving it the same component twice is the same as giving it once.
pub proof fn lemma_add_component_idempotent(m: Map<u64, Set<usize>>, id: u64, c: usize)
    ensures
        add_component(add_component(m, id, c), id, c) == add_component(m, id, c),
{
    if m.contains_key(id) {
        assert(m[id].insert(c).insert(c) =~= m[id].insert(c));
        assert(add_component(add_component(m, id, c), id, c) =~= add_component(m, id, c));
    }
}

/// The order in which an entity gains two components does not matter.
pub proof fn lemma_add_component_commutes(m: Map<u64, Set<usize>>, id: u64, c: usize, d: usize)
    ensures
        add_component(add_component(m, id, c), id, d) == add_component(
            add_component(m, id, d),
            id,
            c,
        ),
{
    if m.contains_key(id) {
        assert(m[id].insert(c).insert(d) =~= m[id].insert(d).insert(c));
        assert(add_component(add_component(m, id, c), id, d) =~= add_component(
            add_component(m, id, d),
            id,
            c,
        ));
    }
}

/// Killing an entity a second time changes nothing more: the dead entity
/// is gone from the map after the first kill.
pub proof fn lemma_kill_twice(m: Map<u64, Set<usize>>, id: u64)
    ensures
        !m.remove(id).contains_key(id),
        m.remove(id).remove(id) == m.remove(id),
{
    assert(m.remove(id).remove(id) =~= m.remove(id));
}

/// Giving a living entity a component that it already carries keeps it in
/// its archetype and appends no archetype.
pub proof fn lemma_repeat_component_stays(o: EntitiesInner, n: EntitiesInner, entity: Entity, c: usize)
    requires
        o.wf(),
        o.components().contains_key(entity@),
        o.components()[entity@].contains(c),
        grown_tables(o, n, entity, c),
    ensures
        n.n_arch() == o.n_arch(),
        n.index_map()[entity@].archetype == o.index_map()[entity@].archetype,
{
    let a = o.index_map()[entity@].archetype.0 as int;
    let t = n.index_map()[entity@].archetype.0 as int;
    assert(o.placed(entity@, o.index_map()[entity@]));
    assert(o.mask_of(a).insert(c) =~= o.mask_of(a));
    assert(o.mask_of(a) == o.mask_of(a).insert(c));
    assert(t < o.n_arch());
    assert(o.mask_of(t) == o.mask_of(a));
    if t != a {
        assert(o.mask_of(t) != o.mask_of(a));
    }
}

/// Keeping the masks and the edges of every archetype keeps the masks
/// distinct and the edges right.
proof fn lemma_masks_edges_kept(o: EntitiesInner, n: EntitiesInner)
    requires
        o.masks_distinct(),
        o.edges_valid(),
        n.n_arch() == o.n_arch(),
        forall|b: int| 0 <= b < o.n_arch() ==> #[trigger] n.mask_of(b) == o.mask_of(b),
        forall|b: int| 0 <= b < o.n_arch() ==> #[trigger] n.add_edges(b) == o.add_edges(b),
        forall|b: int| 0 <= b < o.n_arch() ==> #[trigger] n.remove_edges(b) == o.remove_edges(b),
    ensures
        n.masks_distinct(),
        n.edges_valid(),
{
    assert forall|a: int, b: int|
        0 <= a < n.n_arch() && 0 <= b < n.n_arch() && a != b implies #[trigger] n.mask_of(a)
        != #[trigger] n.mask_of(b) by {
        assert(o.mask_of(a) != o.mask_of(b));
    }
    assert forall|a: int, c: usize|
        0 <= a < n.n_arch() && #[trigger] n.archetypes_add_to_next@[a]@.contains_key(c) implies {
        let t = n.archetypes_add_to_next@[a]@[c].0 as int;
        &&& t < n.n_arch()
        &&& n.mask_of(t) == n.mask_of(a).insert(c)
    } by {
        assert(n.add_edges(a) == o.add_edges(a));
        assert(o.archetypes_add_to_next@[a]@.contains_key(c));
        let t = o.archetypes_add_to_next@[a]@[c].0 as int;
        assert(n.mask_of(t) == o.mask_of(t));
    }
    assert forall|a: int, c: usize|
        0 <= a < n.n_arch() && #[trigger] n.archetypes_remove_to_next@[a]@.contains_key(c) implies {
        let t = n.archetypes_remove_to_next@[a]@[c].0 as int;
        &&& t < n.n_arch()
        &&& n.mask_of(t) == n.mask_of(a).remove(c)
    } by {
        assert(n.remove_edges(a) == o.remove_edges(a));
        assert(o.archetypes_remove_to_next@[a]@.contains_key(c));
        let t = o.archetypes_remove_to_next@[a]@[c].0 as int;
        assert(n.mask_of(t) == o.mask_of(t));
    }
}

/// Keeping the index and the entities of every archetype, appending only
/// empty archetypes and not lowering the next id keeps every entity placed
/// and every slot indexed.
proof fn lemma_placement_kept(o: EntitiesInner, n: EntitiesInner)
    requires
        o.ids_placed(),
        o.slots_indexed(),
        n.index_map() == o.index_map(),
        o.next_id <= n.next_id,
        o.n_arch() <= n.n_arch(),
        forall|a: int| 0 <= a < o.n_arch() ==> #[trigger] n.arch(a) == o.arch(a),
        forall|a: int| o.n_arch() <= a < n.n_arch() ==> #[trigger] n.arch(a) == Seq::<Entity>::empty(),
    ensures
        n.ids_placed(),
        n.slots_indexed(),
{
    assert forall|x: u64| #[trigger] n.index_map().contains_key(x) implies n.placed(
        x,
        n.index_map()[x],
    ) && x < n.next_id by {
        assert(o.placed(x, o.index_map()[x]));
        assert(n.arch(o.index_map()[x].archetype.0 as int) == o.arch(
            o.index_map()[x].archetype.0 as int,
        ));
    }
    assert forall|a: int, i: int| 0 <= a < n.n_arch() && 0 <= i < n.arch(a).len() implies {
        let x = #[trigger] n.arch(a)[i]@;
        &&& n.index_map().contains_key(x)
        &&& index_at(n.index_map()[x], a, i)
    } by {
        if a >= o.n_arch() {
            assert(n.arch(a).len() == 0);
        }
        assert(o.arch(a)[i] == n.arch(a)[i]);
    }
}

/// A store whose index lacks `id` and whose entities are all placed and
/// indexed holds them so apart from `id` as well.
proof fn lemma_full_to_except(s: EntitiesInner, id: u64)
    requires
        s.ids_placed(),
        s.slots_indexed(),
        !s.index_map().contains_key(id),
    ensures
        s.placed_except(id),
        s.slots_indexed_except(id),
{
}

/// A store whose index lacks `id` and that places and indexes every other
/// entity places and indexes all of them.
proof fn lemma_except_to_full(s: EntitiesInner, id: u64)
    requires
        s.placed_except(id),
        s.slots_indexed_except(id),
        !s.index_map().contains_key(id),
    ensures
        s.ids_placed(),
        s.slots_indexed(),
{
}

/// Taking `entity` out of slot `from` with the last entity of its archetype
/// moved into the gap, and that entity re-pointed, leaves every other entity
/// placed and every slot indexed by an entity other than `entity`.
proof fn lemma_swap_removed_placement(o: EntitiesInner, s: EntitiesInner, entity: Entity, from: EntityIndex)
    requires
        o.ids_placed(),
        o.slots_indexed(),
        o.n_arch() == s.n_arch(),
        o.next_id == s.next_id,
        o.index_map().contains_key(entity@),
        o.index_map()[entity@] == from,
        s.arch(from.archetype.0 as int) == swap_removed(
            o.arch(from.archetype.0 as int),
            from.index_in_archetype as int,
        ),
        forall|b: int|
            0 <= b < o.n_arch() && b != from.archetype.0 as int ==> #[trigger] s.arch(b) == o.arch(b),
        s.index_map().remove(entity@) == (if o.arch(from.archetype.0 as int).last() == entity {
            o.index_map()
        } else {
            o.index_map().insert(o.arch(from.archetype.0 as int).last()@, from)
        }).remove(entity@),
    ensures
        s.placed_except(entity@),
        s.slots_indexed_except(entity@),
{
    let id = entity@;
    let ai = from.archetype.0 as int;
    let i = from.index_in_archetype as int;
    assert(o.placed(id, from));
    let len = o.arch(ai).len();
    let last = o.arch(ai)[len - 1];
    assert(index_at(o.index_map()[last@], ai, len - 1));
    assert(i == len - 1 <==> last == entity);
    assert forall|x: u64| #[trigger] s.index_map().contains_key(x) && x != id implies s.placed(
        x,
        s.index_map()[x],
    ) && x < s.next_id by {
        assert(s.index_map().remove(id).contains_key(x));
        if last != entity && x == last@ {
            assert(s.index_map()[x] == s.index_map().remove(id)[x]);
            assert(s.index_map()[x] == from);
            assert(s.arch(ai)[i] == last);
            assert(o.placed(x, o.index_map()[x]));
        } else {
            assert(o.index_map().contains_key(x));
            let ix = o.index_map()[x];
            assert(o.placed(x, ix) && x < o.next_id);
            assert(s.index_map()[x] == s.index_map().remove(id)[x]);
            assert(s.index_map()[x] == ix);
            let b = ix.archetype.0 as int;
            let j = ix.index_in_archetype as int;
            if b == ai {
                assert(index_at(o.index_map()[o.arch(ai)[j]@], ai, j));
                assert(j != i);
                assert(j != len - 1);
                assert(s.arch(ai)[j] == o.arch(ai)[j]);
            }
            assert(s.placed(x, s.index_map()[x]));
        }
    }
    assert forall|b: int, j: int| 0 <= b < s.n_arch() && 0 <= j < s.arch(b).len() implies {
        let x = #[trigger] s.arch(b)[j]@;
        &&& x != id
        &&& s.index_map().contains_key(x)
        &&& index_at(s.index_map()[x], b, j)
    } by {
        if b == ai && j == i {
            assert(s.arch(b)[j] == last);
            assert(last != entity);
            assert(s.index_map().remove(id).contains_key(last@));
            assert(s.index_map()[last@] == s.index_map().remove(id)[last@]);
        } else {
            assert(s.arch(b)[j] == o.arch(b)[j]);
            let x = o.arch(b)[j]@;
            assert(index_at(o.index_map()[x], b, j));
            assert(x != id);
            if last != entity {
                assert(x != last@);
            }
            assert(s.index_map().remove(id).contains_key(x));
            assert(s.index_map()[x] == s.index_map().remove(id)[x]);
        }
    }
}

/// Appending `entity` to archetype `t` and indexing it at that last slot
/// places and indexes every entity, when all others were so already.
proof fn lemma_pushed_placement(s: EntitiesInner, n: EntitiesInner, entity: Entity, t: int, ix: EntityIndex)
    requires
        s.placed_except(entity@),
        s.slots_indexed_except(entity@),
        0 <= t < s.n_arch(),
        n.n_arch() == s.n_arch(),
        n.next_id == s.next_id,
        entity@ < s.next_id,
        n.arch(t) == s.arch(t).push(entity),
        forall|b: int| 0 <= b < s.n_arch() && b != t ==> #[trigger] n.arch(b) == s.arch(b),
        n.index_map() == s.index_map().insert(entity@, ix),
        index_at(ix, t, s.arch(t).len() as int),
    ensures
        n.ids_placed(),
        n.slots_indexed(),
{
    let id = entity@;
    let tl = s.arch(t).len() as int;
    assert forall|x: u64| #[trigger] n.index_map().contains_key(x) implies n.placed(
        x,
        n.index_map()[x],
    ) && x < n.next_id by {
        if x == id {
            assert(n.arch(t)[tl] == entity);
        } else {
            assert(s.index_map().contains_key(x));
            let jx = s.index_map()[x];
            assert(s.placed(x, jx) && x < s.next_id);
            let b = jx.archetype.0 as int;
            let j = jx.index_in_archetype as int;
            if b == t {
                assert(n.arch(t)[j] == s.arch(t)[j]);
            }
            assert(n.placed(x, n.index_map()[x]));
        }
    }
    assert forall|b: int, j: int| 0 <= b < n.n_arch() && 0 <= j < n.arch(b).len() implies {
        let x = #[trigger] n.arch(b)[j]@;
        &&& n.index_map().contains_key(x)
        &&& index_at(n.index_map()[x], b, j)
    } by {
        if b == t && j == tl {
            assert(n.arch(b)[j] == entity);
        } else {
            assert(n.arch(b)[j] == s.arch(b)[j]);
            let x = s.arch(b)[j]@;
            assert(x != id && index_at(s.index_map()[x], b, j));
        }
    }
}

/// A finite set of ids below `n` has at most `n` elements.
pub proof fn lemma_bounded_ids_len(s: Set<u64>, n: u64)
    requires
        s.finite(),
        forall|x: u64| #[trigger] s.contains(x) ==> x < n,
    ensures
        s.len() <= n,
    decreases n,
{
    if n == 0 {
        assert(s =~= Set::<u64>::empty());
    } else {
        let m = (n - 1) as u64;
        let rest = s.remove(m);
        assert forall|x: u64| #[trigger] rest.contains(x) implies x < m by {
            assert(s.contains(x));
        }
        lemma_bounded_ids_len(rest, m);
    }
}

/// A walk over the archetypes, by position.
pub struct ArchetypeVisitor {
    pub cur_index: ArchetypeIndex,
}

/// Whether a visit that starts at position `from` among `n` archetypes
/// lists `visited` and leaves the visitor at `to`: every archetype from
/// `from` on, in order, after which the visitor stands past the last one.
pub open spec fn visit_step(from: usize, n: nat, visited: Seq<usize>, to: usize) -> bool {
    &&& from < n ==> to == n && visited.len() == n - from
    &&& from >= n ==> to == from && visited.len() == 0
    &&& forall|k: int| 0 <= k < visited.len() ==> #[trigger] visited[k] == from + k
}

/// Any run of visits, with archetypes only appended between them, lists
/// each archetype from the first visit's start on exactly once, in order:
/// together the visits list the positions from `p[0]` up to the visitor's
/// last position, and that position is past every archetype that the last
/// visit saw. `p` holds the visitor's positions, `ns` the archetype counts
/// that the visits saw, and `vs` what they listed.
pub proof fn lemma_visits_cover_once(p: Seq<usize>, ns: Seq<nat>, vs: Seq<Seq<usize>>)
    requires
        vs.len() == ns.len(),
        p.len() == vs.len() + 1,
        forall|i: int| 0 <= i < vs.len() ==> visit_step(p[i], ns[i], #[trigger] vs[i], p[i + 1]),
        forall|i: int, j: int| 0 <= i <= j < ns.len() ==> ns[i] <= ns[j],
    ensures
        p.last() >= p[0],
        vs.len() > 0 ==> p.last() == (if p[0] < ns.last() { ns.last() } else { p[0] as nat }),
        vs.flatten().len() == p.last() - p[0],
        forall|k: int| 0 <= k < vs.flatten().len() ==> #[trigger] vs.flatten()[k] == p[0] + k,
        vs.flatten().no_duplicates(),
    decreases vs.len(),
{
    if vs.len() > 0 {
        let p1 = p.drop_first();
        let ns1 = ns.drop_first();
        let vs1 = vs.drop_first();
        assert forall|i: int| 0 <= i < vs1.len() implies visit_step(
            p1[i],
            ns1[i],
            #[trigger] vs1[i],
            p1[i + 1],
        ) by {
            assert(visit_step(p[i + 1], ns[i + 1], vs[i + 1], p[i + 2]));
        }
        lemma_visits_cover_once(p1, ns1, vs1);
        assert(visit_step(p[0], ns[0], vs[0], p[1]));
        let rest = vs1.flatten();
        let all = vs.flatten();
        assert(all == vs[0] + rest);
        assert(p1.last() == p.last());
        if vs1.len() > 0 {
            assert(ns[0] <= ns.last());
            assert(ns1.last() == ns.last());
        }
        assert forall|k: int| 0 <= k < all.len() implies #[trigger] all[k] == p[0] + k by {
            if k < vs[0].len() {
                assert(all[k] == vs[0][k]);
            } else {
                assert(all[k] == rest[k - vs[0].len()]);
            }
        }
        assert forall|a: int, b: int| 0 <= a < all.len() && 0 <= b < all.len() && a != b implies all[a]
            != all[b] by {
            assert(all[a] == p[0] + a);
            assert(all[b] == p[0] + b);
        }
    }
}

/// Whether `handed[k]` was handed out by a call that went from `before[k]`
/// to `after[k]` (the next id moves one on), with calls that keep or raise
/// the next id in between.
pub open spec fn ids_handed_out(before: Seq<Entities>, after: Seq<Entities>, handed: Seq<Entity>) -> bool {
    &&& before.len() == after.len()
    &&& handed.len() == before.len()
    &&& forall|k: int|
        0 <= k < handed.len() ==> #[trigger] handed[k]@ == before[k].next_id() && after[k].next_id()
            == before[k].next_id() + 1
    &&& forall|k: int| 0 <= k < handed.len() - 1 ==> #[trigger] after[k].next_id() <= before[k + 1].next_id()
}

proof fn lemma_next_ids_rise(before: Seq<Entities>, after: Seq<Entities>, handed: Seq<Entity>, i: int, j: int)
    requires
        ids_handed_out(before, after, handed),
        0 <= i < j < handed.len(),
    ensures
        before[i].next_id() < before[j].next_id(),
    decreases j - i,
{
    assert(after[j - 1].next_id() <= before[j].next_id());
    assert(handed[j - 1]@ == before[j - 1].next_id());
    if i < j - 1 {
        lemma_next_ids_rise(before, after, handed, i, j - 1);
    }
}

/// Ids only grow: over any run of calls in which entities are handed out
/// and other calls keep or raise the next id, as every call's contract
/// states, each entity handed out has a larger id than every one handed out
/// before it, even one that was killed since; no id is handed out twice.
pub proof fn lemma_handed_out_ids_increase(before: Seq<Entities>, after: Seq<Entities>, handed: Seq<Entity>)
    requires
        ids_handed_out(before, after, handed),
    ensures
        forall|i: int, j: int| 0 <= i < j < handed.len() ==> handed[i]@ < handed[j]@,
        handed.no_duplicates(),
{
    assert forall|i: int, j: int| 0 <= i < j < handed.len() implies handed[i]@ < handed[j]@ by {
        lemma_next_ids_rise(before, after, handed, i, j);
        assert(handed[i]@ == before[i].next_id());
        assert(handed[j]@ == before[j].next_id());
    }
    assert forall|i: int, j: int| 0 <= i < handed.len() && 0 <= j < handed.len() && i != j implies handed[i]
        != handed[j] by {
        if i < j {
            lemma_next_ids_rise(before, after, handed, i, j);
        } else {
            lemma_next_ids_rise(before, after, handed, j, i);
        }
        assert(handed[i]@ == before[i].next_id());
        assert(handed[j]@ == before[j].next_id());
    }
}

/// The entities of a world, grouped into archetypes: all entities of one
/// archetype carry the same set of components.
pub struct EntitiesInner {
    next_id: u64,
    len: usize,
    entity_to_index: HashMap<u64, EntityIndex>,
    archetypes_entities: Vec<Vec<Entity>>,
    archetypes_component_mask: Vec<ComponentMask>,
    archetypes_add_to_next: Vec<HashMap<usize, ArchetypeIndex>>,
    archetypes_remove_to_next: Vec<HashMap<usize, ArchetypeIndex>>,
}

impl EntitiesInner {
    /// How many archetypes there are.
    pub closed spec fn n_arch(&self) -> nat {
        self.archetypes_entities@.len()
    }

    pub closed spec fn arch(&self, a: int) -> Seq<Entity> {
        self.archetypes_entities@[a]@
    }

    pub closed spec fn mask_of(&self, a: int) -> Set<usize> {
        self.archetypes_component_mask@[a]@
    }

    pub closed spec fn index_map(&self) -> Map<u64, EntityIndex> {
        self.entity_to_index@
    }

    /// The archetype tables and the index of `self` and `other` agree.
    pub closed spec fn same_tables(&self, other: EntitiesInner) -> bool {
        &&& self.archetypes_entities@ == other.archetypes_entities@
        &&& self.archetypes_component_mask@ == other.archetypes_component_mask@
        &&& self.archetypes_add_to_next@ == other.archetypes_add_to_next@
        &&& self.archetypes_remove_to_next@ == other.archetypes_remove_to_next@
        &&& self.entity_to_index@ == other.entity_to_index@
    }

    /// Stores whose tables agree have the same archetypes, with the same
    /// entities, masks and edges, and the same index.
    pub proof fn lemma_same_tables(&self, other: EntitiesInner)
        requires
            self.same_tables(other),
        ensures
            self.n_arch() == other.n_arch(),
            self.index_map() == other.index_map(),
            forall|a: int|
                #![trigger self.arch(a)]
                #![trigger self.mask_of(a)]
                #![trigger self.add_edges(a)]
                #![trigger self.remove_edges(a)]
                self.arch(a) == other.arch(a) && self.mask_of(a) == other.mask_of(a)
                    && self.add_edges(a) == other.add_edges(a) && self.remove_edges(a)
                    == other.remove_edges(a),
    {
    }

    /// The cached targets of archetype `a` on gaining a component.
    pub closed spec fn add_edges(&self, a: int) -> Map<usize, ArchetypeIndex> {
        self.archetypes_add_to_next@[a]@
    }

    /// The cached targets of archetype `a` on losing a component.
    pub closed spec fn remove_edges(&self, a: int) -> Map<usize, ArchetypeIndex> {
        self.archetypes_remove_to_next@[a]@
    }

    pub closed spec fn placed(&self, id: u64, ix: EntityIndex) -> bool {
        &&& 0 <= ix.archetype.0 < self.n_arch()
        &&& ix.index_in_archetype < self.arch(ix.archetype.0 as int).len()
        &&& self.arch(ix.archetype.0 as int)[ix.index_in_archetype as int]@ == id
    }

    pub closed spec fn tables_aligned(&self) -> bool {
        &&& self.archetypes_component_mask@.len() == self.n_arch()
        &&& self.archetypes_add_to_next@.len() == self.n_arch()
        &&& self.archetypes_remove_to_next@.len() == self.n_arch()
    }

    pub closed spec fn masks_distinct(&self) -> bool {
        forall|a: int, b: int|
            0 <= a < self.n_arch() && 0 <= b < self.n_arch() && a != b ==> #[trigger] self.mask_of(a)
                != #[trigger] self.mask_of(b)
    }

    pub closed spec fn ids_placed(&self) -> bool {
        forall|id: u64| #[trigger]
            self.index_map().contains_key(id) ==> self.placed(id, self.index_map()[id]) && id
                < self.next_id
    }

    /// Every entity in the index but `id` lies where the index says.
    spec fn placed_except(&self, id: u64) -> bool {
        forall|x: u64| #[trigger]
            self.index_map().contains_key(x) && x != id ==> self.placed(x, self.index_map()[x]) && x
                < self.next_id
    }

    /// Every slot holds an entity other than `id` that the index locates
    /// there.
    spec fn slots_indexed_except(&self, id: u64) -> bool {
        forall|a: int, i: int|
            0 <= a < self.n_arch() && 0 <= i < self.arch(a).len() ==> {
                let x = #[trigger] self.arch(a)[i]@;
                &&& x != id
                &&& self.index_map().contains_key(x)
                &&& index_at(self.index_map()[x], a, i)
            }
    }

    pub closed spec fn slots_indexed(&self) -> bool {
        forall|a: int, i: int|
            0 <= a < self.n_arch() && 0 <= i < self.arch(a).len() ==> {
                let id = #[trigger] self.arch(a)[i]@;
                &&& self.index_map().contains_key(id)
                &&& index_at(self.index_map()[id], a, i)
            }
    }

    pub closed spec fn edges_valid(&self) -> bool {
        &&& forall|a: int, c: usize|
            0 <= a < self.n_arch() && #[trigger] self.archetypes_add_to_next@[a]@.contains_key(c)
                ==> {
                let t = self.archetypes_add_to_next@[a]@[c].0 as int;
                &&& t < self.n_arch()
                &&& self.mask_of(t) == self.mask_of(a).insert(c)
            }
        &&& forall|a: int, c: usize|
            0 <= a < self.n_arch() && #[trigger] self.archetypes_remove_to_next@[a]@.contains_key(c)
                ==> {
                let t = self.archetypes_remove_to_next@[a]@[c].0 as int;
                &&& t < self.n_arch()
                &&& self.mask_of(t) == self.mask_of(a).remove(c)
            }
    }

    /// The invariant of the archetype tables.
    pub closed spec fn tables_wf(&self) -> bool {
        &&& self.tables_aligned()
        &&& self.masks_distinct()
        &&& self.ids_placed()
        &&& self.slots_indexed()
        &&& self.edges_valid()
    }

    /// The invariant of the entity store.
    pub closed spec fn wf(&self) -> bool {
        &&& self.tables_wf()
        &&& self.len as int == self.next_id as int
    }

    /// Each living entity's id, mapped to the set of components it carries.
    pub closed spec fn components(&self) -> Map<u64, Set<usize>> {
        Map::new(
            |id: u64| self.index_map().contains_key(id),
            |id: u64| self.mask_of(self.index_map()[id].archetype.0 as int),
        )
    }

    /// The id that the next created entity gets.
    pub closed spec fn next_id(&self) -> u64 {
        self.next_id
    }

    /// How many entities were ever created.
    pub closed spec fn created(&self) -> usize {
        self.len
    }

    pub fn new() -> (r: EntitiesInner)
        ensures
            r.wf(),
            r.n_arch() == 0,
            r.components() == Map::<u64, Set<usize>>::empty(),
            r.next_id() == 0,
            r.created() == 0,
    {
        let r = EntitiesInner {
            next_id: 0,
            len: 0,
            entity_to_index: HashMap::new(),
            archetypes_entities: Vec::new(),
            archetypes_component_mask: Vec::new(),
            archetypes_add_to_next: Vec::new(),
            archetypes_remove_to_next: Vec::new(),
        };
        assert(r.components() =~= Map::<u64, Set<usize>>::empty());
        r
    }

    pub fn is_alive(&self, entity: Entity) -> (alive: bool)
        ensures
            alive == self.components().contains_key(entity@),
    {
        self.entity_to_index.contains_key(&entity.id)
    }

    pub fn len(&self) -> (n: usize)
        ensures
            n == self.created(),
    {
        self.len
    }

    /// The archetype whose mask holds exactly the components of `mask`;
    /// appended, with no entity and no edge, when there is none yet.
    pub fn get_or_insert_archetype(&mut self, mask: ComponentMask) -> (archetype: ArchetypeIndex)
        requires
            old(self).tables_wf(),
        ensures
            final(self).tables_wf(),
            archetype.0 < final(self).n_arch(),
            final(self).mask_of(archetype.0 as int) == mask@,
            final(self).n_arch() == old(self).n_arch() || final(self).n_arch() == old(self).n_arch()
                + 1,
            archetype.0 < old(self).n_arch() ==> final(self).n_arch() == old(self).n_arch(),
            archetype.0 >= old(self).n_arch() ==> archetype.0 == old(self).n_arch()
                && final(self).n_arch() == old(self).n_arch() + 1,
            archetype.0 < old(self).n_arch() <==> exists|b: int|
                0 <= b < old(self).n_arch() && #[trigger] old(self).mask_of(b) == mask@,
            forall|a: int|
                old(self).n_arch() <= a < final(self).n_arch() ==> #[trigger] final(self).add_edges(a)
                    == Map::<usize, ArchetypeIndex>::empty() && final(self).remove_edges(a)
                    == Map::<usize, ArchetypeIndex>::empty(),
            forall|a: int|
                0 <= a < old(self).n_arch() ==> #[trigger] final(self).arch(a) == old(self).arch(a)
                    && final(self).mask_of(a) == old(self).mask_of(a)
                    && final(self).add_edges(a) == old(self).add_edges(a)
                    && final(self).remove_edges(a) == old(self).remove_edges(a),
            forall|a: int|
                old(self).n_arch() <= a < final(self).n_arch() ==> #[trigger] final(self).arch(a)
                    == Seq::<Entity>::empty(),
            final(self).index_map() == old(self).index_map(),
            final(self).next_id() == old(self).next_id(),
            final(self).created() == old(self).created(),
            final(self).components() == old(self).components(),
    {
        let n = self.archetypes_component_mask.len();
        let mut i: usize = 0;
        while i < n
            invariant
                self.tables_wf(),
                n == self.n_arch(),
                i <= n,
                forall|j: int| 0 <= j < i ==> #[trigger] self.mask_of(j) != mask@,
            decreases n - i,
        {
            if self.archetypes_component_mask[i].same_as(&mask) {
                proof {
                    assert(self.mask_of(i as int) == mask@);
                }
                return ArchetypeIndex(i);
            }
            i = i + 1;
        }
        let ghost old_self = *self;
        let archetype = ArchetypeIndex(n);
        self.archetypes_component_mask.push(mask);
        self.archetypes_entities.push(Vec::new());
        self.archetypes_add_to_next.push(HashMap::new());
        self.archetypes_remove_to_next.push(HashMap::new());
        proof {
            assert(self.arch(n as int) =~= Seq::<Entity>::empty());
            assert(self.add_edges(n as int) =~= Map::<usize, ArchetypeIndex>::empty());
            assert(self.remove_edges(n as int) =~= Map::<usize, ArchetypeIndex>::empty());
            assert(!exists|b: int| 0 <= b < n && #[trigger] old_self.mask_of(b) == mask@);
            assert forall|a: int| 0 <= a < n implies #[trigger] self.arch(a) == old_self.arch(a)
                && self.mask_of(a) == old_self.mask_of(a) by {}
            assert(self.masks_distinct()) by {
                assert forall|a: int, b: int|
                    0 <= a < self.n_arch() && 0 <= b < self.n_arch() && a != b implies
                    #[trigger] self.mask_of(a) != #[trigger] self.mask_of(b) by {
                    if a < n && b < n {
                        assert(old_self.mask_of(a) != old_self.mask_of(b));
                    } else if a < n {
                        assert(old_self.mask_of(a) != mask@);
                    } else {
                        assert(old_self.mask_of(b) != mask@);
                    }
                }
            }
            lemma_placement_kept(old_self, *self);
            assert(self.edges_valid()) by {
                assert forall|a: int, c: usize|
                    0 <= a < self.n_arch() && #[trigger] self.archetypes_add_to_next@[a]@.contains_key(
                        c,
                    ) implies {
                    let t = self.archetypes_add_to_next@[a]@[c].0 as int;
                    &&& t < self.n_arch()
                    &&& self.mask_of(t) == self.mask_of(a).insert(c)
                } by {
                    assert(a < n);
                    assert(old_self.archetypes_add_to_next@[a]@.contains_key(c));
                }
                assert forall|a: int, c: usize|
                    0 <= a < self.n_arch()
                        && #[trigger] self.archetypes_remove_to_next@[a]@.contains_key(c) implies {
                    let t = self.archetypes_remove_to_next@[a]@[c].0 as int;
                    &&& t < self.n_arch()
                    &&& self.mask_of(t) == self.mask_of(a).remove(c)
                } by {
                    assert(a < n);
                    assert(old_self.archetypes_remove_to_next@[a]@.contains_key(c));
                }
            }
            assert(self.archetypes_entities@.subrange(0, n as int) =~= old_self.archetypes_entities@);
            assert(self.components() =~= old_self.components()) by {
                assert forall|id: u64| #[trigger] self.index_map().contains_key(id) implies
                    self.mask_of(self.index_map()[id].archetype.0 as int)
                    == old_self.mask_of(old_self.index_map()[id].archetype.0 as int) by {
                    assert(old_self.placed(id, old_self.index_map()[id]));
                }
            }
        }
        archetype
    }

    /// Takes the next id for an entity that is not placed yet: the id
    /// counts as created, and no entity lives under it.
    pub fn reserve_entity(&mut self) -> (entity: Entity)
        requires
            old(self).wf(),
            old(self).next_id() < u64::MAX,
            old(self).created() < usize::MAX,
        ensures
            final(self).wf(),
            entity@ == old(self).next_id(),
            !final(self).components().contains_key(entity@),
            final(self).components() == old(self).components(),
            final(self).next_id() == old(self).next_id() + 1,
            final(self).created() == old(self).created() + 1,
            final(self).same_tables(*old(self)),
    {
        let id = self.next_id;
        self.next_id = self.next_id + 1;
        self.len = self.len + 1;
        proof {
            lemma_placement_kept(*old(self), *self);
            assert(!self.index_map().contains_key(id)) by {
                if self.index_map().contains_key(id) {
                    assert(old(self).index_map().contains_key(id));
                    assert(id < id);
                }
            }
            lemma_masks_edges_kept(*old(self), *self);
            assert(self.components() =~= old(self).components());
        }
        Entity { id }
    }

    /// Creates an entity with the next id and no component.
    pub fn new_entity(&mut self) -> (entity: Entity)
        requires
            old(self).wf(),
            old(self).next_id() < u64::MAX,
            old(self).created() < usize::MAX,
        ensures
            final(self).wf(),
            entity@ == old(self).next_id(),
            !old(self).components().contains_key(entity@),
            final(self).components() == old(self).components().insert(
                entity@,
                Set::<usize>::empty(),
            ),
            final(self).next_id() == old(self).next_id() + 1,
            final(self).created() == old(self).created() + 1,
            spawned_tables(*old(self), *final(self), entity),
    {
        let entity = self.reserve_entity();
        let ghost mid = *self;
        self.spawn(entity);
        proof {
            lemma_spawned_tables_frame(*old(self), mid, *self, entity);
        }
        entity
    }

    /// Places `entity`, whose id was taken but under which no entity lives,
    /// with no component.
    pub fn spawn(&mut self, entity: Entity)
        requires
            old(self).wf(),
            entity@ < old(self).next_id(),
            !old(self).components().contains_key(entity@),
        ensures
            final(self).wf(),
            final(self).components() == old(self).components().insert(
                entity@,
                Set::<usize>::empty(),
            ),
            final(self).next_id() == old(self).next_id(),
            final(self).created() == old(self).created(),
            spawned_tables(*old(self), *final(self), entity),
    {
        let id = entity.id;
        let archetype = self.get_or_insert_archetype(ComponentMask::empty());
        let ghost mid = *self;
        let new_entity_index = self.push_entity(archetype, entity);
        self.entity_to_index.insert(id, new_entity_index);
        proof {
            let a = archetype.0 as int;
            assert forall|b: int| 0 <= b < self.n_arch() && b != a implies #[trigger] self.arch(b)
                == mid.arch(b) by {
                assert(self.archetypes_entities@[b] == mid.archetypes_entities@[b]);
            }
            assert(self.arch(a) == mid.arch(a).push(entity));
            assert(self.n_arch() == mid.n_arch());
            assert(self.next_id == mid.next_id);
            assert(id < self.next_id);
            assert(!mid.index_map().contains_key(id));
            lemma_full_to_except(mid, id);
            lemma_pushed_placement(mid, *self, entity, a, new_entity_index);
            lemma_masks_edges_kept(mid, *self);
            let o = *old(self);
            assert forall|b: int|
                #![trigger self.mask_of(b)]
                #![trigger self.arch(b)]
                #![trigger self.add_edges(b)]
                #![trigger self.remove_edges(b)]
                0 <= b < o.n_arch() implies self.mask_of(b) == o.mask_of(b) && self.add_edges(b)
                == o.add_edges(b) && self.remove_edges(b) == o.remove_edges(b) && (b != a
                ==> self.arch(b) == o.arch(b)) by {
                assert(mid.arch(b) == o.arch(b));
                assert(self.mask_of(b) == mid.mask_of(b));
            }
            if a >= o.n_arch() {
                assert(mid.arch(a) == Seq::<Entity>::empty());
                assert(self.arch(a) =~= seq![entity]);
                assert(mid.add_edges(a) == Map::<usize, ArchetypeIndex>::empty());
                assert(mid.remove_edges(a) == Map::<usize, ArchetypeIndex>::empty());
            }
            assert(self.index_map() =~= o.index_map().insert(id, new_entity_index));
            assert(spawned_tables(o, *self, entity));
            assert(self.components() =~= old(self).components().insert(id, Set::<usize>::empty())) by {
                assert forall|x: u64| #[trigger] self.index_map().contains_key(x) && x != id implies
                    self.mask_of(self.index_map()[x].archetype.0 as int)
                    == mid.mask_of(mid.index_map()[x].archetype.0 as int) by {
                    assert(mid.placed(x, mid.index_map()[x]));
                }
            }
        }
    }

    /// Removes `entity`; returns the component indices it carried, so that
    /// their storages can drop it too. A dead entity is left alone.
    pub fn kill(&mut self, entity: Entity) -> (components: Vec<usize>)
        requires
            old(self).wf(),
        ensures
            final(self).wf(),
            final(self).next_id() == old(self).next_id(),
            final(self).created() == old(self).created(),
            components@.no_duplicates(),
            forall|i: int, j: int|
                0 <= i < j < components@.len() ==> components@[i] < components@[j],
            old(self).components().contains_key(entity@) ==> {
                &&& final(self).components() == old(self).components().remove(entity@)
                &&& components@.to_set() == old(self).components()[entity@]
            },
            !old(self).components().contains_key(entity@) ==> {
                &&& *final(self) == *old(self)
                &&& components@ == Seq::<usize>::empty()
            },
            old(self).components().contains_key(entity@) ==> killed_tables(
                *old(self),
                *final(self),
                entity,
            ),
    {
        let entity_index = match self.entity_to_index.get(&entity.id) {
            Some(entity_index) => *entity_index,
            None => {
                let none: Vec<usize> = Vec::new();
                return none;
            },
        };
        self.entity_to_index.remove(&entity.id);
        let ghost o = *old(self);
        let ghost id = entity@;
        let a = entity_index.archetype.0;
        proof {
            assert(o.index_map().contains_key(id));
            assert(o.placed(id, entity_index));
        }
        let entities = &mut self.archetypes_entities[a];
        let last = entities[entities.len() - 1];
        entities.swap_remove(entity_index.index_in_archetype);
        if last != entity {
            self.entity_to_index.insert(last.id, entity_index);
        }
        proof {
            let ai = a as int;
            let i = entity_index.index_in_archetype as int;
            let len = o.arch(ai).len();
            assert(last == o.arch(ai)[len - 1]);
            assert(o.slots_indexed());
            assert(index_at(o.index_map()[o.arch(ai)[len - 1]@], ai, len - 1));
            assert(i == len - 1 <==> last == entity);
            assert(self.arch(ai) == o.arch(ai).update(i, last).drop_last());
            assert forall|b: int| 0 <= b < self.n_arch() && b != ai implies #[trigger] self.arch(b)
                == o.arch(b) by {
                assert(self.archetypes_entities@[b] == o.archetypes_entities@[b]);
            }
            assert(self.n_arch() == o.n_arch());
            if last == entity {
                assert(self.index_map() =~= o.index_map().remove(id));
                assert(self.index_map().remove(id) =~= o.index_map().remove(id));
            } else {
                assert(self.index_map() =~= o.index_map().remove(id).insert(last@, entity_index));
                assert(self.index_map().remove(id) =~= o.index_map().insert(last@, entity_index).remove(
                    id,
                ));
            }
            lemma_swap_removed_placement(o, *self, entity, entity_index);
            lemma_except_to_full(*self, id);
            lemma_masks_edges_kept(o, *self);
            assert(self.arch(ai) == swap_removed(o.arch(ai), i));
            assert(killed_tables(o, *self, entity));
            assert(self.components() =~= o.components().remove(id)) by {
                assert forall|x: u64| #[trigger] self.index_map().contains_key(x) implies
                    self.mask_of(self.index_map()[x].archetype.0 as int)
                    == o.mask_of(o.index_map()[x].archetype.0 as int) by {
                    if last != entity && x == last@ {
                        assert(o.index_map()[x].archetype == entity_index.archetype);
                    }
                }
            }
        }
        self.archetypes_component_mask[a].components()
    }

    /// Moves `entity`, which lies at `from`, to the end of archetype `to`.
    pub fn transfer(&mut self, entity: Entity, from: EntityIndex, to: ArchetypeIndex)
        requires
            old(self).tables_wf(),
            old(self).index_map().contains_key(entity@),
            old(self).index_map()[entity@] == from,
            to.0 < old(self).n_arch(),
        ensures
            final(self).tables_wf(),
            final(self).next_id() == old(self).next_id(),
            final(self).created() == old(self).created(),
            final(self).components() == old(self).components().insert(
                entity@,
                old(self).mask_of(to.0 as int),
            ),
            moved_tables(*old(self), *final(self), entity, from, to.0 as int),
            final(self).listing().no_duplicates(),
            final(self).listing().len() == old(self).listing().len(),
            final(self).listing().to_set() == old(self).listing().to_set(),
    {
        let ghost o = *old(self);
        let ghost id = entity@;
        let a = from.archetype.0;
        proof {
            assert(o.placed(id, from));
        }
        let from_entities = &mut self.archetypes_entities[a];
        let from_last = from_entities[from_entities.len() - 1];
        from_entities.swap_remove(from.index_in_archetype);
        if from_last != entity {
            self.entity_to_index.insert(from_last.id, from);
        }
        let ghost s1 = *self;
        proof {
            let ai = a as int;
            let i = from.index_in_archetype as int;
            let len = o.arch(ai).len();
            assert(from_last == o.arch(ai)[len - 1]);
            assert(o.slots_indexed());
            assert(index_at(o.index_map()[o.arch(ai)[len - 1]@], ai, len - 1));
            assert(i == len - 1 <==> from_last == entity);
            assert(s1.arch(ai) == o.arch(ai).update(i, from_last).drop_last());
            assert forall|b: int| 0 <= b < s1.n_arch() && b != ai implies #[trigger] s1.arch(b)
                == o.arch(b) by {
                assert(s1.archetypes_entities@[b] == o.archetypes_entities@[b]);
            }
            assert(s1.n_arch() == o.n_arch());
            if from_last == entity {
                assert(s1.index_map().remove(id) =~= o.index_map().remove(id));
            } else {
                assert(s1.index_map().remove(id) =~= o.index_map().insert(from_last@, from).remove(id));
            }
            lemma_swap_removed_placement(o, s1, entity, from);
        }
        let to_entity_index = self.push_entity(to, entity);
        let ghost s2 = *self;
        self.entity_to_index.insert(entity.id, to_entity_index);
        proof {
            let ai = a as int;
            let i = from.index_in_archetype as int;
            let t = to.0 as int;
            let tl = s1.arch(t).len() as int;
            assert(self.arch(t) == s1.arch(t).push(entity));
            assert forall|b: int| 0 <= b < self.n_arch() && b != t implies #[trigger] self.arch(b)
                == s1.arch(b) by {
                assert(self.archetypes_entities@[b] == s2.archetypes_entities@[b]);
            }
            assert(self.n_arch() == o.n_arch());
            assert(self.index_map() == s1.index_map().insert(id, to_entity_index));
            lemma_pushed_placement(s1, *self, entity, t, to_entity_index);
            lemma_masks_edges_kept(o, *self);
            assert(s1.arch(ai) == swap_removed(o.arch(ai), i));
            if t != ai {
                assert(self.arch(ai) == s1.arch(ai));
            }
            assert(self.index_map()[id] == to_entity_index);
            assert(from_last == o.arch(ai).last());
            if from_last == entity {
                assert(self.index_map() =~= o.index_map().insert(id, to_entity_index));
            } else {
                assert(self.index_map() =~= o.index_map().insert(from_last@, from).insert(
                    id,
                    to_entity_index,
                ));
            }
            assert(moved_tables(o, *self, entity, from, t));
            assert(self.components() =~= o.components().insert(id, o.mask_of(t))) by {
                assert forall|x: u64| #[trigger] self.index_map().contains_key(x) && x != id implies
                    self.mask_of(self.index_map()[x].archetype.0 as int)
                    == o.mask_of(o.index_map()[x].archetype.0 as int) by {
                    if from_last != entity && x == from_last@ {
                        assert(o.index_map()[x].archetype == from.archetype);
                    }
                }
            }
            o.lemma_listing_is_living();
            self.lemma_listing_is_living();
            assert(self.listing().to_set() =~= o.listing().to_set()) by {
                assert forall|e: Entity| self.listing().to_set().contains(e) <==> o.listing().to_set().contains(e) by {
                    assert(self.listing().contains(e) <==> self.components().contains_key(e@));
                    assert(o.listing().contains(e) <==> o.components().contains_key(e@));
                }
            }
            self.listing().unique_seq_to_set();
            o.listing().unique_seq_to_set();
        }
    }

    /// Records that `entity` now also carries `component`, moving it to the
    /// archetype of its grown component set. A dead entity is left alone.
    pub fn on_component_inserted(&mut self, entity: Entity, component: usize)
        requires
            old(self).wf(),
            old(self).components().contains_key(entity@) ==> component < usize::MAX,
        ensures
            final(self).wf(),
            final(self).next_id() == old(self).next_id(),
            final(self).created() == old(self).created(),
            old(self).components().contains_key(entity@) ==> final(self).components()
                == old(self).components().insert(
                entity@,
                old(self).components()[entity@].insert(component),
            ),
            !old(self).components().contains_key(entity@) ==> *final(self) == *old(self),
            old(self).components().contains_key(entity@) ==> grown_tables(
                *old(self),
                *final(self),
                entity,
                component,
            ),
    {
        let entity_index = match self.entity_to_index.get(&entity.id) {
            Some(index) => *index,
            None => {
                return;
            },
        };
        let ghost o = *old(self);
        let a = entity_index.archetype.0;
        proof {
            assert(o.placed(entity@, entity_index));
        }
        let cached = match self.archetypes_add_to_next[a].get(&component) {
            Some(next) => Some(*next),
            None => None,
        };
        let next_archetype = match cached {
            Some(next) => next,
            None => {
                let mut next_mask = self.archetypes_component_mask[a].duplicate();
                next_mask.insert(component);
                let next = self.get_or_insert_archetype(next_mask);
                let ghost g = *self;
                self.archetypes_add_to_next[a].insert(component, next);
                proof {
                    assert(self.archetypes_add_to_next@ == g.archetypes_add_to_next@.update(
                        a as int,
                        self.archetypes_add_to_next@[a as int],
                    ));
                    assert(self.edges_valid()) by {
                        assert forall|b: int, c: usize|
                            0 <= b < self.n_arch()
                                && #[trigger] self.archetypes_add_to_next@[b]@.contains_key(
                                c,
                            ) implies {
                            let t = self.archetypes_add_to_next@[b]@[c].0 as int;
                            &&& t < self.n_arch()
                            &&& self.mask_of(t) == self.mask_of(b).insert(c)
                        } by {
                            if b != a as int || c != component {
                                assert(g.archetypes_add_to_next@[b]@.contains_key(c));
                            }
                        }
                        assert forall|b: int, c: usize|
                            0 <= b < self.n_arch()
                                && #[trigger] self.archetypes_remove_to_next@[b]@.contains_key(
                                c,
                            ) implies {
                            let t = self.archetypes_remove_to_next@[b]@[c].0 as int;
                            &&& t < self.n_arch()
                            &&& self.mask_of(t) == self.mask_of(b).remove(c)
                        } by {
                            assert(g.archetypes_remove_to_next@[b]@.contains_key(c));
                        }
                    }
                    assert(self.masks_distinct()) by {
                        assert forall|b: int, c: int|
                            0 <= b < self.n_arch() && 0 <= c < self.n_arch() && b != c implies
                            #[trigger] self.mask_of(b) != #[trigger] self.mask_of(c) by {
                            assert(self.mask_of(b) == g.mask_of(b));
                            assert(self.mask_of(c) == g.mask_of(c));
                        }
                    }
                    lemma_placement_kept(g, *self);
                    assert(self.components() == g.components());
                    assert forall|b: int| 0 <= b < o.n_arch() implies #[trigger] self.arch(b)
                        == o.arch(b) && self.mask_of(b) == o.mask_of(b) && self.remove_edges(b)
                        == o.remove_edges(b) && (b != a ==> self.add_edges(b) == o.add_edges(b)) by {
                        assert(g.arch(b) == o.arch(b));
                        assert(self.archetypes_add_to_next@[b] == g.archetypes_add_to_next@[b] || b
                            == a);
                    }
                    assert forall|b: int| o.n_arch() <= b < self.n_arch() implies #[trigger] self.arch(b)
                        == Seq::<Entity>::empty() && self.add_edges(b) == Map::<usize, ArchetypeIndex>::empty()
                        && self.remove_edges(b) == Map::<usize, ArchetypeIndex>::empty() by {
                        assert(g.arch(b) == Seq::<Entity>::empty());
                        assert(g.add_edges(b) == Map::<usize, ArchetypeIndex>::empty());
                        assert(self.archetypes_add_to_next@[b] == g.archetypes_add_to_next@[b]);
                    }
                    assert(self.add_edges(a as int) == o.add_edges(a as int).insert(component, next));
                }
                next
            },
        };
        proof {
            assert(self.index_map() == o.index_map());
            assert(self.mask_of(a as int) == o.mask_of(a as int));
            assert(self.mask_of(next_archetype.0 as int) == o.mask_of(a as int).insert(component));
        }
        let ghost g = *self;
        self.transfer(entity, entity_index, next_archetype);
        proof {
            let ai = a as int;
            let t = next_archetype.0 as int;
            assert(g.n_arch() == o.n_arch() || g.n_arch() == o.n_arch() + 1);
            if cached is Some {
                assert(g == o);
                assert(o.add_edges(ai).contains_key(component));
                assert(o.add_edges(ai).insert(component, next_archetype) =~= o.add_edges(ai));
            }
            assert forall|b: int| 0 <= b < o.n_arch() implies #[trigger] g.arch(b) == o.arch(b)
                && g.mask_of(b) == o.mask_of(b) && g.remove_edges(b) == o.remove_edges(b) && (b
                != ai ==> g.add_edges(b) == o.add_edges(b)) by {}
            assert(g.add_edges(ai) == o.add_edges(ai).insert(component, next_archetype));
            if t >= o.n_arch() {
                assert(g.arch(t) == Seq::<Entity>::empty());
                assert(g.add_edges(t) == Map::<usize, ArchetypeIndex>::empty());
                assert(g.remove_edges(t) == Map::<usize, ArchetypeIndex>::empty());
            }
            let n = *self;
            assert forall|b: int|
                #![trigger n.mask_of(b)]
                #![trigger n.arch(b)]
                #![trigger n.add_edges(b)]
                #![trigger n.remove_edges(b)]
                0 <= b < o.n_arch() implies n.mask_of(b) == o.mask_of(b)
                && n.remove_edges(b) == o.remove_edges(b) && (b != ai ==> n.add_edges(b)
                == o.add_edges(b)) && (b != ai && b != t ==> n.arch(b) == o.arch(b)) by {
                assert(g.arch(b) == o.arch(b));
                assert(n.mask_of(b) == g.mask_of(b));
                assert(n.add_edges(b) == g.add_edges(b));
                assert(n.remove_edges(b) == g.remove_edges(b));
            }
            assert(grown_tables(o, *self, entity, component));
            assert(self.components() =~= o.components().insert(
                entity@,
                o.components()[entity@].insert(component),
            ));
        }
    }

    /// The entities of archetypes `0..a`, archetype by archetype, each in
    /// slot order.
    pub closed spec fn listed_upto(&self, a: int) -> Seq<Entity>
        decreases a,
    {
        if a <= 0 {
            Seq::empty()
        } else {
            self.listed_upto(a - 1) + self.arch(a - 1)
        }
    }

    /// All entities, archetype by archetype, each in slot order.
    pub closed spec fn listing(&self) -> Seq<Entity> {
        self.listed_upto(self.n_arch() as int)
    }

    /// Whether slot `j` of archetype `b` occurs in `s`.
    pub closed spec fn slot_listed(&self, s: Seq<Entity>, b: int, j: int) -> bool {
        exists|k: int| 0 <= k < s.len() && s[k] == self.arch(b)[j]
    }

    /// The living entities, archetype by archetype, each once.
    pub fn iter(&self) -> (entities: Vec<Entity>)
        requires
            self.wf(),
        ensures
            entities@ == self.listing(),
            entities@.no_duplicates(),
            forall|k: int|
                0 <= k < entities@.len() ==> self.components().contains_key(#[trigger] entities@[k]@),
            forall|id: u64|
                self.components().contains_key(id) ==> exists|k: int|
                    0 <= k < entities@.len() && #[trigger] entities@[k]@ == id,
    {
        let mut result: Vec<Entity> = Vec::new();
        let n = self.archetypes_entities.len();
        let mut a: usize = 0;
        while a < n
            invariant
                self.wf(),
                n == self.n_arch(),
                a <= n,
                result@ == self.listed_upto(a as int),
                forall|k: int|
                    0 <= k < result@.len() ==> {
                        let x = #[trigger] result@[k]@;
                        &&& self.index_map().contains_key(x)
                        &&& self.index_map()[x].archetype.0 < a
                    },
                forall|k1: int, k2: int|
                    0 <= k1 < k2 < result@.len() ==> index_before(
                        self.index_map()[#[trigger] result@[k1]@],
                        self.index_map()[#[trigger] result@[k2]@],
                    ),
                forall|b: int, j: int|
                    0 <= b < a && 0 <= j < self.arch(b).len() ==> #[trigger] self.slot_listed(
                        result@,
                        b,
                        j,
                    ),
            decreases n - a,
        {
            let entities = &self.archetypes_entities[a];
            let m = entities.len();
            let mut i: usize = 0;
            while i < m
                invariant
                    self.wf(),
                    n == self.n_arch(),
                    a < n,
                    entities@ == self.arch(a as int),
                    m == entities@.len(),
                    i <= m,
                    result@ == self.listed_upto(a as int) + entities@.subrange(0, i as int),
                    forall|k: int|
                        0 <= k < result@.len() ==> {
                            let x = #[trigger] result@[k]@;
                            &&& self.index_map().contains_key(x)
                            &&& index_before(
                                self.index_map()[x],
                                EntityIndex {
                                    archetype: ArchetypeIndex(a),
                                    index_in_archetype: i,
                                },
                            )
                        },
                    forall|k1: int, k2: int|
                        0 <= k1 < k2 < result@.len() ==> index_before(
                            self.index_map()[#[trigger] result@[k1]@],
                            self.index_map()[#[trigger] result@[k2]@],
                        ),
                    forall|b: int, j: int|
                        0 <= b < a && 0 <= j < self.arch(b).len() ==> #[trigger] self.slot_listed(
                            result@,
                            b,
                            j,
                        ),
                    forall|j: int| 0 <= j < i ==> #[trigger] self.slot_listed(result@, a as int, j),
                decreases m - i,
            {
                let e = entities[i];
                proof {
                    assert(self.arch(a as int)[i as int] == e);
                    assert(index_at(self.index_map()[e@], a as int, i as int));
                }
                let ghost before = result@;
                result.push(e);
                proof {
                    assert(result@[before.len() as int] == e);
                    assert forall|b: int, j: int|
                        self.slot_listed(before, b, j) implies #[trigger] self.slot_listed(
                        result@,
                        b,
                        j,
                    ) by {
                        let k = choose|k: int|
                            0 <= k < before.len() && before[k] == self.arch(b)[j];
                        assert(result@[k] == before[k]);
                    }
                    assert(entities@.subrange(0, i + 1) =~= entities@.subrange(0, i as int).push(e));
                    assert(result@ =~= self.listed_upto(a as int) + entities@.subrange(0, i + 1));
                    assert(self.slot_listed(result@, a as int, i as int)) by {
                        assert(result@[before.len() as int] == self.arch(a as int)[i as int]);
                    }
                    assert forall|k1: int, k2: int|
                        0 <= k1 < k2 < result@.len() implies index_before(
                            self.index_map()[#[trigger] result@[k1]@],
                            self.index_map()[#[trigger] result@[k2]@],
                        ) by {
                        assert(result@[k1] == before[k1]);
                        if k2 < before.len() {
                            assert(result@[k2] == before[k2]);
                        }
                    }
                }
                i = i + 1;
            }
            proof {
                assert(entities@.subrange(0, m as int) =~= entities@);
                assert(self.listed_upto(a + 1) == self.listed_upto(a as int) + self.arch(a as int));
            }
            a = a + 1;
        }
        proof {
            assert forall|k1: int, k2: int|
                0 <= k1 < result@.len() && 0 <= k2 < result@.len() && k1 != k2 implies result@[k1]
                != result@[k2] by {
                if k1 < k2 {
                    assert(index_before(
                        self.index_map()[result@[k1]@],
                        self.index_map()[result@[k2]@],
                    ));
                } else {
                    assert(index_before(
                        self.index_map()[result@[k2]@],
                        self.index_map()[result@[k1]@],
                    ));
                }
            }
            assert forall|id: u64| self.components().contains_key(id) implies exists|k: int|
                0 <= k < result@.len() && #[trigger] result@[k]@ == id by {
                let ix = self.index_map()[id];
                assert(self.placed(id, ix));
                let b = ix.archetype.0 as int;
                let j = ix.index_in_archetype as int;
                assert(self.slot_listed(result@, b, j));
                let k = choose|k: int| 0 <= k < result@.len() && result@[k] == self.arch(b)[j];
                assert(result@[k]@ == id);
            }
        }
        result
    }

    /// Each position of the listing of the first `a` archetypes holds an
    /// entity whose index names an archetype before `a`, at exactly that
    /// position.
    proof fn lemma_listed_positions(&self, a: int)
        requires
            self.slots_indexed(),
            0 <= a <= self.n_arch(),
        ensures
            forall|k: int|
                0 <= k < self.listed_upto(a).len() ==> {
                    let x = #[trigger] self.listed_upto(a)[k]@;
                    &&& self.index_map().contains_key(x)
                    &&& self.index_map()[x].archetype.0 < a
                    &&& self.listed_upto(self.index_map()[x].archetype.0 as int).len()
                        + self.index_map()[x].index_in_archetype == k
                },
        decreases a,
    {
        if a > 0 {
            self.lemma_listed_positions(a - 1);
            let prev = self.listed_upto(a - 1);
            let cur = self.listed_upto(a);
            assert(cur == prev + self.arch(a - 1));
            assert forall|k: int| 0 <= k < cur.len() implies {
                let x = #[trigger] cur[k]@;
                &&& self.index_map().contains_key(x)
                &&& self.index_map()[x].archetype.0 < a
                &&& self.listed_upto(self.index_map()[x].archetype.0 as int).len()
                    + self.index_map()[x].index_in_archetype == k
            } by {
                if k < prev.len() {
                    assert(cur[k] == prev[k]);
                } else {
                    let j = k - prev.len();
                    assert(cur[k] == self.arch(a - 1)[j]);
                    assert(index_at(self.index_map()[self.arch(a - 1)[j]@], a - 1, j));
                }
            }
        }
    }

    /// Archetype `b`'s entities stand in the listing of the first `a`
    /// archetypes, for `b < a`, right after those of the archetypes before
    /// `b`.
    proof fn lemma_listed_slot(&self, a: int, b: int, j: int)
        requires
            0 <= b < a,
            0 <= j < self.arch(b).len(),
        ensures
            self.listed_upto(b).len() + j < self.listed_upto(a).len(),
            self.listed_upto(a)[self.listed_upto(b).len() + j] == self.arch(b)[j],
        decreases a,
    {
        if a > b + 1 {
            self.lemma_listed_slot(a - 1, b, j);
        }
    }

    /// A well-formed store has well-formed tables.
    pub proof fn lemma_wf_tables(&self)
        requires
            self.wf(),
        ensures
            self.tables_wf(),
    {
    }

    /// The listing holds every living entity exactly once, and nothing else.
    pub proof fn lemma_listing_is_living(&self)
        requires
            self.tables_wf(),
        ensures
            self.listing().no_duplicates(),
            forall|k: int|
                0 <= k < self.listing().len() ==> self.components().contains_key(
                    #[trigger] self.listing()[k]@,
                ),
            forall|e: Entity| #[trigger]
                self.listing().contains(e) <==> self.components().contains_key(e@),
    {
        let n = self.n_arch() as int;
        let l = self.listing();
        self.lemma_listed_positions(n);
        assert forall|k1: int, k2: int|
            0 <= k1 < l.len() && 0 <= k2 < l.len() && k1 != k2 implies l[k1] != l[k2] by {
            assert(l[k1]@ == l[k2]@ ==> k1 == k2);
        }
        assert forall|e: Entity| #[trigger] l.contains(e) <==> self.components().contains_key(e@) by {
            if self.components().contains_key(e@) {
                let ix = self.index_map()[e@];
                assert(self.placed(e@, ix));
                let b = ix.archetype.0 as int;
                let j = ix.index_in_archetype as int;
                self.lemma_listed_slot(n, b, j);
                let k = self.listed_upto(b).len() + j;
                assert(l[k]@ == e@);
                assert(l[k] == e);
            }
            if l.contains(e) {
                let k = choose|k: int| 0 <= k < l.len() && l[k] == e;
                assert(self.index_map().contains_key(l[k]@));
            }
        }
    }

    /// The archetype of a living entity is fixed by its set of components:
    /// two living entities lie in the same archetype exactly when they carry
    /// the same components.
    pub proof fn lemma_archetype_of_components(&self, x: u64, y: u64)
        requires
            self.wf(),
            self.components().contains_key(x),
            self.components().contains_key(y),
        ensures
            (self.index_map()[x].archetype == self.index_map()[y].archetype) <==> (
            self.components()[x] == self.components()[y]),
    {
        let a = self.index_map()[x].archetype.0 as int;
        let b = self.index_map()[y].archetype.0 as int;
        assert(self.placed(x, self.index_map()[x]));
        assert(self.placed(y, self.index_map()[y]));
        if a != b {
            assert(self.mask_of(a) != self.mask_of(b));
        }
    }

    /// The index locates each living entity: it names a slot of an archetype
    /// that holds the entity and whose mask is the entity's components.
    pub proof fn lemma_entity_located(&self, x: u64)
        requires
            self.wf(),
            self.components().contains_key(x),
        ensures
            self.index_map().contains_key(x),
            self.index_map()[x].archetype.0 < self.n_arch(),
            self.index_map()[x].index_in_archetype < self.arch(
                self.index_map()[x].archetype.0 as int,
            ).len(),
            self.arch(self.index_map()[x].archetype.0 as int)[self.index_map()[x].index_in_archetype as int]@
                == x,
            self.mask_of(self.index_map()[x].archetype.0 as int) == self.components()[x],
    {
        assert(self.placed(x, self.index_map()[x]));
    }

    /// A cached edge leads from archetype `a` to the archetype whose mask is
    /// the mask of `a` with the component added (or taken away), and no other
    /// archetype has the mask of `a`.
    pub proof fn lemma_edges_follow_masks(&self, a: int, c: usize)
        requires
            self.wf(),
            0 <= a < self.n_arch(),
        ensures
            self.add_edges(a).contains_key(c) ==> {
                &&& self.add_edges(a)[c].0 < self.n_arch()
                &&& self.mask_of(self.add_edges(a)[c].0 as int) == self.mask_of(a).insert(c)
            },
            self.remove_edges(a).contains_key(c) ==> {
                &&& self.remove_edges(a)[c].0 < self.n_arch()
                &&& self.mask_of(self.remove_edges(a)[c].0 as int) == self.mask_of(a).remove(c)
            },
            forall|b: int| 0 <= b < self.n_arch() && b != a ==> #[trigger] self.mask_of(b) != self.mask_of(a),
    {
        if self.add_edges(a).contains_key(c) {
            assert(self.archetypes_add_to_next@[a]@.contains_key(c));
        }
        if self.remove_edges(a).contains_key(c) {
            assert(self.archetypes_remove_to_next@[a]@.contains_key(c));
        }
    }

    /// Ids are handed out in order from zero: the next id is the number of
    /// entities ever created.
    pub proof fn lemma_created_is_next_id(&self)
        requires
            self.wf(),
        ensures
            self.created() as int == self.next_id() as int,
    {
    }

    /// Every living entity's id lies below the id that the next entity gets,
    /// so an id is never handed out twice.
    pub proof fn lemma_ids_below_next(&self)
        requires
            self.wf(),
        ensures
            forall|id: u64| #[trigger] self.components().contains_key(id) ==> id < self.next_id(),
    {
        assert forall|id: u64| #[trigger] self.components().contains_key(id) implies id
            < self.next_id() by {
            assert(self.index_map().contains_key(id));
        }
    }

    /// Fewer entities live than were ever created.
    pub proof fn lemma_alive_bounded(&self)
        requires
            self.wf(),
        ensures
            self.components().dom().finite(),
            self.components().dom().len() <= self.created(),
    {
        assert(self.components().dom() =~= self.index_map().dom());
        assert forall|x: u64| #[trigger] self.index_map().dom().contains(x) implies x
            < self.next_id by {
            assert(self.index_map().contains_key(x));
        }
        lemma_bounded_ids_len(self.index_map().dom(), self.next_id);
    }

    /// Starts a walk over the archetypes at the first one.
    pub fn new_archetype_visitor(&self) -> (visitor: ArchetypeVisitor)
        ensures
            visitor.cur_index.0 == 0,
    {
        ArchetypeVisitor { cur_index: ArchetypeIndex(0) }
    }

    /// The archetypes that `visitor` has not reached yet, in order; moves
    /// `visitor` past the last archetype.
    pub fn visit_archetype(&self, visitor: &mut ArchetypeVisitor) -> (visited: Vec<usize>)
        ensures
            old(visitor).cur_index.0 < self.n_arch() ==> {
                &&& final(visitor).cur_index.0 == self.n_arch()
                &&& visited@.len() == self.n_arch() - old(visitor).cur_index.0
            },
            old(visitor).cur_index.0 >= self.n_arch() ==> {
                &&& final(visitor).cur_index == old(visitor).cur_index
                &&& visited@.len() == 0
            },
            forall|k: int|
                0 <= k < visited@.len() ==> #[trigger] visited@[k] == old(visitor).cur_index.0 + k,
            visit_step(old(visitor).cur_index.0, self.n_arch(), visited@, final(visitor).cur_index.0),
    {
        let mut visited: Vec<usize> = Vec::new();
        let n = self.archetypes_entities.len();
        while visitor.cur_index.0 < n
            invariant
                n == self.n_arch(),
                old(visitor).cur_index.0 < n ==> visitor.cur_index.0 <= n,
                old(visitor).cur_index.0 >= n ==> visitor.cur_index == old(visitor).cur_index,
                visitor.cur_index.0 >= old(visitor).cur_index.0,
                visited@.len() == visitor.cur_index.0 - old(visitor).cur_index.0,
                forall|k: int|
                    0 <= k < visited@.len() ==> #[trigger] visited@[k] == old(visitor).cur_index.0
                        + k,
            decreases n - visitor.cur_index.0,
        {
            visited.push(visitor.cur_index.0);
            visitor.cur_index.0 = visitor.cur_index.0 + 1;
        }
        visited
    }

    /// Appends `entity` to the entities of `archetype`.
    fn push_entity(&mut self, archetype: ArchetypeIndex, entity: Entity) -> (ix: EntityIndex)
        requires
            archetype.0 < old(self).n_arch(),
        ensures
            ix.archetype == archetype,
            ix.index_in_archetype as int == old(self).arch(archetype.0 as int).len(),
            final(self).archetypes_entities@ == old(self).archetypes_entities@.update(
                archetype.0 as int,
                final(self).archetypes_entities@[archetype.0 as int],
            ),
            final(self).arch(archetype.0 as int) == old(self).arch(archetype.0 as int).push(entity),
            final(self).next_id == old(self).next_id,
            final(self).len == old(self).len,
            final(self).entity_to_index@ == old(self).entity_to_index@,
            final(self).archetypes_component_mask@ == old(self).archetypes_component_mask@,
            final(self).archetypes_add_to_next@ == old(self).archetypes_add_to_next@,
            final(self).archetypes_remove_to_next@ == old(self).archetypes_remove_to_next@,
    {
        let entities = &mut self.archetypes_entities[archetype.0];
        let index_in_archetype = entities.len();
        entities.push(entity);
        EntityIndex::new(archetype, index_in_archetype)
    }
}


/// The entities of a world.
pub struct Entities {
    pub(crate) inner: EntitiesInner,
}

impl Entities {
    pub closed spec fn wf(&self) -> bool {
        self.inner.wf()
    }

    /// The archetype store behind these entities.
    pub closed spec fn store(&self) -> EntitiesInner {
        self.inner
    }

    /// These entities are those of their store: well formed together, with
    /// the same living entities, next id and count.
    pub proof fn lemma_store(&self)
        ensures
            self.wf() == self.store().wf(),
            self.components() == self.store().components(),
            self.next_id() == self.store().next_id(),
            self.created() == self.store().created(),
    {
    }

    /// Each living entity's id, mapped to the set of components it carries.
    pub closed spec fn components(&self) -> Map<u64, Set<usize>> {
        self.inner.components()
    }

    /// The id that the next created entity gets.
    pub closed spec fn next_id(&self) -> u64 {
        self.inner.next_id()
    }

    /// How many entities were ever created.
    pub closed spec fn created(&self) -> usize {
        self.inner.created()
    }

    pub fn new() -> (r: Entities)
        ensures
            r.wf(),
            r.archetype_count() == 0,
            r.components() == Map::<u64, Set<usize>>::empty(),
            r.next_id() == 0,
            r.created() == 0,
    {
        Entities { inner: EntitiesInner::new() }
    }

    /// How many entities were ever created; killing one does not lower it.
    pub fn len(&self) -> (n: usize)
        ensures
            n == self.created(),
    {
        self.inner.len()
    }

    pub fn is_empty(&self) -> (r: bool)
        ensures
            r == (self.created() == 0),
    {
        self.len() == 0
    }

    /// The living entities, each once.
    pub fn iter(&self) -> (entities: Vec<Entity>)
        requires
            self.wf(),
        ensures
            entities@ == self.store().listing(),
            entities@.no_duplicates(),
            forall|k: int|
                0 <= k < entities@.len() ==> self.components().contains_key(#[trigger] entities@[k]@),
            forall|id: u64|
                self.components().contains_key(id) ==> exists|k: int|
                    0 <= k < entities@.len() && #[trigger] entities@[k]@ == id,
    {
        self.inner.iter()
    }

    pub fn is_alive(&self, entity: Entity) -> (alive: bool)
        ensures
            alive == self.components().contains_key(entity@),
    {
        self.inner.is_alive(entity)
    }

    /// Creates an entity with the next id and no component.
    pub fn new_entity(&mut self) -> (entity: Entity)
        requires
            old(self).wf(),
            old(self).next_id() < u64::MAX,
            old(self).created() < usize::MAX,
        ensures
            final(self).wf(),
            entity@ == old(self).next_id(),
            !old(self).components().contains_key(entity@),
            final(self).components() == old(self).components().insert(
                entity@,
                Set::<usize>::empty(),
            ),
            final(self).next_id() == old(self).next_id() + 1,
            final(self).created() == old(self).created() + 1,
            spawned_tables(old(self).store(), final(self).store(), entity),
    {
        self.inner.new_entity()
    }

    /// How many archetypes there are.
    pub closed spec fn archetype_count(&self) -> nat {
        self.inner.n_arch()
    }

    /// Starts a walk over the archetypes at the first one.
    pub fn new_archetype_visitor(&self) -> (visitor: ArchetypeVisitor)
        ensures
            visitor.cur_index.0 == 0,
    {
        self.inner.new_archetype_visitor()
    }

    /// The archetypes that `visitor` has not reached yet, in order; moves
    /// `visitor` past the last archetype.
    pub fn visit_archetype(&self, visitor: &mut ArchetypeVisitor) -> (visited: Vec<usize>)
        ensures
            old(visitor).cur_index.0 < self.archetype_count() ==> {
                &&& final(visitor).cur_index.0 == self.archetype_count()
                &&& visited@.len() == self.archetype_count() - old(visitor).cur_index.0
            },
            old(visitor).cur_index.0 >= self.archetype_count() ==> {
                &&& final(visitor).cur_index == old(visitor).cur_index
                &&& visited@.len() == 0
            },
            forall|k: int|
                0 <= k < visited@.len() ==> #[trigger] visited@[k] == old(visitor).cur_index.0 + k,
            visit_step(
                old(visitor).cur_index.0,
                self.archetype_count(),
                visited@,
                final(visitor).cur_index.0,
            ),
    {
        self.inner.visit_archetype(visitor)
    }

    /// Takes the next id for an entity that is not placed yet.
    pub fn reserve_entity(&mut self) -> (entity: Entity)
        requires
            old(self).wf(),
            old(self).next_id() < u64::MAX,
            old(self).created() < usize::MAX,
        ensures
            final(self).wf(),
            entity@ == old(self).next_id(),
            !final(self).components().contains_key(entity@),
            final(self).components() == old(self).components(),
            final(self).next_id() == old(self).next_id() + 1,
            final(self).created() == old(self).created() + 1,
            final(self).store().same_tables(old(self).store()),
    {
        self.inner.reserve_entity()
    }

    /// Places `entity`, whose id was taken but under which no entity lives,
    /// with no component.
    pub fn spawn(&mut self, entity: Entity)
        requires
            old(self).wf(),
            entity@ < old(self).next_id(),
            !old(self).components().contains_key(entity@),
        ensures
            final(self).wf(),
            final(self).components() == old(self).components().insert(
                entity@,
                Set::<usize>::empty(),
            ),
            final(self).next_id() == old(self).next_id(),
            final(self).created() == old(self).created(),
            spawned_tables(old(self).store(), final(self).store(), entity),
    {
        self.inner.spawn(entity)
    }

    /// Removes `entity`; returns the component indices it carried. A dead
    /// entity is left alone.
    pub fn kill(&mut self, entity: Entity) -> (components: Vec<usize>)
        requires
            old(self).wf(),
        ensures
            final(self).wf(),
            final(self).next_id() == old(self).next_id(),
            final(self).created() == old(self).created(),
            components@.no_duplicates(),
            old(self).components().contains_key(entity@) ==> killed_tables(
                old(self).store(),
                final(self).store(),
                entity,
            ),
            forall|i: int, j: int|
                0 <= i < j < components@.len() ==> components@[i] < components@[j],
            old(self).components().contains_key(entity@) ==> {
                &&& final(self).components() == old(self).components().remove(entity@)
                &&& components@.to_set() == old(self).components()[entity@]
            },
            !old(self).components().contains_key(entity@) ==> {
                &&& *final(self) == *old(self)
                &&& components@ == Seq::<usize>::empty()
            },
    {
        self.inner.kill(entity)
    }

    /// Fewer entities live than were ever created.
    pub proof fn lemma_alive_bounded(&self)
        requires
            self.wf(),
        ensures
            self.components().dom().finite(),
            self.components().dom().len() <= self.created(),
    {
        self.inner.lemma_alive_bounded();
    }

    /// Ids are handed out in order from zero: the next id is the number of
    /// entities ever created.
    pub proof fn lemma_created_is_next_id(&self)
        requires
            self.wf(),
        ensures
            self.created() as int == self.next_id() as int,
    {
        self.inner.lemma_created_is_next_id();
    }

    /// Every living entity's id lies below the id that the next entity gets,
    /// so an id is never handed out twice.
    pub proof fn lemma_ids_below_next(&self)
        requires
            self.wf(),
        ensures
            forall|id: u64| #[trigger] self.components().contains_key(id) ==> id < self.next_id(),
    {
        self.inner.lemma_ids_below_next();
    }

    /// Records that `entity` now also carries the component with index
    /// `component`. A dead entity is left alone.
    pub fn on_component_inserted(&mut self, entity: Entity, component: usize)
        requires
            old(self).wf(),
            old(self).components().contains_key(entity@) ==> component < usize::MAX,
        ensures
            final(self).wf(),
            final(self).next_id() == old(self).next_id(),
            final(self).created() == old(self).created(),
            final(self).components() == add_component(old(self).components(), entity@, component),
            !old(self).components().contains_key(entity@) ==> *final(self) == *old(self),
            old(self).components().contains_key(entity@) ==> grown_tables(
                old(self).store(),
                final(self).store(),
                entity,
                component,
            ),
    {
        self.inner.on_component_inserted(entity, component);
    }
}

impl Default for Entities {
    fn default() -> (r: Entities)
        ensures
            r.wf(),
            r.archetype_count() == 0,
            r.components() == Map::<u64, Set<usize>>::empty(),
            r.next_id() == 0,
            r.created() == 0,
    {
        Entities::new()
    }
}

/// Builds an entity. The entity lives from the moment the creator is made,
/// and `with` puts it into a component's storage at once. A creator has no
/// destructor; the world remembers its entity as uncreated until `create`.
/// A creator dropped before that leaves the entity behind as abandoned:
/// every call that reaches the world after the creator is gone sees it as
/// killed, and the first one that changes the world kills it.
pub struct EntityCreator<'r> {
    pub created: bool,
    pub entity: Entity,
    pub world: &'r mut World,
}

impl<'r> EntityCreator<'r> {
    pub open spec fn entity(&self) -> Entity {
        self.entity
    }

    pub open spec fn is_created(&self) -> bool {
        self.created
    }

    pub open spec fn world(&self) -> World {
        *self.world
    }

    /// The world is well formed and the entity lives in it; until `create`
    /// the world holds it as uncreated, and after it as nothing.
    pub open spec fn wf(&self) -> bool {
        &&& self.world().wf()
        &&& self.world().entities().components().contains_key(self.entity@)
        &&& !self.created ==> self.world().uncreated() == Some(self.entity)
        &&& self.created ==> self.world().uncreated() is None
    }

    /// Once a creator is dropped before `create`, its entity is not among
    /// the living entities that the world shows, nor in any storage.
    pub proof fn lemma_dropped_entity_gone(&self)
        requires
            self.wf(),
            !self.is_created(),
        ensures
            !self.world().settled_components().contains_key(self.entity()@),
            forall|c: usize| #[trigger]
                self.world().settled_storages().contains_key(c) ==> !self.world().settled_storages()[c].contains(
                    self.entity()@,
                ),
    {
    }

    /// Gives the entity a component of type `C`: the storage of the
    /// component's index is registered if need be and holds the entity from
    /// now on. The index is a position in the world's registry, appended when
    /// the world meets a type first; which position belongs to which type
    /// rests on `TypeId`, whose values the contracts do not name. The world
    /// records which entities carry each component; the value `c` itself is
    /// not kept.
    pub fn with<C: Component>(&mut self, c: C) -> (r: &mut Self)
        requires
            old(self).wf(),
        ensures
            r.wf(),
            r.world().wf(),
            r.entity() == old(self).entity(),
            r.is_created() == old(self).is_created(),
            *final(self) == *final(r),
            *final(r.world) == *final(old(self).world),
            r.world().uncreated() == old(self).world().uncreated(),
            r.world().entities().next_id() == old(self).world().entities().next_id(),
            r.world().entities().created() == old(self).world().entities().created(),
            exists|ci: usize|
                {
                    &&& ci < usize::MAX
                    &&& #[trigger] registered(
                        old(self).world().registry()@,
                        r.world().registry()@,
                        ci,
                    )
                    &&& r.world().entities().components() == add_component(
                        old(self).world().entities().components(),
                        old(self).entity()@,
                        ci,
                    )
                    &&& r.world().storages() == storages_with(
                        old(self).world().storages(),
                        ci,
                        old(self).entity()@,
                    )
                    &&& r.world().storages()[ci].contains(old(self).entity()@)
                    &&& looked_up::<C>(old(self).world().registry()@, r.world().registry()@, ci)
                },
    {
        let index = self.world.register_component::<C>();
        let ghost w0 = *self.world;
        self.world.add_component_to(self.entity, index);
        proof {
            assert(registered(old(self).world().registry()@, self.world().registry()@, index));
            assert(self.world().storages()[index].contains(self.entity@));
            assert(self.world().entities().components().contains_key(self.entity@));
        }
        self
    }

    /// Marks the entity as created, so that dropping the creator keeps it;
    /// returns it. The world's entities and storages stay as they are.
    pub fn create(&mut self) -> (entity: Entity)
        requires
            old(self).wf(),
        ensures
            final(self).wf(),
            final(self).world().wf(),
            entity == old(self).entity(),
            final(self).entity() == old(self).entity(),
            final(self).is_created(),
            *final(final(self).world) == *final(old(self).world),
            final(self).world().uncreated() is None,
            final(self).world().entities() == old(self).world().entities(),
            final(self).world().storages() == old(self).world().storages(),
            final(self).world().registry() == old(self).world().registry(),
            final(self).world().settled_components() == old(self).world().entities().components(),
    {
        self.created = true;
        self.world.set_uncreated(None);
        self.entity
    }
}

impl World {
    /// Creates an entity with the next id and no component, living at once,
    /// and returns its creator. The world is settled first.
    pub fn create_entity(&mut self) -> (creator: EntityCreator<'_>)
        requires
            old(self).wf(),
            old(self).entities().next_id() < u64::MAX,
            old(self).entities().created() < usize::MAX,
        ensures
            creator.wf(),
            creator.world().wf(),
            creator.entity()@ == old(self).entities().next_id(),
            creator.entity()@ as int == old(self).entities().created() as int,
            !creator.is_created(),
            !old(self).entities().components().contains_key(creator.entity()@),
            creator.world().entities().components() == old(self).settled_components().insert(
                creator.entity()@,
                Set::<usize>::empty(),
            ),
            creator.world().entities().next_id() == old(self).entities().next_id() + 1,
            creator.world().entities().created() == old(self).entities().created() + 1,
            creator.world().storages() == old(self).settled_storages(),
            creator.world().registry() == old(self).registry(),
            creator.world().uncreated() == Some(creator.entity()),
            creator.world().settled_components() == old(self).settled_components(),
            *final(self) == *final(creator.world),
    {
        proof {
            old(self).entities().lemma_ids_below_next();
            old(self).entities().lemma_created_is_next_id();
        }
        let entity = self.new_entity();
        self.set_uncreated(Some(entity));
        proof {
            assert(!old(self).settled_components().contains_key(entity@));
            assert(self.settled_components() =~= old(self).settled_components());
        }
        EntityCreator { created: false, entity, world: self }
    }
}

} // verus!
