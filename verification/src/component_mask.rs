use vstd::prelude::*;
use bit_set::BitSet;

verus! {

/// The set of component indices that an archetype's entities carry, held in
/// a `bit_set::BitSet<usize>`.
#[verifier::external_body]
pub struct ComponentMask {
    bits: BitSet<usize>,
}

/// The component indices that a mask's bit set holds.
pub uninterp spec fn mask_elements(m: ComponentMask) -> Set<usize>;

/// `BitSet::default()`: an empty set.
#[verifier::external_body]
fn bit_set_empty() -> (m: ComponentMask)
    ensures
        mask_elements(m) == Set::<usize>::empty(),
{
    ComponentMask { bits: BitSet::default() }
}

/// `BitSet::clone`: a set with the same elements.
#[verifier::external_body]
fn bit_set_clone(m: &ComponentMask) -> (r: ComponentMask)
    ensures
        mask_elements(r) == mask_elements(*m),
{
    ComponentMask { bits: m.bits.clone() }
}

/// `BitSet::insert`: adds `value` and returns whether it was absent. The set
/// first grows its bit vector to `value + 1` bits, which overflows for
/// `usize::MAX`; the memory that this growth takes is not stated here.
#[verifier::external_body]
fn bit_set_insert(m: &mut ComponentMask, value: usize) -> (fresh: bool)
    requires
        value < usize::MAX,
    ensures
        mask_elements(*final(m)) == mask_elements(*old(m)).insert(value),
        fresh == !mask_elements(*old(m)).contains(value),
{
    m.bits.insert(value)
}

/// `BitSet::eq`: compares the elements of both sets in ascending order, so
/// it returns whether they hold the same elements.
#[verifier::external_body]
fn bit_set_eq(a: &ComponentMask, b: &ComponentMask) -> (r: bool)
    ensures
        r == (mask_elements(*a) == mask_elements(*b)),
{
    a.bits == b.bits
}

/// `BitSet::iter`, collected into a vector: each element once, ascending.
#[verifier::external_body]
fn bit_set_iter(m: &ComponentMask) -> (v: Vec<usize>)
    ensures
        v@.to_set() == mask_elements(*m),
        forall|i: int, j: int| 0 <= i < j < v@.len() ==> v@[i] < v@[j],
{
    m.bits.iter().collect()
}

impl View for ComponentMask {
    type V = Set<usize>;

    closed spec fn view(&self) -> Set<usize> {
        mask_elements(*self)
    }
}

impl ComponentMask {
    /// The mask with no component.
    pub fn empty() -> (m: ComponentMask)
        ensures
            m@ == Set::<usize>::empty(),
    {
        bit_set_empty()
    }

    /// A second mask with the same component indices.
    pub fn duplicate(&self) -> (m: ComponentMask)
        ensures
            m@ == self@,
    {
        bit_set_clone(self)
    }

    /// Adds a component index; returns whether it was absent.
    pub fn insert(&mut self, component: usize) -> (fresh: bool)
        requires
            component < usize::MAX,
        ensures
            final(self)@ == old(self)@.insert(component),
            fresh == !old(self)@.contains(component),
    {
        bit_set_insert(self, component)
    }

    /// Whether both masks hold the same component indices.
    pub fn same_as(&self, other: &ComponentMask) -> (r: bool)
        ensures
            r == (self@ == other@),
    {
        bit_set_eq(self, other)
    }

    /// The component indices, each once, in ascending order.
    pub fn components(&self) -> (v: Vec<usize>)
        ensures
            v@.to_set() == self@,
            v@.no_duplicates(),
            forall|i: int, j: int| 0 <= i < j < v@.len() ==> v@[i] < v@[j],
    {
        bit_set_iter(self)
    }
}

} // verus!
