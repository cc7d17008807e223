//! The type-erased capability set that every component container offers,
//! together with the spec-level transformations its contracts are stated
//! over. An owner that holds many containers of unlike payload types works
//! through this trait when it needs no knowledge of the payload, most of
//! all to remove one entity from every container that might hold it.

use vstd::prelude::*;
use crate::entity::Entity;

verus! {

/// A dense owner sequence and its index map agree when every mapping entry
/// points at a slot within bounds that is owned by that very entity.
pub open spec fn slots_consistent(entities: Seq<Entity>, slots: Map<u32, usize>) -> bool {
    forall|k: u32|
        #[trigger] slots.contains_key(k) ==> slots[k] < entities.len() && entities[slots[k] as int]@
            == k
}

/// A dense sequence after deleting slot `i`: an ordered removal excises the
/// slot and shifts what follows down by one; a swap removal overwrites it
/// with the last slot and shrinks by one.
pub open spec fn seq_after_remove<A>(s: Seq<A>, i: int, keep_order: bool) -> Seq<A> {
    if keep_order {
        s.remove(i)
    } else {
        s.update(i, s.last()).drop_last()
    }
}

/// An index map after deleting entity `eid` from slot `i` of a sequence
/// whose last slot was `last`: the removed entity's entry disappears; an
/// ordered removal shifts every entry past `i` down by one, a swap removal
/// redirects the entry of the slot that was moved into the vacancy.
pub open spec fn slots_after_remove(
    slots: Map<u32, usize>,
    eid: u32,
    i: usize,
    last: usize,
    keep_order: bool,
) -> Map<u32, usize> {
    if keep_order {
        Map::new(
            |k: u32| slots.contains_key(k) && k != eid,
            |k: u32|
                if slots[k] > i {
                    (slots[k] - 1) as usize
                } else {
                    slots[k]
                },
        )
    } else {
        Map::new(
            |k: u32| slots.contains_key(k) && k != eid,
            |k: u32|
                if slots[k] == last {
                    i
                } else {
                    slots[k]
                },
        )
    }
}

/// The capability set `{clear, size, remove, pop_back, has}` implemented
/// identically by every concrete container. Insertion and typed access are
/// deliberately absent: they need the payload type and are reached only
/// through the strongly typed container handle.
pub trait ContainerInterface {
    /// The dense sequence of owning entities, in slot order.
    spec fn entities(&self) -> Seq<Entity>;

    /// The mapping from entity identifier to current dense slot.
    spec fn slots(&self) -> Map<u32, usize>;

    /// Well-formedness of the erased state.
    spec fn inv(&self) -> bool;

    /// Empties the container: no slots remain and no entity is present.
    fn clear(&mut self)
        ensures
            final(self).inv(),
            final(self).entities() == Seq::<Entity>::empty(),
            final(self).slots() == Map::<u32, usize>::empty(),
    ;

    /// The current count of live slots.
    fn size(&self) -> (n: usize)
        requires
            self.inv(),
        ensures
            n == self.entities().len(),
    ;

    /// Whether the entity currently has a mapping entry.
    fn has(&self, e: &Entity) -> (r: bool)
        ensures
            r == self.slots().contains_key(e@),
    ;

    /// Deletes the entity's slot, ordered or by swapping, and its mapping
    /// entry; a no-op when the entity has no mapping entry.
    fn remove(&mut self, e: &Entity, keep_order: bool)
        requires
            old(self).inv(),
        ensures
            final(self).inv(),
            !old(self).slots().contains_key(e@) ==> final(self).entities() == old(self).entities()
                && final(self).slots() == old(self).slots(),
            old(self).slots().contains_key(e@) ==> final(self).entities() == seq_after_remove(
                old(self).entities(),
                old(self).slots()[e@] as int,
                keep_order,
            ) && final(self).slots() == slots_after_remove(
                old(self).slots(),
                e@,
                old(self).slots()[e@],
                (old(self).entities().len() - 1) as usize,
                keep_order,
            ),
    ;

    /// Unconditionally deletes the last slot, and the mapping entry of its
    /// owning entity if that entity still has one; a no-op when empty.
    fn pop_back(&mut self)
        requires
            old(self).inv(),
        ensures
            final(self).inv(),
            old(self).entities().len() == 0 ==> final(self).entities() == old(self).entities()
                && final(self).slots() == old(self).slots(),
            old(self).entities().len() > 0 ==> final(self).entities() == old(
                self,
            ).entities().drop_last() && final(self).slots() == old(self).slots().remove(
                old(self).entities().last()@,
            ),
    ;
}

} // verus!
