//! Dense component storage keyed by entity.
//!
//! A container owns three index-aligned structures: a dense sequence of
//! components, a dense sequence of the entities that own them, and a map
//! from entity identifier to current dense slot. The map gives constant-time
//! presence checks and lookups; removal comes in an order-preserving and a
//! constant-time swapping flavour.

use vstd::prelude::*;
use std::collections::HashMap;
use crate::entity::Entity;
use crate::interface::{ContainerInterface, seq_after_remove, slots_after_remove, slots_consistent};

verus! {

broadcast use vstd::std_specs::hash::group_hash_axioms;

/// The one error the container raises: a duplicate-checked insertion found
/// the entity already present.
#[derive(Clone, Copy, Debug, PartialEq, Eq, Structural)]
pub struct DuplicateInsertion;

/// The mathematical content of a container: the two dense sequences and the
/// index map, with nothing of the executable representation left.
#[verifier::ext_equal]
pub struct ContainerModel<T> {
    pub entities: Seq<Entity>,
    pub components: Seq<T>,
    pub slots: Map<u32, usize>,
}

impl<T> ContainerModel<T> {
    /// Well-formedness: the dense sequences are aligned and fit the
    /// machine's index range, and every mapping entry points at a slot
    /// within bounds owned by that very entity. A dense slot without a
    /// mapping entry pointing at it is allowed: an unchecked double insert
    /// orphans the earlier slot by design.
    pub open spec fn wf(self) -> bool {
        self.entities.len() == self.components.len() && self.entities.len() <= usize::MAX
            && slots_consistent(self.entities, self.slots)
    }

    /// The model of a container with nothing in it.
    pub open spec fn empty() -> ContainerModel<T> {
        ContainerModel {
            entities: Seq::empty(),
            components: Seq::empty(),
            slots: Map::empty(),
        }
    }
}

/// The model after a successful insert: both dense sequences grow by one
/// slot at the end and the mapping entry is written to point at it,
/// overwriting any earlier entry for the same entity.
pub open spec fn spec_insert<T>(m: ContainerModel<T>, e: Entity, c: T) -> ContainerModel<T> {
    ContainerModel {
        entities: m.entities.push(e),
        components: m.components.push(c),
        slots: m.slots.insert(e@, m.entities.len() as usize),
    }
}

/// The model after `remove`: unchanged when the entity has no mapping
/// entry; otherwise its slot is deleted from both dense sequences, ordered
/// or by swapping, and the index map is adjusted to match.
pub open spec fn spec_remove<T>(m: ContainerModel<T>, eid: u32, keep_order: bool) -> ContainerModel<
    T,
> {
    if !m.slots.contains_key(eid) {
        m
    } else {
        ContainerModel {
            entities: seq_after_remove(m.entities, m.slots[eid] as int, keep_order),
            components: seq_after_remove(m.components, m.slots[eid] as int, keep_order),
            slots: slots_after_remove(
                m.slots,
                eid,
                m.slots[eid],
                (m.entities.len() - 1) as usize,
                keep_order,
            ),
        }
    }
}

/// The model after `pop_back`: unchanged when empty; otherwise the last
/// slot leaves both dense sequences and the last entity's mapping entry, if
/// it still has one, is deleted.
pub open spec fn spec_pop_back<T>(m: ContainerModel<T>) -> ContainerModel<T> {
    if m.entities.len() == 0 {
        m
    } else {
        ContainerModel {
            entities: m.entities.drop_last(),
            components: m.components.drop_last(),
            slots: m.slots.remove(m.entities.last()@),
        }
    }
}

/// Removal preserves well-formedness.
pub proof fn lemma_remove_wf<T>(m: ContainerModel<T>, eid: u32, keep_order: bool)
    requires
        m.wf(),
    ensures
        spec_remove(m, eid, keep_order).wf(),
{
    if m.slots.contains_key(eid) {
        let i = m.slots[eid] as int;
        let last = m.entities.len() - 1;
        let post = spec_remove(m, eid, keep_order);
        assert(m.entities[i]@ == eid);
        if keep_order {
            m.entities.remove_ensures(i);
        }
        assert forall|k: u32| #[trigger] post.slots.contains_key(k) implies post.slots[k]
            < post.entities.len() && post.entities[post.slots[k] as int]@ == k by {
            assert(m.slots.contains_key(k) && k != eid);
            assert(m.entities[m.slots[k] as int]@ == k);
            let s = m.slots[k] as int;
            if s == i {
                assert(k == eid);
            }
            if keep_order {
                if s > i {
                    assert(post.entities[s - 1] == m.entities[s]);
                } else {
                    assert(post.entities[s] == m.entities[s]);
                }
            } else {
                if s == last {
                    assert(i < last);
                    assert(post.entities[i] == m.entities.update(i, m.entities.last())[i]);
                } else {
                    assert(post.entities[s] == m.entities.update(i, m.entities.last())[s]);
                }
            }
        }
    }
}

/// Popping the last slot preserves well-formedness.
pub proof fn lemma_pop_back_wf<T>(m: ContainerModel<T>)
    requires
        m.wf(),
    ensures
        spec_pop_back(m).wf(),
{
    if m.entities.len() > 0 {
        let post = spec_pop_back(m);
        assert forall|k: u32| #[trigger] post.slots.contains_key(k) implies post.slots[k]
            < post.entities.len() && post.entities[post.slots[k] as int]@ == k by {
            assert(m.slots.contains_key(k));
            assert(m.entities[m.slots[k] as int]@ == k);
            if m.slots[k] == m.entities.len() - 1 {
                assert(k == m.entities.last()@);
            }
        }
    }
}

/// Generic dense storage of one component per entity, with an index map
/// for constant-time presence checks and lookups.
pub struct ComponentContainer<T> {
    slot_of: HashMap<u32, usize>,
    components: Vec<T>,
    entities: Vec<Entity>,
}

impl<T> View for ComponentContainer<T> {
    type V = ContainerModel<T>;

    closed spec fn view(&self) -> ContainerModel<T> {
        ContainerModel {
            entities: self.entities@,
            components: self.components@,
            slots: self.slot_of@,
        }
    }
}

impl<T> ComponentContainer<T> {
    /// An empty container.
    pub fn new() -> (c: ComponentContainer<T>)
        ensures
            c@ == ContainerModel::<T>::empty(),
            c@.wf(),
    {
        let c = ComponentContainer {
            slot_of: HashMap::new(),
            components: Vec::new(),
            entities: Vec::new(),
        };
        proof {
            assert(c@ =~= ContainerModel::<T>::empty());
        }
        c
    }

    /// Appends the component and its owning entity and records the new
    /// slot in the index map. With duplicate checking, an entity already
    /// present is rejected and the container is left completely unchanged.
    /// Without it, a second insert for the same entity creates a second
    /// dense slot and redirects the mapping there, orphaning the earlier
    /// slot — a documented quirk, kept as is. On success the new slot's
    /// index is returned as a handle to the stored component.
    pub fn insert(&mut self, e: &Entity, c: T, check_for_duplicates: bool) -> (r: Result<
        usize,
        DuplicateInsertion,
    >)
        requires
            old(self)@.wf(),
            old(self)@.entities.len() < usize::MAX,
        ensures
            final(self)@.wf(),
            r is Ok <==> !(check_for_duplicates && old(self)@.slots.contains_key(e@)),
            (r matches Ok(i) ==> i == old(self)@.entities.len() && final(self)@ == spec_insert(
                old(self)@,
                *e,
                c,
            )),
            r is Err ==> final(self)@ == old(self)@ && r == Err::<usize, DuplicateInsertion>(
                DuplicateInsertion,
            ),
    {
        let key: u32 = e.id();
        if check_for_duplicates && self.slot_of.contains_key(&key) {
            return Err(DuplicateInsertion);
        }
        let idx: usize = self.components.len();
        self.slot_of.insert(key, idx);
        self.components.push(c);
        self.entities.push(*e);
        proof {
            let m0 = old(self)@;
            let m1 = self@;
            assert(m1 =~= spec_insert(m0, *e, c));
            assert forall|k: u32| #[trigger] m1.slots.contains_key(k) implies m1.slots[k]
                < m1.entities.len() && m1.entities[m1.slots[k] as int]@ == k by {
                if k != e@ {
                    assert(m0.slots.contains_key(k));
                }
            }
        }
        Ok(idx)
    }

    /// Looks the entity's component up through the index map.
    pub fn get(&self, e: &Entity) -> (r: Option<&T>)
        requires
            self@.wf(),
        ensures
            (r matches Some(c) ==> self@.slots.contains_key(e@) && *c == self@.components[self@.slots[e@] as int]),
            r is None ==> !self@.slots.contains_key(e@),
    {
        let key: u32 = e.id();
        match self.slot_of.get(&key) {
            Some(i_ref) => {
                let i: usize = *i_ref;
                proof {
                    assert(self@.slots.contains_key(key) && self@.slots[key] == i);
                }
                Some(&self.components[i])
            },
            None => None,
        }
    }

    /// The entity that owns dense slot `i`.
    pub fn entity_at(&self, i: usize) -> (e: Entity)
        requires
            i < self@.entities.len(),
        ensures
            e == self@.entities[i as int],
    {
        self.entities[i]
    }
}

impl<T> ContainerInterface for ComponentContainer<T> {
    open spec fn entities(&self) -> Seq<Entity> {
        self@.entities
    }

    open spec fn slots(&self) -> Map<u32, usize> {
        self@.slots
    }

    open spec fn inv(&self) -> bool {
        self@.wf()
    }

    fn clear(&mut self)
        ensures
            final(self)@ == ContainerModel::<T>::empty(),
    {
        self.slot_of.clear();
        self.components.clear();
        self.entities.clear();
        proof {
            assert(self@ =~= ContainerModel::<T>::empty());
        }
    }

    fn size(&self) -> (n: usize)
        ensures
            n == self@.components.len(),
    {
        self.components.len()
    }

    fn has(&self, e: &Entity) -> (r: bool) {
        let key: u32 = e.id();
        self.slot_of.contains_key(&key)
    }

    fn remove(&mut self, e: &Entity, keep_order: bool)
        ensures
            final(self)@ == spec_remove(old(self)@, e@, keep_order),
    {
        let key: u32 = e.id();
        let i: usize;
        match self.slot_of.get(&key) {
            Some(i_ref) => {
                i = *i_ref;
            },
            None => {
                return;
            },
        }
        let ghost pre = self@;
        proof {
            assert(pre.slots.contains_key(key) && pre.slots[key] == i);
            assert(i < pre.entities.len() && pre.entities[i as int]@ == key);
        }
        if keep_order {
            self.components.remove(i);
            self.entities.remove(i);
            self.slot_of.remove(&key);
            proof {
                pre.entities.remove_ensures(i as int);
                pre.components.remove_ensures(i as int);
            }
            let mut j: usize = i;
            while j < self.entities.len()
                invariant
                    pre.wf(),
                    pre.slots.contains_key(key),
                    pre.slots[key] == i,
                    i < pre.entities.len(),
                    self.entities.len() == pre.entities.len() - 1,
                    i <= j <= self.entities.len(),
                    self.entities@ == pre.entities.remove(i as int),
                    self.components@ == pre.components.remove(i as int),
                    forall|k: u32|
                        #[trigger] self.slot_of@.contains_key(k) <==> pre.slots.contains_key(k)
                            && k != key,
                    forall|k: u32|
                        #[trigger] self.slot_of@.contains_key(k) ==> self.slot_of@[k] == (
                        if i < pre.slots[k] && pre.slots[k] <= j {
                            (pre.slots[k] - 1) as usize
                        } else {
                            pre.slots[k]
                        }),
                decreases self.entities.len() - j,
            {
                let en: Entity = self.entities[j];
                let moved_key: u32 = en.id();
                proof {
                    pre.entities.remove_ensures(i as int);
                    assert(self.entities@[j as int] == pre.entities[j + 1]);
                    assert(moved_key == pre.entities[j + 1]@);
                }
                let mut update_needed: bool = false;
                match self.slot_of.get(&moved_key) {
                    Some(s_ref) => {
                        update_needed = *s_ref == j + 1;
                    },
                    None => {},
                }
                proof {
                    if update_needed {
                        assert(pre.slots.contains_key(moved_key) && pre.slots[moved_key] == j + 1);
                    } else {
                        assert forall|k: u32|
                            pre.slots.contains_key(k) && k != key && pre.slots[k] == j
                                + 1 implies false by {
                            assert(pre.entities[pre.slots[k] as int]@ == k);
                            assert(k == moved_key);
                            assert(self.slot_of@.contains_key(moved_key));
                        }
                    }
                }
                if update_needed {
                    self.slot_of.insert(moved_key, j);
                    proof {
                        assert forall|k: u32| #[trigger] self.slot_of@.contains_key(k) implies self.slot_of@[k]
                            == (if i < pre.slots[k] && pre.slots[k] <= j + 1 {
                            (pre.slots[k] - 1) as usize
                        } else {
                            pre.slots[k]
                        }) by {
                            if k != moved_key && pre.slots[k] == j + 1 {
                                assert(pre.entities[pre.slots[k] as int]@ == k);
                            }
                        }
                    }
                }
                j = j + 1;
            }
            proof {
                let target = slots_after_remove(
                    pre.slots,
                    key,
                    i,
                    (pre.entities.len() - 1) as usize,
                    true,
                );
                assert(j == pre.entities.len() - 1);
                assert forall|k: u32| #[trigger] pre.slots.contains_key(k) && k != key implies self.slot_of@.contains_key(
                    k,
                ) && self.slot_of@[k] == target[k] by {
                    assert(self.slot_of@.contains_key(k));
                    assert(self.slot_of@[k] == (if i < pre.slots[k] && pre.slots[k] <= j {
                        (pre.slots[k] - 1) as usize
                    } else {
                        pre.slots[k]
                    }));
                    assert(pre.slots[k] < pre.entities.len());
                }
                assert(self.slot_of@ =~= target);
                assert(self@ =~= spec_remove(pre, key, true));
                lemma_remove_wf(pre, key, true);
            }
        } else {
            let last: usize = self.entities.len() - 1;
            self.components.swap_remove(i);
            self.entities.swap_remove(i);
            self.slot_of.remove(&key);
            if i < last {
                let moved: Entity = self.entities[i];
                let moved_key: u32 = moved.id();
                proof {
                    assert(moved == pre.entities[last as int]);
                }
                let mut update_needed: bool = false;
                match self.slot_of.get(&moved_key) {
                    Some(s_ref) => {
                        update_needed = *s_ref == last;
                    },
                    None => {},
                }
                if update_needed {
                    self.slot_of.insert(moved_key, i);
                }
                proof {
                    let target = slots_after_remove(pre.slots, key, i, last, false);
                    assert forall|k: u32| #[trigger] pre.slots.contains_key(k) && k != key
                        && k != moved_key implies pre.slots[k] != last by {
                        if pre.slots[k] == last {
                            assert(pre.entities[pre.slots[k] as int]@ == k);
                        }
                    }
                    if !update_needed && pre.slots.contains_key(moved_key) && moved_key != key {
                        assert(pre.slots[moved_key] != last);
                    }
                    assert(self.slot_of@ =~= target);
                }
            } else {
                proof {
                    let target = slots_after_remove(pre.slots, key, i, last, false);
                    assert forall|k: u32| #[trigger] pre.slots.contains_key(k) && k != key implies pre.slots[k]
                        != last by {
                        if pre.slots[k] == last {
                            assert(pre.entities[pre.slots[k] as int]@ == k);
                        }
                    }
                    assert(self.slot_of@ =~= target);
                }
            }
            proof {
                assert(self@ =~= spec_remove(pre, key, false));
                lemma_remove_wf(pre, key, false);
            }
        }
    }

    fn pop_back(&mut self)
        ensures
            final(self)@ == spec_pop_back(old(self)@),
    {
        if self.entities.len() == 0 {
            return;
        }
        let last: usize = self.entities.len() - 1;
        let en: Entity = self.entities[last];
        let last_key: u32 = en.id();
        self.slot_of.remove(&last_key);
        self.components.pop();
        self.entities.pop();
        proof {
            assert(self@ =~= spec_pop_back(old(self)@));
            lemma_pop_back_wf(old(self)@);
        }
    }
}

/// Presence symmetry (law): an entity is present immediately after a
/// successful insert, absent immediately after its removal, and absent
/// from an empty container.
pub proof fn lemma_presence_symmetry<T>(m: ContainerModel<T>, e: Entity, c: T, keep_order: bool)
    ensures
        spec_insert(m, e, c).slots.contains_key(e@),
        !spec_remove(m, e@, keep_order).slots.contains_key(e@),
        !ContainerModel::<T>::empty().slots.contains_key(e@),
{
}

/// Size accounting (law): each operation moves the slot count by exactly
/// its share — a successful insert adds one, a removal of a present entity
/// takes one, a pop of a non-empty container takes one, and the no-op
/// cases leave the container untouched; so the count always equals the
/// successful inserts less the successful removals, pops and cleared
/// slots.
pub proof fn lemma_size_accounting<T>(m: ContainerModel<T>, e: Entity, c: T, keep_order: bool)
    requires
        m.wf(),
    ensures
        spec_insert(m, e, c).entities.len() == m.entities.len() + 1,
        m.slots.contains_key(e@) ==> spec_remove(m, e@, keep_order).entities.len()
            == m.entities.len() - 1,
        !m.slots.contains_key(e@) ==> spec_remove(m, e@, keep_order) == m,
        m.entities.len() > 0 ==> spec_pop_back(m).entities.len() == m.entities.len() - 1,
        m.entities.len() == 0 ==> spec_pop_back(m) == m,
        ContainerModel::<T>::empty().entities.len() == 0,
{
}

/// Idempotent emptiness (law): removing an entity with no mapping entry,
/// or popping an empty container, changes nothing at all.
pub proof fn lemma_idempotent_emptiness<T>(m: ContainerModel<T>, eid: u32, keep_order: bool)
    ensures
        !m.slots.contains_key(eid) ==> spec_remove(m, eid, keep_order) == m,
        m.entities.len() == 0 ==> spec_pop_back(m) == m,
{
}

/// Order preservation (law): after an ordered removal, slot `j` holds what
/// stood at `j` (before the removed slot) or at `j + 1` (after it), for
/// entities and components alike — the relative order of everything that
/// remains is exactly what it was.
pub proof fn lemma_order_preservation<T>(m: ContainerModel<T>, eid: u32, j: int)
    requires
        m.wf(),
        m.slots.contains_key(eid),
        0 <= j < spec_remove(m, eid, true).entities.len(),
    ensures
        spec_remove(m, eid, true).entities[j] == (if j < m.slots[eid] {
            m.entities[j]
        } else {
            m.entities[j + 1]
        }),
        spec_remove(m, eid, true).components[j] == (if j < m.slots[eid] {
            m.components[j]
        } else {
            m.components[j + 1]
        }),
{
}

/// Swap-remove map integrity (law): after a swap removal, every entity
/// still present was present before, owns the slot its mapping entry now
/// points at, and that slot holds the very component it held before the
/// removal — no lookup is corrupted and no component crosses entities.
pub proof fn lemma_swap_remove_integrity<T>(m: ContainerModel<T>, eid: u32, k: u32)
    requires
        m.wf(),
        spec_remove(m, eid, false).slots.contains_key(k),
    ensures
        ({
            let post = spec_remove(m, eid, false);
            m.slots.contains_key(k) && k != eid && post.entities[post.slots[k] as int]
                == m.entities[m.slots[k] as int] && post.components[post.slots[k] as int]
                == m.components[m.slots[k] as int]
        }),
{
    let post = spec_remove(m, eid, false);
    if m.slots.contains_key(eid) {
        let i = m.slots[eid] as int;
        let last = m.entities.len() - 1;
        assert(m.entities[i]@ == eid);
        assert(m.slots.contains_key(k) && k != eid);
        assert(m.entities[m.slots[k] as int]@ == k);
        let s = m.slots[k] as int;
        if s == i {
            assert(k == eid);
        }
        if s == last {
            assert(i < last);
            assert(post.slots[k] == m.slots[eid]);
            assert(post.entities[i] == m.entities.update(i, m.entities.last())[i]);
            assert(post.components[i] == m.components.update(i, m.components.last())[i]);
            assert(m.components.last() == m.components[s]);
        } else {
            assert(post.slots[k] == m.slots[k]);
            assert(post.entities[s] == m.entities.update(i, m.entities.last())[s]);
            assert(post.components[s] == m.components.update(i, m.components.last())[s]);
        }
    }
}

} // verus!
