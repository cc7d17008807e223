//! Entity identities and the allocator that issues them.

use vstd::prelude::*;

verus! {

/// An opaque entity identity: a copyable handle around a single numeric
/// identifier, comparable by that identifier and carrying no other state.
#[derive(Clone, Copy, Debug, PartialEq, Eq, Structural)]
pub struct Entity {
    id: u32,
}

impl View for Entity {
    type V = u32;

    closed spec fn view(&self) -> u32 {
        self.id
    }
}

/// The counter value that follows `c`: the identifier space is 32 bits wide
/// and the counter wraps at its end. Exhaustion is not defended against;
/// after `u32::MAX` allocations identifiers repeat, a documented limitation.
pub open spec fn next_counter(c: u32) -> u32 {
    if c == u32::MAX {
        0
    } else {
        (c + 1) as u32
    }
}

/// The identifier an allocator hands out `k` calls after its counter stood
/// at `start`.
pub open spec fn id_after(start: u32, k: nat) -> u32 {
    ((start + k) % 0x1_0000_0000) as u32
}

/// Issues entity identities from a monotonic counter, never reusing one
/// while the counter has not wrapped. The allocator holds plain state; an
/// embedding program that wants one process-wide allocator keeps a single
/// shared instance and serializes access to it.
pub struct EntityAllocator {
    next: u32,
}

impl View for EntityAllocator {
    type V = u32;

    closed spec fn view(&self) -> u32 {
        self.next
    }
}

impl EntityAllocator {
    /// A fresh allocator whose counter starts at zero.
    pub fn new() -> (a: EntityAllocator)
        ensures
            a@ == 0,
    {
        EntityAllocator { next: 0 }
    }

    /// Issues the next identity; the counter advances by one.
    pub fn allocate(&mut self) -> (e: Entity)
        ensures
            e@ == old(self)@,
            final(self)@ == next_counter(old(self)@),
    {
        Entity::new(self)
    }
}

impl Entity {
    /// A fresh entity whose identifier is the allocator's current counter
    /// value; the counter advances by one.
    pub fn new(allocator: &mut EntityAllocator) -> (e: Entity)
        ensures
            e@ == old(allocator)@,
            final(allocator)@ == next_counter(old(allocator)@),
    {
        let id: u32 = allocator.next;
        allocator.next = if allocator.next == u32::MAX {
            0
        } else {
            allocator.next + 1
        };
        Entity { id }
    }

    /// The wrapped identifier.
    pub fn id(&self) -> (r: u32)
        ensures
            r == self@,
    {
        self.id
    }
}

/// Successive allocations follow the counter formula: the identity issued
/// `k` calls after one allocation is the identity issued `k + 1` calls
/// after the counter value that allocation started from.
pub proof fn lemma_counter_step_composes(start: u32, k: nat)
    ensures
        id_after(start, 0) == start,
        id_after(next_counter(start), k) == id_after(start, k + 1),
{
    let m: int = 0x1_0000_0000;
    vstd::arithmetic::div_mod::lemma_small_mod(start as nat, m as nat);
    assert(next_counter(start) == (start + 1) % m) by {
        if start == u32::MAX {
            vstd::arithmetic::div_mod::lemma_mod_self_0(m);
        } else {
            vstd::arithmetic::div_mod::lemma_small_mod((start + 1) as nat, m as nat);
        }
    }
    let a: int = start + 1;
    vstd::arithmetic::div_mod::lemma_mod_equivalence(a % m + k, a + k, m);
    vstd::arithmetic::div_mod::lemma_fundamental_div_mod(a, m);
    assert((a % m + k) - (a + k) == (-(a / m)) * m) by {
        assert(a == m * (a / m) + a % m);
    }
    vstd::arithmetic::div_mod::lemma_mod_multiples_basic(-(a / m), m);
}

/// Allocator uniqueness: two identities issued at distinct positions among
/// the first 2^32 allocations after any starting counter value are
/// distinct.
pub proof fn lemma_ids_distinct(start: u32, m: nat, n: nat)
    requires
        m < n,
        n < 0x1_0000_0000,
    ensures
        id_after(start, m) != id_after(start, n),
{
    let d: int = 0x1_0000_0000;
    if id_after(start, m) == id_after(start, n) {
        vstd::arithmetic::div_mod::lemma_mod_pos_bound(start + m, d);
        vstd::arithmetic::div_mod::lemma_mod_pos_bound(start + n, d);
        assert((start + n) % d == (start + m) % d);
        vstd::arithmetic::div_mod::lemma_mod_equivalence(start + n, start + m, d);
        vstd::arithmetic::div_mod::lemma_small_mod((n - m) as nat, d as nat);
        assert(((start + n) - (start + m)) % d == n - m);
    }
}

} // verus!
