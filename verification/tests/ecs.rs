use tiny_ecs::container::{ComponentContainer, DuplicateInsertion};
use tiny_ecs::entity::{Entity, EntityAllocator};
use tiny_ecs::interface::ContainerInterface;

#[test]
fn duplicate_rejection() {
    let mut alloc = EntityAllocator::new();
    let e = Entity::new(&mut alloc);
    let mut c: ComponentContainer<u64> = ComponentContainer::new();
    assert!(c.insert(&e, 1, true).is_ok());
    let size_after_first = c.size();
    let second = c.insert(&e, 2, true);
    assert_eq!(second, Err(DuplicateInsertion));
    assert_eq!(c.size(), size_after_first);
    assert_eq!(c.get(&e), Some(&1));
}

#[test]
fn presence_symmetry() {
    let mut alloc = EntityAllocator::new();
    let e1 = Entity::new(&mut alloc);
    let e2 = Entity::new(&mut alloc);
    let mut c: ComponentContainer<u64> = ComponentContainer::new();
    assert!(!c.has(&e1));
    c.insert(&e1, 10, true).unwrap();
    assert!(c.has(&e1));
    c.insert(&e2, 20, true).unwrap();
    assert!(c.has(&e2));
    c.remove(&e1, true);
    assert!(!c.has(&e1));
    assert!(c.has(&e2));
    c.clear();
    assert!(!c.has(&e2));
}

#[test]
fn size_accounting() {
    let mut alloc = EntityAllocator::new();
    let mut c: ComponentContainer<u32> = ComponentContainer::new();
    let mut inserts: usize = 0;
    let mut removes: usize = 0;
    let mut pops: usize = 0;
    let mut cleared: usize = 0;

    let mut entities: Vec<Entity> = Vec::new();
    for i in 0u32..8u32 {
        let e = Entity::new(&mut alloc);
        entities.push(e);
        if c.insert(&e, i, true).is_ok() {
            inserts += 1;
        }
    }
    // A failed duplicate insert counts for nothing.
    assert!(c.insert(&entities[0], 99, true).is_err());
    // Successful removals, one of each flavour.
    if c.has(&entities[1]) {
        c.remove(&entities[1], true);
        removes += 1;
    }
    if c.has(&entities[2]) {
        c.remove(&entities[2], false);
        removes += 1;
    }
    // A removal of an absent entity counts for nothing.
    c.remove(&entities[1], false);
    // Non-empty pops count.
    if c.size() > 0 {
        c.pop_back();
        pops += 1;
    }
    assert_eq!(c.size(), inserts - removes - pops - cleared);
    cleared += c.size();
    c.clear();
    assert_eq!(c.size(), inserts - removes - pops - cleared);
    // Pops on the now-empty container count for nothing.
    c.pop_back();
    assert_eq!(c.size(), 0);
}

#[test]
fn order_preservation() {
    let mut alloc = EntityAllocator::new();
    let mut c: ComponentContainer<u64> = ComponentContainer::new();
    let mut entities: Vec<Entity> = Vec::new();
    for i in 0u64..5u64 {
        let e = Entity::new(&mut alloc);
        entities.push(e);
        c.insert(&e, i * 100, true).unwrap();
    }
    c.remove(&entities[2], true);
    assert_eq!(c.size(), 4);
    assert_eq!(c.entity_at(0), entities[0]);
    assert_eq!(c.entity_at(1), entities[1]);
    assert_eq!(c.entity_at(2), entities[3]);
    assert_eq!(c.entity_at(3), entities[4]);
    // Every remaining entity still finds its own component.
    assert_eq!(c.get(&entities[0]), Some(&0));
    assert_eq!(c.get(&entities[1]), Some(&100));
    assert_eq!(c.get(&entities[3]), Some(&300));
    assert_eq!(c.get(&entities[4]), Some(&400));
}

#[test]
fn swap_remove_map_integrity() {
    let mut alloc = EntityAllocator::new();
    let mut c: ComponentContainer<u64> = ComponentContainer::new();
    let mut entities: Vec<Entity> = Vec::new();
    for i in 0u64..5u64 {
        let e = Entity::new(&mut alloc);
        entities.push(e);
        c.insert(&e, i + 1000, true).unwrap();
    }
    // Remove from the middle: the last slot is swapped into the vacancy and
    // its owner's mapping entry must follow it.
    c.remove(&entities[1], false);
    assert_eq!(c.size(), 4);
    assert!(!c.has(&entities[1]));
    assert_eq!(c.entity_at(1), entities[4]);
    assert_eq!(c.get(&entities[0]), Some(&1000));
    assert_eq!(c.get(&entities[2]), Some(&1002));
    assert_eq!(c.get(&entities[3]), Some(&1003));
    assert_eq!(c.get(&entities[4]), Some(&1004));
    // Removing the swapped-in entity afterwards must hit its new slot.
    c.remove(&entities[4], false);
    assert!(!c.has(&entities[4]));
    assert_eq!(c.get(&entities[0]), Some(&1000));
    assert_eq!(c.get(&entities[2]), Some(&1002));
    assert_eq!(c.get(&entities[3]), Some(&1003));
}

#[test]
fn idempotent_emptiness() {
    let mut alloc = EntityAllocator::new();
    let e = Entity::new(&mut alloc);
    let never_inserted = Entity::new(&mut alloc);
    let mut c: ComponentContainer<u64> = ComponentContainer::new();
    c.pop_back();
    assert_eq!(c.size(), 0);
    c.remove(&e, true);
    c.remove(&e, false);
    assert_eq!(c.size(), 0);
    c.insert(&e, 5, true).unwrap();
    c.remove(&never_inserted, true);
    c.remove(&never_inserted, false);
    assert_eq!(c.size(), 1);
    assert!(c.has(&e));
}

#[test]
fn allocator_uniqueness() {
    let mut alloc = EntityAllocator::new();
    let mut seen = std::collections::HashSet::new();
    for _ in 0u32..10_000u32 {
        let e = Entity::new(&mut alloc);
        assert!(seen.insert(e.id()));
    }
    assert_eq!(seen.len(), 10_000);
}

#[test]
fn three_entities_scenario() {
    let mut alloc = EntityAllocator::new();
    let e1 = Entity::new(&mut alloc);
    let e2 = Entity::new(&mut alloc);
    let e3 = Entity::new(&mut alloc);
    let mut c: ComponentContainer<u64> = ComponentContainer::new();
    c.insert(&e1, 1, true).unwrap();
    c.insert(&e2, 2, true).unwrap();
    c.insert(&e3, 3, true).unwrap();
    assert_eq!(c.size(), 3);
    assert_eq!(c.entity_at(0), e1);
    assert_eq!(c.entity_at(1), e2);
    assert_eq!(c.entity_at(2), e3);
    c.remove(&e2, true);
    assert_eq!(c.size(), 2);
    assert!(!c.has(&e2));
    assert_eq!(c.entity_at(0), e1);
    assert_eq!(c.entity_at(1), e3);
    c.remove(&e1, false);
    assert_eq!(c.size(), 1);
    assert!(!c.has(&e1));
    assert!(c.has(&e3));
    assert_eq!(c.entity_at(0), e3);
    assert_eq!(c.get(&e3), Some(&3));
}

#[test]
fn unchecked_double_insert_orphans_first_slot() {
    let mut alloc = EntityAllocator::new();
    let e = Entity::new(&mut alloc);
    let mut c: ComponentContainer<u64> = ComponentContainer::new();
    c.insert(&e, 1, false).unwrap();
    let second = c.insert(&e, 2, false);
    assert!(second.is_ok());
    // Two dense slots now exist for one entity; the mapping points at the
    // newest, orphaning the first.
    assert_eq!(c.size(), 2);
    assert!(c.has(&e));
    assert_eq!(c.get(&e), Some(&2));
    // Removing the entity deletes the mapped slot; the orphan stays.
    c.remove(&e, true);
    assert_eq!(c.size(), 1);
    assert!(!c.has(&e));
}

#[test]
fn pop_back_deletes_last_mapping() {
    let mut alloc = EntityAllocator::new();
    let e1 = Entity::new(&mut alloc);
    let e2 = Entity::new(&mut alloc);
    let mut c: ComponentContainer<u64> = ComponentContainer::new();
    c.insert(&e1, 1, true).unwrap();
    c.insert(&e2, 2, true).unwrap();
    c.pop_back();
    assert_eq!(c.size(), 1);
    assert!(c.has(&e1));
    assert!(!c.has(&e2));
    c.pop_back();
    assert_eq!(c.size(), 0);
    assert!(!c.has(&e1));
}

#[test]
fn clear_empties_everything() {
    let mut alloc = EntityAllocator::new();
    let e1 = Entity::new(&mut alloc);
    let e2 = Entity::new(&mut alloc);
    let mut c: ComponentContainer<String> = ComponentContainer::new();
    c.insert(&e1, String::from("a"), true).unwrap();
    c.insert(&e2, String::from("b"), true).unwrap();
    c.clear();
    assert_eq!(c.size(), 0);
    assert!(!c.has(&e1));
    assert!(!c.has(&e2));
    assert_eq!(c.get(&e1), None);
}

#[test]
fn erased_interface_prunes_any_payload() {
    let mut alloc = EntityAllocator::new();
    let e = Entity::new(&mut alloc);
    let keep = Entity::new(&mut alloc);
    let mut positions: ComponentContainer<u64> = ComponentContainer::new();
    let mut labels: ComponentContainer<String> = ComponentContainer::new();
    positions.insert(&e, 7, true).unwrap();
    positions.insert(&keep, 8, true).unwrap();
    labels.insert(&e, String::from("seven"), true).unwrap();
    {
        let handles: Vec<&mut dyn ContainerInterface> = vec![&mut positions, &mut labels];
        for h in handles {
            h.remove(&e, false);
        }
    }
    assert!(!positions.has(&e));
    assert!(positions.has(&keep));
    assert!(!labels.has(&e));
    assert_eq!(positions.size(), 1);
    assert_eq!(labels.size(), 0);
}

#[test]
fn allocator_counts_up_from_zero() {
    let mut alloc = EntityAllocator::new();
    let a = Entity::new(&mut alloc);
    let b = alloc.allocate();
    let c = Entity::new(&mut alloc);
    assert_eq!(a.id(), 0);
    assert_eq!(b.id(), 1);
    assert_eq!(c.id(), 2);
    assert_ne!(a, b);
    assert_ne!(b, c);
}
