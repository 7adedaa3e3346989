use rend3::handle::RawHandle;
use rend3::registry::{ResourceError, ResourceRegistry};

#[test]
fn allocate_appends_slots_of_generation_zero() {
    let mut registry: ResourceRegistry<u32> = ResourceRegistry::new();
    let first = registry.allocate();
    let second = registry.allocate();
    assert_eq!(first, RawHandle { idx: 0, generation: 0 });
    assert_eq!(second, RawHandle { idx: 1, generation: 0 });
    assert_eq!(registry.len(), 2);
}

#[test]
fn removed_slot_is_reused_under_the_next_generation() {
    let mut registry: ResourceRegistry<u32> = ResourceRegistry::new();
    let first = registry.allocate();
    assert_eq!(registry.insert(first, 7), Ok(()));
    assert_eq!(registry.remove(first), Ok(()));
    let reclaimed = registry.remove_all_dead();
    assert_eq!(reclaimed, vec![(first, Some(7))]);
    let again = registry.allocate();
    assert_eq!(again, RawHandle { idx: 0, generation: 1 });
    assert_ne!(again, first);
    assert_eq!(registry.get(first), Err(ResourceError::UnknownHandle));
    assert_eq!(registry.insert(first, 9), Err(ResourceError::InvalidHandle));
    assert_eq!(registry.len(), 1);
}

#[test]
fn slot_is_not_reused_before_the_sweep() {
    let mut registry: ResourceRegistry<u32> = ResourceRegistry::new();
    let first = registry.allocate();
    assert_eq!(registry.remove(first), Ok(()));
    let second = registry.allocate();
    assert_eq!(second, RawHandle { idx: 1, generation: 0 });
}

#[test]
fn insert_overwrites_the_value_of_a_filled_handle() {
    let mut registry: ResourceRegistry<u32> = ResourceRegistry::new();
    let handle = registry.allocate();
    assert_eq!(registry.insert(handle, 1), Ok(()));
    assert_eq!(registry.insert(handle, 2), Ok(()));
    assert_eq!(registry.get(handle), Ok(&2));
    assert_eq!(registry.values(), vec![2]);
}

#[test]
fn insert_refuses_what_is_not_live() {
    let mut registry: ResourceRegistry<u32> = ResourceRegistry::new();
    assert_eq!(
        registry.insert(RawHandle { idx: 0, generation: 0 }, 1),
        Err(ResourceError::InvalidHandle)
    );
    let handle = registry.allocate();
    assert_eq!(
        registry.insert(RawHandle { idx: handle.idx, generation: 5 }, 1),
        Err(ResourceError::InvalidHandle)
    );
    assert_eq!(
        registry.insert(RawHandle { idx: 9, generation: 0 }, 1),
        Err(ResourceError::InvalidHandle)
    );
    assert_eq!(registry.remove(handle), Ok(()));
    assert_eq!(registry.insert(handle, 1), Err(ResourceError::InvalidHandle));
    assert_eq!(registry.values(), Vec::<u32>::new());
}

#[test]
fn get_refuses_what_has_no_value() {
    let mut registry: ResourceRegistry<u32> = ResourceRegistry::new();
    assert_eq!(
        registry.get(RawHandle { idx: 0, generation: 0 }),
        Err(ResourceError::UnknownHandle)
    );
    let handle = registry.allocate();
    assert_eq!(registry.get(handle), Err(ResourceError::UnknownHandle));
    assert_eq!(registry.insert(handle, 3), Ok(()));
    assert_eq!(registry.get(handle), Ok(&3));
    assert_eq!(
        registry.get(RawHandle { idx: handle.idx, generation: 1 }),
        Err(ResourceError::UnknownHandle)
    );
    assert_eq!(registry.remove(handle), Ok(()));
    assert_eq!(registry.get(handle), Err(ResourceError::UnknownHandle));
}

#[test]
fn get_mut_changes_the_value_in_place() {
    let mut registry: ResourceRegistry<u32> = ResourceRegistry::new();
    let first = registry.allocate();
    let second = registry.allocate();
    assert_eq!(registry.insert(first, 10), Ok(()));
    assert_eq!(registry.insert(second, 20), Ok(()));
    *registry.get_mut(second).unwrap() += 1;
    assert_eq!(registry.values(), vec![10, 21]);
    assert_eq!(
        registry.get_mut(RawHandle { idx: 1, generation: 4 }),
        Err(ResourceError::UnknownHandle)
    );
    let reserved = registry.allocate();
    assert_eq!(registry.get_mut(reserved), Err(ResourceError::UnknownHandle));
}

#[test]
fn remove_refuses_what_is_not_live() {
    let mut registry: ResourceRegistry<u32> = ResourceRegistry::new();
    assert_eq!(
        registry.remove(RawHandle { idx: 0, generation: 0 }),
        Err(ResourceError::UnknownHandle)
    );
    let handle = registry.allocate();
    assert_eq!(registry.remove(handle), Ok(()));
    assert_eq!(registry.remove(handle), Err(ResourceError::UnknownHandle));
    registry.remove_all_dead();
    assert_eq!(registry.remove(handle), Err(ResourceError::UnknownHandle));
}

#[test]
fn contains_tells_live_from_dead() {
    let mut registry: ResourceRegistry<u32> = ResourceRegistry::new();
    let handle = registry.allocate();
    assert!(registry.contains(handle));
    assert!(!registry.contains(RawHandle { idx: 0, generation: 1 }));
    assert!(!registry.contains(RawHandle { idx: 1, generation: 0 }));
    assert_eq!(registry.remove(handle), Ok(()));
    assert!(!registry.contains(handle));
}

#[test]
fn sweep_returns_removed_entries_in_slot_order() {
    let mut registry: ResourceRegistry<u32> = ResourceRegistry::new();
    let a = registry.allocate();
    let b = registry.allocate();
    let c = registry.allocate();
    assert_eq!(registry.insert(a, 1), Ok(()));
    assert_eq!(registry.insert(b, 2), Ok(()));
    assert_eq!(registry.remove(c), Ok(()));
    assert_eq!(registry.remove(a), Ok(()));
    let reclaimed = registry.remove_all_dead();
    assert_eq!(reclaimed, vec![(a, Some(1)), (c, None)]);
    assert_eq!(registry.values(), vec![2]);
}

#[test]
fn second_sweep_in_a_row_reclaims_nothing() {
    let mut registry: ResourceRegistry<u32> = ResourceRegistry::new();
    let a = registry.allocate();
    let b = registry.allocate();
    assert_eq!(registry.insert(a, 1), Ok(()));
    assert_eq!(registry.insert(b, 2), Ok(()));
    assert_eq!(registry.remove(a), Ok(()));
    assert_eq!(registry.remove_all_dead().len(), 1);
    assert_eq!(registry.remove_all_dead(), Vec::new());
    assert_eq!(registry.values(), vec![2]);
    assert_eq!(registry.allocate(), RawHandle { idx: 0, generation: 1 });
    assert_eq!(registry.allocate(), RawHandle { idx: 2, generation: 0 });
}

#[test]
fn values_keep_slot_order_across_sweeps() {
    let mut registry: ResourceRegistry<u32> = ResourceRegistry::new();
    let mut handles = Vec::new();
    for value in 0..6u32 {
        let handle = registry.allocate();
        assert_eq!(registry.insert(handle, value), Ok(()));
        handles.push(handle);
    }
    assert_eq!(registry.remove(handles[1]), Ok(()));
    assert_eq!(registry.remove(handles[4]), Ok(()));
    assert_eq!(registry.values(), vec![0, 2, 3, 5]);
    registry.remove_all_dead();
    assert_eq!(registry.values(), vec![0, 2, 3, 5]);
    let reused = registry.allocate();
    assert_eq!(registry.insert(reused, 40), Ok(()));
    assert_eq!(reused, RawHandle { idx: 4, generation: 1 });
    assert_eq!(registry.values(), vec![0, 2, 3, 40, 5]);
}

#[test]
fn values_is_a_snapshot() {
    let mut registry: ResourceRegistry<u32> = ResourceRegistry::new();
    let handle = registry.allocate();
    assert_eq!(registry.insert(handle, 1), Ok(()));
    let snapshot = registry.values();
    assert_eq!(registry.insert(handle, 2), Ok(()));
    assert_eq!(snapshot, vec![1]);
    assert_eq!(registry.values(), vec![2]);
}

#[test]
fn live_handles_are_pairwise_different() {
    let mut registry: ResourceRegistry<u32> = ResourceRegistry::new();
    let mut live: Vec<RawHandle> = Vec::new();
    let mut issued: Vec<RawHandle> = Vec::new();
    for round in 0..20usize {
        for _ in 0..3 {
            let handle = registry.allocate();
            assert!(!issued.contains(&handle));
            issued.push(handle);
            live.push(handle);
        }
        let gone = live.remove(round % live.len());
        assert_eq!(registry.remove(gone), Ok(()));
        if round % 2 == 0 {
            registry.remove_all_dead();
        }
        for (i, a) in live.iter().enumerate() {
            assert!(registry.contains(*a));
            for b in live.iter().skip(i + 1) {
                assert_ne!(a, b);
            }
        }
        assert!(!registry.contains(gone));
    }
}
