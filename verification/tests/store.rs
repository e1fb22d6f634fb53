use snake_core::store::{EntityRef, EntityStore};

#[test]
fn a_new_store_has_no_entities() {
    let store: EntityStore<u32> = EntityStore::new();
    assert!(store.entities().is_empty());
    assert!(!store.contains(EntityRef { index: 0, generation: 0 }));
    assert_eq!(store.get(EntityRef { index: 0, generation: 0 }), None);
}

#[test]
fn spawned_values_are_found_by_their_handles() {
    let mut store = EntityStore::new();
    let a = store.spawn(10u32);
    let b = store.spawn(20u32);
    assert_ne!(a, b);
    assert_eq!(store.get(a), Some(&10));
    assert_eq!(store.get(b), Some(&20));
    assert!(store.contains(a));
    assert_eq!(store.entities(), vec![a, b]);
}

#[test]
fn despawn_removes_the_entity_and_returns_its_value() {
    let mut store = EntityStore::new();
    let a = store.spawn(10u32);
    let b = store.spawn(20u32);
    assert_eq!(store.despawn(a), Some(10));
    assert!(!store.contains(a));
    assert_eq!(store.get(a), None);
    assert_eq!(store.get(b), Some(&20));
    assert_eq!(store.entities(), vec![b]);
}

#[test]
fn despawn_of_a_dead_entity_does_nothing() {
    let mut store = EntityStore::new();
    let a = store.spawn(10u32);
    assert_eq!(store.despawn(a), Some(10));
    assert_eq!(store.despawn(a), None);
    assert_eq!(store.despawn(EntityRef { index: 7, generation: 0 }), None);
    assert!(store.entities().is_empty());
}

#[test]
fn a_stale_handle_stays_dead_when_its_slot_is_used_again() {
    let mut store = EntityStore::new();
    let a = store.spawn(10u32);
    store.despawn(a);
    let b = store.spawn(30u32);
    assert_ne!(a, b);
    assert_eq!(b.index, a.index);
    assert_eq!(b.generation, a.generation + 1);
    assert!(!store.contains(a));
    assert_eq!(store.get(a), None);
    assert_eq!(store.get(b), Some(&30));
    assert_eq!(store.set(a, 99), None);
    assert_eq!(store.get(b), Some(&30));
}

#[test]
fn handles_are_never_handed_out_twice() {
    let mut store = EntityStore::new();
    let mut seen: Vec<EntityRef> = Vec::new();
    for round in 0..5u32 {
        let a = store.spawn(round);
        let b = store.spawn(round + 100);
        assert!(!seen.contains(&a));
        seen.push(a);
        assert!(!seen.contains(&b));
        seen.push(b);
        store.despawn(a);
        if round % 2 == 0 {
            store.despawn(b);
        }
    }
    assert_eq!(seen.len(), 10);
}

#[test]
fn set_replaces_the_value_and_returns_the_previous_one() {
    let mut store = EntityStore::new();
    let a = store.spawn(10u32);
    assert_eq!(store.set(a, 11), Some(10));
    assert_eq!(store.get(a), Some(&11));
    assert_eq!(store.set(EntityRef { index: 5, generation: 0 }, 1), None);
    assert_eq!(store.entities(), vec![a]);
}

#[test]
fn get_mut_writes_through() {
    let mut store = EntityStore::new();
    let a = store.spawn(10u32);
    let b = store.spawn(20u32);
    if let Some(v) = store.get_mut(a) {
        *v += 5;
    }
    assert_eq!(store.get(a), Some(&15));
    assert_eq!(store.get(b), Some(&20));
    assert!(store.get_mut(EntityRef { index: a.index, generation: a.generation + 1 }).is_none());
}

#[test]
fn entities_are_listed_by_ascending_slot() {
    let mut store = EntityStore::new();
    let a = store.spawn(1u32);
    let b = store.spawn(2u32);
    let c = store.spawn(3u32);
    store.despawn(b);
    let d = store.spawn(4u32);
    assert_eq!(d.index, b.index);
    assert_eq!(store.entities(), vec![a, d, c]);
    store.despawn(a);
    assert_eq!(store.entities(), vec![d, c]);
}

#[test]
fn a_handle_with_a_wrong_generation_is_not_live() {
    let mut store = EntityStore::new();
    let a = store.spawn(1u32);
    let other = EntityRef { index: a.index, generation: a.generation + 1 };
    assert!(!store.contains(other));
    assert_eq!(store.get(other), None);
    assert_eq!(store.despawn(other), None);
    assert!(store.contains(a));
}
