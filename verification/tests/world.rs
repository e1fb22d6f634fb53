use snake_core::grid::{Direction, Position, Size};
use snake_core::store::EntityRef;
use snake_core::world::{
    ComponentKind, ComponentSet, Components, Food, MissingComponent, SnakeHead, SnakeSegment,
    World,
};

fn only(kind: ComponentKind) -> ComponentSet {
    ComponentSet::none().with(kind)
}

fn missing(entity: EntityRef, kind: ComponentKind) -> MissingComponent {
    MissingComponent { entity, kind }
}

#[test]
fn a_new_world_is_empty() {
    let world = World::new();
    assert!(world.entities().is_empty());
    assert!(world.query(ComponentSet::none()).is_empty());
}

#[test]
fn components_come_back_as_spawned() {
    let mut world = World::new();
    let bundle = Components {
        position: Some(Position { x: 1, y: 2 }),
        size: Some(Size::square(80)),
        head: None,
        segment: Some(SnakeSegment { next_segment: None }),
        food: None,
    };
    let e = world.spawn(bundle);
    assert!(world.contains(e));
    assert_eq!(world.components(e), Some(bundle));
    assert_eq!(world.position(e), Ok(Position { x: 1, y: 2 }));
    assert_eq!(world.size(e), Ok(Size { width: 80, height: 80 }));
    assert_eq!(world.segment(e), Ok(SnakeSegment { next_segment: None }));
}

#[test]
fn an_absent_component_is_reported_as_missing() {
    let mut world = World::new();
    let e = world.spawn(Components::empty());
    assert_eq!(world.position(e), Err(missing(e, ComponentKind::Position)));
    assert_eq!(world.size(e), Err(missing(e, ComponentKind::Size)));
    assert_eq!(world.head(e), Err(missing(e, ComponentKind::SnakeHead)));
    assert_eq!(world.segment(e), Err(missing(e, ComponentKind::SnakeSegment)));
    assert_eq!(world.food(e), Err(missing(e, ComponentKind::Food)));
}

#[test]
fn a_dead_entity_is_reported_as_missing() {
    let mut world = World::new();
    let e = world.spawn(Components { food: Some(Food), ..Components::empty() });
    assert_eq!(world.food(e), Ok(Food));
    assert!(world.despawn(e));
    assert_eq!(world.food(e), Err(missing(e, ComponentKind::Food)));
    assert_eq!(world.components(e), None);
    let never = EntityRef { index: 99, generation: 0 };
    assert_eq!(world.position(never), Err(missing(never, ComponentKind::Position)));
}

#[test]
fn set_position_changes_only_the_position() {
    let mut world = World::new();
    let bundle = Components {
        position: Some(Position { x: 1, y: 2 }),
        size: Some(Size::square(65)),
        head: None,
        segment: Some(SnakeSegment { next_segment: None }),
        food: None,
    };
    let a = world.spawn(bundle);
    let b = world.spawn(bundle);
    assert_eq!(world.set_position(a, Position { x: 5, y: 6 }), Ok(()));
    assert_eq!(
        world.components(a),
        Some(Components { position: Some(Position { x: 5, y: 6 }), ..bundle })
    );
    assert_eq!(world.components(b), Some(bundle));
}

#[test]
fn setters_fail_without_the_component_and_change_nothing() {
    let mut world = World::new();
    let e = world.spawn(Components::empty());
    assert_eq!(
        world.set_position(e, Position { x: 5, y: 6 }),
        Err(missing(e, ComponentKind::Position))
    );
    assert_eq!(
        world.set_segment(e, SnakeSegment { next_segment: None }),
        Err(missing(e, ComponentKind::SnakeSegment))
    );
    assert_eq!(
        world.set_head(e, SnakeHead { direction: Direction::Left, next_segment: e }),
        Err(missing(e, ComponentKind::SnakeHead))
    );
    assert_eq!(world.components(e), Some(Components::empty()));
    let never = EntityRef { index: 3, generation: 0 };
    assert_eq!(
        world.set_position(never, Position { x: 0, y: 0 }),
        Err(missing(never, ComponentKind::Position))
    );
    assert_eq!(world.entities(), vec![e]);
}

#[test]
fn set_head_and_set_segment_overwrite_the_component() {
    let mut world = World::new();
    let s = world.spawn(Components {
        segment: Some(SnakeSegment { next_segment: None }),
        ..Components::empty()
    });
    let h = world.spawn(Components {
        head: Some(SnakeHead { direction: Direction::Up, next_segment: s }),
        ..Components::empty()
    });
    let left = SnakeHead { direction: Direction::Left, next_segment: s };
    assert_eq!(world.set_head(h, left), Ok(()));
    assert_eq!(world.head(h), Ok(SnakeHead { direction: Direction::Left, next_segment: s }));
    assert_eq!(world.set_segment(s, SnakeSegment { next_segment: Some(h) }), Ok(()));
    assert_eq!(world.segment(s), Ok(SnakeSegment { next_segment: Some(h) }));
}

#[test]
fn a_query_lists_the_entities_that_have_every_kind_asked_for() {
    let mut world = World::new();
    let food_here = world.spawn(Components {
        position: Some(Position { x: 1, y: 1 }),
        food: Some(Food),
        ..Components::empty()
    });
    let food_nowhere = world.spawn(Components { food: Some(Food), ..Components::empty() });
    let place = world.spawn(Components {
        position: Some(Position { x: 2, y: 2 }),
        ..Components::empty()
    });
    assert_eq!(world.query(only(ComponentKind::Food)), vec![food_here, food_nowhere]);
    assert_eq!(world.query(only(ComponentKind::Position)), vec![food_here, place]);
    assert_eq!(
        world.query(only(ComponentKind::Food).with(ComponentKind::Position)),
        vec![food_here]
    );
    assert!(world.query(only(ComponentKind::SnakeHead)).is_empty());
    assert_eq!(world.query(ComponentSet::none()), vec![food_here, food_nowhere, place]);
}

#[test]
fn a_query_made_before_a_despawn_keeps_its_list() {
    let mut world = World::new();
    let a = world.spawn(Components { food: Some(Food), ..Components::empty() });
    let b = world.spawn(Components { food: Some(Food), ..Components::empty() });
    let list = world.query(only(ComponentKind::Food));
    for e in &list {
        assert!(world.despawn(*e));
    }
    assert_eq!(list, vec![a, b]);
    assert!(world.entities().is_empty());
}

#[test]
fn despawn_all_removes_the_listed_entities_only() {
    let mut world = World::new();
    let a = world.spawn(Components::empty());
    let b = world.spawn(Components::empty());
    let c = world.spawn(Components::empty());
    world.despawn_all(&vec![a, c, a]);
    assert_eq!(world.entities(), vec![b]);
}

#[test]
fn has_and_has_all_test_presence() {
    let c = Components {
        position: Some(Position { x: 0, y: 0 }),
        food: Some(Food),
        ..Components::empty()
    };
    assert!(c.has(ComponentKind::Position));
    assert!(c.has(ComponentKind::Food));
    assert!(!c.has(ComponentKind::Size));
    assert!(!c.has(ComponentKind::SnakeHead));
    assert!(!c.has(ComponentKind::SnakeSegment));
    assert!(c.has_all(ComponentSet::none()));
    assert!(c.has_all(only(ComponentKind::Food).with(ComponentKind::Position)));
    assert!(!c.has_all(only(ComponentKind::Food).with(ComponentKind::Size)));
}

#[test]
fn with_adds_one_kind() {
    let set = only(ComponentKind::SnakeSegment);
    assert_eq!(
        set,
        ComponentSet { position: false, size: false, head: false, segment: true, food: false }
    );
    assert_eq!(set.with(ComponentKind::SnakeSegment), set);
    assert_eq!(
        set.with(ComponentKind::Size).with(ComponentKind::SnakeHead),
        ComponentSet { position: false, size: true, head: true, segment: true, food: false }
    );
}

#[test]
fn set_size_changes_only_the_size() {
    let mut world = World::new();
    let bundle = Components {
        position: Some(Position { x: 1, y: 2 }),
        size: Some(Size::square(65)),
        ..Components::empty()
    };
    let e = world.spawn(bundle);
    assert_eq!(world.set_size(e, Size { width: 10, height: 20 }), Ok(()));
    assert_eq!(
        world.components(e),
        Some(Components { size: Some(Size { width: 10, height: 20 }), ..bundle })
    );
    let bare = world.spawn(Components::empty());
    assert_eq!(world.set_size(bare, Size::square(1)), Err(missing(bare, ComponentKind::Size)));
}

#[test]
fn mutable_access_writes_through_to_the_component() {
    let mut world = World::new();
    let s = world.spawn(Components {
        position: Some(Position { x: 1, y: 2 }),
        size: Some(Size::square(65)),
        segment: Some(SnakeSegment { next_segment: None }),
        ..Components::empty()
    });
    let h = world.spawn(Components {
        position: Some(Position { x: 1, y: 3 }),
        head: Some(SnakeHead { direction: Direction::Up, next_segment: s }),
        ..Components::empty()
    });
    world.position_mut(s).unwrap().x -= 1;
    *world.size_mut(s).unwrap() = Size::square(70);
    world.segment_mut(s).unwrap().next_segment = Some(h);
    world.head_mut(h).unwrap().direction = Direction::Right;
    assert_eq!(world.position(s), Ok(Position { x: 0, y: 2 }));
    assert_eq!(world.size(s), Ok(Size::square(70)));
    assert_eq!(world.segment(s), Ok(SnakeSegment { next_segment: Some(h) }));
    assert_eq!(world.head(h), Ok(SnakeHead { direction: Direction::Right, next_segment: s }));
    assert_eq!(world.position(h), Ok(Position { x: 1, y: 3 }));
}

#[test]
fn mutable_access_fails_without_the_component() {
    let mut world = World::new();
    let e = world.spawn(Components::empty());
    assert_eq!(world.position_mut(e).err(), Some(missing(e, ComponentKind::Position)));
    assert_eq!(world.size_mut(e).err(), Some(missing(e, ComponentKind::Size)));
    assert_eq!(world.head_mut(e).err(), Some(missing(e, ComponentKind::SnakeHead)));
    assert_eq!(world.segment_mut(e).err(), Some(missing(e, ComponentKind::SnakeSegment)));
    world.despawn(e);
    assert_eq!(world.position_mut(e).err(), Some(missing(e, ComponentKind::Position)));
    assert!(world.entities().is_empty());
}
