use snake_core::grid::{Direction, DirectionInput, Position};
use snake_core::movement::{advance_head, steer_head};
use snake_core::snake::spawn_initial_snake;
use snake_core::world::{SnakeHead, World};

fn keys(left: bool, right: bool, down: bool, up: bool) -> DirectionInput {
    DirectionInput { left, right, down, up }
}

#[test]
fn steer_head_takes_the_direction_asked_for() {
    let mut world = World::new();
    let (head, segment) = spawn_initial_snake(&mut world);
    assert_eq!(
        steer_head(&mut world, head, keys(false, true, false, false)),
        (Direction::Right, segment)
    );
    assert_eq!(
        world.head(head),
        Ok(SnakeHead { direction: Direction::Right, next_segment: segment })
    );
    assert_eq!(world.position(head), Ok(Position { x: 10, y: 10 }));
    assert_eq!(world.position(segment), Ok(Position { x: 10, y: 9 }));
}

#[test]
fn steer_head_keeps_the_direction_when_asked_to_reverse() {
    let mut world = World::new();
    let (head, segment) = spawn_initial_snake(&mut world);
    assert_eq!(
        steer_head(&mut world, head, keys(false, false, true, false)),
        (Direction::Up, segment)
    );
    assert_eq!(world.head(head).unwrap().direction, Direction::Up);
}

#[test]
fn steer_head_keeps_the_direction_without_a_key() {
    let mut world = World::new();
    let (head, segment) = spawn_initial_snake(&mut world);
    steer_head(&mut world, head, keys(true, false, false, false));
    assert_eq!(steer_head(&mut world, head, DirectionInput::none()), (Direction::Left, segment));
}

#[test]
fn steer_head_falls_back_when_the_first_key_is_the_reverse() {
    let mut world = World::new();
    let (head, _) = spawn_initial_snake(&mut world);
    steer_head(&mut world, head, keys(false, true, false, false));
    let (direction, _) = steer_head(&mut world, head, keys(true, false, false, true));
    assert_eq!(direction, Direction::Right);
}

#[test]
fn advance_head_moves_the_head_only() {
    let mut world = World::new();
    let (head, segment) = spawn_initial_snake(&mut world);
    assert_eq!(advance_head(&mut world, head, Direction::Left), Position { x: 9, y: 10 });
    assert_eq!(world.position(head), Ok(Position { x: 9, y: 10 }));
    assert_eq!(advance_head(&mut world, head, Direction::Down), Position { x: 9, y: 9 });
    assert_eq!(world.position(segment), Ok(Position { x: 10, y: 9 }));
    assert_eq!(world.head(head).unwrap().direction, Direction::Up);
}
