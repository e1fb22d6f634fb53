use snake_core::grid::{
    commit_direction, Direction, DirectionInput, Position, Size, ARENA_HEIGHT, ARENA_WIDTH,
};

const ALL: [Direction; 4] = [Direction::Left, Direction::Up, Direction::Right, Direction::Down];

fn keys(left: bool, right: bool, down: bool, up: bool) -> DirectionInput {
    DirectionInput { left, right, down, up }
}

#[test]
fn opposite_swaps_left_right_and_up_down() {
    assert_eq!(Direction::Left.opposite(), Direction::Right);
    assert_eq!(Direction::Right.opposite(), Direction::Left);
    assert_eq!(Direction::Up.opposite(), Direction::Down);
    assert_eq!(Direction::Down.opposite(), Direction::Up);
}

#[test]
fn opposite_twice_is_identity() {
    for d in ALL {
        assert_eq!(d.opposite().opposite(), d);
        assert_ne!(d.opposite(), d);
    }
}

#[test]
fn square_sets_both_sides() {
    assert_eq!(Size::square(65), Size { width: 65, height: 65 });
    assert_eq!(Size::square(0), Size { width: 0, height: 0 });
}

#[test]
fn default_position_is_the_origin() {
    assert_eq!(Position::default(), Position { x: 0, y: 0 });
}

#[test]
fn advance_moves_one_cell() {
    let p = Position { x: 3, y: 7 };
    assert_eq!(p.advance(Direction::Left), Position { x: 2, y: 7 });
    assert_eq!(p.advance(Direction::Right), Position { x: 4, y: 7 });
    assert_eq!(p.advance(Direction::Up), Position { x: 3, y: 8 });
    assert_eq!(p.advance(Direction::Down), Position { x: 3, y: 6 });
}

#[test]
fn advance_reaches_the_ends_of_the_coordinate_range() {
    let p = Position { x: i32::MAX - 1, y: i32::MIN + 1 };
    assert_eq!(p.advance(Direction::Right), Position { x: i32::MAX, y: i32::MIN + 1 });
    assert_eq!(p.advance(Direction::Down), Position { x: i32::MAX - 1, y: i32::MIN });
}

#[test]
fn a_coordinate_equal_to_the_bound_is_inside() {
    let w = ARENA_WIDTH as i32;
    let h = ARENA_HEIGHT as i32;
    assert!(!Position { x: w, y: 5 }.hits_wall());
    assert!(!Position { x: 5, y: h }.hits_wall());
    assert!(!Position { x: w, y: h }.hits_wall());
    assert!(!Position { x: 0, y: 0 }.hits_wall());
}

#[test]
fn one_past_the_bound_is_outside() {
    let w = ARENA_WIDTH as i32;
    let h = ARENA_HEIGHT as i32;
    assert!(Position { x: w + 1, y: 5 }.hits_wall());
    assert!(Position { x: 5, y: h + 1 }.hits_wall());
    assert!(Position { x: i32::MAX, y: 0 }.hits_wall());
}

#[test]
fn a_negative_coordinate_is_outside() {
    assert!(Position { x: -1, y: 5 }.hits_wall());
    assert!(Position { x: 5, y: -1 }.hits_wall());
    assert!(Position { x: i32::MIN, y: i32::MIN }.hits_wall());
}

#[test]
fn arena_is_forty_by_forty() {
    assert_eq!(ARENA_WIDTH, 40);
    assert_eq!(ARENA_HEIGHT, 40);
}

#[test]
fn no_key_keeps_the_current_direction() {
    for d in ALL {
        assert_eq!(DirectionInput::none().candidate(d), d);
    }
}

#[test]
fn a_single_key_selects_its_direction() {
    for d in ALL {
        assert_eq!(keys(true, false, false, false).candidate(d), Direction::Left);
        assert_eq!(keys(false, true, false, false).candidate(d), Direction::Right);
        assert_eq!(keys(false, false, true, false).candidate(d), Direction::Down);
        assert_eq!(keys(false, false, false, true).candidate(d), Direction::Up);
    }
}

#[test]
fn several_keys_are_taken_in_the_order_left_right_down_up() {
    let d = Direction::Up;
    assert_eq!(keys(true, true, true, true).candidate(d), Direction::Left);
    assert_eq!(keys(false, true, true, true).candidate(d), Direction::Right);
    assert_eq!(keys(false, false, true, true).candidate(d), Direction::Down);
    assert_eq!(keys(true, false, false, true).candidate(d), Direction::Left);
    assert_eq!(keys(false, true, false, true).candidate(d), Direction::Right);
}

#[test]
fn commit_refuses_the_reverse() {
    for d in ALL {
        assert_eq!(commit_direction(d, d.opposite()), d);
    }
}

#[test]
fn commit_takes_every_other_direction() {
    for current in ALL {
        for candidate in ALL {
            if candidate != current.opposite() {
                assert_eq!(commit_direction(current, candidate), candidate);
            }
            assert_ne!(commit_direction(current, candidate), current.opposite());
        }
    }
}
