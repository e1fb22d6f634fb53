//! Grid coordinates, render sizes, directions and the arena bounds.

use vstd::prelude::*;

verus! {

/// Number of grid cells across the arena.
pub const ARENA_WIDTH: u32 = 40;

/// Number of grid cells up the arena.
pub const ARENA_HEIGHT: u32 = 40;

/// A cell of the grid. Two positions are equal when both coordinates are.
#[derive(Default, Clone, Copy, Debug, PartialEq, Eq, Hash, Structural)]
pub struct Position {
    pub x: i32,
    pub y: i32,
}

/// Render-space extent of an entity, in hundredths of one grid cell.
///
/// The simulation never reads a size; it only stores it for the renderer.
#[derive(Clone, Copy, Debug, PartialEq, Eq, Structural)]
pub struct Size {
    pub width: u32,
    pub height: u32,
}

impl Size {
    /// A size that is `x` hundredths of a cell wide and high.
    pub fn square(x: u32) -> (s: Size)
        ensures
            s == (Size { width: x, height: x }),
    {
        Size { width: x, height: x }
    }
}

/// One of the four grid directions a snake can face.
#[derive(Clone, Copy, Debug, PartialEq, Eq, Structural)]
pub enum Direction {
    Left,
    Up,
    Right,
    Down,
}

impl Direction {
    /// The direction pointing the other way: left and right swap, up and down swap.
    pub open spec fn spec_opposite(&self) -> Direction {
        match *self {
            Direction::Left => Direction::Right,
            Direction::Right => Direction::Left,
            Direction::Up => Direction::Down,
            Direction::Down => Direction::Up,
        }
    }

    #[verifier::when_used_as_spec(spec_opposite)]
    pub fn opposite(&self) -> (r: Direction)
        ensures
            r == self.spec_opposite(),
    {
        match self {
            Direction::Left => Direction::Right,
            Direction::Right => Direction::Left,
            Direction::Up => Direction::Down,
            Direction::Down => Direction::Up,
        }
    }

    /// Change of the x coordinate when moving one cell in this direction.
    pub open spec fn dx(self) -> int {
        match self {
            Direction::Left => -1,
            Direction::Right => 1,
            _ => 0,
        }
    }

    /// Change of the y coordinate when moving one cell in this direction.
    pub open spec fn dy(self) -> int {
        match self {
            Direction::Up => 1,
            Direction::Down => -1,
            _ => 0,
        }
    }
}

impl Position {
    /// Whether the neighbouring cell in direction `d` still has `i32` coordinates.
    pub open spec fn can_advance(self, d: Direction) -> bool {
        &&& i32::MIN <= self.x + d.dx() <= i32::MAX
        &&& i32::MIN <= self.y + d.dy() <= i32::MAX
    }

    /// The neighbouring cell in direction `d`: left and right change `x` by
    /// one, up raises `y` by one and down lowers it by one.
    pub open spec fn spec_advance(self, d: Direction) -> Position {
        Position { x: (self.x + d.dx()) as i32, y: (self.y + d.dy()) as i32 }
    }

    #[verifier::when_used_as_spec(spec_advance)]
    pub fn advance(self, d: Direction) -> (p: Position)
        requires
            self.can_advance(d),
        ensures
            p == self.spec_advance(d),
            p.x == self.x + d.dx(),
            p.y == self.y + d.dy(),
    {
        match d {
            Direction::Left => Position { x: self.x - 1, y: self.y },
            Direction::Right => Position { x: self.x + 1, y: self.y },
            Direction::Up => Position { x: self.x, y: self.y + 1 },
            Direction::Down => Position { x: self.x, y: self.y - 1 },
        }
    }

    /// Whether this cell lies outside the arena: a coordinate is negative or
    /// greater than the arena's bound. A coordinate equal to the bound is
    /// still inside.
    pub open spec fn spec_hits_wall(self) -> bool {
        self.x < 0 || self.y < 0 || self.x > ARENA_WIDTH || self.y > ARENA_HEIGHT
    }

    #[verifier::when_used_as_spec(spec_hits_wall)]
    pub fn hits_wall(self) -> (hit: bool)
        ensures
            hit == self.spec_hits_wall(),
    {
        self.x < 0 || self.y < 0 || self.x as u32 > ARENA_WIDTH || self.y as u32 > ARENA_HEIGHT
    }
}

/// The direction keys that are pressed right now.
#[derive(Clone, Copy, Debug, PartialEq, Eq, Structural)]
pub struct DirectionInput {
    pub left: bool,
    pub right: bool,
    pub down: bool,
    pub up: bool,
}

impl DirectionInput {
    /// No key pressed.
    pub fn none() -> (input: DirectionInput)
        ensures
            input == (DirectionInput { left: false, right: false, down: false, up: false }),
    {
        DirectionInput { left: false, right: false, down: false, up: false }
    }

    /// The direction the player asks for: the first pressed key in the order
    /// left, right, down, up, or `current` when no key is pressed.
    pub open spec fn spec_candidate(&self, current: Direction) -> Direction {
        if self.left {
            Direction::Left
        } else if self.right {
            Direction::Right
        } else if self.down {
            Direction::Down
        } else if self.up {
            Direction::Up
        } else {
            current
        }
    }

    #[verifier::when_used_as_spec(spec_candidate)]
    pub fn candidate(&self, current: Direction) -> (d: Direction)
        ensures
            d == self.spec_candidate(current),
    {
        if self.left {
            Direction::Left
        } else if self.right {
            Direction::Right
        } else if self.down {
            Direction::Down
        } else if self.up {
            Direction::Up
        } else {
            current
        }
    }
}

/// The direction a head facing `current` takes when `candidate` is asked
/// for: the candidate, unless it is the exact reverse of `current`.
pub open spec fn spec_commit_direction(current: Direction, candidate: Direction) -> Direction {
    if candidate != current.spec_opposite() {
        candidate
    } else {
        current
    }
}

#[verifier::when_used_as_spec(spec_commit_direction)]
pub fn commit_direction(current: Direction, candidate: Direction) -> (d: Direction)
    ensures
        d == spec_commit_direction(current, candidate),
        candidate == current.spec_opposite() ==> d == current,
{
    if candidate != current.opposite() {
        candidate
    } else {
        current
    }
}

} // verus!
