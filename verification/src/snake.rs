//! The snake as a chain of entities, and the rules by which it turns,
//! moves and grows.

use vstd::prelude::*;
use crate::grid::{spec_commit_direction, Direction, DirectionInput, Position, Size};
use crate::store::EntityRef;
use crate::world::{Components, Food, SnakeHead, SnakeSegment, World};

verus! {

/// Side of a head's square, in hundredths of a grid cell.
pub const HEAD_SIZE: u32 = 80;

/// Side of a body segment's square, in hundredths of a grid cell.
pub const SEGMENT_SIZE: u32 = 65;

/// Side of a food item's square, in hundredths of a grid cell.
pub const FOOD_SIZE: u32 = 80;

/// Column in which a new snake's head starts.
pub const INITIAL_HEAD_X: i32 = 10;

/// Row in which a new snake's head starts.
pub const INITIAL_HEAD_Y: i32 = 10;

/// Column in which a new snake's only segment starts.
pub const INITIAL_SEGMENT_X: i32 = 10;

/// Row in which a new snake's only segment starts.
pub const INITIAL_SEGMENT_Y: i32 = 9;

/// Where a new snake's head starts.
pub open spec fn initial_head() -> Position {
    Position { x: INITIAL_HEAD_X, y: INITIAL_HEAD_Y }
}

/// Where a new snake's only segment starts.
pub open spec fn initial_segment() -> Position {
    Position { x: INITIAL_SEGMENT_X, y: INITIAL_SEGMENT_Y }
}

/// The direction a new snake faces.
pub open spec fn initial_direction() -> Direction {
    Direction::Up
}

/// The components of a head at `position` that faces `direction` and is
/// followed by the segment `next_segment`.
pub open spec fn head_bundle(
    position: Position,
    direction: Direction,
    next_segment: EntityRef,
) -> Components {
    Components {
        position: Some(position),
        size: Some(Size { width: HEAD_SIZE, height: HEAD_SIZE }),
        head: Some(SnakeHead { direction, next_segment }),
        segment: None,
        food: None,
    }
}

/// The components of a body segment at `position` that ends its chain.
pub open spec fn segment_bundle(position: Position) -> Components {
    Components {
        position: Some(position),
        size: Some(Size { width: SEGMENT_SIZE, height: SEGMENT_SIZE }),
        head: None,
        segment: Some(SnakeSegment { next_segment: None }),
        food: None,
    }
}

/// The components of a food item at `position`.
pub open spec fn food_bundle(position: Position) -> Components {
    Components {
        position: Some(position),
        size: Some(Size { width: FOOD_SIZE, height: FOOD_SIZE }),
        head: None,
        segment: None,
        food: Some(Food),
    }
}

/// Whether `c` is what a snake head carries: a position, a size and the
/// head itself.
pub open spec fn is_head(c: Components) -> bool {
    c.position is Some && c.size is Some && c.head is Some && c.segment is None && c.food is None
}

/// Whether `c` is what a body segment carries: a position, a size and the
/// segment link.
pub open spec fn is_segment(c: Components) -> bool {
    c.position is Some && c.size is Some && c.head is None && c.segment is Some && c.food is None
}

/// Whether `c` is what a food item carries: a position, a size and the
/// food marker.
pub open spec fn is_food(c: Components) -> bool {
    c.position is Some && c.size is Some && c.head is None && c.segment is None && c.food is Some
}

/// Whether `chain` is the chain of body segments that starts at `first`:
/// it is not empty, its entities are distinct live segments, each is linked
/// to the one behind it, and the last one has no successor.
pub open spec fn is_chain(
    m: Map<EntityRef, Components>,
    first: EntityRef,
    chain: Seq<EntityRef>,
) -> bool {
    &&& chain.len() > 0
    &&& chain[0] == first
    &&& chain.no_duplicates()
    &&& forall|i: int|
        0 <= i < chain.len() ==> m.contains_key(#[trigger] chain[i]) && is_segment(m[chain[i]])
    &&& forall|i: int|
        0 <= i < chain.len() - 1 ==> (#[trigger] m[chain[i]]).segment->0.next_segment == Some(
            chain[i + 1],
        )
    &&& m[chain.last()].segment->0.next_segment is None
}

/// Whether `m` holds a snake with the head entity `head` and the body
/// `chain`, and besides it only food: `head` is the one entity with a head,
/// `chain` is the chain that starts at its link, and every entity is a
/// head, a body segment or a food item.
pub open spec fn is_snake_world(
    m: Map<EntityRef, Components>,
    head: EntityRef,
    chain: Seq<EntityRef>,
) -> bool {
    &&& m.contains_key(head)
    &&& is_head(m[head])
    &&& forall|e: EntityRef| #[trigger]
        m.contains_key(e) ==> is_head(m[e]) || is_segment(m[e]) || is_food(m[e])
    &&& forall|e: EntityRef| #[trigger] m.contains_key(e) && m[e].head is Some ==> e == head
    &&& is_chain(m, m[head].head->0.next_segment, chain)
}

/// The positions of the entities of `chain`, in chain order.
pub open spec fn positions_of(m: Map<EntityRef, Components>, chain: Seq<EntityRef>) -> Seq<
    Position,
> {
    Seq::new(chain.len(), |i: int| m[chain[i]].position->0)
}

/// The body after a movement tick: the head's old cell, then the old body
/// without its last cell, then the last cell again if the snake grew.
pub open spec fn shifted_body(head: Position, body: Seq<Position>, ate: bool) -> Seq<Position> {
    let shifted = seq![head] + body.drop_last();
    if ate {
        shifted.push(body.last())
    } else {
        shifted
    }
}

/// The chain after a movement tick in which the segments `grown` were
/// created: the segment created last is linked behind the old tail.
pub open spec fn grown_chain(chain: Seq<EntityRef>, grown: Seq<EntityRef>) -> Seq<EntityRef> {
    if grown.len() > 0 {
        chain.push(grown.last())
    } else {
        chain
    }
}

/// A snake seen apart from the entities that make it up: where it faces,
/// where its head is, and where its body segments are, from the one next to
/// the head to the tail.
#[verifier::ext_equal]
pub struct Snake {
    pub direction: Direction,
    pub head: Position,
    pub body: Seq<Position>,
}

impl Snake {
    /// The direction the snake takes on the given input: the first pressed
    /// key in the order left, right, down, up, unless that is the reverse
    /// of where it faces or no key is pressed.
    pub open spec fn steered(self, input: DirectionInput) -> Direction {
        spec_commit_direction(self.direction, input.spec_candidate(self.direction))
    }

    /// The snake after the direction intake alone.
    pub open spec fn turned(self, input: DirectionInput) -> Snake {
        Snake { direction: self.steered(input), ..self }
    }

    /// The snake after one movement tick on the given input.
    ///
    /// The head moves one cell in the steered direction. Every segment takes
    /// the place that the entity ahead of it had before the tick. When the
    /// snake ate, a new last segment appears where the tail was.
    pub open spec fn advanced(self, input: DirectionInput, ate: bool) -> Snake {
        let dir = self.steered(input);
        Snake {
            direction: dir,
            head: self.head.spec_advance(dir),
            body: shifted_body(self.head, self.body, ate),
        }
    }
}

/// Creates a body segment at `position` that ends its chain, and returns
/// its handle.
pub fn spawn_segment(world: &mut World, position: Position) -> (e: EntityRef)
    requires
        old(world).wf(),
    ensures
        final(world).wf(),
        !old(world).allocated(e),
        !old(world)@.contains_key(e),
        final(world)@ == old(world)@.insert(e, segment_bundle(position)),
        forall|x: EntityRef| final(world).allocated(x) <==> old(world).allocated(x) || x == e,
{
    world.spawn(
        Components {
            position: Some(position),
            size: Some(Size::square(SEGMENT_SIZE)),
            head: None,
            segment: Some(SnakeSegment { next_segment: None }),
            food: None,
        },
    )
}

/// Creates a food item at `position` and returns its handle.
pub fn spawn_food(world: &mut World, position: Position) -> (e: EntityRef)
    requires
        old(world).wf(),
    ensures
        final(world).wf(),
        !old(world).allocated(e),
        !old(world)@.contains_key(e),
        final(world)@ == old(world)@.insert(e, food_bundle(position)),
        forall|x: EntityRef| final(world).allocated(x) <==> old(world).allocated(x) || x == e,
{
    world.spawn(
        Components {
            position: Some(position),
            size: Some(Size::square(FOOD_SIZE)),
            head: None,
            segment: None,
            food: Some(Food),
        },
    )
}

/// Creates the snake a game starts with: one segment at its starting cell
/// and a head at its starting cell that faces up and is linked to the
/// segment. Returns the handles of the head and of the segment.
pub fn spawn_initial_snake(world: &mut World) -> (snake: (EntityRef, EntityRef))
    requires
        old(world).wf(),
    ensures
        final(world).wf(),
        snake.0 != snake.1,
        !old(world).allocated(snake.0),
        !old(world).allocated(snake.1),
        final(world)@ == old(world)@.insert(snake.1, segment_bundle(initial_segment())).insert(
            snake.0,
            head_bundle(initial_head(), initial_direction(), snake.1),
        ),
        forall|x: EntityRef|
            final(world).allocated(x) <==> old(world).allocated(x) || x == snake.0 || x == snake.1,
{
    let first_segment = spawn_segment(
        world,
        Position { x: INITIAL_SEGMENT_X, y: INITIAL_SEGMENT_Y },
    );
    let head = world.spawn(
        Components {
            position: Some(Position { x: INITIAL_HEAD_X, y: INITIAL_HEAD_Y }),
            size: Some(Size::square(HEAD_SIZE)),
            head: Some(SnakeHead { direction: Direction::Up, next_segment: first_segment }),
            segment: None,
            food: None,
        },
    );
    (head, first_segment)
}

} // verus!
