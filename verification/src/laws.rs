//! Laws that hold of the rules of the game, whatever the state and the
//! input.

use vstd::prelude::*;
use crate::grid::{
    spec_commit_direction, Direction, DirectionInput, Position, ARENA_HEIGHT, ARENA_WIDTH,
};
use crate::movement::{fed, moved};
use crate::snake::{
    grown_chain, head_bundle, initial_direction, initial_head, initial_segment, is_food, is_head,
    is_segment, is_snake_world, positions_of, segment_bundle, Snake,
};
use crate::store::EntityRef;
use crate::timer::Timer;
use crate::world::Components;

verus! {

/// Reversing twice gives the direction back, and no direction is its own
/// reverse.
pub proof fn law_opposite_is_an_involution(d: Direction)
    ensures
        d.spec_opposite().spec_opposite() == d,
        d.spec_opposite() != d,
{
}

/// A head never commits to the reverse of the direction it faces: asked for
/// the reverse, it keeps its direction.
pub proof fn law_reverse_is_refused(current: Direction)
    ensures
        spec_commit_direction(current, current.spec_opposite()) == current,
{
}

/// Whatever is asked for, the committed direction is never the reverse of
/// the direction faced before.
pub proof fn law_never_reversed(current: Direction, candidate: Direction)
    ensures
        spec_commit_direction(current, candidate) != current.spec_opposite(),
{
}

/// A snake whose input asks for the reverse of its direction keeps its
/// direction, whether it only turns or also moves.
pub proof fn law_reverse_input_keeps_direction(snake: Snake, input: DirectionInput, ate: bool)
    requires
        input.spec_candidate(snake.direction) == snake.direction.spec_opposite(),
    ensures
        snake.turned(input).direction == snake.direction,
        snake.advanced(input, ate).direction == snake.direction,
{
}

/// Neither turning nor moving makes a snake shorter: turning keeps its
/// length, moving keeps it when nothing was eaten and adds exactly one
/// segment when something was.
pub proof fn law_length_never_decreases(snake: Snake, input: DirectionInput, ate: bool)
    requires
        snake.body.len() > 0,
    ensures
        snake.turned(input).body == snake.body,
        snake.advanced(input, false).body.len() == snake.body.len(),
        snake.advanced(input, true).body.len() == snake.body.len() + 1,
        snake.advanced(input, ate).body.len() >= snake.body.len(),
{
}

/// However many segments were created in a tick, the chain keeps all its
/// entities in place and gains exactly one if any was created.
pub proof fn law_chain_grows_by_one(chain: Seq<EntityRef>, grown: Seq<EntityRef>)
    ensures
        grown_chain(chain, grown).len() == chain.len() + (if grown.len() > 0 {
            1nat
        } else {
            0nat
        }),
        grown_chain(chain, grown).take(chain.len() as int) == chain,
        grown.len() > 0 ==> grown_chain(chain, grown).last() == grown.last(),
{
    assert(grown_chain(chain, grown).take(chain.len() as int) =~= chain);
}

/// A repeating timer with a positive interval that has not expired fires
/// exactly on the tick on which the accumulated time reaches the interval,
/// keeps what exceeds the interval, and is never left expired. So such a
/// timer, once started, stays such a timer.
pub proof fn law_repeating_timer(timer: Timer, delta: u64)
    requires
        timer.repeating,
        timer.duration > 0,
        timer.elapsed < timer.duration,
    ensures
        timer.ticked(delta).finished <==> timer.elapsed + delta >= timer.duration,
        timer.ticked(delta).just_finished == timer.ticked(delta).finished,
        timer.ticked(delta).elapsed < timer.duration,
        timer.ticked(delta).elapsed == (timer.elapsed + delta) % (timer.duration as int),
        timer.ticked(delta).repeating,
        timer.ticked(delta).duration == timer.duration,
{
    let total = timer.elapsed + delta;
    if total < timer.duration {
        assert(total % (timer.duration as int) == total) by (nonlinear_arith)
            requires
                0 <= total < timer.duration,
        ;
    } else {
        assert(0 <= total % (timer.duration as int) < timer.duration) by (nonlinear_arith)
            requires
                timer.duration > 0,
        ;
    }
}

/// A one-shot timer that has finished stays finished and accumulates no
/// further.
pub proof fn law_one_shot_timer(timer: Timer, delta: u64)
    requires
        !timer.repeating,
        timer.elapsed >= timer.duration,
    ensures
        timer.ticked(delta).finished,
        !timer.ticked(delta).just_finished,
        timer.ticked(delta).elapsed == timer.elapsed,
{
}

/// A cell is inside the arena exactly when both coordinates lie between
/// zero and the arena's bound, the bound included. So a coordinate equal to
/// the bound is legal, one past the bound is not, and a negative one is not.
pub proof fn law_wall_bounds(p: Position)
    ensures
        !p.spec_hits_wall() <==> 0 <= p.x <= ARENA_WIDTH && 0 <= p.y <= ARENA_HEIGHT,
        p.x == ARENA_WIDTH && 0 <= p.y <= ARENA_HEIGHT ==> !p.spec_hits_wall(),
        p.y == ARENA_HEIGHT && 0 <= p.x <= ARENA_WIDTH ==> !p.spec_hits_wall(),
        p.x == ARENA_WIDTH + 1 || p.y == ARENA_HEIGHT + 1 ==> p.spec_hits_wall(),
        p.x < 0 || p.y < 0 ==> p.spec_hits_wall(),
{
}

/// The world that a reset leaves holds the head and the one segment of the
/// initial snake and nothing else: no food, no further segment, and both on
/// their starting cells.
pub proof fn law_reset_world(m: Map<EntityRef, Components>, head: EntityRef, segment: EntityRef)
    requires
        head != segment,
        m == Map::<EntityRef, Components>::empty().insert(
            segment,
            segment_bundle(initial_segment()),
        ).insert(head, head_bundle(initial_head(), initial_direction(), segment)),
    ensures
        m.dom() == set![head, segment],
        is_snake_world(m, head, seq![segment]),
        forall|e: EntityRef| m.contains_key(e) ==> !is_food(m[e]),
        forall|e: EntityRef| m.contains_key(e) && is_head(m[e]) ==> e == head,
        forall|e: EntityRef| m.contains_key(e) && is_segment(m[e]) ==> e == segment,
        m[head].position == Some(initial_head()),
        m[head].head->0.direction == initial_direction(),
        m[segment].position == Some(initial_segment()),
{
    assert(m.dom() =~= set![head, segment]);
}

/// In a movement tick every entity takes the cell that the entity ahead of
/// it had before the tick: the head's old cell goes to the first segment,
/// each segment's old cell to the next one, and a segment grown in the tick
/// lies on the cell that the tail left.
pub proof fn law_shift(snake: Snake, input: DirectionInput, ate: bool)
    requires
        snake.body.len() > 0,
    ensures
        ({
            let after = snake.advanced(input, ate);
            &&& after.head == snake.head.spec_advance(snake.steered(input))
            &&& after.body[0] == snake.head
            &&& forall|i: int| 1 <= i < snake.body.len() ==> after.body[i] == snake.body[i - 1]
            &&& ate ==> after.body[snake.body.len() as int] == snake.body.last()
        }),
{
}

/// A snake of three segments at `[p1, p2, p3]` behind a head at `p0` has,
/// after a tick without food, its segments at `[p0, p1, p2]`.
pub proof fn law_shift_of_three(
    direction: Direction,
    p0: Position,
    p1: Position,
    p2: Position,
    p3: Position,
    input: DirectionInput,
)
    ensures
        (Snake { direction, head: p0, body: seq![p1, p2, p3] }).advanced(input, false).body
            == seq![p0, p1, p2],
{
    let snake = Snake { direction, head: p0, body: seq![p1, p2, p3] };
    assert(snake.advanced(input, false).body =~= seq![p0, p1, p2]);
}

/// Food that is eaten is gone, and every segment created for it lies on the
/// cell that the tail left.
pub proof fn law_eaten_food_is_gone(
    m: Map<EntityRef, Components>,
    head: EntityRef,
    chain: Seq<EntityRef>,
    dir: Direction,
    eaten: Seq<EntityRef>,
    grown: Seq<EntityRef>,
)
    requires
        is_snake_world(m, head, chain),
        forall|k: int|
            0 <= k < eaten.len() ==> m.contains_key(#[trigger] eaten[k]) && m[eaten[k]].food
                is Some,
        forall|k: int| 0 <= k < grown.len() ==> !m.contains_key(#[trigger] grown[k]),
    ensures
        ({
            let at = m[chain.last()].position->0;
            let after = fed(moved(m, head, chain, dir), eaten, grown, chain.last(), at);
            &&& forall|k: int| 0 <= k < eaten.len() ==> !after.contains_key(#[trigger] eaten[k])
            &&& forall|k: int|
                0 <= k < grown.len() ==> after.contains_key(#[trigger] grown[k]) && after[grown[k]]
                    == segment_bundle(at)
            &&& positions_of(after, grown_chain(chain, grown)).len() == chain.len() + (
            if grown.len() > 0 {
                1nat
            } else {
                0nat
            })
        }),
{
    assert forall|k: int| 0 <= k < eaten.len() implies !grown.contains(#[trigger] eaten[k]) by {
        if grown.contains(eaten[k]) {
            let j = choose|j: int| 0 <= j < grown.len() && grown[j] == eaten[k];
            assert(!m.contains_key(grown[j]));
        }
    }
    assert forall|k: int| 0 <= k < eaten.len() implies eaten.contains(#[trigger] eaten[k]) by {}
    assert forall|k: int| 0 <= k < grown.len() implies grown.contains(#[trigger] grown[k]) by {}
}

} // verus!
