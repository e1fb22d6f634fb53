//! The two walks of a movement tick: the shift of the body along the chain
//! and the consumption of food under the head.

use vstd::prelude::*;
use crate::events::{Events, GameOverEvent};
use crate::grid::{
    commit_direction, spec_commit_direction, Direction, DirectionInput, Position,
};
use crate::sequences::lemma_filter_no_duplicates;
use crate::snake::{
    grown_chain, is_chain, is_food, is_head, is_segment, is_snake_world, positions_of,
    segment_bundle, shifted_body, spawn_segment,
};
use crate::store::EntityRef;
use crate::world::{ComponentKind, ComponentSet, Components, SnakeHead, SnakeSegment, World};

verus! {

/// The test for being the cell `at`.
pub open spec fn is_at(at: Position) -> spec_fn(Position) -> bool {
    |p: Position| p == at
}

/// How many cells of `cells` are the cell `at`.
pub open spec fn count_at(cells: Seq<Position>, at: Position) -> nat {
    cells.filter(is_at(at)).len()
}

/// Counting over a sequence extended by one cell adds one exactly when
/// that cell is the one counted.
pub proof fn lemma_count_at_push(cells: Seq<Position>, cell: Position, at: Position)
    ensures
        count_at(cells.push(cell), at) == count_at(cells, at) + (if cell == at {
            1nat
        } else {
            0nat
        }),
{
    cells.lemma_filter_push(cell, is_at(at));
}

/// Nothing is counted in the empty sequence.
pub proof fn lemma_count_at_empty(at: Position)
    ensures
        count_at(Seq::<Position>::empty(), at) == 0,
{
    Seq::<Position>::empty().lemma_filter_len(is_at(at));
}

/// The cell that the `i`-th entity of `chain` moves to when the body
/// shifts: the head's cell for the first, and for every other the cell of
/// the entity ahead of it.
pub open spec fn ahead(
    m: Map<EntityRef, Components>,
    head_position: Position,
    chain: Seq<EntityRef>,
    i: int,
) -> Position {
    if i == 0 {
        head_position
    } else {
        m[chain[i - 1]].position->0
    }
}

/// Whether `after` is `before` with the body `chain` shifted behind a head
/// at `head_position`: the same entities, every chain entity on the cell of
/// the entity ahead of it, and nothing else changed.
pub open spec fn is_shifted(
    before: Map<EntityRef, Components>,
    after: Map<EntityRef, Components>,
    head_position: Position,
    chain: Seq<EntityRef>,
) -> bool {
    &&& after.dom() == before.dom()
    &&& forall|i: int|
        0 <= i < chain.len() ==> after[#[trigger] chain[i]] == (Components {
            position: Some(ahead(before, head_position, chain, i)),
            ..before[chain[i]]
        })
    &&& forall|e: EntityRef|
        before.contains_key(e) && !chain.contains(e) ==> #[trigger] after[e] == before[e]
}

/// The world `m` after the snake with the head entity `head` and the body
/// `chain` moved one cell in direction `dir`: the head faces `dir` and lies
/// on the next cell that way, every body segment lies where the entity
/// ahead of it was, and nothing else changed.
pub open spec fn moved(
    m: Map<EntityRef, Components>,
    head: EntityRef,
    chain: Seq<EntityRef>,
    dir: Direction,
) -> Map<EntityRef, Components> {
    Map::new(
        |e: EntityRef| m.contains_key(e),
        |e: EntityRef|
            if e == head {
                Components {
                    position: Some(m[head].position->0.spec_advance(dir)),
                    head: Some(
                        SnakeHead { direction: dir, next_segment: m[head].head->0.next_segment },
                    ),
                    ..m[head]
                }
            } else if chain.contains(e) {
                Components {
                    position: Some(ahead(m, m[head].position->0, chain, chain.index_of(e))),
                    ..m[e]
                }
            } else {
                m[e]
            },
    )
}

/// The world `m` after the head entity `head` turned to face `dir`.
pub open spec fn turned(
    m: Map<EntityRef, Components>,
    head: EntityRef,
    dir: Direction,
) -> Map<EntityRef, Components> {
    m.insert(
        head,
        Components {
            head: Some(SnakeHead { direction: dir, next_segment: m[head].head->0.next_segment }),
            ..m[head]
        },
    )
}

/// The entities selected as food: those that carry the food marker and a
/// position.
pub open spec fn food_query() -> ComponentSet {
    ComponentSet { position: true, size: false, head: false, segment: false, food: true }
}

/// The test for being an entity of `m` that lies on the cell `at`.
pub open spec fn lies_at(m: Map<EntityRef, Components>, at: Position) -> spec_fn(
    EntityRef,
) -> bool {
    |e: EntityRef| m[e].position == Some(at)
}

/// The food items of `world` that lie on the cell `at`, in listing order.
pub open spec fn food_at(world: &World, at: Position) -> Seq<EntityRef> {
    world.matching(food_query()).filter(lies_at(world@, at))
}

/// The food on a cell is listed without repetition, and it is exactly the
/// live entities that carry the food marker and lie on that cell.
pub proof fn lemma_food_at(world: &World, at: Position)
    ensures
        food_at(world, at).no_duplicates(),
        forall|e: EntityRef|
            food_at(world, at).contains(e) <==> world@.contains_key(e) && world@[e].food is Some
                && world@[e].position == Some(at),
{
    let foods = world.matching(food_query());
    let on_cell = lies_at(world@, at);
    world.lemma_matching(food_query());
    lemma_filter_no_duplicates(foods, on_cell);
    assert forall|e: EntityRef| food_at(world, at).contains(e) implies world@.contains_key(e)
        && world@[e].food is Some && world@[e].position == Some(at) by {
        let k = choose|k: int| 0 <= k < food_at(world, at).len() && food_at(world, at)[k] == e;
        foods.lemma_filter_pred(on_cell, k);
        foods.lemma_filter_contains_rev(on_cell, e);
    }
    assert forall|e: EntityRef|
        world@.contains_key(e) && world@[e].food is Some && world@[e].position == Some(
            at,
        ) implies food_at(world, at).contains(e) by {
        assert(foods.contains(e));
        let k = choose|k: int| 0 <= k < foods.len() && foods[k] == e;
        foods.lemma_filter_contains(on_cell, k);
    }
}

/// The world `before` after the food items `eaten` were consumed: each one
/// is gone, the segments `grown` lie on the cell `at` and end their chain,
/// and the old tail `tail` is linked to the segment grown last.
pub open spec fn fed(
    before: Map<EntityRef, Components>,
    eaten: Seq<EntityRef>,
    grown: Seq<EntityRef>,
    tail: EntityRef,
    at: Position,
) -> Map<EntityRef, Components> {
    Map::new(
        |e: EntityRef| (before.contains_key(e) && !eaten.contains(e)) || grown.contains(e),
        |e: EntityRef|
            if grown.contains(e) {
                segment_bundle(at)
            } else if e == tail && grown.len() > 0 {
                Components {
                    segment: Some(SnakeSegment { next_segment: Some(grown.last()) }),
                    ..before[e]
                }
            } else {
                before[e]
            },
    )
}

/// In a chain, every entity stands at one index only.
pub proof fn lemma_chain_index(chain: Seq<EntityRef>, i: int)
    requires
        chain.no_duplicates(),
        0 <= i < chain.len(),
    ensures
        chain.contains(chain[i]),
        chain.index_of(chain[i]) == i,
{
    let k = chain.index_of(chain[i]);
    assert(0 <= k < chain.len() && chain[k] == chain[i]);
}

/// Turning the head, shifting the body behind it and then advancing the
/// head gives the moved world.
pub proof fn lemma_moved(
    m: Map<EntityRef, Components>,
    shifted: Map<EntityRef, Components>,
    head: EntityRef,
    chain: Seq<EntityRef>,
    dir: Direction,
)
    requires
        is_snake_world(m, head, chain),
        is_shifted(turned(m, head, dir), shifted, m[head].position->0, chain),
    ensures
        shifted.insert(
            head,
            Components {
                position: Some(m[head].position->0.spec_advance(dir)),
                ..shifted[head]
            },
        ) == moved(m, head, chain, dir),
{
    let faced = turned(m, head, dir);
    let after = shifted.insert(
        head,
        Components { position: Some(m[head].position->0.spec_advance(dir)), ..shifted[head] },
    );
    let goal = moved(m, head, chain, dir);
    assert(!chain.contains(head)) by {
        if chain.contains(head) {
            let k = choose|k: int| 0 <= k < chain.len() && chain[k] == head;
            assert(is_segment(m[chain[k]]));
        }
    }
    assert(shifted[head] == faced[head]);
    assert forall|e: EntityRef| after.contains_key(e) <==> goal.contains_key(e) by {
        assert(shifted.dom().contains(e) <==> faced.dom().contains(e));
    }
    assert forall|e: EntityRef| after.contains_key(e) implies after[e] == goal[e] by {
        if e == head {
        } else if chain.contains(e) {
            let i = choose|i: int| 0 <= i < chain.len() && chain[i] == e;
            lemma_chain_index(chain, i);
            if i > 0 {
                assert(chain[i - 1] != head) by {
                    assert(chain.contains(chain[i - 1]));
                }
            }
            assert(shifted[chain[i]] == (Components {
                position: Some(ahead(faced, m[head].position->0, chain, i)),
                ..faced[chain[i]]
            }));
        } else {
            assert(faced.contains_key(e));
            assert(shifted[e] == faced[e]);
        }
    }
    assert(after =~= goal);
}

/// A snake world that is moved and fed is a snake world again, with the
/// head advanced and the body shifted and, if the snake ate, grown by one.
pub proof fn lemma_moved_and_fed(
    m: Map<EntityRef, Components>,
    head: EntityRef,
    chain: Seq<EntityRef>,
    dir: Direction,
    eaten: Seq<EntityRef>,
    grown: Seq<EntityRef>,
)
    requires
        is_snake_world(m, head, chain),
        forall|k: int|
            0 <= k < eaten.len() ==> m.contains_key(#[trigger] eaten[k]) && m[eaten[k]].food
                is Some,
        forall|k: int| 0 <= k < grown.len() ==> !m.contains_key(#[trigger] grown[k]),
    ensures
        ({
            let at = m[chain.last()].position->0;
            let after = fed(moved(m, head, chain, dir), eaten, grown, chain.last(), at);
            let chain2 = grown_chain(chain, grown);
            &&& is_snake_world(after, head, chain2)
            &&& after[head].position == Some(m[head].position->0.spec_advance(dir))
            &&& after[head].head->0.direction == dir
            &&& positions_of(after, chain2) == shifted_body(
                m[head].position->0,
                positions_of(m, chain),
                grown.len() > 0,
            )
        }),
{
    let at = m[chain.last()].position->0;
    let tail = chain.last();
    let mid = moved(m, head, chain, dir);
    let after = fed(mid, eaten, grown, tail, at);
    let chain2 = grown_chain(chain, grown);
    let n = chain.len() as int;
    assert(!chain.contains(head)) by {
        if chain.contains(head) {
            let k = choose|k: int| 0 <= k < chain.len() && chain[k] == head;
            assert(is_segment(m[chain[k]]));
        }
    }
    assert(!eaten.contains(head) && !grown.contains(head));
    assert forall|i: int| 0 <= i < n implies {
        &&& !eaten.contains(#[trigger] chain[i])
        &&& !grown.contains(chain[i])
        &&& chain.contains(chain[i])
        &&& chain.index_of(chain[i]) == i
    } by {
        lemma_chain_index(chain, i);
        assert(is_segment(m[chain[i]]));
    }
    assert forall|i: int| 0 <= i < n implies {
        &&& after.contains_key(#[trigger] chain[i])
        &&& after[chain[i]] == (Components {
            position: Some(ahead(m, m[head].position->0, chain, i)),
            segment: if i == n - 1 && grown.len() > 0 {
                Some(SnakeSegment { next_segment: Some(grown.last()) })
            } else {
                m[chain[i]].segment
            },
            ..m[chain[i]]
        })
    } by {
        assert(chain[i] != head);
        if i < n - 1 {
            assert(chain[i] != chain[n - 1]);
        }
    }
    if grown.len() > 0 {
        let g = grown.last();
        assert(grown.contains(g)) by {
            assert(grown[grown.len() - 1] == g);
        }
        assert(after.contains_key(g) && after[g] == segment_bundle(at));
        assert(!chain.contains(g)) by {
            if chain.contains(g) {
                let k = choose|k: int| 0 <= k < chain.len() && chain[k] == g;
                assert(m.contains_key(chain[k]));
            }
        }
        assert forall|i: int| 0 <= i < chain2.len() implies after.contains_key(#[trigger] chain2[i])
            && is_segment(after[chain2[i]]) by {
            if i < n {
                assert(chain2[i] == chain[i]);
            }
        }
        assert forall|i: int| 0 <= i < chain2.len() - 1 implies (#[trigger] after[chain2[i]])
            .segment->0.next_segment == Some(chain2[i + 1]) by {
            assert(chain2[i] == chain[i]);
            if i < n - 1 {
                assert(chain2[i + 1] == chain[i + 1]);
                assert(m[chain[i]].segment->0.next_segment == Some(chain[i + 1]));
            }
        }
        assert(chain2.no_duplicates()) by {
            assert forall|i: int, j: int| 0 <= i < j < chain2.len() implies chain2[i]
                != chain2[j] by {
                assert(chain2[i] == chain[i]);
                if j < n {
                    assert(chain2[j] == chain[j]);
                } else {
                    assert(chain.contains(chain[i]));
                }
            }
        }
    } else {
        assert forall|i: int| 0 <= i < chain2.len() - 1 implies (#[trigger] after[chain2[i]])
            .segment->0.next_segment == Some(chain2[i + 1]) by {
            assert(m[chain[i]].segment->0.next_segment == Some(chain[i + 1]));
        }
    }
    assert forall|e: EntityRef| #[trigger] after.contains_key(e) implies is_head(after[e])
        || is_segment(after[e]) || is_food(after[e]) by {
        if !grown.contains(e) {
            assert(m.contains_key(e));
            if e != head && chain.contains(e) {
                let k = choose|k: int| 0 <= k < chain.len() && chain[k] == e;
                assert(after[chain[k]].position is Some);
            }
        }
    }
    assert forall|e: EntityRef| #[trigger] after.contains_key(e) && after[e].head is Some implies e
        == head by {
        if !grown.contains(e) {
            assert(m.contains_key(e));
            if e != head && chain.contains(e) {
                let k = choose|k: int| 0 <= k < chain.len() && chain[k] == e;
                assert(after[chain[k]].head is None);
            }
        }
    }
    assert(positions_of(after, chain2) =~= shifted_body(
        m[head].position->0,
        positions_of(m, chain),
        grown.len() > 0,
    ));
}

/// Lets the head `head` take the direction asked for by `input`: the first
/// pressed key in the order left, right, down, up, unless that is the
/// reverse of where the head faces or no key is pressed.
///
/// Returns the direction the head now faces and the first segment of its
/// body.
pub fn steer_head(world: &mut World, head: EntityRef, input: DirectionInput) -> (facing: (
    Direction,
    EntityRef,
))
    requires
        old(world).wf(),
        old(world).has(head, ComponentKind::SnakeHead),
    ensures
        final(world).wf(),
        forall|x: EntityRef| final(world).allocated(x) <==> old(world).allocated(x),
        final(world).entity_seq() == old(world).entity_seq(),
        facing.0 == spec_commit_direction(
            old(world)@[head].head->0.direction,
            input.spec_candidate(old(world)@[head].head->0.direction),
        ),
        facing.1 == old(world)@[head].head->0.next_segment,
        final(world)@ == turned(old(world)@, head, facing.0),
{
    let snake_head = world.head_mut(head).unwrap();
    let direction = commit_direction(snake_head.direction, input.candidate(snake_head.direction));
    snake_head.direction = direction;
    let first = snake_head.next_segment;
    proof {
        assert(world@.dom() =~= old(world)@.dom());
        world.lemma_entity_seq_stable(&*old(world));
    }
    (direction, first)
}

/// Moves the head `head` one cell in direction `dir` and returns its new
/// cell.
pub fn advance_head(world: &mut World, head: EntityRef, dir: Direction) -> (cell: Position)
    requires
        old(world).wf(),
        old(world).has(head, ComponentKind::Position),
        old(world)@[head].position->0.can_advance(dir),
    ensures
        final(world).wf(),
        forall|x: EntityRef| final(world).allocated(x) <==> old(world).allocated(x),
        final(world).entity_seq() == old(world).entity_seq(),
        cell == old(world)@[head].position->0.spec_advance(dir),
        final(world)@ == old(world)@.insert(
            head,
            Components { position: Some(cell), ..old(world)@[head] },
        ),
{
    let head_position = world.position_mut(head).unwrap();
    let cell = head_position.advance(dir);
    *head_position = cell;
    proof {
        assert(world@.dom() =~= old(world)@.dom());
        world.lemma_entity_seq_stable(&*old(world));
    }
    cell
}

/// Shifts the body `chain`, which starts at `first`, behind a head at
/// `head_position`, and sends one game-over event for every segment that
/// lay on the head's cell before the shift.
///
/// Returns the cell that the tail left and the tail's handle.
pub(crate) fn shift_chain(
    world: &mut World,
    events: &mut Events<GameOverEvent>,
    head_position: Position,
    first: EntityRef,
    Ghost(chain): Ghost<Seq<EntityRef>>,
) -> (left: (Position, EntityRef))
    requires
        old(world).wf(),
        is_chain(old(world)@, first, chain),
    ensures
        final(world).wf(),
        forall|x: EntityRef| final(world).allocated(x) <==> old(world).allocated(x),
        final(world).entity_seq() == old(world).entity_seq(),
        is_shifted(old(world)@, final(world)@, head_position, chain),
        left.0 == old(world)@[chain.last()].position->0,
        left.1 == chain.last(),
        final(events)@.len() == old(events)@.len() + count_at(
            positions_of(old(world)@, chain),
            head_position,
        ),
{
    let ghost cells = positions_of(old(world)@, chain);
    let mut last_position = head_position;
    let mut segment_entity = first;
    let ghost mut i: int = 0;
    proof {
        assert(cells.take(0) =~= Seq::<Position>::empty());
        lemma_count_at_empty(head_position);
    }
    loop
        invariant_except_break
            i < chain.len(),
            segment_entity == chain[i],
        invariant
            0 <= i <= chain.len(),
            is_chain(old(world)@, first, chain),
            cells == positions_of(old(world)@, chain),
            world.wf(),
            forall|x: EntityRef| world.allocated(x) <==> old(world).allocated(x),
            world.entity_seq() == old(world).entity_seq(),
            world@.dom() == old(world)@.dom(),
            forall|j: int|
                0 <= j < i ==> world@[#[trigger] chain[j]] == (Components {
                    position: Some(ahead(old(world)@, head_position, chain, j)),
                    ..old(world)@[chain[j]]
                }),
            forall|j: int|
                i <= j < chain.len() ==> world@[#[trigger] chain[j]] == old(world)@[chain[j]],
            forall|e: EntityRef|
                old(world)@.contains_key(e) && !chain.contains(e) ==> #[trigger] world@[e] == old(
                    world,
                )@[e],
            last_position == ahead(old(world)@, head_position, chain, i),
            events@.len() == old(events)@.len() + count_at(cells.take(i), head_position),
        ensures
            i == chain.len(),
            segment_entity == chain.last(),
        decreases chain.len() - i,
    {
        let ghost walked = *world;
        let segment = world.segment(segment_entity).unwrap();
        let segment_position = world.position_mut(segment_entity).unwrap();
        let current_position = *segment_position;
        *segment_position = last_position;
        last_position = current_position;
        if head_position == last_position {
            events.send(GameOverEvent);
        }
        proof {
            assert(cells.take(i + 1) =~= cells.take(i).push(cells[i]));
            lemma_count_at_push(cells.take(i), cells[i], head_position);
            assert(world@.dom() =~= old(world)@.dom());
            world.lemma_entity_seq_stable(&walked);
            assert forall|j: int| i + 1 <= j < chain.len() implies world@[#[trigger] chain[j]]
                == old(world)@[chain[j]] by {
                assert(chain[j] != chain[i]);
            }
            assert forall|j: int| 0 <= j < i + 1 implies world@[#[trigger] chain[j]] == (
            Components {
                position: Some(ahead(old(world)@, head_position, chain, j)),
                ..old(world)@[chain[j]]
            }) by {
                if j < i {
                    assert(chain[j] != chain[i]);
                }
            }
            assert forall|e: EntityRef|
                old(world)@.contains_key(e) && !chain.contains(e) implies #[trigger] world@[e]
                == old(world)@[e] by {
                assert(e != chain[i]);
            }
            i = i + 1;
        }
        if let Some(next) = segment.next_segment {
            segment_entity = next;
        } else {
            break ;
        }
    }
    proof {
        assert(cells.take(chain.len() as int) =~= cells);
    }
    (last_position, segment_entity)
}

/// Lets the snake eat the food under its head.
///
/// For every food item that lies on `head_position`, in listing order: a new
/// segment is created on `last_position`, the segment `tail` is linked to
/// it, and the food item is removed. Returns the food items eaten and the
/// segments created for them, in that order.
pub(crate) fn consume_food(
    world: &mut World,
    head_position: Position,
    last_position: Position,
    tail: EntityRef,
) -> (meal: (Vec<EntityRef>, Vec<EntityRef>))
    requires
        old(world).wf(),
        old(world)@.contains_key(tail),
        is_segment(old(world)@[tail]),
    ensures
        final(world).wf(),
        meal.0@ == food_at(&*old(world), head_position),
        meal.1@.len() == meal.0@.len(),
        meal.1@.no_duplicates(),
        forall|k: int| 0 <= k < meal.1@.len() ==> !old(world).allocated(#[trigger] meal.1@[k]),
        forall|x: EntityRef|
            final(world).allocated(x) <==> old(world).allocated(x) || meal.1@.contains(x),
        final(world)@ == fed(old(world)@, meal.0@, meal.1@, tail, last_position),
{
    let foods = world.query(
        ComponentSet { position: true, size: false, head: false, segment: false, food: true },
    );
    let ghost on_head = lies_at(old(world)@, head_position);
    let mut eaten: Vec<EntityRef> = Vec::new();
    let mut grown: Vec<EntityRef> = Vec::new();
    let mut i: usize = 0;
    proof {
        assert(foods@.take(0) =~= Seq::<EntityRef>::empty());
        Seq::<EntityRef>::empty().lemma_filter_len(on_head);
        old(world).lemma_entity_seq();
        assert(world@ =~= fed(old(world)@, eaten@, grown@, tail, last_position));
    }
    while i < foods.len()
        invariant
            i <= foods@.len(),
            foods@ == old(world).matching(food_query()),
            foods@.no_duplicates(),
            forall|e: EntityRef|
                foods@.contains(e) <==> old(world)@.contains_key(e) && old(world)@[e].spec_has_all(
                    food_query(),
                ),
            on_head == lies_at(old(world)@, head_position),
            old(world)@.contains_key(tail),
            is_segment(old(world)@[tail]),
            old(world).allocated(tail),
            forall|e: EntityRef| old(world)@.contains_key(e) ==> old(world).allocated(e),
            world.wf(),
            eaten@ == foods@.take(i as int).filter(on_head),
            grown@.len() == eaten@.len(),
            grown@.no_duplicates(),
            forall|k: int| 0 <= k < grown@.len() ==> !old(world).allocated(#[trigger] grown@[k]),
            forall|x: EntityRef|
                world.allocated(x) <==> old(world).allocated(x) || grown@.contains(x),
            world@ == fed(old(world)@, eaten@, grown@, tail, last_position),
        decreases foods@.len() - i,
    {
        let ent = foods[i];
        proof {
            assert(foods@.take(i + 1) =~= foods@.take(i as int).push(ent));
            foods@.take(i as int).lemma_filter_push(ent, on_head);
            assert(foods@.contains(ent));
            assert(!grown@.contains(ent));
            if eaten@.contains(ent) {
                foods@.take(i as int).lemma_filter_contains_rev(on_head, ent);
                let k = choose|k: int| 0 <= k < i && foods@.take(i as int)[k] == ent;
                assert(foods@[k] == foods@[i as int]);
            }
        }
        let food_position = world.position(ent).unwrap();
        if food_position == head_position {
            let ghost before = world@;
            let new_segment = spawn_segment(world, last_position);
            assert(world.has(tail, ComponentKind::SnakeSegment)) by {
                if grown@.contains(tail) {
                    let k = choose|k: int| 0 <= k < grown@.len() && grown@[k] == tail;
                    assert(!old(world).allocated(grown@[k]));
                }
                if eaten@.contains(tail) {
                    foods@.take(i as int).lemma_filter_contains_rev(on_head, tail);
                    let k = choose|k: int| 0 <= k < i && foods@.take(i as int)[k] == tail;
                    assert(foods@.contains(foods@[k]));
                }
                assert(before.contains_key(tail) && before[tail].segment is Some);
            }
            let segment = world.segment_mut(tail).unwrap();
            segment.next_segment = Some(new_segment);
            world.despawn(ent);
            proof {
                let eaten_now = eaten@.push(ent);
                let grown_now = grown@.push(new_segment);
                assert forall|x: EntityRef| eaten_now.contains(x) <==> eaten@.contains(x) || x
                    == ent by {
                    if eaten@.contains(x) {
                        let k = choose|k: int| 0 <= k < eaten@.len() && eaten@[k] == x;
                        assert(eaten_now[k] == x);
                    }
                    assert(eaten_now[eaten@.len() as int] == ent);
                }
                assert forall|x: EntityRef| grown_now.contains(x) <==> grown@.contains(x) || x
                    == new_segment by {
                    if grown@.contains(x) {
                        let k = choose|k: int| 0 <= k < grown@.len() && grown@[k] == x;
                        assert(grown_now[k] == x);
                    }
                    assert(grown_now[grown@.len() as int] == new_segment);
                }
                assert(grown_now.no_duplicates()) by {
                    assert forall|k: int, l: int| 0 <= k < l < grown_now.len() implies grown_now[k]
                        != grown_now[l] by {
                        if l == grown@.len() {
                            assert(grown@.contains(grown@[k]));
                        }
                    }
                }
                assert(world@ =~= fed(old(world)@, eaten_now, grown_now, tail, last_position));
            }
            eaten.push(ent);
            grown.push(new_segment);
        }
        i += 1;
    }
    proof {
        assert(foods@.take(foods@.len() as int) =~= foods@);
    }
    (eaten, grown)
}

} // verus!
