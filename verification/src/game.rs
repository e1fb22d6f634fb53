//! The simulation context: the world, the two timers and the event queue,
//! and the systems that advance them.

use vstd::prelude::*;
use crate::events::{Events, GameOverEvent};
use crate::grid::{Direction, DirectionInput, Position, Size, ARENA_HEIGHT, ARENA_WIDTH};
use crate::movement::{
    advance_head, consume_food, count_at, fed, food_at, food_query, lemma_chain_index,
    lemma_food_at, lemma_moved, lemma_moved_and_fed, lies_at, moved,
    shift_chain, steer_head, turned,
};
use crate::sequences::lemma_filter_agree;
use crate::snake::{
    food_bundle, grown_chain, head_bundle, initial_direction, initial_head, initial_segment,
    is_chain, is_food, is_segment, is_snake_world, positions_of, segment_bundle, spawn_food,
    spawn_initial_snake, Snake,
};
use crate::store::EntityRef;
use crate::timer::Timer;
use crate::world::{ComponentSet, Components, World};

verus! {

/// Time between two movement ticks, in microseconds.
pub const MOVE_INTERVAL: u64 = 150_000;

/// Time between two food items, in microseconds.
pub const FOOD_INTERVAL: u64 = 1_000_000;

/// One game of snake.
///
/// A game holds exactly one snake head, the chain of body segments that
/// starts at the head's link, the food items, the movement timer, the food
/// timer and the queue of game-over events. Every entity of its world is a
/// head, a body segment or a food item.
pub struct Game {
    world: World,
    move_timer: Timer,
    food_timer: Timer,
    events: Events<GameOverEvent>,
    head: Ghost<EntityRef>,
    chain: Ghost<Seq<EntityRef>>,
}

impl Game {
    /// The world of the game.
    pub closed spec fn spec_world(&self) -> &World {
        &self.world
    }

    /// The timer that paces the snake's movement.
    pub closed spec fn spec_move_timer(&self) -> Timer {
        self.move_timer
    }

    /// The timer that paces the arrival of food.
    pub closed spec fn spec_food_timer(&self) -> Timer {
        self.food_timer
    }

    /// Number of game-over events that were sent and not yet handled.
    pub closed spec fn pending_events(&self) -> nat {
        self.events@.len()
    }

    /// The entity that is the snake's head.
    pub closed spec fn spec_head_entity(&self) -> EntityRef {
        self.head@
    }

    /// The entities of the snake's body, from the segment next to the head
    /// to the tail.
    pub closed spec fn chain(&self) -> Seq<EntityRef> {
        self.chain@
    }

    /// The game's invariant. It holds of every game made by [`game_setup`]
    /// and changed only through the functions of this module.
    pub open spec fn wf(&self) -> bool {
        &&& self.world().wf()
        &&& is_snake_world(self.world()@, self.head_entity(), self.chain())
        &&& self.head_position().spec_hits_wall() ==> self.pending_events() > 0
        &&& self.move_timer().repeating
        &&& self.move_timer().duration == MOVE_INTERVAL
        &&& self.food_timer().repeating
        &&& self.food_timer().duration == FOOD_INTERVAL
    }

    /// Where the snake faces.
    pub open spec fn spec_direction(&self) -> Direction {
        self.world()@[self.head_entity()].head->0.direction
    }

    /// The cell of the snake's head.
    pub open spec fn spec_head_position(&self) -> Position {
        self.world()@[self.head_entity()].position->0
    }

    /// The cells of the snake's body, from the segment next to the head to
    /// the tail.
    pub open spec fn body(&self) -> Seq<Position> {
        positions_of(self.world()@, self.chain())
    }

    /// The snake, seen apart from its entities.
    pub open spec fn snake(&self) -> Snake {
        Snake { direction: self.direction(), head: self.head_position(), body: self.body() }
    }

    /// Whether no game-over event waits to be handled.
    pub open spec fn running(&self) -> bool {
        self.pending_events() == 0
    }

    /// The world of the game, for reading.
    #[verifier::when_used_as_spec(spec_world)]
    pub fn world(&self) -> (world: &World)
        ensures
            world == self.spec_world(),
    {
        &self.world
    }

    /// The timer that paces the snake's movement.
    #[verifier::when_used_as_spec(spec_move_timer)]
    pub fn move_timer(&self) -> (timer: Timer)
        ensures
            timer == self.spec_move_timer(),
    {
        self.move_timer
    }

    /// The timer that paces the arrival of food.
    #[verifier::when_used_as_spec(spec_food_timer)]
    pub fn food_timer(&self) -> (timer: Timer)
        ensures
            timer == self.spec_food_timer(),
    {
        self.food_timer
    }

    /// Number of game-over events that were sent and not yet handled.
    pub fn events_waiting(&self) -> (n: usize)
        ensures
            n == self.pending_events(),
    {
        self.events.len()
    }

    /// The entity that is the snake's head.
    #[verifier::when_used_as_spec(spec_head_entity)]
    pub fn head_entity(&self) -> (head: EntityRef)
        requires
            self.wf(),
        ensures
            head == self.spec_head_entity(),
    {
        let heads = self.world.query(
            ComponentSet { position: true, size: false, head: true, segment: false, food: false },
        );
        assert(heads@.contains(self.head@));
        assert(heads@.len() > 0 && heads@.contains(heads@[0]));
        heads[0]
    }

    /// Where the snake faces.
    #[verifier::when_used_as_spec(spec_direction)]
    pub fn direction(&self) -> (direction: Direction)
        requires
            self.wf(),
        ensures
            direction == self.spec_direction(),
    {
        self.world.head(self.head_entity()).unwrap().direction
    }

    /// The cell of the snake's head.
    #[verifier::when_used_as_spec(spec_head_position)]
    pub fn head_position(&self) -> (position: Position)
        requires
            self.wf(),
        ensures
            position == self.spec_head_position(),
    {
        self.world.position(self.head_entity()).unwrap()
    }

    /// The entities of the snake's body, from the segment next to the head
    /// to the tail.
    pub fn body_entities(&self) -> (list: Vec<EntityRef>)
        requires
            self.wf(),
        ensures
            list@ == self.chain(),
    {
        let head = self.world.head(self.head_entity()).unwrap();
        let ghost chain = self.chain@;
        let mut list: Vec<EntityRef> = Vec::new();
        let mut segment_entity = head.next_segment;
        loop
            invariant_except_break
                list@.len() < chain.len(),
                segment_entity == chain[list@.len() as int],
            invariant
                self.wf(),
                chain == self.chain(),
                list@.len() <= chain.len(),
                list@ == chain.take(list@.len() as int),
            ensures
                list@ == chain,
            decreases chain.len() - list@.len(),
        {
            let ghost i = list@.len() as int;
            let segment = self.world.segment(segment_entity).unwrap();
            list.push(segment_entity);
            assert(list@ =~= chain.take(i + 1));
            if let Some(next) = segment.next_segment {
                segment_entity = next;
            } else {
                assert(i == chain.len() - 1) by {
                    if i < chain.len() - 1 {
                        assert(self.world()@[chain[i]].segment->0.next_segment == Some(
                            chain[i + 1],
                        ));
                    }
                }
                assert(chain.take(chain.len() as int) =~= chain);
                break ;
            }
        }
        list
    }

    /// The cells of the snake's body, from the segment next to the head to
    /// the tail.
    pub fn body_positions(&self) -> (cells: Vec<Position>)
        requires
            self.wf(),
        ensures
            cells@ == self.body(),
    {
        let chain = self.body_entities();
        let mut cells: Vec<Position> = Vec::new();
        let mut i: usize = 0;
        while i < chain.len()
            invariant
                self.wf(),
                chain@ == self.chain(),
                i <= chain@.len(),
                cells@ == self.body().take(i as int),
            decreases chain@.len() - i,
        {
            let cell = self.world.position(chain[i]).unwrap();
            cells.push(cell);
            assert(cells@ =~= self.body().take(i + 1));
            i += 1;
        }
        assert(self.body().take(chain@.len() as int) =~= self.body());
        cells
    }

    /// The food items of the game, in listing order.
    pub fn food_entities(&self) -> (list: Vec<EntityRef>)
        ensures
            list@ == self.world().matching(food_query()),
    {
        self.world.query(
            ComponentSet { position: true, size: false, head: false, segment: false, food: true },
        )
    }

    /// The cells of the food items of the game, in listing order.
    pub fn food_positions(&self) -> (cells: Vec<Position>)
        ensures
            cells@ == positions_of(self.world()@, self.world().matching(food_query())),
    {
        let food = self.food_entities();
        let ghost all = positions_of(self.world()@, self.world().matching(food_query()));
        let mut cells: Vec<Position> = Vec::new();
        let mut i: usize = 0;
        proof {
            self.world.lemma_matching(food_query());
        }
        while i < food.len()
            invariant
                food@ == self.world().matching(food_query()),
                forall|e: EntityRef|
                    food@.contains(e) <==> self.world()@.contains_key(e)
                        && self.world()@[e].spec_has_all(food_query()),
                all == positions_of(self.world()@, food@),
                i <= food@.len(),
                cells@ == all.take(i as int),
            decreases food@.len() - i,
        {
            assert(food@.contains(food@[i as int]));
            let cell = self.world.position(food[i]).unwrap();
            cells.push(cell);
            assert(cells@ =~= all.take(i + 1));
            i += 1;
        }
        assert(all.take(food@.len() as int) =~= all);
        cells
    }

    /// What is to be drawn: the position and the size of every entity, in
    /// listing order.
    pub fn render_list(&self) -> (sprites: Vec<(Position, Size)>)
        requires
            self.wf(),
        ensures
            sprites@ == sprites_of(self.world()@, self.world().entity_seq()),
    {
        let entities = self.world.entities();
        let ghost all = sprites_of(self.world()@, self.world().entity_seq());
        let mut sprites: Vec<(Position, Size)> = Vec::new();
        let mut i: usize = 0;
        while i < entities.len()
            invariant
                self.wf(),
                entities@ == self.world().entity_seq(),
                forall|e: EntityRef| entities@.contains(e) <==> self.world()@.contains_key(e),
                all == sprites_of(self.world()@, entities@),
                i <= entities@.len(),
                sprites@ == all.take(i as int),
            decreases entities@.len() - i,
        {
            let e = entities[i];
            assert(entities@.contains(e));
            let position = self.world.position(e).unwrap();
            let size = self.world.size(e).unwrap();
            sprites.push((position, size));
            assert(sprites@ =~= all.take(i + 1));
            i += 1;
        }
        assert(all.take(entities@.len() as int) =~= all);
        sprites
    }
}

/// The position and the size of every entity of `list`, in that order.
pub open spec fn sprites_of(m: Map<EntityRef, Components>, list: Seq<EntityRef>) -> Seq<
    (Position, Size),
> {
    Seq::new(list.len(), |i: int| (m[list[i]].position->0, m[list[i]].size->0))
}

/// Starts a game: a world that holds only the initial snake, both timers
/// fresh and repeating, and no event queued.
pub fn game_setup() -> (game: Game)
    ensures
        game.wf(),
        game.running(),
        game.snake() == (Snake {
            direction: initial_direction(),
            head: initial_head(),
            body: seq![initial_segment()],
        }),
        game.chain().len() == 1,
        game.world()@ == Map::<EntityRef, Components>::empty().insert(
            game.chain()[0],
            segment_bundle(initial_segment()),
        ).insert(
            game.head_entity(),
            head_bundle(initial_head(), initial_direction(), game.chain()[0]),
        ),
        game.move_timer() == Timer::fresh(MOVE_INTERVAL, true),
        game.food_timer() == Timer::fresh(FOOD_INTERVAL, true),
{
    let mut world = World::new();
    let (head, first) = spawn_initial_snake(&mut world);
    let ghost chain = seq![first];
    let game = Game {
        world,
        move_timer: Timer::new(MOVE_INTERVAL, true),
        food_timer: Timer::new(FOOD_INTERVAL, true),
        events: Events::new(),
        head: Ghost(head),
        chain: Ghost(chain),
    };
    assert(game.body() =~= seq![initial_segment()]);
    game
}

/// Draws one number with [`rand::random`]. Nothing is claimed of the number
/// drawn: it may be any `u32`, and two calls may give different numbers.
/// The call fails only if the operating system has no randomness to seed
/// the thread's generator with.
#[verifier::external_body]
fn random_word() -> u32 {
    rand::random::<u32>()
}

/// The arena cell picked by two drawn numbers: each is reduced modulo the
/// arena's extent along its axis.
pub open spec fn spec_food_cell(rx: u32, ry: u32) -> Position {
    Position { x: (rx % ARENA_WIDTH) as i32, y: (ry % ARENA_HEIGHT) as i32 }
}

#[verifier::when_used_as_spec(spec_food_cell)]
pub fn food_cell(rx: u32, ry: u32) -> (cell: Position)
    ensures
        cell == spec_food_cell(rx, ry),
        0 <= cell.x < ARENA_WIDTH,
        0 <= cell.y < ARENA_HEIGHT,
{
    Position { x: (rx % ARENA_WIDTH) as i32, y: (ry % ARENA_HEIGHT) as i32 }
}

/// Puts one food item on `cell` and returns its handle. Nothing else
/// changes; the cell may already hold the snake or other food.
pub fn place_food(game: &mut Game, cell: Position) -> (e: EntityRef)
    requires
        old(game).wf(),
    ensures
        final(game).wf(),
        !old(game).world().allocated(e),
        final(game).world()@ == old(game).world()@.insert(e, food_bundle(cell)),
        forall|x: EntityRef|
            final(game).world().allocated(x) <==> old(game).world().allocated(x) || x == e,
        final(game).head_entity() == old(game).head_entity(),
        final(game).chain() == old(game).chain(),
        final(game).snake() == old(game).snake(),
        final(game).pending_events() == old(game).pending_events(),
        final(game).move_timer() == old(game).move_timer(),
        final(game).food_timer() == old(game).food_timer(),
{
    proof {
        game.world.lemma_entity_seq();
    }
    let e = spawn_food(&mut game.world, cell);
    assert(final(game).body() =~= old(game).body());
    e
}

/// Advances the food timer by `elapsed` and, when it fires, puts one food
/// item on a randomly drawn cell of the arena.
///
/// Returns the new item's handle, or `None` when the timer did not fire.
/// The cell is drawn without regard to the snake and to other food.
pub fn food_spawner(game: &mut Game, elapsed: u64) -> (spawned: Option<EntityRef>)
    requires
        old(game).wf(),
    ensures
        final(game).wf(),
        final(game).food_timer() == old(game).food_timer().ticked(elapsed),
        spawned is Some <==> old(game).food_timer().ticked(elapsed).finished,
        match spawned {
            Some(e) => {
                let cell = final(game).world()@[e].position->0;
                &&& !old(game).world().allocated(e)
                &&& 0 <= cell.x < ARENA_WIDTH
                &&& 0 <= cell.y < ARENA_HEIGHT
                &&& final(game).world()@ == old(game).world()@.insert(e, food_bundle(cell))
            },
            None => final(game).world() == old(game).world(),
        },
        forall|x: EntityRef|
            final(game).world().allocated(x) <==> old(game).world().allocated(x) || spawned
                == Some(x),
        final(game).head_entity() == old(game).head_entity(),
        final(game).chain() == old(game).chain(),
        final(game).snake() == old(game).snake(),
        final(game).pending_events() == old(game).pending_events(),
        final(game).move_timer() == old(game).move_timer(),
{
    if game.food_timer.tick(elapsed) {
        let cell = food_cell(random_word(), random_word());
        let e = place_food(game, cell);
        Some(e)
    } else {
        None
    }
}

/// Handles the end of a game.
///
/// Reads every waiting game-over event. When there was at least one, the
/// whole snake and all food are removed and the initial snake is created
/// anew; however many events waited, this happens once. Without a waiting
/// event nothing changes. Returns whether the game was reset.
pub fn game_over_system(game: &mut Game) -> (reset: bool)
    requires
        old(game).wf(),
    ensures
        final(game).wf(),
        final(game).running(),
        reset == (old(game).pending_events() > 0),
        final(game).move_timer() == old(game).move_timer(),
        final(game).food_timer() == old(game).food_timer(),
        forall|x: EntityRef|
            final(game).world().allocated(x) <==> old(game).world().allocated(x) || (reset && (x
                == final(game).head_entity() || x == final(game).chain()[0])),
        !reset ==> {
            &&& final(game).world() == old(game).world()
            &&& final(game).head_entity() == old(game).head_entity()
            &&& final(game).chain() == old(game).chain()
        },
        reset ==> {
            &&& final(game).snake() == (Snake {
                direction: initial_direction(),
                head: initial_head(),
                body: seq![initial_segment()],
            })
            &&& final(game).chain().len() == 1
            &&& !old(game).world().allocated(final(game).head_entity())
            &&& !old(game).world().allocated(final(game).chain()[0])
            &&& final(game).world()@ == Map::<EntityRef, Components>::empty().insert(
                final(game).chain()[0],
                segment_bundle(initial_segment()),
            ).insert(
                final(game).head_entity(),
                head_bundle(initial_head(), initial_direction(), final(game).chain()[0]),
            )
        },
{
    let read = game.events.drain();
    if read.len() > 0 {
        let ghost before = game.world@;
        let segments = game.world.query(
            ComponentSet { position: false, size: false, head: false, segment: true, food: false },
        );
        game.world.despawn_all(&segments);
        let ghost without_segments = game.world@;
        let food = game.world.query(
            ComponentSet { position: false, size: false, head: false, segment: false, food: true },
        );
        game.world.despawn_all(&food);
        let ghost without_food = game.world@;
        let heads = game.world.query(
            ComponentSet { position: false, size: false, head: true, segment: false, food: false },
        );
        game.world.despawn_all(&heads);
        assert forall|e: EntityRef| !game.world@.contains_key(e) by {
            if before.contains_key(e) {
                if is_segment(before[e]) {
                    assert(segments@.contains(e));
                } else if is_food(before[e]) {
                    assert(without_segments.contains_key(e) ==> food@.contains(e));
                } else {
                    assert(without_food.contains_key(e) ==> heads@.contains(e));
                }
            }
        }
        assert(game.world@ =~= Map::<EntityRef, Components>::empty());
        let (head, first) = spawn_initial_snake(&mut game.world);
        let ghost chain = seq![first];
        game.head = Ghost(head);
        game.chain = Ghost(chain);
        assert(game.body() =~= seq![initial_segment()]);
        true
    } else {
        false
    }
}

/// What one run of [`snake_movement`] did.
#[derive(Debug)]
pub struct MoveReport {
    /// Whether the movement timer fired, so that the snake moved.
    pub ticked: bool,
    /// Whether a body segment lay on the head's cell before the move.
    pub collided: bool,
    /// Whether the head left the arena.
    pub hit_wall: bool,
    /// The food items that were eaten, in listing order.
    pub eaten: Vec<EntityRef>,
    /// The segments created for the eaten food items, in the same order.
    pub grown: Vec<EntityRef>,
}

/// Runs the movement system once.
///
/// The movement timer advances by `elapsed`. The head always takes the
/// direction asked for by `input`, unless that is the reverse of where it
/// faces. Only when the timer fires does the snake move:
///
/// 1. every body segment takes the cell of the entity ahead of it, and one
///    game-over event is sent for each segment that lay on the head's cell;
/// 2. the head advances one cell in its direction;
/// 3. one game-over event is sent if the head is now outside the arena;
/// 4. every food item on the head's new cell is eaten: a segment is created
///    on the cell that the tail left, the old tail is linked to it, and the
///    item is removed.
pub fn snake_movement(game: &mut Game, input: DirectionInput, elapsed: u64) -> (report: MoveReport)
    requires
        old(game).wf(),
        old(game).move_timer().ticked(elapsed).finished ==> old(game).head_position().can_advance(
            old(game).snake().steered(input),
        ),
    ensures
        final(game).wf(),
        final(game).move_timer() == old(game).move_timer().ticked(elapsed),
        final(game).food_timer() == old(game).food_timer(),
        final(game).head_entity() == old(game).head_entity(),
        report.ticked == final(game).move_timer().finished,
        report.grown@.len() == report.eaten@.len(),
        report.grown@.no_duplicates(),
        forall|k: int|
            0 <= k < report.grown@.len() ==> !old(game).world().allocated(
                #[trigger] report.grown@[k],
            ),
        forall|x: EntityRef|
            final(game).world().allocated(x) <==> old(game).world().allocated(x)
                || report.grown@.contains(x),
        final(game).chain() == grown_chain(old(game).chain(), report.grown@),
        !report.ticked ==> {
            &&& !report.collided
            &&& !report.hit_wall
            &&& report.eaten@.len() == 0
            &&& final(game).snake() == old(game).snake().turned(input)
            &&& final(game).pending_events() == old(game).pending_events()
            &&& final(game).world()@ == turned(
                old(game).world()@,
                old(game).head_entity(),
                old(game).snake().steered(input),
            )
        },
        report.ticked ==> {
            &&& report.collided == (count_at(old(game).body(), old(game).head_position()) > 0)
            &&& report.hit_wall == final(game).head_position().spec_hits_wall()
            &&& report.eaten@ == food_at(old(game).world(), final(game).head_position())
            &&& forall|e: EntityRef|
                report.eaten@.contains(e) <==> old(game).world()@.contains_key(e) && old(
                    game,
                ).world()@[e].food is Some && old(game).world()@[e].position == Some(
                    final(game).head_position(),
                )
            &&& final(game).snake() == old(game).snake().advanced(input, report.eaten@.len() > 0)
            &&& final(game).pending_events() == old(game).pending_events() + count_at(
                old(game).body(),
                old(game).head_position(),
            ) + (if report.hit_wall {
                1nat
            } else {
                0nat
            })
            &&& final(game).world()@ == fed(
                moved(
                    old(game).world()@,
                    old(game).head_entity(),
                    old(game).chain(),
                    old(game).snake().steered(input),
                ),
                report.eaten@,
                report.grown@,
                old(game).chain().last(),
                old(game).body().last(),
            )
        },
{
    let fired = game.move_timer.tick(elapsed);
    let heads = game.world.query(
        ComponentSet { position: true, size: false, head: true, segment: false, food: false },
    );
    assert(heads@.contains(game.head@));
    assert(heads@.len() > 0 && heads@.contains(heads@[0]));
    let head_entity = heads[0];
    let head_position = game.world.position(head_entity).unwrap();
    let (direction, first_segment) = steer_head(&mut game.world, head_entity, input);
    let pending = game.events.len();
    let ghost before = old(game).world@;
    let ghost chain = old(game).chain@;
    proof {
        assert(game.world@ == turned(before, head_entity, direction));
        assert(!chain.contains(head_entity)) by {
            if chain.contains(head_entity) {
                let k = choose|k: int| 0 <= k < chain.len() && chain[k] == head_entity;
                assert(is_segment(before[chain[k]]));
            }
        }
    }
    if fired {
        proof {
            assert(is_chain(game.world@, first_segment, chain)) by {
                assert forall|i: int| 0 <= i < chain.len() implies game.world@[#[trigger] chain[i]]
                    == before[chain[i]] by {
                    assert(chain.contains(chain[i]));
                }
            }
        }
        let ghost turned_world = game.world;
        let (last_position, tail) = shift_chain(
            &mut game.world,
            &mut game.events,
            head_position,
            first_segment,
            Ghost(chain),
        );
        let collided = game.events.len() > pending;
        let ghost shifted = game.world@;
        proof {
            assert(shifted.dom().contains(head_entity) <==> turned_world@.dom().contains(
                head_entity,
            ));
            assert(shifted[head_entity] == turned_world@[head_entity]);
        }
        let new_position = advance_head(&mut game.world, head_entity, direction);
        let hit_wall = new_position.hits_wall();
        if hit_wall {
            game.events.send(GameOverEvent);
        }
        proof {
            lemma_moved(before, shifted, head_entity, chain, direction);
            assert(positions_of(turned_world@, chain) =~= positions_of(before, chain)) by {
                assert forall|i: int| 0 <= i < chain.len() implies turned_world@[chain[i]]
                    == before[chain[i]] by {
                    assert(chain.contains(chain[i]));
                }
            }
            assert(game.world@.contains_key(tail) && is_segment(game.world@[tail])) by {
                assert(chain.contains(chain[chain.len() - 1]));
                lemma_chain_index(chain, chain.len() - 1);
            }
        }
        let ghost mid_world = game.world;
        let (eaten, grown) = consume_food(&mut game.world, new_position, last_position, tail);
        proof {
            let mid = moved(before, head_entity, chain, direction);
            assert(mid_world@ == mid);
            old(game).world.lemma_matching(food_query());
            mid_world.lemma_matching(food_query());
            assert forall|e: EntityRef| before.contains_key(e) implies before[e].spec_has_all(
                food_query(),
            ) == mid[e].spec_has_all(food_query()) by {
                if e != head_entity && chain.contains(e) {
                    let k = choose|k: int| 0 <= k < chain.len() && chain[k] == e;
                    assert(is_segment(before[chain[k]]));
                }
            }
            old(game).world.lemma_matching_stable(&mid_world, food_query());
            let foods = old(game).world.matching(food_query());
            assert forall|i: int| 0 <= i < foods.len() implies lies_at(
                before,
                new_position,
            )(#[trigger] foods[i]) == lies_at(mid, new_position)(foods[i]) by {
                let e = foods[i];
                assert(foods.contains(e));
                assert(before[e].food is Some);
                if chain.contains(e) {
                    let k = choose|k: int| 0 <= k < chain.len() && chain[k] == e;
                    assert(is_segment(before[chain[k]]));
                }
            }
            lemma_filter_agree(
                foods,
                lies_at(before, new_position),
                lies_at(mid, new_position),
            );
            assert(eaten@ == food_at(&old(game).world, new_position));
            lemma_food_at(&old(game).world, new_position);
            assert forall|k: int| 0 <= k < eaten@.len() implies before.contains_key(
                #[trigger] eaten@[k],
            ) && before[eaten@[k]].food is Some by {
                assert(eaten@.contains(eaten@[k]));
                foods.lemma_filter_contains_rev(
                    lies_at(before, new_position),
                    eaten@[k],
                );
            }
            old(game).world.lemma_entity_seq();
            assert forall|k: int| 0 <= k < grown@.len() implies !before.contains_key(
                #[trigger] grown@[k],
            ) by {}
            lemma_moved_and_fed(before, head_entity, chain, direction, eaten@, grown@);
        }
        let ghost chain2 = grown_chain(chain, grown@);
        game.chain = Ghost(chain2);
        MoveReport { ticked: true, collided, hit_wall, eaten, grown }
    } else {
        proof {
            assert(is_snake_world(game.world@, head_entity, chain)) by {
                assert forall|i: int| 0 <= i < chain.len() implies game.world@[#[trigger] chain[i]]
                    == before[chain[i]] by {
                    assert(chain.contains(chain[i]));
                }
            }
            assert(game.body() =~= old(game).body());
        }
        MoveReport {
            ticked: false,
            collided: false,
            hit_wall: false,
            eaten: Vec::new(),
            grown: Vec::new(),
        }
    }
}

/// What one run of [`step`] did.
#[derive(Debug)]
pub struct StepReport {
    /// What the movement system did.
    pub movement: MoveReport,
    /// The food item that the food spawner created, if its timer fired.
    pub food: Option<EntityRef>,
    /// Whether the game was over and has been started anew.
    pub reset: bool,
}

/// The world after the movement system ran on the world `m`, whose snake
/// has the head entity `head` and the body `chain` and takes the direction
/// `dir`: moved and fed when the timer fired, only turned when it did not.
pub open spec fn after_movement(
    m: Map<EntityRef, Components>,
    head: EntityRef,
    chain: Seq<EntityRef>,
    dir: Direction,
    report: MoveReport,
) -> Map<EntityRef, Components> {
    if report.ticked {
        fed(
            moved(m, head, chain, dir),
            report.eaten@,
            report.grown@,
            chain.last(),
            m[chain.last()].position->0,
        )
    } else {
        turned(m, head, dir)
    }
}

/// Advances the game by one simulation step: the movement system runs,
/// then the food spawner, then the game-over system, which sees the events
/// that the movement system sent in this same step.
pub fn step(game: &mut Game, input: DirectionInput, elapsed: u64) -> (report: StepReport)
    requires
        old(game).wf(),
        old(game).running(),
    ensures
        final(game).wf(),
        final(game).running(),
        final(game).move_timer() == old(game).move_timer().ticked(elapsed),
        final(game).food_timer() == old(game).food_timer().ticked(elapsed),
        report.movement.ticked == final(game).move_timer().finished,
        report.food is Some <==> final(game).food_timer().finished,
        report.movement.collided == (report.movement.ticked && count_at(
            old(game).body(),
            old(game).head_position(),
        ) > 0),
        report.movement.hit_wall == (report.movement.ticked && old(
            game,
        ).snake().advanced(input, false).head.spec_hits_wall()),
        report.movement.eaten@ == (if report.movement.ticked {
            food_at(old(game).world(), old(game).snake().advanced(input, false).head)
        } else {
            Seq::<EntityRef>::empty()
        }),
        report.movement.grown@.len() == report.movement.eaten@.len(),
        report.reset == (report.movement.collided || report.movement.hit_wall),
        report.reset ==> {
            &&& final(game).snake() == (Snake {
                direction: initial_direction(),
                head: initial_head(),
                body: seq![initial_segment()],
            })
            &&& final(game).chain().len() == 1
            &&& !old(game).world().allocated(final(game).head_entity())
            &&& !old(game).world().allocated(final(game).chain()[0])
            &&& final(game).world()@ == Map::<EntityRef, Components>::empty().insert(
                final(game).chain()[0],
                segment_bundle(initial_segment()),
            ).insert(
                final(game).head_entity(),
                head_bundle(initial_head(), initial_direction(), final(game).chain()[0]),
            )
        },
        !report.reset ==> {
            let moved_world = after_movement(
                old(game).world()@,
                old(game).head_entity(),
                old(game).chain(),
                old(game).snake().steered(input),
                report.movement,
            );
            &&& final(game).head_entity() == old(game).head_entity()
            &&& final(game).chain() == grown_chain(old(game).chain(), report.movement.grown@)
            &&& final(game).snake() == (if report.movement.ticked {
                old(game).snake().advanced(input, report.movement.eaten@.len() > 0)
            } else {
                old(game).snake().turned(input)
            })
            &&& match report.food {
                Some(e) => {
                    let cell = final(game).world()@[e].position->0;
                    &&& !moved_world.contains_key(e)
                    &&& 0 <= cell.x < ARENA_WIDTH
                    &&& 0 <= cell.y < ARENA_HEIGHT
                    &&& final(game).world()@ == moved_world.insert(e, food_bundle(cell))
                },
                None => final(game).world()@ == moved_world,
            }
        },
{
    let movement = snake_movement(game, input, elapsed);
    proof {
        // A food item spawned next is new to the moved world as well.
        game.world.lemma_entity_seq();
    }
    let food = food_spawner(game, elapsed);
    let reset = game_over_system(game);
    StepReport { movement, food, reset }
}

} // verus!
