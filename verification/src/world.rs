//! The game's entities and their components.
//!
//! An entity is a handle with up to five components attached: a position, a
//! size, a snake head, a snake segment and the food marker. Position and
//! chain topology are separate components on purpose: positions change on
//! every movement tick, links only when the snake grows.

use vstd::prelude::*;
use crate::grid::{Direction, Position, Size};
use crate::sequences::{lemma_filter_agree, lemma_filter_no_duplicates};
use crate::store::{EntityRef, EntityStore};

verus! {

/// The head of a snake: where it faces and which entity is its first body
/// segment. The link does not own the segment; it only anchors traversal.
#[derive(Clone, Copy, Debug, PartialEq, Eq, Structural)]
pub struct SnakeHead {
    pub direction: Direction,
    pub next_segment: EntityRef,
}

/// One body segment of a snake, linked to the segment behind it. The last
/// segment of a chain has no successor.
#[derive(Clone, Copy, Debug, PartialEq, Eq, Structural)]
pub struct SnakeSegment {
    pub next_segment: Option<EntityRef>,
}

/// Marks an entity as food.
#[derive(Clone, Copy, Debug, PartialEq, Eq, Structural)]
pub struct Food;

/// The kinds of component an entity can carry.
#[derive(Clone, Copy, Debug, PartialEq, Eq, Structural)]
pub enum ComponentKind {
    Position,
    Size,
    SnakeHead,
    SnakeSegment,
    Food,
}

/// The components attached to one entity; an absent component is `None`.
#[derive(Clone, Copy, Debug, PartialEq, Eq, Structural)]
pub struct Components {
    pub position: Option<Position>,
    pub size: Option<Size>,
    pub head: Option<SnakeHead>,
    pub segment: Option<SnakeSegment>,
    pub food: Option<Food>,
}

/// A set of component kinds, used to select entities.
#[derive(Clone, Copy, Debug, PartialEq, Eq, Structural)]
pub struct ComponentSet {
    pub position: bool,
    pub size: bool,
    pub head: bool,
    pub segment: bool,
    pub food: bool,
}

/// The entity does not exist or lacks the component asked for.
#[derive(Clone, Copy, Debug, PartialEq, Eq, Structural)]
pub struct MissingComponent {
    pub entity: EntityRef,
    pub kind: ComponentKind,
}

impl Components {
    /// No component at all.
    pub fn empty() -> (c: Components)
        ensures
            c == (Components { position: None, size: None, head: None, segment: None, food: None }),
    {
        Components { position: None, size: None, head: None, segment: None, food: None }
    }

    /// Whether the component of the given kind is present.
    pub open spec fn spec_has(&self, kind: ComponentKind) -> bool {
        match kind {
            ComponentKind::Position => self.position is Some,
            ComponentKind::Size => self.size is Some,
            ComponentKind::SnakeHead => self.head is Some,
            ComponentKind::SnakeSegment => self.segment is Some,
            ComponentKind::Food => self.food is Some,
        }
    }

    #[verifier::when_used_as_spec(spec_has)]
    pub fn has(&self, kind: ComponentKind) -> (present: bool)
        ensures
            present == self.spec_has(kind),
    {
        match kind {
            ComponentKind::Position => self.position.is_some(),
            ComponentKind::Size => self.size.is_some(),
            ComponentKind::SnakeHead => self.head.is_some(),
            ComponentKind::SnakeSegment => self.segment.is_some(),
            ComponentKind::Food => self.food.is_some(),
        }
    }

    /// Whether every component kind of `set` is present.
    pub open spec fn spec_has_all(&self, set: ComponentSet) -> bool {
        &&& set.position ==> self.position is Some
        &&& set.size ==> self.size is Some
        &&& set.head ==> self.head is Some
        &&& set.segment ==> self.segment is Some
        &&& set.food ==> self.food is Some
    }

    #[verifier::when_used_as_spec(spec_has_all)]
    pub fn has_all(&self, set: ComponentSet) -> (present: bool)
        ensures
            present == self.spec_has_all(set),
    {
        (!set.position || self.position.is_some()) && (!set.size || self.size.is_some()) && (
        !set.head || self.head.is_some()) && (!set.segment || self.segment.is_some()) && (!set.food
            || self.food.is_some())
    }
}

impl ComponentSet {
    /// The empty set, which selects every entity.
    pub fn none() -> (set: ComponentSet)
        ensures
            set == (ComponentSet {
                position: false,
                size: false,
                head: false,
                segment: false,
                food: false,
            }),
    {
        ComponentSet { position: false, size: false, head: false, segment: false, food: false }
    }

    /// Whether `kind` belongs to the set.
    pub open spec fn spec_includes(&self, kind: ComponentKind) -> bool {
        match kind {
            ComponentKind::Position => self.position,
            ComponentKind::Size => self.size,
            ComponentKind::SnakeHead => self.head,
            ComponentKind::SnakeSegment => self.segment,
            ComponentKind::Food => self.food,
        }
    }

    /// The set with `kind` added.
    pub fn with(self, kind: ComponentKind) -> (set: ComponentSet)
        ensures
            forall|k: ComponentKind|
                set.spec_includes(k) == (self.spec_includes(k) || k == kind),
    {
        match kind {
            ComponentKind::Position => ComponentSet { position: true, ..self },
            ComponentKind::Size => ComponentSet { size: true, ..self },
            ComponentKind::SnakeHead => ComponentSet { head: true, ..self },
            ComponentKind::SnakeSegment => ComponentSet { segment: true, ..self },
            ComponentKind::Food => ComponentSet { food: true, ..self },
        }
    }
}

/// All entities of a game with their components.
///
/// Its view is the map from the live entities to their components.
pub struct World {
    store: EntityStore<Components>,
}

impl View for World {
    type V = Map<EntityRef, Components>;

    closed spec fn view(&self) -> Map<EntityRef, Components> {
        self.store@
    }
}

impl World {
    /// The world's internal invariant. Every world made by [`World::new`] and
    /// changed only through the methods below satisfies it.
    pub closed spec fn wf(&self) -> bool {
        self.store.wf()
    }

    /// Whether `e` has been handed out by this world at some time, be the
    /// entity still live or not.
    pub closed spec fn allocated(&self, e: EntityRef) -> bool {
        self.store.allocated(e)
    }

    /// The handles of the live entities, each once, in the order in which
    /// queries list them.
    pub closed spec fn entity_seq(&self) -> Seq<EntityRef> {
        self.store.entity_seq()
    }

    /// Whether `e` is live and carries a component of the given kind.
    pub open spec fn has(&self, e: EntityRef, kind: ComponentKind) -> bool {
        self@.contains_key(e) && self@[e].spec_has(kind)
    }

    /// The live entities that carry every component kind of `set`, in
    /// listing order.
    pub open spec fn matching(&self, set: ComponentSet) -> Seq<EntityRef> {
        self.entity_seq().filter(|e: EntityRef| self@[e].spec_has_all(set))
    }

    /// The listing holds exactly the live entities, each once; every live
    /// entity has been handed out.
    pub proof fn lemma_entity_seq(&self)
        ensures
            forall|e: EntityRef| self.entity_seq().contains(e) <==> self@.contains_key(e),
            self.entity_seq().no_duplicates(),
            forall|e: EntityRef| self@.contains_key(e) ==> self.allocated(e),
    {
        self.store.lemma_entity_seq();
        assert forall|e: EntityRef| self@.contains_key(e) implies self.allocated(e) by {
            self.store.lemma_live_is_allocated(e);
        }
    }

    /// The listing depends only on which entities are live: two worlds with
    /// the same live entities list them in the same order.
    pub proof fn lemma_entity_seq_stable(&self, other: &World)
        requires
            self@.dom() == other@.dom(),
        ensures
            self.entity_seq() == other.entity_seq(),
    {
        self.store.lemma_entity_seq_stable(&other.store);
    }

    /// A world without entities.
    pub fn new() -> (world: World)
        ensures
            world.wf(),
            world@ == Map::<EntityRef, Components>::empty(),
            forall|e: EntityRef| !world.allocated(e),
    {
        World { store: EntityStore::new() }
    }

    /// Creates an entity with the given components and returns its handle,
    /// which this world has never handed out before.
    pub fn spawn(&mut self, components: Components) -> (e: EntityRef)
        requires
            old(self).wf(),
        ensures
            final(self).wf(),
            !old(self).allocated(e),
            !old(self)@.contains_key(e),
            final(self)@ == old(self)@.insert(e, components),
            forall|x: EntityRef| final(self).allocated(x) <==> old(self).allocated(x) || x == e,
    {
        self.store.spawn(components)
    }

    /// Removes the entity `e` with all its components and reports whether it
    /// was live. Its handle never becomes live again.
    pub fn despawn(&mut self, e: EntityRef) -> (removed: bool)
        requires
            old(self).wf(),
        ensures
            final(self).wf(),
            removed == old(self)@.contains_key(e),
            final(self)@ == old(self)@.remove(e),
            forall|x: EntityRef| final(self).allocated(x) <==> old(self).allocated(x),
    {
        self.store.despawn(e).is_some()
    }

    /// Whether `e` is a live entity.
    pub fn contains(&self, e: EntityRef) -> (live: bool)
        ensures
            live == self@.contains_key(e),
    {
        self.store.contains(e)
    }

    /// All components of the entity `e`, or `None` when `e` is not live.
    pub fn components(&self, e: EntityRef) -> (c: Option<Components>)
        ensures
            c == (if self@.contains_key(e) {
                Some(self@[e])
            } else {
                None::<Components>
            }),
    {
        match self.store.get(e) {
            Some(c) => Some(*c),
            None => None,
        }
    }

    /// The position of the entity `e`. Fails when `e` is not live or carries
    /// no position.
    pub fn position(&self, e: EntityRef) -> (r: Result<Position, MissingComponent>)
        ensures
            r == (if self.has(e, ComponentKind::Position) {
                Ok::<Position, MissingComponent>(self@[e].position->0)
            } else {
                Err::<Position, MissingComponent>(
                    MissingComponent { entity: e, kind: ComponentKind::Position },
                )
            }),
    {
        match self.store.get(e) {
            Some(c) => match c.position {
                Some(v) => Ok(v),
                None => Err(MissingComponent { entity: e, kind: ComponentKind::Position }),
            },
            None => Err(MissingComponent { entity: e, kind: ComponentKind::Position }),
        }
    }

    /// The size of the entity `e`. Fails when `e` is not live or carries
    /// no size.
    pub fn size(&self, e: EntityRef) -> (r: Result<Size, MissingComponent>)
        ensures
            r == (if self.has(e, ComponentKind::Size) {
                Ok::<Size, MissingComponent>(self@[e].size->0)
            } else {
                Err::<Size, MissingComponent>(
                    MissingComponent { entity: e, kind: ComponentKind::Size },
                )
            }),
    {
        match self.store.get(e) {
            Some(c) => match c.size {
                Some(v) => Ok(v),
                None => Err(MissingComponent { entity: e, kind: ComponentKind::Size }),
            },
            None => Err(MissingComponent { entity: e, kind: ComponentKind::Size }),
        }
    }

    /// The snake head of the entity `e`. Fails when `e` is not live or carries
    /// no snake head.
    pub fn head(&self, e: EntityRef) -> (r: Result<SnakeHead, MissingComponent>)
        ensures
            r == (if self.has(e, ComponentKind::SnakeHead) {
                Ok::<SnakeHead, MissingComponent>(self@[e].head->0)
            } else {
                Err::<SnakeHead, MissingComponent>(
                    MissingComponent { entity: e, kind: ComponentKind::SnakeHead },
                )
            }),
    {
        match self.store.get(e) {
            Some(c) => match c.head {
                Some(v) => Ok(v),
                None => Err(MissingComponent { entity: e, kind: ComponentKind::SnakeHead }),
            },
            None => Err(MissingComponent { entity: e, kind: ComponentKind::SnakeHead }),
        }
    }

    /// The snake segment of the entity `e`. Fails when `e` is not live or carries
    /// no snake segment.
    pub fn segment(&self, e: EntityRef) -> (r: Result<SnakeSegment, MissingComponent>)
        ensures
            r == (if self.has(e, ComponentKind::SnakeSegment) {
                Ok::<SnakeSegment, MissingComponent>(self@[e].segment->0)
            } else {
                Err::<SnakeSegment, MissingComponent>(
                    MissingComponent { entity: e, kind: ComponentKind::SnakeSegment },
                )
            }),
    {
        match self.store.get(e) {
            Some(c) => match c.segment {
                Some(v) => Ok(v),
                None => Err(MissingComponent { entity: e, kind: ComponentKind::SnakeSegment }),
            },
            None => Err(MissingComponent { entity: e, kind: ComponentKind::SnakeSegment }),
        }
    }

    /// The food marker of the entity `e`. Fails when `e` is not live or carries
    /// no food marker.
    pub fn food(&self, e: EntityRef) -> (r: Result<Food, MissingComponent>)
        ensures
            r == (if self.has(e, ComponentKind::Food) {
                Ok::<Food, MissingComponent>(self@[e].food->0)
            } else {
                Err::<Food, MissingComponent>(
                    MissingComponent { entity: e, kind: ComponentKind::Food },
                )
            }),
    {
        match self.store.get(e) {
            Some(c) => match c.food {
                Some(v) => Ok(v),
                None => Err(MissingComponent { entity: e, kind: ComponentKind::Food }),
            },
            None => Err(MissingComponent { entity: e, kind: ComponentKind::Food }),
        }
    }

    /// Overwrites the position of the entity `e` and leaves everything else
    /// as it is. Fails, changing nothing, when `e` is not live or carries no
    /// position.
    pub fn set_position(&mut self, e: EntityRef, position: Position) -> (r: Result<
        (),
        MissingComponent,
    >)
        requires
            old(self).wf(),
        ensures
            final(self).wf(),
            forall|x: EntityRef| final(self).allocated(x) <==> old(self).allocated(x),
            final(self).entity_seq() == old(self).entity_seq(),
            r == (if old(self).has(e, ComponentKind::Position) {
                Ok::<(), MissingComponent>(())
            } else {
                Err::<(), MissingComponent>(
                    MissingComponent { entity: e, kind: ComponentKind::Position },
                )
            }),
            final(self)@ == (if old(self).has(e, ComponentKind::Position) {
                old(self)@.insert(e, Components { position: Some(position), ..old(self)@[e] })
            } else {
                old(self)@
            }),
    {
        match self.store.get_mut(e) {
            Some(c) => {
                if c.position.is_some() {
                    c.position = Some(position);
                    proof {
                        assert(self@.dom() =~= old(self)@.dom());
                        self.lemma_entity_seq_stable(&*old(self));
                    }
                    Ok(())
                } else {
                    proof {
                        assert(self@ =~= old(self)@);
                        self.lemma_entity_seq_stable(&*old(self));
                    }
                    Err(MissingComponent { entity: e, kind: ComponentKind::Position })
                }
            },
            None => Err(MissingComponent { entity: e, kind: ComponentKind::Position }),
        }
    }

    /// Overwrites the size of the entity `e` and leaves everything else
    /// as it is. Fails, changing nothing, when `e` is not live or carries no
    /// size.
    pub fn set_size(&mut self, e: EntityRef, size: Size) -> (r: Result<(), MissingComponent>)
        requires
            old(self).wf(),
        ensures
            final(self).wf(),
            forall|x: EntityRef| final(self).allocated(x) <==> old(self).allocated(x),
            final(self).entity_seq() == old(self).entity_seq(),
            r == (if old(self).has(e, ComponentKind::Size) {
                Ok::<(), MissingComponent>(())
            } else {
                Err::<(), MissingComponent>(
                    MissingComponent { entity: e, kind: ComponentKind::Size },
                )
            }),
            final(self)@ == (if old(self).has(e, ComponentKind::Size) {
                old(self)@.insert(e, Components { size: Some(size), ..old(self)@[e] })
            } else {
                old(self)@
            }),
    {
        match self.store.get_mut(e) {
            Some(c) => {
                if c.size.is_some() {
                    c.size = Some(size);
                    proof {
                        assert(self@.dom() =~= old(self)@.dom());
                        self.lemma_entity_seq_stable(&*old(self));
                    }
                    Ok(())
                } else {
                    proof {
                        assert(self@ =~= old(self)@);
                        self.lemma_entity_seq_stable(&*old(self));
                    }
                    Err(MissingComponent { entity: e, kind: ComponentKind::Size })
                }
            },
            None => Err(MissingComponent { entity: e, kind: ComponentKind::Size }),
        }
    }

    /// Overwrites the snake head of the entity `e` and leaves everything else
    /// as it is. Fails, changing nothing, when `e` is not live or carries no
    /// snake head.
    pub fn set_head(&mut self, e: EntityRef, head: SnakeHead) -> (r: Result<(), MissingComponent>)
        requires
            old(self).wf(),
        ensures
            final(self).wf(),
            forall|x: EntityRef| final(self).allocated(x) <==> old(self).allocated(x),
            final(self).entity_seq() == old(self).entity_seq(),
            r == (if old(self).has(e, ComponentKind::SnakeHead) {
                Ok::<(), MissingComponent>(())
            } else {
                Err::<(), MissingComponent>(
                    MissingComponent { entity: e, kind: ComponentKind::SnakeHead },
                )
            }),
            final(self)@ == (if old(self).has(e, ComponentKind::SnakeHead) {
                old(self)@.insert(e, Components { head: Some(head), ..old(self)@[e] })
            } else {
                old(self)@
            }),
    {
        match self.store.get_mut(e) {
            Some(c) => {
                if c.head.is_some() {
                    c.head = Some(head);
                    proof {
                        assert(self@.dom() =~= old(self)@.dom());
                        self.lemma_entity_seq_stable(&*old(self));
                    }
                    Ok(())
                } else {
                    proof {
                        assert(self@ =~= old(self)@);
                        self.lemma_entity_seq_stable(&*old(self));
                    }
                    Err(MissingComponent { entity: e, kind: ComponentKind::SnakeHead })
                }
            },
            None => Err(MissingComponent { entity: e, kind: ComponentKind::SnakeHead }),
        }
    }

    /// Overwrites the snake segment of the entity `e` and leaves everything else
    /// as it is. Fails, changing nothing, when `e` is not live or carries no
    /// snake segment.
    pub fn set_segment(&mut self, e: EntityRef, segment: SnakeSegment) -> (r: Result<
        (),
        MissingComponent,
    >)
        requires
            old(self).wf(),
        ensures
            final(self).wf(),
            forall|x: EntityRef| final(self).allocated(x) <==> old(self).allocated(x),
            final(self).entity_seq() == old(self).entity_seq(),
            r == (if old(self).has(e, ComponentKind::SnakeSegment) {
                Ok::<(), MissingComponent>(())
            } else {
                Err::<(), MissingComponent>(
                    MissingComponent { entity: e, kind: ComponentKind::SnakeSegment },
                )
            }),
            final(self)@ == (if old(self).has(e, ComponentKind::SnakeSegment) {
                old(self)@.insert(e, Components { segment: Some(segment), ..old(self)@[e] })
            } else {
                old(self)@
            }),
    {
        match self.store.get_mut(e) {
            Some(c) => {
                if c.segment.is_some() {
                    c.segment = Some(segment);
                    proof {
                        assert(self@.dom() =~= old(self)@.dom());
                        self.lemma_entity_seq_stable(&*old(self));
                    }
                    Ok(())
                } else {
                    proof {
                        assert(self@ =~= old(self)@);
                        self.lemma_entity_seq_stable(&*old(self));
                    }
                    Err(MissingComponent { entity: e, kind: ComponentKind::SnakeSegment })
                }
            },
            None => Err(MissingComponent { entity: e, kind: ComponentKind::SnakeSegment }),
        }
    }

    /// Mutable access to the position of the entity `e`. Whatever is written
    /// through the reference becomes the entity's position; nothing else
    /// changes. Fails when `e` is not live or carries no position.
    pub fn position_mut(&mut self, e: EntityRef) -> (r: Result<&mut Position, MissingComponent>)
        requires
            old(self).wf(),
        ensures
            match r {
                Ok(position) => {
                    &&& old(self).has(e, ComponentKind::Position)
                    &&& *position == old(self)@[e].position->0
                    &&& final(self)@ == old(self)@.insert(
                        e,
                        Components { position: Some(*final(position)), ..old(self)@[e] },
                    )
                    &&& final(self).wf()
                    &&& forall|x: EntityRef| final(self).allocated(x) <==> old(self).allocated(x)
                },
                Err(missing) => {
                    &&& !old(self).has(e, ComponentKind::Position)
                    &&& missing == (MissingComponent { entity: e, kind: ComponentKind::Position })
                    &&& final(self)@ == old(self)@
                    &&& final(self).wf()
                    &&& forall|x: EntityRef| final(self).allocated(x) <==> old(self).allocated(x)
                },
            },
    {
        match self.store.get_mut(e) {
            Some(c) => match c.position.as_mut() {
                Some(position) => Ok(position),
                None => Err(MissingComponent { entity: e, kind: ComponentKind::Position }),
            },
            None => Err(MissingComponent { entity: e, kind: ComponentKind::Position }),
        }
    }

    /// Mutable access to the size of the entity `e`. Whatever is written
    /// through the reference becomes the entity's size; nothing else
    /// changes. Fails when `e` is not live or carries no size.
    pub fn size_mut(&mut self, e: EntityRef) -> (r: Result<&mut Size, MissingComponent>)
        requires
            old(self).wf(),
        ensures
            match r {
                Ok(size) => {
                    &&& old(self).has(e, ComponentKind::Size)
                    &&& *size == old(self)@[e].size->0
                    &&& final(self)@ == old(self)@.insert(
                        e,
                        Components { size: Some(*final(size)), ..old(self)@[e] },
                    )
                    &&& final(self).wf()
                    &&& forall|x: EntityRef| final(self).allocated(x) <==> old(self).allocated(x)
                },
                Err(missing) => {
                    &&& !old(self).has(e, ComponentKind::Size)
                    &&& missing == (MissingComponent { entity: e, kind: ComponentKind::Size })
                    &&& final(self)@ == old(self)@
                    &&& final(self).wf()
                    &&& forall|x: EntityRef| final(self).allocated(x) <==> old(self).allocated(x)
                },
            },
    {
        match self.store.get_mut(e) {
            Some(c) => match c.size.as_mut() {
                Some(size) => Ok(size),
                None => Err(MissingComponent { entity: e, kind: ComponentKind::Size }),
            },
            None => Err(MissingComponent { entity: e, kind: ComponentKind::Size }),
        }
    }

    /// Mutable access to the snake head of the entity `e`. Whatever is written
    /// through the reference becomes the entity's snake head; nothing else
    /// changes. Fails when `e` is not live or carries no snake head.
    pub fn head_mut(&mut self, e: EntityRef) -> (r: Result<&mut SnakeHead, MissingComponent>)
        requires
            old(self).wf(),
        ensures
            match r {
                Ok(head) => {
                    &&& old(self).has(e, ComponentKind::SnakeHead)
                    &&& *head == old(self)@[e].head->0
                    &&& final(self)@ == old(self)@.insert(
                        e,
                        Components { head: Some(*final(head)), ..old(self)@[e] },
                    )
                    &&& final(self).wf()
                    &&& forall|x: EntityRef| final(self).allocated(x) <==> old(self).allocated(x)
                },
                Err(missing) => {
                    &&& !old(self).has(e, ComponentKind::SnakeHead)
                    &&& missing == (MissingComponent { entity: e, kind: ComponentKind::SnakeHead })
                    &&& final(self)@ == old(self)@
                    &&& final(self).wf()
                    &&& forall|x: EntityRef| final(self).allocated(x) <==> old(self).allocated(x)
                },
            },
    {
        match self.store.get_mut(e) {
            Some(c) => match c.head.as_mut() {
                Some(head) => Ok(head),
                None => Err(MissingComponent { entity: e, kind: ComponentKind::SnakeHead }),
            },
            None => Err(MissingComponent { entity: e, kind: ComponentKind::SnakeHead }),
        }
    }

    /// Mutable access to the snake segment of the entity `e`. Whatever is written
    /// through the reference becomes the entity's snake segment; nothing else
    /// changes. Fails when `e` is not live or carries no snake segment.
    pub fn segment_mut(&mut self, e: EntityRef) -> (r: Result<&mut SnakeSegment, MissingComponent>)
        requires
            old(self).wf(),
        ensures
            match r {
                Ok(segment) => {
                    &&& old(self).has(e, ComponentKind::SnakeSegment)
                    &&& *segment == old(self)@[e].segment->0
                    &&& final(self)@ == old(self)@.insert(
                        e,
                        Components { segment: Some(*final(segment)), ..old(self)@[e] },
                    )
                    &&& final(self).wf()
                    &&& forall|x: EntityRef| final(self).allocated(x) <==> old(self).allocated(x)
                },
                Err(missing) => {
                    &&& !old(self).has(e, ComponentKind::SnakeSegment)
                    &&& missing == (MissingComponent {
                        entity: e,
                        kind: ComponentKind::SnakeSegment,
                    })
                    &&& final(self)@ == old(self)@
                    &&& final(self).wf()
                    &&& forall|x: EntityRef| final(self).allocated(x) <==> old(self).allocated(x)
                },
            },
    {
        match self.store.get_mut(e) {
            Some(c) => match c.segment.as_mut() {
                Some(segment) => Ok(segment),
                None => Err(MissingComponent { entity: e, kind: ComponentKind::SnakeSegment }),
            },
            None => Err(MissingComponent { entity: e, kind: ComponentKind::SnakeSegment }),
        }
    }

    /// All live entities, in listing order.
    pub fn entities(&self) -> (list: Vec<EntityRef>)
        ensures
            list@ == self.entity_seq(),
            list@.no_duplicates(),
            forall|e: EntityRef| list@.contains(e) <==> self@.contains_key(e),
    {
        self.store.entities()
    }

    /// The live entities that carry every component kind of `set`. The list
    /// is made at once, so entities may be spawned and despawned while the
    /// caller walks through it.
    pub fn query(&self, set: ComponentSet) -> (list: Vec<EntityRef>)
        ensures
            list@ == self.matching(set),
            list@.no_duplicates(),
            forall|e: EntityRef|
                list@.contains(e) <==> self@.contains_key(e) && self@[e].spec_has_all(set),
    {
        let all = self.store.entities();
        let ghost pred = |e: EntityRef| self@[e].spec_has_all(set);
        let mut list: Vec<EntityRef> = Vec::new();
        let mut i: usize = 0;
        proof {
            assert(all@.take(0) =~= Seq::<EntityRef>::empty());
            Seq::<EntityRef>::empty().lemma_filter_len(pred);
        }
        while i < all.len()
            invariant
                i <= all@.len(),
                all@ == self.store.entity_seq(),
                forall|e: EntityRef| all@.contains(e) <==> self.store@.contains_key(e),
                pred == (|e: EntityRef| self@[e].spec_has_all(set)),
                list@ == all@.take(i as int).filter(pred),
            decreases all@.len() - i,
        {
            let e = all[i];
            proof {
                assert(all@.take(i + 1) =~= all@.take(i as int).push(e));
                all@.take(i as int).lemma_filter_push(e, pred);
                assert(all@.contains(e));
            }
            match self.store.get(e) {
                Some(c) => {
                    if c.has_all(set) {
                        list.push(e);
                    }
                },
                None => {},
            }
            i += 1;
        }
        proof {
            assert(all@.take(all@.len() as int) =~= all@);
            self.lemma_matching(set);
        }
        list
    }

    /// Removes every entity of `list` that is live, with all its components.
    pub fn despawn_all(&mut self, list: &Vec<EntityRef>)
        requires
            old(self).wf(),
        ensures
            final(self).wf(),
            final(self)@ == old(self)@.remove_keys(list@.to_set()),
            forall|x: EntityRef| final(self).allocated(x) <==> old(self).allocated(x),
    {
        let mut i: usize = 0;
        assert(self@ =~= old(self)@.remove_keys(list@.take(0).to_set()));
        while i < list.len()
            invariant
                i <= list@.len(),
                self.wf(),
                self@ == old(self)@.remove_keys(list@.take(i as int).to_set()),
                forall|x: EntityRef| self.allocated(x) <==> old(self).allocated(x),
            decreases list@.len() - i,
        {
            let e = list[i];
            self.despawn(e);
            proof {
                let before = list@.take(i as int);
                let after = list@.take(i + 1);
                assert(after =~= before.push(e));
                assert forall|x: EntityRef|
                    after.to_set().contains(x) <==> before.to_set().contains(x) || x == e by {
                    if before.contains(x) {
                        let k = choose|k: int| 0 <= k < before.len() && before[k] == x;
                        assert(after[k] == x);
                    }
                    if x == e {
                        assert(after[i as int] == x);
                    }
                    if after.contains(x) {
                        let k = choose|k: int| 0 <= k < after.len() && after[k] == x;
                        if k < i {
                            assert(before[k] == x);
                        }
                    }
                }
                assert(self@ =~= old(self)@.remove_keys(after.to_set()));
            }
            i += 1;
        }
        assert(list@.take(list@.len() as int) =~= list@);
    }

    /// A query lists the same entities in both of two worlds that list
    /// their entities alike and agree on which of them carry every
    /// component kind of `set`.
    pub proof fn lemma_matching_stable(&self, other: &World, set: ComponentSet)
        requires
            self.entity_seq() == other.entity_seq(),
            forall|e: EntityRef|
                self@.contains_key(e) ==> self@[e].spec_has_all(set) == other@[e].spec_has_all(set),
        ensures
            self.matching(set) == other.matching(set),
    {
        self.lemma_entity_seq();
        let all = self.entity_seq();
        assert forall|i: int| 0 <= i < all.len() implies self@[all[i]].spec_has_all(set)
            == other@[all[i]].spec_has_all(set) by {
            assert(all.contains(all[i]));
        }
        lemma_filter_agree(
            all,
            |e: EntityRef| self@[e].spec_has_all(set),
            |e: EntityRef| other@[e].spec_has_all(set),
        );
    }

    /// A query lists exactly the live entities that carry every component
    /// kind asked for, each once.
    pub proof fn lemma_matching(&self, set: ComponentSet)
        ensures
            self.matching(set).no_duplicates(),
            forall|e: EntityRef|
                self.matching(set).contains(e) <==> self@.contains_key(e)
                    && self@[e].spec_has_all(set),
    {
        let pred = |e: EntityRef| self@[e].spec_has_all(set);
        let all = self.entity_seq();
        let found = self.matching(set);
        self.lemma_entity_seq();
        lemma_filter_no_duplicates(all, pred);
        assert forall|e: EntityRef| found.contains(e) implies self@.contains_key(e)
            && self@[e].spec_has_all(set) by {
            let k = choose|k: int| 0 <= k < found.len() && found[k] == e;
            all.lemma_filter_pred(pred, k);
            all.lemma_filter_contains_rev(pred, e);
        }
        assert forall|e: EntityRef|
            self@.contains_key(e) && self@[e].spec_has_all(set) implies found.contains(e) by {
            assert(all.contains(e));
            let k = choose|k: int| 0 <= k < all.len() && all[k] == e;
            all.lemma_filter_contains(pred, k);
        }
    }
}

} // verus!
