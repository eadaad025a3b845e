//! Entity lifecycle and component storage.
//!
//! A [`World`] owns one table per component kind, all indexed by entity
//! slot. Destruction is deferred: [`World::destroy`] only marks a slot, and
//! the mark stays invisible to lookups and systems until [`World::maintain`]
//! sweeps it between ticks, frees the slot and bumps its generation so that
//! stale [`Entity`] handles can never reach a recycled slot.

use vstd::prelude::*;

use crate::components::AnimationView;
use crate::keyboard::MovementCommand;
use crate::rect::Rect;
use crate::components::Enemy;
use crate::components::Item;
use crate::components::KeyboardControlled;
use crate::components::MovementAnimation;
use crate::components::Position;
use crate::components::Sprite;
use crate::components::Velocity;

verus! {

/// The process-wide per-tick resources. The host overwrites the whole value
/// before every dispatch; an absent movement command means "no change this
/// tick" and is an ordinary state, not an error.
#[derive(Debug, Clone, Copy)]
pub struct FrameContext {
    pub movement_command: Option<MovementCommand>,
    /// The region entities are confined to, in world coordinates.
    pub viewport: Rect,
    /// Wall-clock time since the previous tick, in milliseconds.
    pub elapsed_ms: u32,
}

/// Lifecycle state of an entity slot.
#[derive(Debug, Clone, Copy, PartialEq, Eq, Structural)]
pub enum SlotState {
    /// The slot carries no entity and may be handed out again.
    Free,
    /// The slot carries a live entity.
    Live,
    /// The entity was destroyed this tick; the slot is swept at `maintain`.
    PendingRemoval,
}

/// An opaque entity identity: a slot index plus the generation the slot had
/// when the entity was created. A handle whose generation no longer matches
/// its slot is stale and behaves like a missing entity.
#[derive(Debug, Clone, Copy, PartialEq, Eq, Structural)]
pub struct Entity {
    pub index: usize,
    pub generation: u64,
}

/// Mathematical image of one entity slot.
#[verifier::ext_equal]
pub ghost struct EntityRec {
    pub generation: u64,
    pub state: SlotState,
    pub position: Option<Position>,
    pub velocity: Option<Velocity>,
    pub sprite: Option<Sprite>,
    pub animation: Option<AnimationView>,
    pub keyboard_controlled: bool,
    pub enemy: bool,
    pub item: bool,
}

/// Mathematical image of a whole [`World`]: one record per slot.
#[verifier::ext_equal]
pub ghost struct WorldView {
    pub slots: Seq<EntityRec>,
}

impl WorldView {
    /// The slot is in range and carries an entity, destroyed this tick or
    /// not: pending removal stays observable until `maintain`.
    pub open spec fn alive(self, i: int) -> bool {
        &&& 0 <= i < self.slots.len()
        &&& self.slots[i].state != SlotState::Free
    }

    /// The handle still refers to the entity it was created for.
    pub open spec fn valid(self, e: Entity) -> bool {
        &&& (e.index as int) < self.slots.len()
        &&& self.slots[e.index as int].generation == e.generation
        &&& self.slots[e.index as int].state != SlotState::Free
    }

    pub open spec fn rec(self, e: Entity) -> EntityRec {
        self.slots[e.index as int]
    }
}

/// A slot record with no components and no tags.
pub open spec fn empty_rec(generation: u64, state: SlotState) -> EntityRec {
    EntityRec {
        generation,
        state,
        position: None,
        velocity: None,
        sprite: None,
        animation: None,
        keyboard_controlled: false,
        enemy: false,
        item: false,
    }
}

/// What one `maintain` sweep does to a single slot: slots pending removal
/// are emptied, freed and get the next generation; all others are kept.
pub open spec fn maintain_rec(r: EntityRec) -> EntityRec {
    if r.state == SlotState::PendingRemoval {
        empty_rec(if r.generation < u64::MAX { (r.generation + 1) as u64 } else { r.generation }, SlotState::Free)
    } else {
        r
    }
}

pub open spec fn maintain_spec(w: WorldView) -> WorldView {
    WorldView { slots: Seq::new(w.slots.len(), |i: int| maintain_rec(w.slots[i])) }
}

/// Component storage for every entity, one table per component kind.
pub struct World {
    pub generations: Vec<u64>,
    pub states: Vec<SlotState>,
    pub positions: Vec<Option<Position>>,
    pub velocities: Vec<Option<Velocity>>,
    pub sprites: Vec<Option<Sprite>>,
    pub animations: Vec<Option<MovementAnimation>>,
    pub keyboard_tags: Vec<Option<KeyboardControlled>>,
    pub enemy_tags: Vec<Option<Enemy>>,
    pub item_tags: Vec<Option<Item>>,
}

impl View for World {
    type V = WorldView;

    open spec fn view(&self) -> WorldView {
        WorldView {
            slots: Seq::new(
                self.states@.len(),
                |i: int| EntityRec {
                    generation: self.generations@[i],
                    state: self.states@[i],
                    position: self.positions@[i],
                    velocity: self.velocities@[i],
                    sprite: self.sprites@[i],
                    animation: match self.animations@[i] {
                        Some(a) => Some(a@),
                        None => None,
                    },
                    keyboard_controlled: self.keyboard_tags@[i] is Some,
                    enemy: self.enemy_tags@[i] is Some,
                    item: self.item_tags@[i] is Some,
                },
            ),
        }
    }
}

impl World {
    /// All component tables cover exactly the same slots.
    pub open spec fn inv(self) -> bool {
        &&& self.generations@.len() == self.states@.len()
        &&& self.positions@.len() == self.states@.len()
        &&& self.velocities@.len() == self.states@.len()
        &&& self.sprites@.len() == self.states@.len()
        &&& self.animations@.len() == self.states@.len()
        &&& self.keyboard_tags@.len() == self.states@.len()
        &&& self.enemy_tags@.len() == self.states@.len()
        &&& self.item_tags@.len() == self.states@.len()
    }

    pub fn new() -> (w: World)
        ensures
            w.inv(),
            w@.slots.len() == 0,
    {
        World {
            generations: Vec::new(),
            states: Vec::new(),
            positions: Vec::new(),
            velocities: Vec::new(),
            sprites: Vec::new(),
            animations: Vec::new(),
            keyboard_tags: Vec::new(),
            enemy_tags: Vec::new(),
            item_tags: Vec::new(),
        }
    }

    pub fn slot_count(&self) -> (r: usize)
        ensures
            r == self@.slots.len(),
    {
        self.states.len()
    }

    fn find_free_slot(&self) -> (r: Option<usize>)
        requires
            self.inv(),
        ensures
            match r {
                Some(i) => {
                    &&& (i as int) < self@.slots.len()
                    &&& self@.slots[i as int].state == SlotState::Free
                    &&& forall|j: int| 0 <= j < i ==> self@.slots[j].state != SlotState::Free
                },
                None => forall|j: int|
                    0 <= j < self@.slots.len() ==> self@.slots[j].state != SlotState::Free,
            },
    {
        let n = self.states.len();
        let mut i: usize = 0;
        while i < n
            invariant
                self.inv(),
                n == self@.slots.len(),
                i <= n,
                forall|j: int| 0 <= j < i ==> self@.slots[j].state != SlotState::Free,
            decreases n - i,
        {
            if self.states[i] == SlotState::Free {
                return Some(i);
            }
            i += 1;
        }
        None
    }

    /// Creates a fresh entity with no components, reusing the lowest free
    /// slot if one exists and growing the tables otherwise.
    pub fn create_entity(&mut self) -> (e: Entity)
        requires
            old(self).inv(),
        ensures
            final(self).inv(),
            (e.index as int) < final(self)@.slots.len(),
            final(self)@.slots[e.index as int] == empty_rec(e.generation, SlotState::Live),
            final(self)@.valid(e),
            forall|j: int|
                0 <= j < old(self)@.slots.len() && j != e.index ==> final(self)@.slots[j]
                    == old(self)@.slots[j],
            forall|j: int| 0 <= j < e.index ==> old(self)@.slots[j].state != SlotState::Free,
            (e.index as int) < old(self)@.slots.len() ==> {
                &&& final(self)@.slots.len() == old(self)@.slots.len()
                &&& old(self)@.slots[e.index as int].state == SlotState::Free
                &&& e.generation == old(self)@.slots[e.index as int].generation
            },
            (e.index as int) >= old(self)@.slots.len() ==> {
                &&& e.index == old(self)@.slots.len()
                &&& final(self)@.slots.len() == old(self)@.slots.len() + 1
                &&& e.generation == 0
            },
    {
        match self.find_free_slot() {
            Some(i) => {
                let g = self.generations[i];
                self.states.set(i, SlotState::Live);
                self.positions.set(i, None);
                self.velocities.set(i, None);
                self.sprites.set(i, None);
                self.animations.set(i, None);
                self.keyboard_tags.set(i, None);
                self.enemy_tags.set(i, None);
                self.item_tags.set(i, None);
                Entity { index: i, generation: g }
            },
            None => {
                let i = self.states.len();
                self.generations.push(0);
                self.states.push(SlotState::Live);
                self.positions.push(None);
                self.velocities.push(None);
                self.sprites.push(None);
                self.animations.push(None);
                self.keyboard_tags.push(None);
                self.enemy_tags.push(None);
                self.item_tags.push(None);
                Entity { index: i, generation: 0 }
            },
        }
    }

    /// Marks the entity for deferred removal. Destroying a stale or already
    /// destroyed entity is a harmless no-op.
    pub fn destroy(&mut self, e: Entity)
        requires
            old(self).inv(),
        ensures
            final(self).inv(),
            old(self)@.valid(e) ==> final(self)@ == (WorldView {
                slots: old(self)@.slots.update(
                    e.index as int,
                    (EntityRec { state: SlotState::PendingRemoval, ..old(self)@.rec(e) }),
                ),
            }),
            !old(self)@.valid(e) ==> final(self)@ == old(self)@,
    {
        if e.index < self.states.len() && self.generations[e.index] == e.generation
            && self.states[e.index] != SlotState::Free {
            self.states.set(e.index, SlotState::PendingRemoval);
            proof {
                assert(self@.slots =~= old(self)@.slots.update(
                    e.index as int,
                    (EntityRec { state: SlotState::PendingRemoval, ..old(self)@.rec(e) }),
                ));
                assert(self@ =~= (WorldView {
                    slots: old(self)@.slots.update(
                        e.index as int,
                        (EntityRec { state: SlotState::PendingRemoval, ..old(self)@.rec(e) }),
                    ),
                }));
            }
        } else {
            proof {
                assert(self@.slots =~= old(self)@.slots);
                assert(self@ =~= old(self)@);
            }
        }
    }

    /// Sweeps every slot marked for removal: its components vanish, the slot
    /// becomes free and its generation moves on. Call exactly once between
    /// the end of one tick and the input handling of the next.
    pub fn maintain(&mut self)
        requires
            old(self).inv(),
        ensures
            final(self).inv(),
            final(self)@ == maintain_spec(old(self)@),
    {
        let n = self.states.len();
        let mut i: usize = 0;
        while i < n
            invariant
                self.inv(),
                n == self@.slots.len(),
                old(self)@.slots.len() == n,
                i <= n,
                forall|j: int| 0 <= j < i ==> self@.slots[j] == maintain_rec(old(self)@.slots[j]),
                forall|j: int| i <= j < n ==> self@.slots[j] == old(self)@.slots[j],
            decreases n - i,
        {
            if self.states[i] == SlotState::PendingRemoval {
                let g = self.generations[i];
                let g2 = if g < u64::MAX {
                    g + 1
                } else {
                    g
                };
                self.generations.set(i, g2);
                self.states.set(i, SlotState::Free);
                self.positions.set(i, None);
                self.velocities.set(i, None);
                self.sprites.set(i, None);
                self.animations.set(i, None);
                self.keyboard_tags.set(i, None);
                self.enemy_tags.set(i, None);
                self.item_tags.set(i, None);
            }
            i += 1;
        }
        proof {
            assert(self@.slots =~= maintain_spec(old(self)@).slots);
            assert(self@ =~= maintain_spec(old(self)@));
        }
    }

    /// The entity living in slot `i`, if any.
    pub fn entity_at(&self, i: usize) -> (r: Option<Entity>)
        requires
            self.inv(),
        ensures
            match r {
                Some(e) => {
                    &&& self@.alive(i as int)
                    &&& e == (Entity { index: i, generation: self@.slots[i as int].generation })
                    &&& self@.valid(e)
                },
                None => !self@.alive(i as int),
            },
    {
        if i < self.states.len() && self.states[i] != SlotState::Free {
            Some(Entity { index: i, generation: self.generations[i] })
        } else {
            None
        }
    }

    pub fn get_position(&self, e: Entity) -> (r: Option<Position>)
        requires
            self.inv(),
        ensures
            r == (if self@.valid(e) {
                self@.rec(e).position
            } else {
                None
            }),
    {
        if e.index < self.states.len() && self.generations[e.index] == e.generation
            && self.states[e.index] != SlotState::Free {
            self.positions[e.index]
        } else {
            None
        }
    }

    pub fn get_velocity(&self, e: Entity) -> (r: Option<Velocity>)
        requires
            self.inv(),
        ensures
            r == (if self@.valid(e) {
                self@.rec(e).velocity
            } else {
                None
            }),
    {
        if e.index < self.states.len() && self.generations[e.index] == e.generation
            && self.states[e.index] != SlotState::Free {
            self.velocities[e.index]
        } else {
            None
        }
    }

    pub fn get_sprite(&self, e: Entity) -> (r: Option<Sprite>)
        requires
            self.inv(),
        ensures
            r == (if self@.valid(e) {
                self@.rec(e).sprite
            } else {
                None
            }),
    {
        if e.index < self.states.len() && self.generations[e.index] == e.generation
            && self.states[e.index] != SlotState::Free {
            self.sprites[e.index]
        } else {
            None
        }
    }

    pub fn get_animation(&self, e: Entity) -> (r: Option<&MovementAnimation>)
        requires
            self.inv(),
        ensures
            match r {
                Some(a) => self@.valid(e) && self@.rec(e).animation == Some(a@),
                None => !self@.valid(e) || self@.rec(e).animation is None,
            },
    {
        if e.index < self.states.len() && self.generations[e.index] == e.generation
            && self.states[e.index] != SlotState::Free {
            self.animations[e.index].as_ref()
        } else {
            None
        }
    }

    pub fn insert_position(&mut self, e: Entity, value: Position)
        requires
            old(self).inv(),
        ensures
            final(self).inv(),
            old(self)@.valid(e) ==> final(self)@ == (WorldView {
                slots: old(self)@.slots.update(
                    e.index as int,
                    (EntityRec { position: Some(value), ..old(self)@.rec(e) }),
                ),
            }),
            !old(self)@.valid(e) ==> final(self)@ == old(self)@,
    {
        if e.index < self.states.len() && self.generations[e.index] == e.generation
            && self.states[e.index] != SlotState::Free {
            self.positions.set(e.index, Some(value));
            proof {
                assert(self@.slots =~= old(self)@.slots.update(
                    e.index as int,
                    (EntityRec { position: Some(value), ..old(self)@.rec(e) }),
                ));
                assert(self@ =~= (WorldView {
                    slots: old(self)@.slots.update(
                        e.index as int,
                        (EntityRec { position: Some(value), ..old(self)@.rec(e) }),
                    ),
                }));
            }
        } else {
            proof {
                assert(self@.slots =~= old(self)@.slots);
                assert(self@ =~= old(self)@);
            }
        }
    }

    pub fn insert_velocity(&mut self, e: Entity, value: Velocity)
        requires
            old(self).inv(),
        ensures
            final(self).inv(),
            old(self)@.valid(e) ==> final(self)@ == (WorldView {
                slots: old(self)@.slots.update(
                    e.index as int,
                    (EntityRec { velocity: Some(value), ..old(self)@.rec(e) }),
                ),
            }),
            !old(self)@.valid(e) ==> final(self)@ == old(self)@,
    {
        if e.index < self.states.len() && self.generations[e.index] == e.generation
            && self.states[e.index] != SlotState::Free {
            self.velocities.set(e.index, Some(value));
            proof {
                assert(self@.slots =~= old(self)@.slots.update(
                    e.index as int,
                    (EntityRec { velocity: Some(value), ..old(self)@.rec(e) }),
                ));
                assert(self@ =~= (WorldView {
                    slots: old(self)@.slots.update(
                        e.index as int,
                        (EntityRec { velocity: Some(value), ..old(self)@.rec(e) }),
                    ),
                }));
            }
        } else {
            proof {
                assert(self@.slots =~= old(self)@.slots);
                assert(self@ =~= old(self)@);
            }
        }
    }

    pub fn insert_sprite(&mut self, e: Entity, value: Sprite)
        requires
            old(self).inv(),
        ensures
            final(self).inv(),
            old(self)@.valid(e) ==> final(self)@ == (WorldView {
                slots: old(self)@.slots.update(
                    e.index as int,
                    (EntityRec { sprite: Some(value), ..old(self)@.rec(e) }),
                ),
            }),
            !old(self)@.valid(e) ==> final(self)@ == old(self)@,
    {
        if e.index < self.states.len() && self.generations[e.index] == e.generation
            && self.states[e.index] != SlotState::Free {
            self.sprites.set(e.index, Some(value));
            proof {
                assert(self@.slots =~= old(self)@.slots.update(
                    e.index as int,
                    (EntityRec { sprite: Some(value), ..old(self)@.rec(e) }),
                ));
                assert(self@ =~= (WorldView {
                    slots: old(self)@.slots.update(
                        e.index as int,
                        (EntityRec { sprite: Some(value), ..old(self)@.rec(e) }),
                    ),
                }));
            }
        } else {
            proof {
                assert(self@.slots =~= old(self)@.slots);
                assert(self@ =~= old(self)@);
            }
        }
    }

    pub fn insert_animation(&mut self, e: Entity, value: MovementAnimation)
        requires
            old(self).inv(),
        ensures
            final(self).inv(),
            old(self)@.valid(e) ==> final(self)@ == (WorldView {
                slots: old(self)@.slots.update(
                    e.index as int,
                    (EntityRec { animation: Some(value@), ..old(self)@.rec(e) }),
                ),
            }),
            !old(self)@.valid(e) ==> final(self)@ == old(self)@,
    {
        if e.index < self.states.len() && self.generations[e.index] == e.generation
            && self.states[e.index] != SlotState::Free {
            let ghost v = value@;
            self.animations.set(e.index, Some(value));
            proof {
                assert(self@.slots =~= old(self)@.slots.update(
                    e.index as int,
                    (EntityRec { animation: Some(v), ..old(self)@.rec(e) }),
                ));
                assert(self@ =~= (WorldView {
                    slots: old(self)@.slots.update(
                        e.index as int,
                        (EntityRec { animation: Some(v), ..old(self)@.rec(e) }),
                    ),
                }));
            }
        } else {
            proof {
                assert(self@.slots =~= old(self)@.slots);
                assert(self@ =~= old(self)@);
            }
        }
    }

    pub fn insert_keyboard_controlled(&mut self, e: Entity, tag: KeyboardControlled)
        requires
            old(self).inv(),
        ensures
            final(self).inv(),
            old(self)@.valid(e) ==> final(self)@ == (WorldView {
                slots: old(self)@.slots.update(
                    e.index as int,
                    (EntityRec { keyboard_controlled: true, ..old(self)@.rec(e) }),
                ),
            }),
            !old(self)@.valid(e) ==> final(self)@ == old(self)@,
    {
        if e.index < self.states.len() && self.generations[e.index] == e.generation
            && self.states[e.index] != SlotState::Free {
            self.keyboard_tags.set(e.index, Some(tag));
            proof {
                assert(self@.slots =~= old(self)@.slots.update(
                    e.index as int,
                    (EntityRec { keyboard_controlled: true, ..old(self)@.rec(e) }),
                ));
                assert(self@ =~= (WorldView {
                    slots: old(self)@.slots.update(
                        e.index as int,
                        (EntityRec { keyboard_controlled: true, ..old(self)@.rec(e) }),
                    ),
                }));
            }
        } else {
            proof {
                assert(self@.slots =~= old(self)@.slots);
                assert(self@ =~= old(self)@);
            }
        }
    }

    pub fn insert_enemy(&mut self, e: Entity, tag: Enemy)
        requires
            old(self).inv(),
        ensures
            final(self).inv(),
            old(self)@.valid(e) ==> final(self)@ == (WorldView {
                slots: old(self)@.slots.update(
                    e.index as int,
                    (EntityRec { enemy: true, ..old(self)@.rec(e) }),
                ),
            }),
            !old(self)@.valid(e) ==> final(self)@ == old(self)@,
    {
        if e.index < self.states.len() && self.generations[e.index] == e.generation
            && self.states[e.index] != SlotState::Free {
            self.enemy_tags.set(e.index, Some(tag));
            proof {
                assert(self@.slots =~= old(self)@.slots.update(
                    e.index as int,
                    (EntityRec { enemy: true, ..old(self)@.rec(e) }),
                ));
                assert(self@ =~= (WorldView {
                    slots: old(self)@.slots.update(
                        e.index as int,
                        (EntityRec { enemy: true, ..old(self)@.rec(e) }),
                    ),
                }));
            }
        } else {
            proof {
                assert(self@.slots =~= old(self)@.slots);
                assert(self@ =~= old(self)@);
            }
        }
    }

    pub fn insert_item(&mut self, e: Entity, tag: Item)
        requires
            old(self).inv(),
        ensures
            final(self).inv(),
            old(self)@.valid(e) ==> final(self)@ == (WorldView {
                slots: old(self)@.slots.update(
                    e.index as int,
                    (EntityRec { item: true, ..old(self)@.rec(e) }),
                ),
            }),
            !old(self)@.valid(e) ==> final(self)@ == old(self)@,
    {
        if e.index < self.states.len() && self.generations[e.index] == e.generation
            && self.states[e.index] != SlotState::Free {
            self.item_tags.set(e.index, Some(tag));
            proof {
                assert(self@.slots =~= old(self)@.slots.update(
                    e.index as int,
                    (EntityRec { item: true, ..old(self)@.rec(e) }),
                ));
                assert(self@ =~= (WorldView {
                    slots: old(self)@.slots.update(
                        e.index as int,
                        (EntityRec { item: true, ..old(self)@.rec(e) }),
                    ),
                }));
            }
        } else {
            proof {
                assert(self@.slots =~= old(self)@.slots);
                assert(self@ =~= old(self)@);
            }
        }
    }
}

} // verus!
