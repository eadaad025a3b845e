//! The animation system: one tick advances each moving entity's sprite.

use vstd::prelude::*;

use crate::components::AnimationView;
use crate::components::Direction;
use crate::components::MovementAnimation;
use crate::components::Sprite;
use crate::components::frames_for;
use crate::world::EntityRec;
use crate::world::FrameContext;
use crate::world::SlotState;
use crate::world::World;
use crate::world::WorldView;

verus! {

/// What the animation system does to one slot: an entity with a velocity
/// and an animation advances the frame index by one, modulo the length of
/// the sequence for its current direction, and shows the sprite at the new
/// index. Slots without both components, and slots whose active sequence is
/// empty, are untouched.
pub open spec fn animate_rec(r: EntityRec) -> EntityRec {
    match (r.velocity, r.animation) {
        (Some(v), Some(a)) => {
            if r.state != SlotState::Free && frames_for(a, v.direction).len() > 0 {
                let frames = frames_for(a, v.direction);
                let nf = (((a.current_frame + 1) as int) % (frames.len() as int)) as usize;
                EntityRec {
                    sprite: Some(frames[nf as int]),
                    animation: Some(AnimationView { current_frame: nf, ..a }),
                    ..r
                }
            } else {
                r
            }
        },
        _ => r,
    }
}

pub open spec fn animator_step(w: WorldView) -> WorldView {
    WorldView { slots: Seq::new(w.slots.len(), |i: int| animate_rec(w.slots[i])) }
}

fn animation_slot_mut(animations: &mut Vec<Option<MovementAnimation>>, i: usize) -> (r: &mut
    Option<MovementAnimation>)
    requires
        i < old(animations)@.len(),
    ensures
        *r == old(animations)@[i as int],
        final(animations)@ == old(animations)@.update(i as int, *final(r)),
{
    &mut animations[i]
}

/// Advances every animated entity's displayed sprite once per tick.
pub struct Animator;

impl Animator {
    pub fn run(&self, world: &mut World, _ctx: &FrameContext)
        requires
            old(world).inv(),
        ensures
            final(world).inv(),
            final(world)@ == animator_step(old(world)@),
    {
        let n = world.states.len();
        let mut i: usize = 0;
        while i < n
            invariant
                world.inv(),
                n == world@.slots.len(),
                old(world)@.slots.len() == n,
                i <= n,
                forall|j: int| 0 <= j < i ==> world@.slots[j] == animate_rec(old(world)@.slots[j]),
                forall|j: int| i <= j < n ==> world@.slots[j] == old(world)@.slots[j],
            decreases n - i,
        {
            let st = world.states[i];
            let vopt = world.velocities[i];
            if st != SlotState::Free {
                if let Some(v) = vopt {
                    let mut new_sprite: Option<Sprite> = None;
                    let slot = animation_slot_mut(&mut world.animations, i);
                    match slot {
                        Some(a) => {
                            let len = match v.direction {
                                Direction::Up => a.up_frames.len(),
                                Direction::Down => a.down_frames.len(),
                                Direction::Left => a.left_frames.len(),
                                Direction::Right => a.right_frames.len(),
                            };
                            if len > 0 {
                                let c = a.current_frame;
                                let nf = (c % len + 1) % len;
                                proof {
                                    vstd::arithmetic::div_mod::lemma_add_mod_noop(
                                        c as int,
                                        1int,
                                        len as int,
                                    );
                                    if len > 1 {
                                        vstd::arithmetic::div_mod::lemma_small_mod(
                                            1nat,
                                            len as nat,
                                        );
                                    }
                                    assert(nf == ((c + 1) as int) % (len as int));
                                }
                                a.current_frame = nf;
                                let spr = match v.direction {
                                    Direction::Up => a.up_frames[nf],
                                    Direction::Down => a.down_frames[nf],
                                    Direction::Left => a.left_frames[nf],
                                    Direction::Right => a.right_frames[nf],
                                };
                                new_sprite = Some(spr);
                            }
                        },
                        None => {},
                    }
                    if let Some(spr) = new_sprite {
                        world.sprites.set(i, Some(spr));
                    }
                }
            }
            i += 1;
        }
        proof {
            assert(world@.slots =~= animator_step(old(world)@).slots);
            assert(world@ =~= animator_step(old(world)@));
        }
    }
}

} // verus!
