//! The intent system: movement commands become velocity changes.

use vstd::prelude::*;

use crate::components::Direction;
use crate::components::Velocity;
use crate::world::EntityRec;
use crate::world::FrameContext;
use crate::world::SlotState;
use crate::world::World;
use crate::world::WorldView;

verus! {

/// Speed given to a keyboard-controlled entity while a movement intent is
/// held, in thousandths of a world unit per millisecond.
pub const PLAYER_MOVEMENT_SPEED: u32 = 200;

/// The movement intent the host read from its input device this tick.
#[derive(Debug, Clone, Copy, PartialEq, Eq, Structural)]
pub enum MovementCommand {
    Stop,
    Move(Direction),
}

/// What the intent system does to one slot: a keyboard-controlled entity
/// with a velocity starts moving on `Move`, keeps only its facing on `Stop`,
/// and is left alone when no command arrived; every other slot is untouched.
pub open spec fn keyboard_rec(r: EntityRec, cmd: Option<MovementCommand>) -> EntityRec {
    if r.state != SlotState::Free && r.keyboard_controlled {
        match (cmd, r.velocity) {
            (Some(MovementCommand::Move(d)), Some(_v)) => EntityRec {
                velocity: Some(Velocity { speed: PLAYER_MOVEMENT_SPEED, direction: d }),
                ..r
            },
            (Some(MovementCommand::Stop), Some(v)) => EntityRec {
                velocity: Some(Velocity { speed: 0, direction: v.direction }),
                ..r
            },
            _ => r,
        }
    } else {
        r
    }
}

pub open spec fn keyboard_step(w: WorldView, cmd: Option<MovementCommand>) -> WorldView {
    WorldView { slots: Seq::new(w.slots.len(), |i: int| keyboard_rec(w.slots[i], cmd)) }
}

/// Turns the tick's movement intent into velocity changes.
pub struct Keyboard;

impl Keyboard {
    pub fn run(&self, world: &mut World, ctx: &FrameContext)
        requires
            old(world).inv(),
        ensures
            final(world).inv(),
            final(world)@ == keyboard_step(old(world)@, ctx.movement_command),
    {
        let n = world.states.len();
        let mut i: usize = 0;
        while i < n
            invariant
                world.inv(),
                n == world@.slots.len(),
                old(world)@.slots.len() == n,
                i <= n,
                forall|j: int|
                    0 <= j < i ==> world@.slots[j] == keyboard_rec(
                        old(world)@.slots[j],
                        ctx.movement_command,
                    ),
                forall|j: int| i <= j < n ==> world@.slots[j] == old(world)@.slots[j],
            decreases n - i,
        {
            if world.states[i] != SlotState::Free && world.keyboard_tags[i].is_some() {
                let vopt = world.velocities[i];
                match (ctx.movement_command, vopt) {
                    (Some(MovementCommand::Move(d)), Some(_v)) => {
                        world.velocities.set(
                            i,
                            Some(Velocity { speed: PLAYER_MOVEMENT_SPEED, direction: d }),
                        );
                    },
                    (Some(MovementCommand::Stop), Some(v)) => {
                        world.velocities.set(
                            i,
                            Some(Velocity { speed: 0, direction: v.direction }),
                        );
                    },
                    _ => {},
                }
            }
            i += 1;
        }
        proof {
            assert(world@.slots =~= keyboard_step(old(world)@, ctx.movement_command).slots);
            assert(world@ =~= keyboard_step(old(world)@, ctx.movement_command));
        }
    }
}

} // verus!
