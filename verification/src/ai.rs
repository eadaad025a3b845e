//! The behavior system: a hook for scripted velocity changes.

use vstd::prelude::*;

use crate::world::FrameContext;
use crate::world::World;

verus! {

/// Placeholder for non-player behavior on enemy entities. It changes
/// nothing yet; an extension that writes velocities must also declare that
/// write set to the scheduler and order itself against the other writers.
pub struct Ai;

impl Ai {
    pub fn run(&self, world: &mut World, _ctx: &FrameContext)
        requires
            old(world).inv(),
        ensures
            final(world).inv(),
            final(world)@ == old(world)@,
    {
    }
}

} // verus!
