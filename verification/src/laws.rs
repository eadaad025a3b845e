//! Library-wide laws, stated once over the system step functions and
//! proved for every world and every input.

use vstd::prelude::*;

use crate::animator::animate_rec;
use crate::animator::animator_step;
use crate::components::Position;
use crate::components::Velocity;
use crate::keyboard::MovementCommand;
use crate::keyboard::keyboard_rec;
use crate::keyboard::keyboard_step;
use crate::physics::displacement;
use crate::physics::may_commit;
use crate::physics::moving;
use crate::physics::physics_rec;
use crate::physics::physics_step;
use crate::physics::picked;
use crate::physics::predicted;
use crate::physics::shift_spec;
use crate::physics::stalled;
use crate::physics::tagged;
use crate::rect::Rect;
use crate::scheduler::Dispatcher;
use crate::scheduler::runs_after;
use crate::world::SlotState;
use crate::world::WorldView;
use crate::world::maintain_spec;

verus! {

/// No drift: an entity with speed 0 predicts exactly its current
/// rectangle.
pub proof fn lemma_zero_speed_no_drift(pos: Rect, vel: Velocity, elapsed_ms: u32)
    requires
        vel.speed == 0,
    ensures
        shift_spec(pos, vel, elapsed_ms) == pos,
{
    assert(displacement(0, elapsed_ms) == 0);
}

/// Stalling is symmetric: when the predicted rectangles of two entities
/// overlap, both are stalled, whatever their registration order.
pub proof fn lemma_stall_symmetric(w: WorldView, a: int, b: int, elapsed_ms: u32)
    requires
        moving(w, a),
        moving(w, b),
        a != b,
        predicted(w, a, elapsed_ms).overlaps(predicted(w, b, elapsed_ms)),
    ensures
        stalled(w, a, elapsed_ms),
        stalled(w, b, elapsed_ms),
{
    assert(stalled(w, a, elapsed_ms)) by {
        assert(moving(w, b) && b != a && predicted(w, a, elapsed_ms).overlaps(
            predicted(w, b, elapsed_ms),
        ));
    }
    assert(stalled(w, b, elapsed_ms)) by {
        assert(moving(w, a) && a != b && predicted(w, b, elapsed_ms).overlaps(
            predicted(w, a, elapsed_ms),
        ));
    }
}

/// Stopping is idempotent: a second `Stop` in a row changes nothing, and
/// the facing direction survives both applications.
pub proof fn lemma_stop_idempotent(w: WorldView)
    ensures
        keyboard_step(keyboard_step(w, Some(MovementCommand::Stop)), Some(MovementCommand::Stop))
            == keyboard_step(w, Some(MovementCommand::Stop)),
        forall|i: int| #![all_triggers]
            0 <= i < w.slots.len() && w.slots[i].velocity is Some ==> keyboard_step(
                w,
                Some(MovementCommand::Stop),
            ).slots[i].velocity is Some && keyboard_step(
                w,
                Some(MovementCommand::Stop),
            ).slots[i].velocity.unwrap().direction == w.slots[i].velocity.unwrap().direction,
{
    let w1 = keyboard_step(w, Some(MovementCommand::Stop));
    let w2 = keyboard_step(w1, Some(MovementCommand::Stop));
    assert forall|i: int| 0 <= i < w.slots.len() implies w2.slots[i] == w1.slots[i] by {
        assert(w1.slots[i] == keyboard_rec(w.slots[i], Some(MovementCommand::Stop)));
        assert(w2.slots[i] == keyboard_rec(w1.slots[i], Some(MovementCommand::Stop)));
    }
    assert(w2.slots =~= w1.slots);
    assert(w2 =~= w1);
}

/// Bounds clipping: an unstalled entity whose predicted rectangle stays
/// inside the viewport — touching its border from the inside included —
/// moves there; one whose prediction leaves the viewport by any amount
/// keeps its position.
pub proof fn lemma_bounds_clipping(w: WorldView, i: int, viewport: Rect, elapsed_ms: u32)
    requires
        moving(w, i),
        !stalled(w, i, elapsed_ms),
    ensures
        viewport.covers(predicted(w, i, elapsed_ms)) ==> physics_step(
            w,
            viewport,
            elapsed_ms,
        ).slots[i].position == Some(Position(predicted(w, i, elapsed_ms))),
        !viewport.covers(predicted(w, i, elapsed_ms)) ==> physics_step(
            w,
            viewport,
            elapsed_ms,
        ).slots[i].position == w.slots[i].position,
{
    assert(physics_step(w, viewport, elapsed_ms).slots[i] == physics_rec(
        w,
        i,
        viewport,
        elapsed_ms,
    ));
}

/// Pickup: an item whose predicted rectangle overlaps the predicted
/// rectangle of another tagged entity is gone — slot freed, components
/// cleared — once the tick's `maintain` has run.
pub proof fn lemma_pickup_destroys_item(
    w: WorldView,
    i: int,
    j: int,
    viewport: Rect,
    elapsed_ms: u32,
)
    requires
        moving(w, i),
        w.slots[i].item,
        moving(w, j),
        tagged(w.slots[j]),
        j != i,
        predicted(w, i, elapsed_ms).overlaps(predicted(w, j, elapsed_ms)),
    ensures
        maintain_spec(physics_step(w, viewport, elapsed_ms)).slots[i].state == SlotState::Free,
        maintain_spec(physics_step(w, viewport, elapsed_ms)).slots[i].position is None,
        maintain_spec(physics_step(w, viewport, elapsed_ms)).slots[i].sprite is None,
{
    assert(picked(w, i, elapsed_ms)) by {
        assert(moving(w, j) && j != i && tagged(w.slots[j]) && predicted(
            w,
            i,
            elapsed_ms,
        ).overlaps(predicted(w, j, elapsed_ms)));
    }
    let stepped = physics_step(w, viewport, elapsed_ms);
    assert(stepped.slots[i] == physics_rec(w, i, viewport, elapsed_ms));
    assert(stepped.slots[i].state == SlotState::PendingRemoval);
}

/// A live item that overlaps no other tagged entity's prediction survives
/// the tick: it is still live, and still an item, after `maintain`.
pub proof fn lemma_item_survives(w: WorldView, i: int, viewport: Rect, elapsed_ms: u32)
    requires
        0 <= i < w.slots.len(),
        w.slots[i].item,
        w.slots[i].state == SlotState::Live,
        forall|j: int| #![all_triggers]
            moving(w, j) && j != i && tagged(w.slots[j]) ==> !predicted(
                w,
                i,
                elapsed_ms,
            ).overlaps(predicted(w, j, elapsed_ms)),
    ensures
        maintain_spec(physics_step(w, viewport, elapsed_ms)).slots[i].state == SlotState::Live,
        maintain_spec(physics_step(w, viewport, elapsed_ms)).slots[i].item,
{
    assert(!picked(w, i, elapsed_ms)) by {
        if picked(w, i, elapsed_ms) {
            let j = choose|j: int|
                moving(w, j) && j != i && tagged(w.slots[j]) && predicted(
                    w,
                    i,
                    elapsed_ms,
                ).overlaps(predicted(w, j, elapsed_ms));
            assert(!predicted(w, i, elapsed_ms).overlaps(predicted(w, j, elapsed_ms)));
        }
    }
    let stepped = physics_step(w, viewport, elapsed_ms);
    assert(stepped.slots[i] == physics_rec(w, i, viewport, elapsed_ms));
    assert(stepped.slots[i].state == SlotState::Live);
}

/// The one unordered pair of the standard pipeline commutes: running the
/// movement system and the animation system in either order gives the same
/// world, because animation never touches what movement reads and the
/// other way round. Executing them concurrently therefore cannot change
/// final component values.
pub proof fn lemma_movement_animation_commute(w: WorldView, viewport: Rect, elapsed_ms: u32)
    ensures
        animator_step(physics_step(w, viewport, elapsed_ms)) == physics_step(
            animator_step(w),
            viewport,
            elapsed_ms,
        ),
{
    let wa = animator_step(w);
    let wp = physics_step(w, viewport, elapsed_ms);
    let n = w.slots.len() as int;
    assert forall|i: int| 0 <= i < n implies wa.slots[i].position == w.slots[i].position
        && wa.slots[i].velocity == w.slots[i].velocity && wa.slots[i].state == w.slots[i].state
        && wa.slots[i].item == w.slots[i].item && wa.slots[i].keyboard_controlled
        == w.slots[i].keyboard_controlled && wa.slots[i].enemy == w.slots[i].enemy by {
        assert(wa.slots[i] == animate_rec(w.slots[i]));
    }
    assert forall|i: int| 0 <= i < n implies moving(wa, i) == moving(w, i) && tagged(wa.slots[i])
        == tagged(w.slots[i]) && predicted(wa, i, elapsed_ms) == predicted(w, i, elapsed_ms) by {}
    assert forall|i: int| 0 <= i < n implies stalled(wa, i, elapsed_ms) == stalled(
        w,
        i,
        elapsed_ms,
    ) by {
        if stalled(wa, i, elapsed_ms) {
            let j = choose|j: int|
                moving(wa, j) && j != i && predicted(wa, i, elapsed_ms).overlaps(
                    predicted(wa, j, elapsed_ms),
                );
            assert(moving(w, j) && j != i && predicted(w, i, elapsed_ms).overlaps(
                predicted(w, j, elapsed_ms),
            ));
        }
        if stalled(w, i, elapsed_ms) {
            let j = choose|j: int|
                moving(w, j) && j != i && predicted(w, i, elapsed_ms).overlaps(
                    predicted(w, j, elapsed_ms),
                );
            assert(moving(wa, j) && j != i && predicted(wa, i, elapsed_ms).overlaps(
                predicted(wa, j, elapsed_ms),
            ));
        }
    }
    assert forall|i: int| 0 <= i < n implies picked(wa, i, elapsed_ms) == picked(
        w,
        i,
        elapsed_ms,
    ) by {
        if picked(wa, i, elapsed_ms) {
            let j = choose|j: int|
                moving(wa, j) && j != i && tagged(wa.slots[j]) && predicted(
                    wa,
                    i,
                    elapsed_ms,
                ).overlaps(predicted(wa, j, elapsed_ms));
            assert(moving(w, j) && j != i && tagged(w.slots[j]) && predicted(
                w,
                i,
                elapsed_ms,
            ).overlaps(predicted(w, j, elapsed_ms)));
        }
        if picked(w, i, elapsed_ms) {
            let j = choose|j: int|
                moving(w, j) && j != i && tagged(w.slots[j]) && predicted(
                    w,
                    i,
                    elapsed_ms,
                ).overlaps(predicted(w, j, elapsed_ms));
            assert(moving(wa, j) && j != i && tagged(wa.slots[j]) && predicted(
                wa,
                i,
                elapsed_ms,
            ).overlaps(predicted(wa, j, elapsed_ms)));
        }
    }
    assert forall|i: int| 0 <= i < n implies animator_step(wp).slots[i] == physics_step(
        wa,
        viewport,
        elapsed_ms,
    ).slots[i] by {
        let pr = physics_rec(w, i, viewport, elapsed_ms);
        assert(animator_step(wp).slots[i] == animate_rec(pr));
        assert(physics_step(wa, viewport, elapsed_ms).slots[i] == physics_rec(
            wa,
            i,
            viewport,
            elapsed_ms,
        ));
        assert((pr.state != SlotState::Free) == (w.slots[i].state != SlotState::Free));
        assert(may_commit(wa, i, viewport, elapsed_ms) == may_commit(w, i, viewport, elapsed_ms));
    }
    assert(animator_step(wp).slots =~= physics_step(wa, viewport, elapsed_ms).slots);
    assert(animator_step(wp) =~= physics_step(wa, viewport, elapsed_ms));
}

/// Scheduler ordering: any dispatcher that `build` accepts places a system
/// strictly after every system named in its runs-after list. Dispatch
/// itself is pinned to strict sequential execution in that order by its
/// contract, so a concurrent implementation cannot change observable
/// results.
pub proof fn lemma_order_respects_runs_after(d: Dispatcher, p: int, q: int)
    requires
        d.wf(),
        0 <= p < d.order@.len(),
        0 <= q < d.order@.len(),
        runs_after(d.decls(), d.order@[p] as int, d.order@[q] as int),
    ensures
        q < p,
{
}

} // verus!
