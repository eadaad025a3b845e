//! The physics system: movement prediction, stall detection, bounds
//! clipping, commit, and pickup resolution — all from current-tick data.

use vstd::prelude::*;

use crate::components::Direction;
use crate::components::Position;
use crate::components::Velocity;
use crate::rect::Rect;
use crate::world::EntityRec;
use crate::world::FrameContext;
use crate::world::SlotState;
use crate::world::World;
use crate::world::WorldView;

verus! {

/// The region entities are confined to.
pub type CanvasRegion = Rect;

/// Wall-clock time since the previous tick, in milliseconds.
pub type FrameDuration = u32;

/// How far a velocity carries an entity in `elapsed_ms` milliseconds.
/// Speed is in thousandths of a world unit per millisecond; the product is
/// truncated toward zero.
pub open spec fn displacement(speed: u32, elapsed_ms: u32) -> int {
    (speed * elapsed_ms) / 1000
}

/// Clamps a coordinate to the machine range of `i32`.
pub open spec fn sat_i32(v: int) -> int {
    if v < i32::MIN {
        i32::MIN as int
    } else if v > i32::MAX {
        i32::MAX as int
    } else {
        v
    }
}

/// The candidate rectangle an entity would occupy next tick: its current
/// rectangle offset along its direction of travel. An entity with speed 0
/// predicts to its current rectangle.
pub open spec fn shift_spec(pos: Rect, vel: Velocity, elapsed_ms: u32) -> Rect {
    let d = displacement(vel.speed, elapsed_ms);
    match vel.direction {
        Direction::Left => Rect { x: sat_i32(pos.x - d) as i32, ..pos },
        Direction::Right => Rect { x: sat_i32(pos.x + d) as i32, ..pos },
        Direction::Up => Rect { y: sat_i32(pos.y - d) as i32, ..pos },
        Direction::Down => Rect { y: sat_i32(pos.y + d) as i32, ..pos },
    }
}

fn sat_offset(c: i32, d: u64, toward_negative: bool) -> (r: i32)
    ensures
        r as int == sat_i32(
            if toward_negative {
                c - d
            } else {
                c + d
            },
        ),
{
    if d >= 0x1_0000_0000u64 {
        if toward_negative {
            i32::MIN
        } else {
            i32::MAX
        }
    } else {
        let wide: i64 = if toward_negative {
            c as i64 - d as i64
        } else {
            c as i64 + d as i64
        };
        if wide < i32::MIN as i64 {
            i32::MIN
        } else if wide > i32::MAX as i64 {
            i32::MAX
        } else {
            wide as i32
        }
    }
}

/// Computes the predicted rectangle for one position and velocity.
pub fn shift(pos: &Rect, vel: &Velocity, elapsed_ms: u32) -> (r: Rect)
    ensures
        r == shift_spec(*pos, *vel, elapsed_ms),
{
    proof {
        assert((vel.speed as int) * (elapsed_ms as int) < 0x1_0000_0000_0000_0000int)
            by (nonlinear_arith)
            requires
                0 <= vel.speed < 0x1_0000_0000int,
                0 <= elapsed_ms < 0x1_0000_0000int,
        ;
    }
    let d: u64 = (vel.speed as u64) * (elapsed_ms as u64) / 1000;
    match vel.direction {
        Direction::Left => Rect { x: sat_offset(pos.x, d, true), ..*pos },
        Direction::Right => Rect { x: sat_offset(pos.x, d, false), ..*pos },
        Direction::Up => Rect { y: sat_offset(pos.y, d, true), ..*pos },
        Direction::Down => Rect { y: sat_offset(pos.y, d, false), ..*pos },
    }
}

/// The slot carries an entity that takes part in movement resolution: it is
/// present and has both a position and a velocity.
pub open spec fn moving(w: WorldView, i: int) -> bool {
    &&& w.alive(i)
    &&& w.slots[i].position is Some
    &&& w.slots[i].velocity is Some
}

pub open spec fn predicted(w: WorldView, i: int, elapsed_ms: u32) -> Rect {
    shift_spec(w.slots[i].position.unwrap().0, w.slots[i].velocity.unwrap(), elapsed_ms)
}

/// Some other entity's predicted rectangle overlaps this one's: both ends
/// of every such pair are denied movement this tick, whatever their tags.
pub open spec fn stalled(w: WorldView, i: int, elapsed_ms: u32) -> bool {
    exists|j: int|
        moving(w, j) && j != i && predicted(w, i, elapsed_ms).overlaps(
            predicted(w, j, elapsed_ms),
        )
}

/// The entity both avoids every predicted collision and stays fully inside
/// the viewport, so its predicted rectangle becomes its position.
pub open spec fn may_commit(w: WorldView, i: int, viewport: Rect, elapsed_ms: u32) -> bool {
    &&& moving(w, i)
    &&& !stalled(w, i, elapsed_ms)
    &&& viewport.covers(predicted(w, i, elapsed_ms))
}

/// Entities taking part in pickup resolution.
pub open spec fn tagged(r: EntityRec) -> bool {
    r.item || r.keyboard_controlled || r.enemy
}

/// The entity is tagged and its predicted rectangle overlaps the predicted
/// rectangle of some other tagged entity.
pub open spec fn picked(w: WorldView, i: int, elapsed_ms: u32) -> bool {
    &&& moving(w, i)
    &&& tagged(w.slots[i])
    &&& exists|j: int|
        moving(w, j) && j != i && tagged(w.slots[j]) && predicted(w, i, elapsed_ms).overlaps(
            predicted(w, j, elapsed_ms),
        )
}

/// What one physics tick does to one slot: the position moves to the
/// predicted rectangle exactly when the entity may commit, and an item in a
/// colliding tagged pair is marked for deferred removal.
pub open spec fn physics_rec(w: WorldView, i: int, viewport: Rect, elapsed_ms: u32) -> EntityRec {
    let r = w.slots[i];
    EntityRec {
        position: if may_commit(w, i, viewport, elapsed_ms) {
            Some(Position(predicted(w, i, elapsed_ms)))
        } else {
            r.position
        },
        state: if picked(w, i, elapsed_ms) && r.item {
            SlotState::PendingRemoval
        } else {
            r.state
        },
        ..r
    }
}

pub open spec fn physics_step(w: WorldView, viewport: Rect, elapsed_ms: u32) -> WorldView {
    WorldView { slots: Seq::new(w.slots.len(), |i: int| physics_rec(w, i, viewport, elapsed_ms)) }
}

/// Slot `j` occurs among the first `k` entries of the candidate list.
spec fn in_prefix(c: Seq<usize>, k: int, j: int) -> bool {
    exists|l: int| 0 <= l < k && c[l] as int == j
}

/// Resolves movement and collisions for one tick.
pub struct Physics;

impl Physics {
    #[verifier::rlimit(80)]
    pub fn run(&self, world: &mut World, ctx: &FrameContext)
        requires
            old(world).inv(),
        ensures
            final(world).inv(),
            final(world)@ == physics_step(old(world)@, ctx.viewport, ctx.elapsed_ms),
    {
        let ghost w0 = world@;
        let ms = ctx.elapsed_ms;
        let vp = ctx.viewport;
        let n = world.states.len();

        // Gather every moving entity and its predicted rectangle.
        let mut cand: Vec<usize> = Vec::new();
        let mut dests: Vec<Rect> = Vec::new();
        let mut i: usize = 0;
        while i < n
            invariant
                world.inv(),
                world@ == w0,
                n == w0.slots.len(),
                i <= n,
                cand@.len() == dests@.len(),
                forall|k: int| 0 <= k < cand@.len() ==> (cand@[k] as int) < i,
                forall|k1: int, k2: int|
                    0 <= k1 < k2 < cand@.len() ==> (cand@[k1] as int) < (cand@[k2] as int),
                forall|k: int| #![all_triggers]
                    0 <= k < cand@.len() ==> moving(w0, cand@[k] as int) && dests@[k] == predicted(
                        w0,
                        cand@[k] as int,
                        ms,
                    ),
                forall|j: int| 0 <= j < i && moving(w0, j) ==> cand@.contains(j as usize),
            decreases n - i,
        {
            let ghost cand0 = cand@;
            let ghost dests0 = dests@;
            if world.states[i] != SlotState::Free {
                let popt = world.positions[i];
                let vopt = world.velocities[i];
                if let (Some(p), Some(v)) = (popt, vopt) {
                    let dest = shift(&p.0, &v, ms);
                    cand.push(i);
                    dests.push(dest);
                    proof {
                        assert(cand@ == cand0.push(i));
                        assert(dests@ == dests0.push(dest));
                        assert(cand@[cand0.len() as int] == i);
                        assert(moving(w0, i as int));
                        assert(w0.slots[i as int].position == Some(p));
                        assert(w0.slots[i as int].velocity == Some(v));
                        assert(dest == predicted(w0, i as int, ms));
                        assert forall|k: int| 0 <= k < cand@.len() implies moving(
                            w0,
                            cand@[k] as int,
                        ) && dests@[k] == predicted(w0, cand@[k] as int, ms) by {
                            if k < cand0.len() {
                                assert(cand@[k] == cand0[k]);
                                assert(dests@[k] == dests0[k]);
                            }
                        }
                        assert forall|k1: int, k2: int|
                            0 <= k1 < k2 < cand@.len() implies (cand@[k1] as int) < (
                        cand@[k2] as int) by {
                            if k2 < cand0.len() {
                                assert(cand@[k1] == cand0[k1]);
                                assert(cand@[k2] == cand0[k2]);
                            } else {
                                assert(cand@[k2] == i);
                                assert(cand@[k1] == cand0[k1]);
                                assert((cand0[k1] as int) < i as int);
                            }
                        }
                        assert forall|j: int| 0 <= j < i + 1 && moving(w0, j) implies cand@.contains(
                            j as usize,
                        ) by {
                            if j == i as int {
                                assert(cand@[cand0.len() as int] == i);
                            } else {
                                assert(cand0.contains(j as usize));
                                let l = choose|l: int| 0 <= l < cand0.len() && cand0[l]
                                    == j as usize;
                                assert(cand@[l] == j as usize);
                            }
                        }
                    }
                }
            }
            i += 1;
        }
        let m = cand.len();

        // For each candidate: does its predicted rectangle overlap any other?
        let mut stall: Vec<bool> = Vec::new();
        let mut k: usize = 0;
        while k < m
            invariant
                m == cand@.len(),
                m == dests@.len(),
                stall@.len() == k,
                k <= m,
                forall|k2: int|
                    0 <= k2 < k ==> stall@[k2] == exists|l: int|
                        0 <= l < m && l != k2 && dests@[k2].overlaps(dests@[l]),
            decreases m - k,
        {
            let mut f = false;
            let mut l: usize = 0;
            while l < m
                invariant
                    m == dests@.len(),
                    l <= m,
                    k < m,
                    f == exists|l2: int| 0 <= l2 < l && l2 != k && dests@[k as int].overlaps(dests@[l2]),
                decreases m - l,
            {
                if l != k {
                    let a = dests[k];
                    let b = dests[l];
                    if a.has_intersection(&b) {
                        f = true;
                    }
                }
                l += 1;
            }
            stall.push(f);
            k += 1;
        }

        proof {
            assert forall|k2: int| 0 <= k2 < m implies stall@[k2] == stalled(
                w0,
                cand@[k2] as int,
                ms,
            ) by {
                let idx = cand@[k2] as int;
                if stall@[k2] {
                    let l = choose|l: int| 0 <= l < m && l != k2 && dests@[k2].overlaps(dests@[l]);
                    if l < k2 {
                        assert((cand@[l] as int) < (cand@[k2] as int));
                    } else {
                        assert((cand@[k2] as int) < (cand@[l] as int));
                    }
                    assert(moving(w0, cand@[l] as int) && cand@[l] as int != idx && predicted(
                        w0,
                        idx,
                        ms,
                    ).overlaps(predicted(w0, cand@[l] as int, ms)));
                    assert(stalled(w0, idx, ms));
                }
                if stalled(w0, idx, ms) {
                    let j = choose|j: int|
                        moving(w0, j) && j != idx && predicted(w0, idx, ms).overlaps(
                            predicted(w0, j, ms),
                        );
                    assert(cand@.contains(j as usize));
                    let l = choose|l: int| 0 <= l < cand@.len() && cand@[l] == j as usize;
                    assert(cand@[l] as int == j);
                    assert(l != k2);
                    assert(0 <= l < m && l != k2 && dests@[k2].overlaps(dests@[l]));
                    assert(stall@[k2]);
                }
            }
        }

        // Commit movement for candidates that are unstalled and in bounds.
        k = 0;
        while k < m
            invariant
                world.inv(),
                n == world@.slots.len(),
                n == w0.slots.len(),
                k <= m,
                m == cand@.len(),
                m == dests@.len(),
                m == stall@.len(),
                forall|k1: int, k2: int|
                    0 <= k1 < k2 < cand@.len() ==> (cand@[k1] as int) < (cand@[k2] as int),
                forall|kk: int| #![all_triggers]
                    0 <= kk < cand@.len() ==> moving(w0, cand@[kk] as int) && (cand@[kk] as int) < n
                        && dests@[kk] == predicted(w0, cand@[kk] as int, ms),
                forall|j: int| 0 <= j < n && moving(w0, j) ==> cand@.contains(j as usize),
                forall|k2: int| 0 <= k2 < m ==> stall@[k2] == stalled(w0, cand@[k2] as int, ms),
                forall|j: int|
                    0 <= j < n ==> world@.slots[j].state == w0.slots[j].state
                        && world@.slots[j].velocity == w0.slots[j].velocity
                        && world@.slots[j].sprite == w0.slots[j].sprite
                        && world@.slots[j].animation == w0.slots[j].animation
                        && world@.slots[j].generation == w0.slots[j].generation
                        && world@.slots[j].keyboard_controlled == w0.slots[j].keyboard_controlled
                        && world@.slots[j].enemy == w0.slots[j].enemy && world@.slots[j].item
                        == w0.slots[j].item,
                forall|j: int| #![all_triggers]
                    0 <= j < n && !in_prefix(cand@, k as int, j) ==> world@.slots[j].position
                        == w0.slots[j].position,
                forall|j: int| #![all_triggers]
                    0 <= j < n && in_prefix(cand@, k as int, j) ==> world@.slots[j].position == (
                    if may_commit(w0, j, vp, ms) {
                        Some(Position(predicted(w0, j, ms)))
                    } else {
                        w0.slots[j].position
                    }),
            decreases m - k,
        {
            let idx = cand[k];
            let dk = dests[k];
            if !stall[k] && vp.contains_rect(&dk) {
                world.positions.set(idx, Some(Position(dk)));
            }
            proof {
                assert(may_commit(w0, idx as int, vp, ms) == (!stall@[k as int] && vp.covers(
                    dests@[k as int],
                )));
                assert(!in_prefix(cand@, k as int, idx as int)) by {
                    if in_prefix(cand@, k as int, idx as int) {
                        let l = choose|l: int| 0 <= l < k as int && cand@[l] as int == idx as int;
                        assert((cand@[l] as int) < (cand@[k as int] as int));
                    }
                }
                assert forall|j: int|
                    0 <= j < n && in_prefix(cand@, k as int + 1, j) && j != idx as int implies in_prefix(
                    cand@,
                    k as int,
                    j,
                ) by {
                    let l = choose|l: int| 0 <= l < k as int + 1 && cand@[l] as int == j;
                    assert(l != k as int);
                    assert(0 <= l < k as int && cand@[l] as int == j);
                }
                assert forall|j: int|
                    0 <= j < n && in_prefix(cand@, k as int, j) implies in_prefix(
                    cand@,
                    k as int + 1,
                    j,
                ) by {
                    let l = choose|l: int| 0 <= l < k as int && cand@[l] as int == j;
                    assert(0 <= l < k as int + 1 && cand@[l] as int == j);
                }
                assert(in_prefix(cand@, k as int + 1, idx as int)) by {
                    assert(cand@[k as int] as int == idx as int);
                }
            }
            k += 1;
        }

        proof {
            assert forall|j: int| 0 <= j < n implies world@.slots[j].position == physics_rec(
                w0,
                j,
                vp,
                ms,
            ).position by {
                if moving(w0, j) {
                    assert(cand@.contains(j as usize));
                    let l = choose|l: int| 0 <= l < cand@.len() && cand@[l] == j as usize;
                    assert(in_prefix(cand@, m as int, j)) by {
                        assert(cand@[l] as int == j);
                    }
                } else {
                    assert(!in_prefix(cand@, m as int, j)) by {
                        if in_prefix(cand@, m as int, j) {
                            let l = choose|l: int| 0 <= l < m as int && cand@[l] as int == j;
                            assert(moving(w0, cand@[l] as int));
                        }
                    }
                    assert(!may_commit(w0, j, vp, ms));
                }
            }
        }

        // Which candidates take part in pickup resolution?
        let mut tag: Vec<bool> = Vec::new();
        k = 0;
        while k < m
            invariant
                world.inv(),
                n == world@.slots.len(),
                n == w0.slots.len(),
                k <= m,
                m == cand@.len(),
                tag@.len() == k,
                forall|kk: int| 0 <= kk < cand@.len() ==> (cand@[kk] as int) < n,
                forall|j: int|
                    0 <= j < n ==> world@.slots[j].keyboard_controlled
                        == w0.slots[j].keyboard_controlled && world@.slots[j].enemy
                        == w0.slots[j].enemy && world@.slots[j].item == w0.slots[j].item,
                forall|k2: int| 0 <= k2 < k ==> tag@[k2] == tagged(w0.slots[cand@[k2] as int]),
            decreases m - k,
        {
            let idx = cand[k];
            let t = world.item_tags[idx].is_some() || world.keyboard_tags[idx].is_some()
                || world.enemy_tags[idx].is_some();
            tag.push(t);
            k += 1;
        }

        // A tagged candidate whose prediction overlaps another tagged
        // candidate's prediction is in a colliding pair.
        let mut pick: Vec<bool> = Vec::new();
        k = 0;
        while k < m
            invariant
                m == cand@.len(),
                m == dests@.len(),
                m == tag@.len(),
                pick@.len() == k,
                k <= m,
                forall|k2: int|
                    0 <= k2 < k ==> pick@[k2] == (tag@[k2] && exists|l: int|
                        0 <= l < m && l != k2 && tag@[l] && dests@[k2].overlaps(dests@[l])),
            decreases m - k,
        {
            let mut f = false;
            let mut l: usize = 0;
            while l < m
                invariant
                    m == dests@.len(),
                    m == tag@.len(),
                    l <= m,
                    k < m,
                    f == exists|l2: int|
                        0 <= l2 < l && l2 != k && tag@[l2] && dests@[k as int].overlaps(dests@[l2]),
                decreases m - l,
            {
                if l != k && tag[l] {
                    let a = dests[k];
                    let b = dests[l];
                    if a.has_intersection(&b) {
                        f = true;
                    }
                }
                l += 1;
            }
            let tk = tag[k];
            pick.push(tk && f);
            k += 1;
        }

        proof {
            assert forall|k2: int| 0 <= k2 < m implies pick@[k2] == picked(
                w0,
                cand@[k2] as int,
                ms,
            ) by {
                let idx = cand@[k2] as int;
                if pick@[k2] {
                    let l = choose|l: int|
                        0 <= l < m && l != k2 && tag@[l] && dests@[k2].overlaps(dests@[l]);
                    if l < k2 {
                        assert((cand@[l] as int) < (cand@[k2] as int));
                    } else {
                        assert((cand@[k2] as int) < (cand@[l] as int));
                    }
                    assert(moving(w0, cand@[l] as int) && cand@[l] as int != idx && tagged(
                        w0.slots[cand@[l] as int],
                    ) && predicted(w0, idx, ms).overlaps(predicted(w0, cand@[l] as int, ms)));
                    assert(picked(w0, idx, ms));
                }
                if picked(w0, idx, ms) {
                    let j = choose|j: int|
                        moving(w0, j) && j != idx && tagged(w0.slots[j]) && predicted(
                            w0,
                            idx,
                            ms,
                        ).overlaps(predicted(w0, j, ms));
                    assert(cand@.contains(j as usize));
                    let l = choose|l: int| 0 <= l < cand@.len() && cand@[l] == j as usize;
                    assert(cand@[l] as int == j);
                    assert(l != k2);
                    assert(0 <= l < m && l != k2 && tag@[l] && dests@[k2].overlaps(dests@[l]));
                    assert(pick@[k2]);
                }
            }
        }

        // Destroy (deferred) every item in a colliding tagged pair.
        k = 0;
        while k < m
            invariant
                world.inv(),
                n == world@.slots.len(),
                n == w0.slots.len(),
                k <= m,
                m == cand@.len(),
                m == pick@.len(),
                forall|k1: int, k2: int|
                    0 <= k1 < k2 < cand@.len() ==> (cand@[k1] as int) < (cand@[k2] as int),
                forall|kk: int| #![all_triggers]
                    0 <= kk < cand@.len() ==> moving(w0, cand@[kk] as int) && (cand@[kk] as int) < n,
                forall|j: int| 0 <= j < n && moving(w0, j) ==> cand@.contains(j as usize),
                forall|k2: int| 0 <= k2 < m ==> pick@[k2] == picked(w0, cand@[k2] as int, ms),
                forall|j: int|
                    0 <= j < n ==> world@.slots[j].position == physics_rec(w0, j, vp, ms).position
                        && world@.slots[j].velocity == w0.slots[j].velocity
                        && world@.slots[j].sprite == w0.slots[j].sprite
                        && world@.slots[j].animation == w0.slots[j].animation
                        && world@.slots[j].generation == w0.slots[j].generation
                        && world@.slots[j].keyboard_controlled == w0.slots[j].keyboard_controlled
                        && world@.slots[j].enemy == w0.slots[j].enemy && world@.slots[j].item
                        == w0.slots[j].item,
                forall|j: int| #![all_triggers]
                    0 <= j < n && !in_prefix(cand@, k as int, j) ==> world@.slots[j].state
                        == w0.slots[j].state,
                forall|j: int| #![all_triggers]
                    0 <= j < n && in_prefix(cand@, k as int, j) ==> world@.slots[j].state
                        == physics_rec(w0, j, vp, ms).state,
            decreases m - k,
        {
            let idx = cand[k];
            if pick[k] && world.item_tags[idx].is_some() {
                world.states.set(idx, SlotState::PendingRemoval);
            }
            proof {
                assert(!in_prefix(cand@, k as int, idx as int)) by {
                    if in_prefix(cand@, k as int, idx as int) {
                        let l = choose|l: int| 0 <= l < k as int && cand@[l] as int == idx as int;
                        assert((cand@[l] as int) < (cand@[k as int] as int));
                    }
                }
                assert forall|j: int|
                    0 <= j < n && in_prefix(cand@, k as int + 1, j) && j != idx as int implies in_prefix(
                    cand@,
                    k as int,
                    j,
                ) by {
                    let l = choose|l: int| 0 <= l < k as int + 1 && cand@[l] as int == j;
                    assert(l != k as int);
                    assert(0 <= l < k as int && cand@[l] as int == j);
                }
                assert forall|j: int|
                    0 <= j < n && in_prefix(cand@, k as int, j) implies in_prefix(
                    cand@,
                    k as int + 1,
                    j,
                ) by {
                    let l = choose|l: int| 0 <= l < k as int && cand@[l] as int == j;
                    assert(0 <= l < k as int + 1 && cand@[l] as int == j);
                }
                assert(in_prefix(cand@, k as int + 1, idx as int)) by {
                    assert(cand@[k as int] as int == idx as int);
                }
            }
            k += 1;
        }

        proof {
            assert forall|j: int| 0 <= j < n implies world@.slots[j] == physics_rec(
                w0,
                j,
                vp,
                ms,
            ) by {
                if moving(w0, j) {
                    assert(cand@.contains(j as usize));
                    let l = choose|l: int| 0 <= l < cand@.len() && cand@[l] == j as usize;
                    assert(in_prefix(cand@, m as int, j)) by {
                        assert(0 <= l < m as int && cand@[l] as int == j);
                    }
                } else {
                    assert(!in_prefix(cand@, m as int, j)) by {
                        if in_prefix(cand@, m as int, j) {
                            let l = choose|l: int| 0 <= l < m as int && cand@[l] as int == j;
                            assert(moving(w0, cand@[l] as int));
                        }
                    }
                    assert(!may_commit(w0, j, vp, ms));
                    assert(!picked(w0, j, ms));
                }
            }
            assert(world@.slots =~= physics_step(w0, vp, ms).slots);
            assert(world@ =~= physics_step(w0, vp, ms));
        }
    }
}

} // verus!
