//! World population and the standard four-system pipeline.

use vstd::prelude::*;

use crate::components::AnimationView;
use crate::components::Direction;
use crate::components::Enemy;
use crate::components::Item;
use crate::components::KeyboardControlled;
use crate::components::MovementAnimation;
use crate::components::Position;
use crate::components::Sprite;
use crate::components::Velocity;
use crate::physics::CanvasRegion;
use crate::rect::Rect;
use crate::scheduler::ConfigError;
use crate::scheduler::DataKind;
use crate::scheduler::Dispatcher;
use crate::scheduler::DispatcherBuilder;
use crate::scheduler::SystemKind;
use crate::scheduler::has_unknown_dependency;
use crate::scheduler::has_write_conflict;
use crate::scheduler::name_known;
use crate::scheduler::runs_after;
use crate::scheduler::schedulable;
use crate::scheduler::valid_order;
use crate::scheduler::views;
use crate::world::Entity;
use crate::world::EntityRec;
use crate::world::SlotState;
use crate::world::World;

verus! {

pub open spec fn direction_row(direction: Direction) -> int {
    match direction {
        Direction::Up => 3,
        Direction::Down => 0,
        Direction::Left => 1,
        Direction::Right => 2,
    }
}

/// Which row of a character spritesheet holds the frames for a direction.
pub fn direction_spritesheet_row(direction: Direction) -> (r: i32)
    ensures
        r == direction_row(direction),
{
    match direction {
        Direction::Up => 3,
        Direction::Down => 0,
        Direction::Left => 1,
        Direction::Right => 2,
    }
}

/// Frame `i` of the walking animation read off a spritesheet whose top-left
/// frame is `top_left_frame`: frames of one direction sit in one row.
pub open spec fn animation_frame(
    spritesheet: usize,
    top_left_frame: Rect,
    direction: Direction,
    i: int,
) -> Sprite {
    Sprite {
        spritesheet,
        region: Rect {
            x: (top_left_frame.x + top_left_frame.width * i) as i32,
            y: (top_left_frame.y + top_left_frame.height * direction_row(direction)) as i32,
            width: top_left_frame.width,
            height: top_left_frame.height,
        },
    }
}

pub open spec fn animation_row(spritesheet: usize, top_left_frame: Rect, direction: Direction) -> Seq<
    Sprite,
> {
    Seq::new(3, |i: int| animation_frame(spritesheet, top_left_frame, direction, i))
}

/// The three walking frames for one direction.
pub fn character_animation_frames(
    spritesheet: usize,
    top_left_frame: Rect,
    direction: Direction,
) -> (frames: Vec<Sprite>)
    requires
        top_left_frame.x + 2 * top_left_frame.width <= i32::MAX,
        top_left_frame.y + 3 * top_left_frame.height <= i32::MAX,
    ensures
        frames@ == animation_row(spritesheet, top_left_frame, direction),
{
    let fw = top_left_frame.width;
    let fh = top_left_frame.height;
    let y_offset: i32 = match direction {
        Direction::Up => ((top_left_frame.y as i64) + 3 * (fh as i64)) as i32,
        Direction::Down => top_left_frame.y,
        Direction::Left => ((top_left_frame.y as i64) + (fh as i64)) as i32,
        Direction::Right => ((top_left_frame.y as i64) + 2 * (fh as i64)) as i32,
    };
    let x0: i32 = top_left_frame.x;
    let x1: i32 = ((top_left_frame.x as i64) + (fw as i64)) as i32;
    let x2: i32 = ((top_left_frame.x as i64) + 2 * (fw as i64)) as i32;
    let mut frames: Vec<Sprite> = Vec::new();
    frames.push(Sprite { spritesheet, region: Rect { x: x0, y: y_offset, width: fw, height: fh } });
    frames.push(Sprite { spritesheet, region: Rect { x: x1, y: y_offset, width: fw, height: fh } });
    frames.push(Sprite { spritesheet, region: Rect { x: x2, y: y_offset, width: fw, height: fh } });
    proof {
        assert(frames@.len() == 3);
        assert(frames@[0] == animation_frame(spritesheet, top_left_frame, direction, 0));
        assert(frames@[1] == animation_frame(spritesheet, top_left_frame, direction, 1));
        assert(frames@[2] == animation_frame(spritesheet, top_left_frame, direction, 2));
        assert(frames@ =~= animation_row(spritesheet, top_left_frame, direction));
    }
    frames
}

/// The record a freshly initialized player entity carries.
pub open spec fn player_start_rec(spritesheet: usize, generation: u64) -> EntityRec {
    let top = Rect { x: 0, y: 0, width: 26, height: 36 };
    EntityRec {
        generation,
        state: SlotState::Live,
        position: Some(Position(Rect { x: -13i32, y: -18i32, width: 26, height: 36 })),
        velocity: Some(Velocity { speed: 0, direction: Direction::Right }),
        sprite: Some(animation_frame(spritesheet, top, Direction::Right, 0)),
        animation: Some(
            AnimationView {
                current_frame: 0,
                up_frames: animation_row(spritesheet, top, Direction::Up),
                down_frames: animation_row(spritesheet, top, Direction::Down),
                left_frames: animation_row(spritesheet, top, Direction::Left),
                right_frames: animation_row(spritesheet, top, Direction::Right),
            },
        ),
        keyboard_controlled: true,
        enemy: false,
        item: false,
    }
}

/// Creates the keyboard-controlled entity at the world origin.
pub fn initialize_player(world: &mut World, player_spritesheet: usize) -> (e: Entity)
    requires
        old(world).inv(),
    ensures
        final(world).inv(),
        final(world)@.valid(e),
        final(world)@.rec(e) == player_start_rec(player_spritesheet, e.generation),
        forall|j: int|
            0 <= j < old(world)@.slots.len() && j != e.index ==> final(world)@.slots[j]
                == old(world)@.slots[j],
        old(world)@.slots.len() <= final(world)@.slots.len() <= old(world)@.slots.len() + 1,
    {
    let top = Rect::new(0, 0, 26, 36);
    let e = world.create_entity();
    world.insert_keyboard_controlled(e, KeyboardControlled);
    world.insert_position(e, Position(Rect::from_center(0, 0, 26, 36)));
    world.insert_velocity(e, Velocity { speed: 0, direction: Direction::Right });
    let up_frames = character_animation_frames(player_spritesheet, top, Direction::Up);
    let down_frames = character_animation_frames(player_spritesheet, top, Direction::Down);
    let left_frames = character_animation_frames(player_spritesheet, top, Direction::Left);
    let right_frames = character_animation_frames(player_spritesheet, top, Direction::Right);
    let first = right_frames[0];
    world.insert_sprite(e, first);
    let anim = MovementAnimation { current_frame: 0, up_frames, down_frames, left_frames, right_frames };
    world.insert_animation(e, anim);
    e
}

/// The record a freshly initialized enemy entity carries.
pub open spec fn enemy_start_rec(spritesheet: usize, cx: int, cy: int, generation: u64) -> EntityRec {
    let top = Rect { x: 0, y: 0, width: 32, height: 36 };
    EntityRec {
        generation,
        state: SlotState::Live,
        position: Some(
            Position(Rect { x: (cx - 16) as i32, y: (cy - 18) as i32, width: 32, height: 36 }),
        ),
        velocity: Some(Velocity { speed: 0, direction: Direction::Right }),
        sprite: Some(animation_frame(spritesheet, top, Direction::Right, 0)),
        animation: Some(
            AnimationView {
                current_frame: 0,
                up_frames: animation_row(spritesheet, top, Direction::Up),
                down_frames: animation_row(spritesheet, top, Direction::Down),
                left_frames: animation_row(spritesheet, top, Direction::Left),
                right_frames: animation_row(spritesheet, top, Direction::Right),
            },
        ),
        keyboard_controlled: false,
        enemy: true,
        item: false,
    }
}

/// Creates an enemy entity centered at `(cx, cy)`.
pub fn initialize_enemy(world: &mut World, enemy_spritesheet: usize, cx: i32, cy: i32) -> (e:
    Entity)
    requires
        old(world).inv(),
        i32::MIN + 16 <= cx,
        i32::MIN + 18 <= cy,
    ensures
        final(world).inv(),
        final(world)@.valid(e),
        final(world)@.rec(e) == enemy_start_rec(enemy_spritesheet, cx as int, cy as int, e.generation),
        forall|j: int|
            0 <= j < old(world)@.slots.len() && j != e.index ==> final(world)@.slots[j]
                == old(world)@.slots[j],
        old(world)@.slots.len() <= final(world)@.slots.len() <= old(world)@.slots.len() + 1,
    {
    let top = Rect::new(0, 0, 32, 36);
    let e = world.create_entity();
    world.insert_enemy(e, Enemy);
    world.insert_position(e, Position(Rect::from_center(cx, cy, 32, 36)));
    world.insert_velocity(e, Velocity { speed: 0, direction: Direction::Right });
    let up_frames = character_animation_frames(enemy_spritesheet, top, Direction::Up);
    let down_frames = character_animation_frames(enemy_spritesheet, top, Direction::Down);
    let left_frames = character_animation_frames(enemy_spritesheet, top, Direction::Left);
    let right_frames = character_animation_frames(enemy_spritesheet, top, Direction::Right);
    let first = right_frames[0];
    world.insert_sprite(e, first);
    let anim = MovementAnimation { current_frame: 0, up_frames, down_frames, left_frames, right_frames };
    world.insert_animation(e, anim);
    e
}

/// The record a freshly initialized item entity carries.
pub open spec fn item_start_rec(spritesheet: usize, cx: int, cy: int, generation: u64) -> EntityRec {
    EntityRec {
        generation,
        state: SlotState::Live,
        position: Some(
            Position(Rect { x: (cx - 6) as i32, y: (cy - 11) as i32, width: 12, height: 23 }),
        ),
        velocity: Some(Velocity { speed: 0, direction: Direction::Right }),
        sprite: Some(Sprite { spritesheet, region: Rect { x: 18, y: 112, width: 12, height: 23 } }),
        animation: None,
        keyboard_controlled: false,
        enemy: false,
        item: true,
    }
}

/// Creates a collectable item entity centered at `(cx, cy)`.
pub fn initialize_item(world: &mut World, item_spritesheet: usize, cx: i32, cy: i32) -> (e: Entity)
    requires
        old(world).inv(),
        i32::MIN + 6 <= cx,
        i32::MIN + 11 <= cy,
    ensures
        final(world).inv(),
        final(world)@.valid(e),
        final(world)@.rec(e) == item_start_rec(item_spritesheet, cx as int, cy as int, e.generation),
        forall|j: int|
            0 <= j < old(world)@.slots.len() && j != e.index ==> final(world)@.slots[j]
                == old(world)@.slots[j],
        old(world)@.slots.len() <= final(world)@.slots.len() <= old(world)@.slots.len() + 1,
    {
    let e = world.create_entity();
    world.insert_item(e, Item);
    world.insert_position(e, Position(Rect::from_center(cx, cy, 12, 23)));
    world.insert_velocity(e, Velocity { speed: 0, direction: Direction::Right });
    world.insert_sprite(
        e,
        Sprite { spritesheet: item_spritesheet, region: Rect::new(18, 112, 12, 23) },
    );
    e
}

/// The viewport rectangle for a drawable surface of the given size, with
/// the world origin mapped to its center.
pub fn canvas_rect(width: u32, height: u32) -> (r: CanvasRegion)
    ensures
        r.x == 0 - width / 2,
        r.y == 0 - height / 2,
        r.width == width,
        r.height == height,
{
    Rect::from_center(0, 0, width, height)
}

/// The standard pipeline: intent and behavior first, then movement and
/// animation, which both wait for the first two. Building it always
/// succeeds.
pub fn standard_dispatcher() -> (r: Result<Dispatcher, ConfigError>)
    ensures
        r is Ok,
        r matches Ok(d) ==> {
            &&& d.wf()
            &&& d.systems@.len() == 4
            &&& views(d.systems@)[0].kind == SystemKind::Intent
            &&& views(d.systems@)[1].kind == SystemKind::Behavior
            &&& views(d.systems@)[2].kind == SystemKind::Movement
            &&& views(d.systems@)[3].kind == SystemKind::Animation
        },
{
    let builder = DispatcherBuilder::new().with(
        SystemKind::Intent,
        String::from_str("Keyboard"),
        vec![DataKind::MovementIntent, DataKind::KeyboardTags],
        vec![DataKind::Velocities],
        Vec::new(),
    ).with(
        SystemKind::Behavior,
        String::from_str("Ai"),
        vec![DataKind::EnemyTags],
        Vec::new(),
        Vec::new(),
    ).with(
        SystemKind::Movement,
        String::from_str("Physics"),
        vec![
            DataKind::Velocities,
            DataKind::KeyboardTags,
            DataKind::EnemyTags,
            DataKind::ItemTags,
            DataKind::ViewportRegion,
            DataKind::ElapsedTime,
        ],
        vec![DataKind::Positions, DataKind::EntityLiveness],
        vec![String::from_str("Keyboard"), String::from_str("Ai")],
    ).with(
        SystemKind::Animation,
        String::from_str("Animator"),
        vec![DataKind::Velocities],
        vec![DataKind::Sprites, DataKind::Animations],
        vec![String::from_str("Keyboard"), String::from_str("Ai")],
    );
    proof {
        reveal_strlit("Keyboard");
        reveal_strlit("Ai");
        reveal_strlit("Physics");
        reveal_strlit("Animator");
        let s = views(builder.systems@);
        assert(s.len() == 4);
        assert(s[0].name == "Keyboard"@ && s[0].after.len() == 0);
        assert(s[1].name == "Ai"@ && s[1].after.len() == 0);
        assert(s[2].name == "Physics"@ && s[2].after =~= seq!["Keyboard"@, "Ai"@]);
        assert(s[3].name == "Animator"@ && s[3].after =~= seq!["Keyboard"@, "Ai"@]);
        assert(s[0].writes =~= seq![DataKind::Velocities]);
        assert(s[1].writes =~= Seq::<DataKind>::empty());
        assert(s[2].writes =~= seq![DataKind::Positions, DataKind::EntityLiveness]);
        assert(s[3].writes =~= seq![DataKind::Sprites, DataKind::Animations]);
        assert(name_known(s, "Keyboard"@)) by {
            assert(s[0].name == "Keyboard"@);
        }
        assert(name_known(s, "Ai"@)) by {
            assert(s[1].name == "Ai"@);
        }
        assert(!has_unknown_dependency(s)) by {
            if has_unknown_dependency(s) {
                let (i, t) = choose|i: int, t: int|
                    0 <= i < s.len() && 0 <= t < s[i].after.len() && !name_known(s, s[i].after[t]);
                assert(i == 0 || i == 1 || i == 2 || i == 3);
                assert(i == 2 || i == 3);
                assert(t == 0 || t == 1);
                assert(s[i].after[t] == "Keyboard"@ || s[i].after[t] == "Ai"@);
                assert(false);
            }
        }
        assert(!has_write_conflict(s)) by {
            if has_write_conflict(s) {
                let (i, j) = choose|i: int, j: int| crate::scheduler::conflict_pair(s, i, j);
                assert(i == 0 || i == 1 || i == 2 || i == 3);
                assert(j == 0 || j == 1 || j == 2 || j == 3);
                let x = choose|x: DataKind| s[i].writes.contains(x) && s[j].writes.contains(x);
                let u = choose|u: int| 0 <= u < s[i].writes.len() && s[i].writes[u] == x;
                let v = choose|v: int| 0 <= v < s[j].writes.len() && s[j].writes[v] == x;
                assert(u == 0 || u == 1);
                assert(v == 0 || v == 1);
                assert(false);
            }
        }
        let ord = seq![0usize, 1usize, 2usize, 3usize];
        assert(valid_order(s, ord)) by {
            assert(ord.contains(0usize)) by {
                assert(ord[0] == 0usize);
            }
            assert(ord.contains(1usize)) by {
                assert(ord[1] == 1usize);
            }
            assert(ord.contains(2usize)) by {
                assert(ord[2] == 2usize);
            }
            assert(ord.contains(3usize)) by {
                assert(ord[3] == 3usize);
            }
            assert forall|v: int| 0 <= v < s.len() implies ord.contains(#[trigger] (v as usize)) by {
                assert(v == 0 || v == 1 || v == 2 || v == 3);
            }
            assert forall|p: int, q: int|
                0 <= p < ord.len() && 0 <= q < ord.len() && #[trigger] runs_after(
                    s,
                    ord[p] as int,
                    ord[q] as int,
                ) implies q < p by {
                reveal_strlit("Keyboard");
                reveal_strlit("Ai");
                reveal_strlit("Physics");
                reveal_strlit("Animator");
                assert(p == 0 || p == 1 || p == 2 || p == 3);
                assert(q == 0 || q == 1 || q == 2 || q == 3);
                assert(ord[p] as int == p && ord[q] as int == q);
                assert(s[p].after.contains(s[q].name));
                if p == 0 || p == 1 {
                    assert(false);
                } else {
                    let t = choose|t: int|
                        0 <= t < s[p].after.len() && s[p].after[t] == s[q].name;
                    assert(t == 0 || t == 1);
                    assert(s[q].name == "Keyboard"@ || s[q].name == "Ai"@);
                    assert("Animator"@[0] == 'A' && "Keyboard"@[0] == 'K');
                    assert("Physics"@ != "Keyboard"@);
                    assert("Physics"@ != "Ai"@);
                    assert("Animator"@ != "Keyboard"@);
                    assert("Animator"@ != "Ai"@);
                    assert(q == 0 || q == 1);
                }
            }
        }
        assert(schedulable(s));
    }
    builder.build()
}

} // verus!
