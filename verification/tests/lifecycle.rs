use simcore::ai::Ai;
use simcore::animator::Animator;
use simcore::components::Direction;
use simcore::components::MovementAnimation;
use simcore::components::Position;
use simcore::components::Sprite;
use simcore::components::Velocity;
use simcore::keyboard::Keyboard;
use simcore::keyboard::MovementCommand;
use simcore::keyboard::PLAYER_MOVEMENT_SPEED;
use simcore::physics::shift;
use simcore::rect::Rect;
use simcore::setup::canvas_rect;
use simcore::setup::character_animation_frames;
use simcore::setup::direction_spritesheet_row;
use simcore::setup::initialize_player;
use simcore::world::FrameContext;
use simcore::world::World;

fn ctx(cmd: Option<MovementCommand>) -> FrameContext {
    FrameContext { movement_command: cmd, viewport: canvas_rect(350, 350), elapsed_ms: 50 }
}

#[test]
fn zero_speed_never_drifts() {
    let r = Rect::new(-40, 7, 26, 36);
    for direction in [Direction::Up, Direction::Down, Direction::Left, Direction::Right] {
        assert_eq!(shift(&r, &Velocity { speed: 0, direction }, 1000), r);
    }
}

#[test]
fn displacement_is_truncated_toward_zero() {
    let r = Rect::new(0, 0, 10, 10);
    // 123 thousandths of a unit per ms for 7 ms is 0.861 units: truncated away
    assert_eq!(shift(&r, &Velocity { speed: 123, direction: Direction::Right }, 7), r);
    // 999 thousandths for 999 ms is 998.001 units: 998 whole units remain
    assert_eq!(
        shift(&r, &Velocity { speed: 999, direction: Direction::Left }, 999),
        Rect::new(-998, 0, 10, 10)
    );
}

#[test]
fn stop_is_idempotent_and_keeps_facing() {
    let mut world = World::new();
    let player = initialize_player(&mut world, 0);
    world.insert_velocity(player, Velocity { speed: 200, direction: Direction::Up });
    let keyboard = Keyboard;
    keyboard.run(&mut world, &ctx(Some(MovementCommand::Stop)));
    let once = world.get_velocity(player).unwrap();
    assert_eq!(once, Velocity { speed: 0, direction: Direction::Up });
    keyboard.run(&mut world, &ctx(Some(MovementCommand::Stop)));
    assert_eq!(world.get_velocity(player).unwrap(), once);
}

#[test]
fn movement_command_sets_the_player_speed() {
    let mut world = World::new();
    let player = initialize_player(&mut world, 0);
    let keyboard = Keyboard;
    keyboard.run(&mut world, &ctx(Some(MovementCommand::Move(Direction::Left))));
    assert_eq!(
        world.get_velocity(player).unwrap(),
        Velocity { speed: PLAYER_MOVEMENT_SPEED, direction: Direction::Left }
    );
    // no command this tick: the velocity is untouched
    keyboard.run(&mut world, &ctx(None));
    assert_eq!(
        world.get_velocity(player).unwrap(),
        Velocity { speed: PLAYER_MOVEMENT_SPEED, direction: Direction::Left }
    );
}

#[test]
fn behavior_system_changes_nothing() {
    let mut world = World::new();
    let player = initialize_player(&mut world, 0);
    let before = world.get_velocity(player).unwrap();
    let ai = Ai;
    ai.run(&mut world, &ctx(None));
    assert_eq!(world.get_velocity(player).unwrap(), before);
    assert_eq!(world.get_position(player).unwrap(), Position(Rect::new(-13, -18, 26, 36)));
}

#[test]
fn animation_advances_one_frame_per_tick() {
    let mut world = World::new();
    let e = world.create_entity();
    world.insert_velocity(e, Velocity { speed: 0, direction: Direction::Right });
    let frames = character_animation_frames(5, Rect::new(0, 0, 26, 36), Direction::Right);
    let expected_second = frames[1];
    let expected_third = frames[2];
    let expected_first = frames[0];
    world.insert_animation(
        e,
        MovementAnimation {
            current_frame: 0,
            up_frames: character_animation_frames(5, Rect::new(0, 0, 26, 36), Direction::Up),
            down_frames: character_animation_frames(5, Rect::new(0, 0, 26, 36), Direction::Down),
            left_frames: character_animation_frames(5, Rect::new(0, 0, 26, 36), Direction::Left),
            right_frames: frames,
        },
    );
    let animator = Animator;
    animator.run(&mut world, &ctx(None));
    assert_eq!(world.get_sprite(e).unwrap(), expected_second);
    animator.run(&mut world, &ctx(None));
    assert_eq!(world.get_sprite(e).unwrap(), expected_third);
    animator.run(&mut world, &ctx(None));
    // the frame index wraps around modulo the sequence length
    assert_eq!(world.get_sprite(e).unwrap(), expected_first);
}

#[test]
fn spritesheet_rows_follow_the_direction() {
    assert_eq!(direction_spritesheet_row(Direction::Down), 0);
    assert_eq!(direction_spritesheet_row(Direction::Left), 1);
    assert_eq!(direction_spritesheet_row(Direction::Right), 2);
    assert_eq!(direction_spritesheet_row(Direction::Up), 3);
    let frames = character_animation_frames(1, Rect::new(0, 0, 26, 36), Direction::Up);
    assert_eq!(frames.len(), 3);
    assert_eq!(frames[0], Sprite { spritesheet: 1, region: Rect::new(0, 108, 26, 36) });
    assert_eq!(frames[2], Sprite { spritesheet: 1, region: Rect::new(52, 108, 26, 36) });
}

#[test]
fn destruction_is_deferred_until_maintain() {
    let mut world = World::new();
    let e = world.create_entity();
    world.insert_position(e, Position(Rect::new(0, 0, 5, 5)));
    world.destroy(e);
    // the removal stays invisible within the tick
    assert!(world.get_position(e).is_some());
    world.maintain();
    assert!(world.get_position(e).is_none());
    assert!(world.entity_at(e.index).is_none());
}

#[test]
fn slots_are_recycled_with_a_new_generation() {
    let mut world = World::new();
    let first = world.create_entity();
    world.insert_position(first, Position(Rect::new(1, 1, 1, 1)));
    world.destroy(first);
    world.maintain();
    let second = world.create_entity();
    assert_eq!(second.index, first.index);
    assert_ne!(second.generation, first.generation);
    // the stale handle reaches nothing, and destroying it is a no-op
    assert!(world.get_position(first).is_none());
    world.destroy(first);
    assert!(world.entity_at(second.index).is_some());
    // the recycled slot starts empty
    assert!(world.get_position(second).is_none());
}

#[test]
fn destroying_twice_is_harmless() {
    let mut world = World::new();
    let e = world.create_entity();
    world.destroy(e);
    world.destroy(e);
    world.maintain();
    assert!(world.entity_at(e.index).is_none());
    assert_eq!(world.slot_count(), 1);
}
