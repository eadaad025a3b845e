use simcore::components::Direction;
use simcore::components::Position;
use simcore::components::Velocity;
use simcore::rect::Rect;
use simcore::setup::canvas_rect;
use simcore::setup::initialize_item;
use simcore::setup::initialize_player;
use simcore::setup::standard_dispatcher;
use simcore::world::FrameContext;
use simcore::world::World;

fn ctx(cmd: Option<simcore::keyboard::MovementCommand>, elapsed_ms: u32) -> FrameContext {
    FrameContext { movement_command: cmd, viewport: canvas_rect(350, 350), elapsed_ms }
}

#[test]
fn player_moves_right_ten_units() {
    let mut world = World::new();
    let player = initialize_player(&mut world, 0);
    world.insert_velocity(player, Velocity { speed: 200, direction: Direction::Right });
    let dispatcher = standard_dispatcher().unwrap();
    dispatcher.dispatch(&mut world, &ctx(None, 50));
    world.maintain();
    let pos = world.get_position(player).unwrap();
    // 0.2 units per ms for 50 ms: the center moves from (0, 0) to (10, 0).
    assert_eq!(pos, Position(Rect::from_center(10, 0, 26, 36)));
    assert_eq!(pos.0, Rect::new(-3, -18, 26, 36));
}

#[test]
fn predicted_overlap_stalls_both_before_it_happens() {
    let mut world = World::new();
    let a = world.create_entity();
    world.insert_position(a, Position(Rect::from_center(0, 0, 10, 10)));
    world.insert_velocity(a, Velocity { speed: 100, direction: Direction::Right });
    let b = world.create_entity();
    world.insert_position(b, Position(Rect::from_center(18, 0, 10, 10)));
    world.insert_velocity(b, Velocity { speed: 100, direction: Direction::Left });
    // current rectangles are 8 units apart, but after 50 ms each would have
    // moved 5 units toward the other and they would overlap
    let dispatcher = standard_dispatcher().unwrap();
    dispatcher.dispatch(&mut world, &ctx(None, 50));
    world.maintain();
    assert_eq!(world.get_position(a).unwrap(), Position(Rect::from_center(0, 0, 10, 10)));
    assert_eq!(world.get_position(b).unwrap(), Position(Rect::from_center(18, 0, 10, 10)));
}

#[test]
fn touching_the_viewport_edge_still_moves() {
    let mut world = World::new();
    let e = world.create_entity();
    world.insert_position(e, Position(Rect::from_center(152, 0, 26, 36)));
    world.insert_velocity(e, Velocity { speed: 200, direction: Direction::Right });
    let dispatcher = standard_dispatcher().unwrap();
    dispatcher.dispatch(&mut world, &ctx(None, 50));
    // predicted right edge sits exactly on x = 175, the viewport border
    assert_eq!(world.get_position(e).unwrap(), Position(Rect::from_center(162, 0, 26, 36)));
}

#[test]
fn one_unit_past_the_viewport_edge_stops_movement() {
    let mut world = World::new();
    let e = world.create_entity();
    world.insert_position(e, Position(Rect::from_center(153, 0, 26, 36)));
    world.insert_velocity(e, Velocity { speed: 200, direction: Direction::Right });
    let dispatcher = standard_dispatcher().unwrap();
    dispatcher.dispatch(&mut world, &ctx(None, 50));
    // predicted right edge would reach x = 176, one unit outside
    assert_eq!(world.get_position(e).unwrap(), Position(Rect::from_center(153, 0, 26, 36)));
}

#[test]
fn overlapping_item_is_collected_and_distant_item_survives() {
    let mut world = World::new();
    let player = initialize_player(&mut world, 0);
    world.insert_velocity(player, Velocity { speed: 200, direction: Direction::Right });
    let near = initialize_item(&mut world, 2, 20, 0);
    let far = initialize_item(&mut world, 2, 150, 150);
    let dispatcher = standard_dispatcher().unwrap();
    dispatcher.dispatch(&mut world, &ctx(None, 50));
    world.maintain();
    assert!(world.get_position(near).is_none());
    assert!(world.entity_at(near.index).is_none());
    assert!(world.get_position(far).is_some());
}

#[test]
fn large_elapsed_time_is_used_verbatim() {
    let mut world = World::new();
    let e = world.create_entity();
    world.insert_position(e, Position(Rect::from_center(0, 0, 10, 10)));
    world.insert_velocity(e, Velocity { speed: 200, direction: Direction::Down });
    // 0.2 units per ms for 2000 ms would be 400 units, leaving the viewport:
    // no clamping happens, the entity just does not move
    let dispatcher = standard_dispatcher().unwrap();
    dispatcher.dispatch(&mut world, &ctx(None, 2000));
    assert_eq!(world.get_position(e).unwrap(), Position(Rect::from_center(0, 0, 10, 10)));
    // at 500 ms the 100-unit move stays inside and is committed
    dispatcher.dispatch(&mut world, &ctx(None, 500));
    assert_eq!(world.get_position(e).unwrap(), Position(Rect::from_center(0, 100, 10, 10)));
}
