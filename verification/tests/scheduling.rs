use simcore::scheduler::ConfigError;
use simcore::scheduler::DataKind;
use simcore::scheduler::DispatcherBuilder;
use simcore::scheduler::SystemKind;
use simcore::setup::standard_dispatcher;

#[test]
fn writer_precedes_its_reader() {
    // A writes X; B reads X and runs after A; C writes Y with no edges.
    let built = DispatcherBuilder::new()
        .with(
            SystemKind::Behavior,
            String::from("A"),
            Vec::new(),
            vec![DataKind::Positions],
            Vec::new(),
        )
        .with(
            SystemKind::Behavior,
            String::from("B"),
            vec![DataKind::Positions],
            Vec::new(),
            vec![String::from("A")],
        )
        .with(
            SystemKind::Behavior,
            String::from("C"),
            Vec::new(),
            vec![DataKind::Velocities],
            Vec::new(),
        )
        .build();
    let dispatcher = built.unwrap();
    let pos_a = dispatcher.order.iter().position(|&i| i == 0).unwrap();
    let pos_b = dispatcher.order.iter().position(|&i| i == 1).unwrap();
    assert!(pos_a < pos_b);
    assert_eq!(dispatcher.order.len(), 3);
}

#[test]
fn ties_break_by_registration_order() {
    let dispatcher = standard_dispatcher().unwrap();
    assert_eq!(dispatcher.order, vec![0, 1, 2, 3]);
}

#[test]
fn unknown_dependency_is_a_build_error() {
    let built = DispatcherBuilder::new()
        .with(
            SystemKind::Behavior,
            String::from("A"),
            Vec::new(),
            Vec::new(),
            vec![String::from("Missing")],
        )
        .build();
    assert_eq!(built.unwrap_err(), ConfigError::UnknownDependency);
}

#[test]
fn dependency_cycle_is_a_build_error() {
    let built = DispatcherBuilder::new()
        .with(
            SystemKind::Behavior,
            String::from("A"),
            Vec::new(),
            Vec::new(),
            vec![String::from("B")],
        )
        .with(
            SystemKind::Behavior,
            String::from("B"),
            Vec::new(),
            Vec::new(),
            vec![String::from("A")],
        )
        .build();
    assert_eq!(built.unwrap_err(), ConfigError::DependencyCycle);
}

#[test]
fn self_dependency_is_a_cycle() {
    let built = DispatcherBuilder::new()
        .with(
            SystemKind::Behavior,
            String::from("A"),
            Vec::new(),
            Vec::new(),
            vec![String::from("A")],
        )
        .build();
    assert_eq!(built.unwrap_err(), ConfigError::DependencyCycle);
}

#[test]
fn unordered_overlapping_writers_are_a_build_error() {
    let built = DispatcherBuilder::new()
        .with(
            SystemKind::Behavior,
            String::from("A"),
            Vec::new(),
            vec![DataKind::Velocities],
            Vec::new(),
        )
        .with(
            SystemKind::Behavior,
            String::from("B"),
            Vec::new(),
            vec![DataKind::Velocities, DataKind::Sprites],
            Vec::new(),
        )
        .build();
    assert_eq!(built.unwrap_err(), ConfigError::WriteConflict);
}

#[test]
fn ordered_overlapping_writers_are_accepted() {
    let built = DispatcherBuilder::new()
        .with(
            SystemKind::Behavior,
            String::from("A"),
            Vec::new(),
            vec![DataKind::Velocities],
            Vec::new(),
        )
        .with(
            SystemKind::Behavior,
            String::from("B"),
            Vec::new(),
            vec![DataKind::Velocities],
            vec![String::from("A")],
        )
        .build();
    assert!(built.is_ok());
}
