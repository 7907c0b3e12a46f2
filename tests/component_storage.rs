use std::sync::Arc;

use async_ecs::component::{ComponentStorage, DynamicComponent};

#[derive(Debug, Clone, Copy, PartialEq)]
struct Position {
    x: f32,
    y: f32,
}

#[derive(Debug, Clone, Copy, PartialEq)]
struct Velocity {
    x: f32,
    y: f32,
}

const POSITION: u64 = 1;
const VELOCITY: u64 = 2;

#[derive(Debug, Clone, Copy, PartialEq)]
enum Component {
    Position(Position),
    Velocity(Velocity),
}

impl DynamicComponent for Component {
    fn type_tag(&self) -> u64 {
        match self {
            Component::Position(_) => POSITION,
            Component::Velocity(_) => VELOCITY,
        }
    }
}

fn position(storage: &ComponentStorage<Component>, entity: usize) -> Option<Position> {
    match storage.get(POSITION, entity) {
        Some(Component::Position(p)) => Some(*p),
        Some(other) => panic!("a position slot holds {:?}", other),
        None => None,
    }
}

#[test]
fn test_basic_usage() {
    let mut component_storage = ComponentStorage::new();

    let entity = 0usize;
    let p = Position { x: 0.0, y: 0.0 };
    component_storage.insert(entity, Component::Position(p));

    let p = position(&component_storage, entity).unwrap();
    assert_eq!(p.x, 0.0);
    assert_eq!(p.y, 0.0);
}

#[test]
fn test_insert_and_get() {
    let mut storage = ComponentStorage::new();
    storage.insert(0usize, Component::Position(Position { x: 0.0, y: 0.0 }));
    let component = storage.get(POSITION, 0usize);
    assert!(component.is_some());
    match component.unwrap() {
        Component::Position(p) => assert_eq!(p.x, 0.0),
        other => panic!("unexpected {:?}", other),
    }
}

#[test]
fn test_insert_and_get_mut() {
    let mut storage = ComponentStorage::new();
    storage.insert(0usize, Component::Position(Position { x: 0.0, y: 0.0 }));
    let component = storage.get_mut(POSITION, 0usize);
    assert!(component.is_some());
    match component.unwrap() {
        Component::Position(p) => assert_eq!(p.x, 0.0),
        other => panic!("unexpected {:?}", other),
    }
}

#[test]
fn insert_returns_the_type_tag() {
    let mut storage = ComponentStorage::new();
    let t = storage.insert(3, Component::Velocity(Velocity { x: 1.0, y: -1.0 }));
    assert_eq!(t, VELOCITY);
    let t = storage.insert(3, Component::Position(Position { x: 2.0, y: 5.0 }));
    assert_eq!(t, POSITION);
}

#[test]
fn round_trip_keeps_every_field() {
    let mut storage = ComponentStorage::new();
    let v = Position { x: 12.5, y: -3.25 };
    storage.insert(42, Component::Position(v));
    assert_eq!(position(&storage, 42), Some(v));
}

#[test]
fn mutation_through_get_mut_is_visible() {
    let mut storage = ComponentStorage::new();
    storage.insert(7, Component::Position(Position { x: 0.0, y: 0.0 }));
    if let Some(Component::Position(p)) = storage.get_mut(POSITION, 7) {
        p.x = 4.0;
    } else {
        panic!("position of entity 7 is missing");
    }
    assert_eq!(position(&storage, 7), Some(Position { x: 4.0, y: 0.0 }));
}

#[test]
fn types_of_one_entity_are_isolated() {
    let mut storage = ComponentStorage::new();
    storage.insert(1, Component::Position(Position { x: 1.0, y: 1.0 }));
    storage.insert(1, Component::Velocity(Velocity { x: 9.0, y: 8.0 }));
    assert_eq!(position(&storage, 1), Some(Position { x: 1.0, y: 1.0 }));
    storage.remove(VELOCITY, 1);
    assert!(storage.get(VELOCITY, 1).is_none());
    assert_eq!(position(&storage, 1), Some(Position { x: 1.0, y: 1.0 }));
}

#[test]
fn entities_of_one_type_are_isolated() {
    let mut storage = ComponentStorage::new();
    storage.insert(1, Component::Position(Position { x: 1.0, y: 0.0 }));
    storage.insert(2, Component::Position(Position { x: 2.0, y: 0.0 }));
    storage.insert(1, Component::Position(Position { x: 3.0, y: 0.0 }));
    assert_eq!(position(&storage, 2), Some(Position { x: 2.0, y: 0.0 }));
    storage.remove(POSITION, 1);
    assert_eq!(position(&storage, 2), Some(Position { x: 2.0, y: 0.0 }));
}

#[test]
fn removal_then_insert_again() {
    let mut storage = ComponentStorage::new();
    storage.insert(9, Component::Position(Position { x: 1.0, y: 1.0 }));
    storage.remove(POSITION, 9);
    assert_eq!(position(&storage, 9), None);
    storage.insert(9, Component::Position(Position { x: 6.0, y: 7.0 }));
    assert_eq!(position(&storage, 9), Some(Position { x: 6.0, y: 7.0 }));
}

#[test]
fn removing_twice_is_harmless() {
    let mut storage = ComponentStorage::new();
    storage.insert(0, Component::Position(Position { x: 0.5, y: 0.5 }));
    storage.insert(1, Component::Position(Position { x: 1.5, y: 1.5 }));
    storage.remove(POSITION, 0);
    storage.remove(POSITION, 0);
    assert_eq!(position(&storage, 0), None);
    assert_eq!(position(&storage, 1), Some(Position { x: 1.5, y: 1.5 }));
}

#[test]
fn absent_type_and_absent_entity_look_alike() {
    let mut storage: ComponentStorage<Component> = ComponentStorage::new();
    assert!(storage.get(VELOCITY, 0).is_none());
    assert!(storage.get_mut(VELOCITY, 0).is_none());
    storage.remove(VELOCITY, 0);
    storage.insert(0, Component::Velocity(Velocity { x: 0.0, y: 0.0 }));
    assert!(storage.get(VELOCITY, 1).is_none());
    assert!(storage.get(POSITION, 0).is_none());
}

#[test]
fn scenario_remove_first_entity_keeps_second() {
    let mut storage = ComponentStorage::new();
    storage.insert(0, Component::Position(Position { x: 0.0, y: 0.0 }));
    let p = position(&storage, 0).unwrap();
    assert_eq!((p.x, p.y), (0.0, 0.0));
    storage.insert(5, Component::Position(Position { x: 1.0, y: 2.0 }));
    storage.remove(POSITION, 0);
    assert!(position(&storage, 0).is_none());
    let p = position(&storage, 5).unwrap();
    assert_eq!((p.x, p.y), (1.0, 2.0));
}

/// A component kept behind a reader/writer lock, as the shared storage keeps it.
struct Cell {
    tag: u64,
    lock: Arc<tokio::sync::RwLock<Position>>,
}

impl DynamicComponent for Cell {
    fn type_tag(&self) -> u64 {
        self.tag
    }
}

#[test]
fn scenario_reader_waits_for_writer() {
    let mut storage = ComponentStorage::new();
    storage.insert(
        0,
        Cell { tag: POSITION, lock: Arc::new(tokio::sync::RwLock::new(Position { x: 0.0, y: 0.0 })) },
    );
    let cell = Arc::clone(&storage.get(POSITION, 0).unwrap().lock);

    let mut writer = cell.clone().try_write_owned().unwrap();
    assert!(cell.try_write().is_err());
    assert!(cell.try_read().is_err());
    writer.x = 3.0;
    drop(writer);

    let second_writer = cell.try_write().unwrap();
    assert_eq!(second_writer.x, 3.0);
    assert!(cell.try_read().is_err());
    drop(second_writer);

    let reader = cell.try_read().unwrap();
    let other_reader = cell.try_read().unwrap();
    assert_eq!((reader.x, other_reader.y), (3.0, 0.0));
}

#[test]
fn live_guard_outlives_removal() {
    let mut storage = ComponentStorage::new();
    storage.insert(
        4,
        Cell { tag: POSITION, lock: Arc::new(tokio::sync::RwLock::new(Position { x: 8.0, y: 9.0 })) },
    );
    let guard = Arc::clone(&storage.get(POSITION, 4).unwrap().lock).try_read_owned().unwrap();
    storage.remove(POSITION, 4);
    assert!(storage.get(POSITION, 4).is_none());
    assert_eq!((guard.x, guard.y), (8.0, 9.0));
}
