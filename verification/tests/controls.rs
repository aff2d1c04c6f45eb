use matrixagon2::camera::CameraControls;
use matrixagon2::chunk_mesh::Length3D;
use matrixagon2::flags::GameFlags;
use matrixagon2::world::{CardinalDir, Key, WorldEvent};

#[test]
fn o_toggles_spectator_mode() {
    let mut flags = GameFlags::new();
    assert!(!flags.spectator_mode);
    let r = flags.respond_event(WorldEvent::KeyPressed(Key::O));
    assert!(flags.spectator_mode);
    assert_eq!(r.len(), 1);
    assert!(matches!(r[0], WorldEvent::SpectatorMode(true)));
    let r = flags.respond_event(WorldEvent::KeyPressed(Key::O));
    assert!(!flags.spectator_mode);
    assert!(matches!(r[0], WorldEvent::SpectatorMode(false)));
}

#[test]
fn other_events_leave_the_flags() {
    let mut flags = GameFlags::new();
    assert!(flags.respond_event(WorldEvent::KeyPressed(Key::W)).is_empty());
    assert!(flags.respond_event(WorldEvent::KeyReleased(Key::O)).is_empty());
    assert!(flags.respond_event(WorldEvent::Tick).is_empty());
    assert!(!flags.spectator_mode);
}

#[test]
fn movement_keys_are_held_in_order() {
    let mut c = CameraControls::new();
    c.respond_key(&WorldEvent::KeyPressed(Key::W));
    c.respond_key(&WorldEvent::KeyPressed(Key::O));
    c.respond_key(&WorldEvent::KeyPressed(Key::Space));
    c.respond_key(&WorldEvent::KeyPressed(Key::W));
    assert_eq!(c.translations, vec![Key::W, Key::Space, Key::W]);
    c.respond_key(&WorldEvent::KeyReleased(Key::W));
    assert_eq!(c.translations, vec![Key::Space]);
    c.respond_key(&WorldEvent::KeyReleased(Key::O));
    assert_eq!(c.translations, vec![Key::Space]);
    c.respond_key(&WorldEvent::KeyReleased(Key::Space));
    assert!(c.translations.is_empty());
}

#[test]
fn press_then_release_restores_held_keys() {
    let mut c = CameraControls::new();
    c.press(Key::A);
    c.press(Key::D);
    c.release(Key::D);
    assert_eq!(c.translations, vec![Key::A]);
}

#[test]
fn camera_announces_direction_and_position() {
    let mut c = CameraControls::new();
    let pos = Length3D::new(1, 2, 3);
    let r = c.emitted_events(true, CardinalDir::EAST, pos);
    assert_eq!(r.len(), 1);
    assert!(matches!(r[0], WorldEvent::UserFaceDir(CardinalDir::EAST)));
    assert!(c.emitted_events(false, CardinalDir::EAST, pos).is_empty());
    c.press(Key::S);
    let r = c.emitted_events(true, CardinalDir::NORTH, pos);
    assert_eq!(r.len(), 2);
    assert!(matches!(r[0], WorldEvent::UserFaceDir(CardinalDir::NORTH)));
    assert!(matches!(r[1], WorldEvent::UserPosition(Length3D { x: 1, y: 2, z: 3 })));
    let r = c.emitted_events(false, CardinalDir::NORTH, pos);
    assert_eq!(r.len(), 1);
    assert!(matches!(r[0], WorldEvent::UserPosition(_)));
}
