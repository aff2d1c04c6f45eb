use matrixagon2::world::{Dispatch, Key, World, WorldEvent};

#[test]
fn world_starts_with_the_start_event() {
    let world = World::new(3);
    assert_eq!(world.events().len(), 1);
    assert!(matches!(world.events()[0], WorldEvent::Start));
    assert!(world.events_buffer.is_empty());
    assert_eq!(world.dispatch(), Dispatch::Respond(0, 0));
}

#[test]
fn each_component_answers_every_event_then_is_updated() {
    let mut world = World::new(2);
    world.add_window_event(WorldEvent::KeyPressed(Key::O));
    world.add_window_event(WorldEvent::Tick);
    assert_eq!(world.events().len(), 1);
    assert_eq!(world.dispatch(), Dispatch::Respond(0, 0));
    world.respond(vec![WorldEvent::SpectatorMode(true)]);
    assert_eq!(world.dispatch(), Dispatch::Update(0));
    world.component_updated();
    assert_eq!(world.dispatch(), Dispatch::Respond(1, 0));
    world.respond(vec![WorldEvent::KeyReleased(Key::W), WorldEvent::SpectatorMode(false)]);
    assert_eq!(world.dispatch(), Dispatch::Update(1));
    world.component_updated();
    assert_eq!(world.dispatch(), Dispatch::Done);
    world.update();
    let e = world.events();
    assert_eq!(e.len(), 5);
    assert!(matches!(e[0], WorldEvent::KeyPressed(Key::O)));
    assert!(matches!(e[1], WorldEvent::Tick));
    assert!(matches!(e[2], WorldEvent::SpectatorMode(true)));
    assert!(matches!(e[3], WorldEvent::KeyReleased(Key::W)));
    assert!(matches!(e[4], WorldEvent::SpectatorMode(false)));
    assert!(world.events_buffer.is_empty());
    assert_eq!(world.dispatch(), Dispatch::Respond(0, 0));
    for k in 0..5 {
        assert_eq!(world.dispatch(), Dispatch::Respond(0, k));
        world.respond(vec![]);
    }
    assert_eq!(world.dispatch(), Dispatch::Update(0));
}

#[test]
fn a_round_without_events_only_updates() {
    let mut world = World::new(2);
    world.respond(vec![]);
    world.component_updated();
    world.respond(vec![]);
    world.component_updated();
    world.update();
    assert!(world.events().is_empty());
    assert_eq!(world.dispatch(), Dispatch::Update(0));
    world.component_updated();
    assert_eq!(world.dispatch(), Dispatch::Update(1));
    world.component_updated();
    assert_eq!(world.dispatch(), Dispatch::Done);
}
