use engine::clock::{SimulationClock, SPAWN_INTERVAL_TICKS};

#[test]
fn a_paused_clock_does_not_advance() {
    let mut clock = SimulationClock::new();
    assert!(clock.tick());
    assert_eq!(clock.tick_count, 1);

    clock.pause();
    assert!(!clock.tick());
    assert!(!clock.tick());
    assert_eq!(clock.tick_count, 1);

    clock.resume();
    assert!(clock.tick());
    assert_eq!(clock.tick_count, 2);
}

#[test]
fn visitors_come_in_every_spawn_interval_while_the_park_has_room() {
    let mut clock = SimulationClock::new();
    for _ in 0..SPAWN_INTERVAL_TICKS {
        clock.tick();
    }
    assert!(clock.spawn_due(0));
    assert!(clock.spawn_due(19));
    assert!(!clock.spawn_due(20));
    clock.tick();
    assert!(!clock.spawn_due(0));
}
