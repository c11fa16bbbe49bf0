use yunfengzh_monolith::from_bevy::{GameEvent, RecordBackend, RecordClock, RecordUnit};

#[test]
fn record_unit_keeps_milliseconds() {
    let u = RecordUnit::new(GameEvent::Jump, 1234);
    assert_eq!(u.ge, GameEvent::Jump);
    assert_eq!(u.interval, 1234);
    let big = RecordUnit::new(GameEvent::Jump, (1u128 << 64) + 7);
    assert_eq!(big.interval, 7);
}

#[test]
fn toggle_switches_registered_foreends_only() {
    let mut rb = RecordBackend::new();
    assert_eq!(rb.toggle(4), None);
    rb.register(4);
    assert!(rb.contains(4));
    assert_eq!(rb.toggle(4), Some(true));
    assert_eq!(rb.toggle(4), Some(false));
    assert_eq!(rb.toggle(4), Some(true));
    rb.register(4);
    assert_eq!(rb.toggle(4), Some(true));
    rb.unregister(4);
    assert!(!rb.contains(4));
    assert_eq!(rb.toggle(4), None);
}

#[test]
fn clock_records_nothing_while_off() {
    let mut c = RecordClock::new();
    assert_eq!(c.stamp(GameEvent::MoveLeft, 5_000_000), None);
    assert_eq!(c.enabled, None);
}

#[test]
fn clock_stamps_intervals_since_the_last_mark() {
    let mut c = RecordClock::new();
    c.switch(Some(1_000_000_000));
    let u = c.stamp(GameEvent::MoveLeft, 1_250_900_000).unwrap();
    assert_eq!(u, RecordUnit { ge: GameEvent::MoveLeft, interval: 250 });
    let u = c.stamp(GameEvent::MoveRight, 1_251_000_000).unwrap();
    assert_eq!(u.interval, 0);
    assert_eq!(c.enabled, Some(1_251_000_000));
    // A clock reading earlier than the mark counts as no time.
    let u = c.stamp(GameEvent::Jump, 1_000).unwrap();
    assert_eq!(u.interval, 0);
    c.switch(None);
    assert_eq!(c.stamp(GameEvent::Jump, 9_000_000_000), None);
}

// A foreend whose proxy is gone is forgotten: toggling it finds nothing, again and again.
#[test]
fn forgotten_foreend_stays_forgotten() {
    let mut rb = RecordBackend::new();
    rb.register(9);
    assert_eq!(rb.toggle(9), Some(true));
    rb.unregister(9);
    assert_eq!(rb.toggle(9), None);
    assert_eq!(rb.toggle(9), None);
    assert!(!rb.contains(9));
}

// A toggle whose new state cannot be delivered answers false and forgets the foreend.
#[test]
fn undelivered_toggle_forgets_the_foreend() {
    let mut rb = RecordBackend::new();
    rb.register(5);
    let on = rb.toggle(5).unwrap();
    assert!(on);
    assert!(rb.settle(5, on, true));
    assert_eq!(rb.toggle(5), Some(false));
    assert!(!rb.settle(5, true, false));
    assert!(!rb.contains(5));
    assert_eq!(rb.toggle(5), None);
}
