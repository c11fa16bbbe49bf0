use yunfengzh_monolith::from_bevy::keys::{is_double_click, key_name};
use yunfengzh_monolith::from_bevy::{ButtonBackend, GameEvent, GameEventGroup, KeyName, KeyTracker, StdBackend};

#[test]
fn move_group_binds_wasd_and_space() {
    let mut b = StdBackend::new();
    b.register_group(GameEventGroup::Move);
    assert_eq!(b.broadcast(&"s".to_string()), Some(GameEvent::MoveDown));
    assert_eq!(b.broadcast(&"w".to_string()), Some(GameEvent::MoveUp));
    assert_eq!(b.broadcast(&"a".to_string()), Some(GameEvent::MoveLeft));
    assert_eq!(b.broadcast(&"d".to_string()), Some(GameEvent::MoveRight));
    assert_eq!(b.broadcast(&"<space>".to_string()), Some(GameEvent::Jump));
    assert_eq!(b.broadcast(&"x".to_string()), None);
}

#[test]
fn register_replaces_a_binding() {
    let mut b = StdBackend::new();
    b.register_group(GameEventGroup::Move);
    b.register("a".to_string(), GameEvent::Jump);
    b.register("<ctrl>s".to_string(), GameEvent::Save { file_name: 0 });
    assert_eq!(b.broadcast(&"a".to_string()), Some(GameEvent::Jump));
    assert_eq!(b.broadcast(&"<ctrl>s".to_string()), Some(GameEvent::Save { file_name: 0 }));
    b.register_group(GameEventGroup::Move);
    assert_eq!(b.broadcast(&"a".to_string()), Some(GameEvent::MoveLeft));
}

#[test]
fn double_click_is_within_200_ms() {
    assert!(is_double_click(0));
    assert!(is_double_click(200_000_000));
    assert!(!is_double_click(200_000_001));
}

#[test]
fn key_names() {
    assert_eq!(key_name(&KeyName::Character("q".to_string())), "q");
    assert_eq!(key_name(&KeyName::Space), "<space>");
    assert_eq!(key_name(&KeyName::Control), "<ctrl>");
    assert_eq!(key_name(&KeyName::Other), "");
}

#[test]
fn key_tracker_combines_double_clicks() {
    let mut t = KeyTracker::new();
    // The first key is combined with nothing.
    assert_eq!(t.release(&KeyName::Character("s".to_string()), true), Some("s".to_string()));
    // A slow key stands alone.
    assert_eq!(t.release(&KeyName::Character("w".to_string()), false), Some("w".to_string()));
    // A fast key follows the previous one.
    assert_eq!(t.release(&KeyName::Character("d".to_string()), true), Some("wd".to_string()));
    // `<ctrl>` goes first.
    assert_eq!(t.release(&KeyName::Control, true), Some("<ctrl>d".to_string()));
    assert_eq!(t.release(&KeyName::Space, true), Some("<ctrl><space>".to_string()));
    // An unknown key alone is nothing to broadcast, and becomes the previous key.
    assert_eq!(t.release(&KeyName::Other, false), None);
    assert_eq!(t.release(&KeyName::Other, true), None);
}

#[test]
fn buttons_send_their_events() {
    let mut b = ButtonBackend::new();
    b.register(17, GameEvent::Button { entity: 17 });
    assert_eq!(b.broadcast(17), Some(GameEvent::Button { entity: 17 }));
    assert_eq!(b.broadcast(18), None);
    b.register(17, GameEvent::Exit);
    assert_eq!(b.broadcast(17), Some(GameEvent::Exit));
}
