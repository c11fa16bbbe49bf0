use yunfengzh_monolith::from_bevy::DeveloperBackend;

#[test]
fn foreends_get_unique_ids() {
    let mut d = DeveloperBackend::new();
    let a = d.register("player".to_string());
    let b = d.register("monster".to_string());
    assert_eq!(a, 1);
    assert_eq!(b, 2);
    assert_eq!(d.get_desc(2), Some(&"monster".to_string()));
    let mut ids = d.foreends();
    ids.sort();
    assert_eq!(ids, vec![1, 2]);
}

#[test]
fn only_registered_foreends_receive_events() {
    let mut d = DeveloperBackend::new();
    let a = d.register("player".to_string());
    assert!(d.redirect(a));
    assert!(!d.redirect(a + 1));
    d.unregister(a);
    assert!(!d.redirect(a));
    assert_eq!(d.get_desc(a), None);
    assert_eq!(d.register("again".to_string()), 2);
}
