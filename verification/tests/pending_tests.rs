use bifrost_admin::pending::IpTlsPendingManager;

#[test]
fn new_address_waits_once() {
    let mut m = IpTlsPendingManager::new();
    let (added, event) = m.check_and_add_pending("10.0.0.1", 50);
    assert!(added);
    let e = event.expect("event");
    assert_eq!(e.event_type, "new");
    assert_eq!(e.pending.ip, "10.0.0.1");
    assert_eq!(e.pending.first_seen, 50);
    assert_eq!(e.pending.attempt_count, 1);
    assert_eq!(e.total_pending, 1);
    let (again, none) = m.check_and_add_pending("10.0.0.1", 60);
    assert!(!again && none.is_none());
    let list = m.get_pending_list();
    assert_eq!(list.len(), 1);
    assert_eq!(list[0].attempt_count, 2);
    assert_eq!(list[0].first_seen, 50);
}

#[test]
fn approved_address_is_never_pending_again() {
    let mut m = IpTlsPendingManager::new();
    m.check_and_add_pending("10.0.0.1", 1);
    m.check_and_add_pending("10.0.0.2", 2);
    let (ok, event) = m.approve("10.0.0.1");
    assert!(ok);
    let e = event.expect("event");
    assert_eq!(e.event_type, "approved");
    assert_eq!(e.total_pending, 1);
    assert!(m.is_pending_or_decided("10.0.0.1"));
    let (added, _) = m.check_and_add_pending("10.0.0.1", 3);
    assert!(!added);
    assert_eq!(m.pending_count(), 1);
    let (again, _) = m.approve("10.0.0.1");
    assert!(!again);
}

#[test]
fn skip_and_clear() {
    let mut m = IpTlsPendingManager::new();
    m.check_and_add_pending("a", 1);
    m.check_and_add_pending("b", 1);
    let (ok, e) = m.skip("b");
    assert!(ok);
    assert_eq!(e.expect("event").event_type, "skipped");
    m.clear_pending();
    assert_eq!(m.pending_count(), 0);
    assert!(!m.is_pending_or_decided("a"));
    assert!(m.is_pending_or_decided("b"));
    assert!(!m.is_pending_or_decided("c"));
}
