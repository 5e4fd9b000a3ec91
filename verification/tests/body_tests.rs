use bifrost_admin::body::{
    base_id_of, body_file_name, is_expired, should_flush, BodyPlacement, BodyRef, BodyStore,
    BodyStoreConfigUpdate,
};

fn store(max_memory_size: usize, retention_days: u64) -> BodyStore {
    BodyStore::new("/tmp/bodies".to_string(), max_memory_size, retention_days, 64 * 1024, 200)
}

#[test]
fn small_bodies_stay_inline_and_large_ones_go_to_files() {
    assert_eq!(store(1024, 7).placement(b"Hello, World!".len()), BodyPlacement::Inline);
    let large = b"This is a large body that exceeds the memory limit";
    assert_eq!(store(10, 7).placement(large.len()), BodyPlacement::File);
    assert_eq!(store(1024, 7).placement(0), BodyPlacement::Nothing);
    assert_eq!(store(10, 7).placement(10), BodyPlacement::Inline);
}

#[test]
fn body_files_are_named_by_record_and_found_again_by_id() {
    let name = body_file_name("req-123-abc", "req");
    assert_eq!(name, "req-123-abc_req");
    assert_eq!(base_id_of(&name), "req-123-abc");
    assert_eq!(base_id_of("a_b_res"), "a_b");
    assert_eq!(base_id_of("plain"), "plain");
}

#[test]
fn body_refs_report_size_and_kind() {
    let inline = BodyRef::Inline { data: "héllo".to_string() };
    assert_eq!(inline.size(), 6);
    assert!(!inline.is_file());
    let file = BodyRef::File { path: "/tmp/x_req".to_string(), size: 50 };
    assert!(file.is_file());
    assert_eq!(file.size(), 50);
    let range = BodyRef::FileRange { path: "/tmp/x_req".to_string(), offset: 6, size: 5 };
    assert!(range.is_file());
    assert_eq!(range.size(), 5);
}

#[test]
fn files_expire_after_their_retention() {
    assert!(!is_expired(86_400, 0, 1));
    assert!(is_expired(86_400, 1, 1));
    assert!(is_expired(86_401, 0, 1));
    assert!(is_expired(0, 5, 0));
    assert!(!is_expired(0, 0, 0));
}

#[test]
fn stream_writers_flush_on_size_or_time() {
    assert!(should_flush(64 * 1024, 64 * 1024, 0, 200));
    assert!(should_flush(10, 64 * 1024, 200, 200));
    assert!(!should_flush(10, 64 * 1024, 199, 200));
}

#[test]
fn config_updates_change_only_the_fields_they_set() {
    let mut s = store(1024, 7);
    let mut u = BodyStoreConfigUpdate::default();
    u.retention_days = Some(3);
    s.update_config(u);
    assert_eq!(s.retention_days, 3);
    assert_eq!(s.max_memory_size, 1024);
    assert_eq!(s.stream_flush_interval_ms, 200);
}

#[test]
fn inline_bodies_hold_their_text() {
    match bifrost_admin::body::inline_body(&[0x61, 0xff]) {
        BodyRef::Inline { data } => assert_eq!(data, "a\u{fffd}"),
        _ => panic!("not inline"),
    }
}
