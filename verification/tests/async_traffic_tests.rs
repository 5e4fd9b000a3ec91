use bifrost_admin::async_traffic::{TrafficBatch, TrafficCommand, MAX_BATCH_RECORDS, MAX_BATCH_UPDATES};
use bifrost_admin::push::TrafficUpdatesData;

#[test]
fn rounds_keep_records_and_updates_in_arrival_order() {
    let mut b: TrafficBatch<u32, &str> = TrafficBatch::new();
    b.take(TrafficCommand::Record(1));
    b.take(TrafficCommand::Update { id: "a".to_string(), updater: "u1" });
    b.take(TrafficCommand::Record(2));
    assert_eq!(b.records, vec![1, 2]);
    assert_eq!(b.updates, vec![("a".to_string(), "u1")]);
    assert!(b.has_room());
}

#[test]
fn rounds_stop_at_their_limits() {
    let mut b: TrafficBatch<usize, ()> = TrafficBatch::new();
    let mut n = 0;
    while b.has_room() {
        b.take(TrafficCommand::Record(n));
        n += 1;
    }
    assert_eq!(b.records.len(), MAX_BATCH_RECORDS);
    let mut u: TrafficBatch<(), usize> = TrafficBatch::new();
    while u.has_room() {
        u.take(TrafficCommand::Update { id: "x".to_string(), updater: 0 });
    }
    assert_eq!(u.updates.len(), MAX_BATCH_UPDATES);
}

#[test]
fn traffic_updates_carry_the_store_total() {
    let d = TrafficUpdatesData { new_records: vec!["a"], updated_records: vec![], has_more: false, server_total: 7 };
    assert_eq!(d.server_total, 7);
    assert_eq!(d.new_records.len(), 1);
}
