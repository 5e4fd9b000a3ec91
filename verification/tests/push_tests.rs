use bifrost_admin::push::{has_traffic_news, subscription_after_delta, subscription_after_updates};
use bifrost_admin::traffic_api::{enrich_pushed_summary, FrameInfo, SocketStatus};
use bifrost_admin::push::{
    admin_url, default_history_limit, default_metrics_interval_ms, next_pending_ids,
    parse_subscription_from_query, record_is_pending, should_send_metrics, ClientSubscription,
    PushManager, MAX_CLIENT_CHANNELS,
};

#[test]
fn fourth_key_evicts_the_least_recent() {
    let mut pm = PushManager::new();
    let a = pm.register_client("a");
    let b = pm.register_client("b");
    let c = pm.register_client("c");
    assert!(a.evicted.is_empty() && b.evicted.is_empty() && c.evicted.is_empty());
    let d = pm.register_client("d");
    assert_eq!(d.evicted, vec![a.client_id]);
    assert_eq!(pm.client_count(), MAX_CLIENT_CHANNELS);
}

#[test]
fn re_registering_a_key_makes_it_recent() {
    let mut pm = PushManager::new();
    let a1 = pm.register_client("a");
    let b = pm.register_client("b");
    let _c = pm.register_client("c");
    let a2 = pm.register_client("a");
    assert!(a2.evicted.is_empty());
    let d = pm.register_client("d");
    assert_eq!(d.evicted, vec![b.client_id]);
    assert_eq!(pm.client_count(), 4);
    assert!(pm.unregister_client(a1.client_id));
    assert_eq!(pm.client_count(), 3);
}

#[test]
fn ids_increase_and_unregister_twice_is_noop() {
    let mut pm = PushManager::new();
    let a = pm.register_client("k");
    let b = pm.register_client("k");
    assert_eq!(a.client_id, 1);
    assert_eq!(b.client_id, 2);
    assert!(pm.unregister_client(a.client_id));
    assert!(!pm.unregister_client(a.client_id));
    assert!(pm.unregister_client(b.client_id));
    assert_eq!(pm.client_count(), 0);
}

#[test]
fn subscription_defaults() {
    let s = ClientSubscription::default();
    assert_eq!(s.history_limit, 60);
    assert_eq!(s.metrics_interval_ms, 1000);
    assert_eq!(default_history_limit(), 60);
    assert_eq!(default_metrics_interval_ms(), 1000);
    assert!(s.pending_ids.is_empty() && !s.need_overview && s.last_traffic_id.is_none());
}

#[test]
fn subscription_from_query() {
    let s = parse_subscription_from_query(
        "last_traffic_id=abc%2D1&pending_ids=x,y&need_overview=true&need_metrics=1&need_history=no&history_limit=10&junk",
    );
    assert_eq!(s.last_traffic_id.as_deref(), Some("abc-1"));
    assert_eq!(s.pending_ids, vec!["x".to_string(), "y".to_string()]);
    assert!(s.need_overview && s.need_metrics && !s.need_history);
    assert_eq!(s.history_limit, 10);
    let s = parse_subscription_from_query("history_limit=lots&last_traffic_id=");
    assert_eq!(s.history_limit, 60);
    assert!(s.last_traffic_id.is_none());
}

#[test]
fn pending_ids_follow_open_records() {
    let pending = vec!["a".to_string(), "b".to_string()];
    let updated = vec![("a".to_string(), false), ("b".to_string(), true)];
    let inserted = vec![("c".to_string(), true), ("d".to_string(), false), ("b".to_string(), true)];
    let mut next = next_pending_ids(&pending, &updated, &inserted);
    next.sort();
    assert_eq!(next, vec!["b".to_string(), "c".to_string()]);
}

#[test]
fn pending_records() {
    assert!(record_is_pending(0, false, false, false, None));
    assert!(record_is_pending(101, true, false, false, Some(true)));
    assert!(!record_is_pending(101, true, false, false, Some(false)));
    assert!(!record_is_pending(200, false, false, false, Some(true)));
}

#[test]
fn metrics_ticks() {
    assert!(should_send_metrics(0, 3000));
    assert!(should_send_metrics(6200, 3000));
    assert!(!should_send_metrics(7000, 3000));
    assert!(should_send_metrics(400, 10));
    assert!(!should_send_metrics(5600, 100000));
}

#[test]
fn admin_url_names_the_port() {
    assert_eq!(admin_url(9900), "http://127.0.0.1:9900/_bifrost/");
}

#[test]
fn delivered_deltas_move_the_cursor_and_follow_pending_records() {
    let mut sub = parse_subscription_from_query("pending_ids=a,b");
    sub.last_sequence = Some(3);
    let inserted = vec![("c".to_string(), true), ("d".to_string(), false)];
    let updated = vec![("a".to_string(), false), ("b".to_string(), true)];
    assert!(has_traffic_news(inserted.len(), updated.len()));
    assert!(!has_traffic_news(0, 0));
    subscription_after_delta(&mut sub, &[7, 9], &inserted, &updated);
    assert_eq!(sub.last_sequence, Some(9));
    let mut ids = sub.pending_ids.clone();
    ids.sort();
    assert_eq!(ids, vec!["b".to_string(), "c".to_string()]);
    subscription_after_delta(&mut sub, &[], &Vec::new(), &Vec::new());
    assert_eq!(sub.last_sequence, Some(9));
    subscription_after_updates(&mut sub, &inserted, &Vec::new());
    assert_eq!(sub.last_traffic_id.as_deref(), Some("d"));
    assert_eq!(sub.last_sequence, Some(9));
}

#[test]
fn pushed_summaries_of_plain_requests_keep_their_status() {
    let s = SocketStatus { is_open: false, frame_count: 2, send_bytes: 1, receive_bytes: 1 };
    let plain = FrameInfo { is_sse: false, is_websocket: false, is_tunnel: false, socket_status: Some(s), frame_count: 0, response_size: 0 };
    assert_eq!(enrich_pushed_summary(plain, None, Some(s), None), plain);
    let sse = FrameInfo { is_sse: true, ..plain };
    let g = enrich_pushed_summary(sse, None, None, None);
    assert_eq!(g.response_size, 2);
}
