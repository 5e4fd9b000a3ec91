use bifrost_admin::alerts::{overall_level, resource_alert_level, ResourceAlertLevel};
use bifrost_admin::metrics::{BoundedHistory, MetricsCounters, TrafficType};

#[test]
fn test_metrics_collector() {
    let mut collector = MetricsCounters::new();
    assert_eq!(collector.get_total_requests(), 0);
    assert_eq!(collector.get_active_connections(), 0);
    collector.increment_requests();
    collector.increment_requests();
    assert_eq!(collector.get_total_requests(), 2);
    collector.increment_connections();
    assert_eq!(collector.get_active_connections(), 1);
    collector.decrement_connections();
    assert_eq!(collector.get_active_connections(), 0);
}

#[test]
fn test_metrics_history() {
    let mut history: BoundedHistory<u64> = BoundedHistory::new(3);
    for i in 0..5u64 {
        history.push(i);
    }
    assert_eq!(history.len(), 3);
    assert_eq!(*history.get(0), 2);
}

#[test]
fn test_traffic_type_metrics() {
    let mut collector = MetricsCounters::new();
    collector.increment_requests_by_type(TrafficType::Http);
    collector.increment_requests_by_type(TrafficType::Http);
    collector.increment_requests_by_type(TrafficType::Https);
    collector.add_bytes_sent_by_type(TrafficType::Http, 100);
    collector.add_bytes_received_by_type(TrafficType::Https, 200);
    assert_eq!(collector.total_requests, 3);
    assert_eq!(collector.get_counters(TrafficType::Http).requests, 2);
    assert_eq!(collector.get_counters(TrafficType::Https).requests, 1);
    assert_eq!(collector.get_counters(TrafficType::Http).bytes_sent, 100);
    assert_eq!(collector.get_counters(TrafficType::Https).bytes_received, 200);
}

#[test]
fn test_connection_tracking_by_type() {
    let mut collector = MetricsCounters::new();
    collector.increment_connections_by_type(TrafficType::Ws);
    collector.increment_connections_by_type(TrafficType::Wss);
    collector.increment_connections_by_type(TrafficType::Tunnel);
    assert_eq!(collector.active_connections, 3);
    assert_eq!(collector.get_counters(TrafficType::Ws).active_connections, 1);
    assert_eq!(collector.get_counters(TrafficType::Wss).active_connections, 1);
    assert_eq!(collector.get_counters(TrafficType::Tunnel).active_connections, 1);
    collector.decrement_connections_by_type(TrafficType::Ws);
    assert_eq!(collector.active_connections, 2);
    assert_eq!(collector.get_counters(TrafficType::Ws).active_connections, 0);
}

#[test]
fn builds_warn_alert_when_usage_crosses_warn_threshold() {
    let level = resource_alert_level(103, 128);
    assert_eq!(overall_level(&[Some(level), None]), ResourceAlertLevel::Warn);
    assert_eq!(Some(level), Some(ResourceAlertLevel::Warn));
}

#[test]
fn builds_critical_alert_when_usage_crosses_critical_threshold() {
    let level = resource_alert_level(122, 128);
    assert_eq!(overall_level(&[None, Some(level)]), ResourceAlertLevel::Critical);
    assert_eq!(Some(level), Some(ResourceAlertLevel::Critical));
}

#[test]
fn alert_levels_at_the_edges() {
    assert_eq!(resource_alert_level(0, 0), ResourceAlertLevel::Safe);
    assert_eq!(resource_alert_level(101, 128), ResourceAlertLevel::Safe);
    assert_eq!(resource_alert_level(128, 128), ResourceAlertLevel::Critical);
}
