use bifrost_admin::registry::is_domain_matched;

#[test]
fn test_is_domain_matched() {
    assert!(is_domain_matched("api.example.com", &["*.example.com".to_string()]));
    assert!(is_domain_matched("example.com", &["*.example.com".to_string()]));
    assert!(is_domain_matched("example.com", &["example.com".to_string()]));
    assert!(!is_domain_matched("other.com", &["*.example.com".to_string()]));
    assert!(!is_domain_matched("notexample.com", &["*.example.com".to_string()]));
}

#[test]
fn domain_match_with_no_patterns_is_false() {
    assert!(!is_domain_matched("example.com", &[]));
}

use bifrost_admin::registry::{ConnectionSummary, ConnectionTable, DisconnectCriterion};

fn conn(id: &str, host: &str, intercept: bool, app: Option<&str>) -> ConnectionSummary {
    ConnectionSummary {
        req_id: id.to_string(),
        host: host.to_string(),
        port: 443,
        intercept_mode: intercept,
        client_app: app.map(|a| a.to_string()),
    }
}

/// Disconnects the affected connections: every one of them is cancelled
/// here, so every one is forgotten.
fn disconnect(table: &mut ConnectionTable, criterion: &DisconnectCriterion) -> Vec<String> {
    let ids = table.affected(criterion);
    table.remove_disconnected(&ids);
    ids
}

#[test]
fn test_connection_registry_basic() {
    let mut registry = ConnectionTable::new(true);
    registry.register(conn("req-001", "api.example.com", true, Some("TestApp")));
    assert_eq!(registry.active_count(), 1);
    registry.unregister("req-001");
    assert_eq!(registry.active_count(), 0);
}

#[test]
fn test_disconnect_by_pattern() {
    let mut registry = ConnectionTable::new(true);
    registry.register(conn("req-001", "api.example.com", true, Some("App1")));
    registry.register(conn("req-002", "api.other.com", true, Some("App2")));
    registry.register(conn("req-003", "cdn.example.com", false, None));
    assert_eq!(registry.active_count(), 3);
    let disconnected = disconnect(&mut registry, &DisconnectCriterion::HostPatterns(vec!["*.example.com".to_string()]));
    assert_eq!(disconnected.len(), 2);
    assert!(disconnected.contains(&"req-001".to_string()));
    assert!(disconnected.contains(&"req-003".to_string()));
    assert_eq!(registry.active_count(), 1);
}

#[test]
fn test_disconnect_by_app() {
    let mut registry = ConnectionTable::new(true);
    registry.register(conn("req-001", "api.example.com", true, Some("Safari")));
    registry.register(conn("req-002", "api.other.com", true, Some("Chrome")));
    registry.register(conn("req-003", "cdn.example.com", false, Some("Safari")));
    assert_eq!(registry.active_count(), 3);
    let disconnected = disconnect(&mut registry, &DisconnectCriterion::App("Safari".to_string()));
    assert_eq!(disconnected.len(), 2);
    assert!(disconnected.contains(&"req-001".to_string()));
    assert!(disconnected.contains(&"req-003".to_string()));
    assert_eq!(registry.active_count(), 1);
}

#[test]
fn test_disconnect_disabled() {
    let mut registry = ConnectionTable::new(false);
    registry.register(conn("req-001", "api.example.com", true, None));
    let disconnected = disconnect(&mut registry, &DisconnectCriterion::AllWithMode(true));
    assert!(disconnected.is_empty());
    assert_eq!(registry.active_count(), 1);
}

#[test]
fn registering_an_id_again_replaces_it() {
    let mut table = ConnectionTable::new(true);
    table.register(conn("a", "x.com", true, None));
    table.register(conn("a", "y.com", false, Some("App")));
    assert_eq!(table.active_count(), 1);
    let list = table.list_connections();
    assert_eq!(list, vec![("a".to_string(), "y.com".to_string(), 443, false)]);
    table.update_client_app("a", "Other".to_string());
    assert_eq!(table.list_connections_full()[0].client_app.as_deref(), Some("Other"));
    table.unregister("missing");
    assert_eq!(table.active_count(), 1);
    assert!(table.is_disconnect_enabled());
}

#[test]
fn only_cancelled_connections_are_forgotten() {
    let mut table = ConnectionTable::new(true);
    table.register(conn("a", "x.com", true, None));
    table.register(conn("b", "x.com", true, None));
    let ids = table.affected(&DisconnectCriterion::AllWithMode(true));
    assert_eq!(ids, vec!["a".to_string(), "b".to_string()]);
    table.remove_disconnected(&vec!["b".to_string()]);
    assert_eq!(table.list_connections()[0].0, "a");
    assert_eq!(table.active_count(), 1);
}
