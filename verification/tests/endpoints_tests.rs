use bifrost_admin::endpoints::{
    config_endpoint, force_refresh, metrics_endpoint, search_endpoint, system_endpoint, ConfigEndpoint,
    MetricsEndpoint, SearchEndpoint, SystemEndpoint,
};

#[test]
fn system_paths_serve_get_only() {
    assert_eq!(system_endpoint("/api/system", "GET"), SystemEndpoint::Info);
    assert_eq!(system_endpoint("/api/system/", "GET"), SystemEndpoint::Info);
    assert_eq!(system_endpoint("/api/system/memory/", "GET"), SystemEndpoint::Memory);
    assert_eq!(system_endpoint("/api/system/overview", "POST"), SystemEndpoint::MethodNotAllowed);
    assert_eq!(system_endpoint("/api/system/version-check", "GET"), SystemEndpoint::VersionCheck);
    assert_eq!(system_endpoint("/api/system/overview/", "GET"), SystemEndpoint::NotFound);
}

#[test]
fn metrics_paths_serve_get_only() {
    assert_eq!(metrics_endpoint("/api/metrics/", "GET"), MetricsEndpoint::Current);
    assert_eq!(metrics_endpoint("/api/metrics/history", "GET"), MetricsEndpoint::History);
    assert_eq!(metrics_endpoint("/api/metrics/apps", "DELETE"), MetricsEndpoint::MethodNotAllowed);
    assert_eq!(metrics_endpoint("/api/metrics/hosts", "GET"), MetricsEndpoint::Hosts);
    assert_eq!(metrics_endpoint("/api/metrics/other", "GET"), MetricsEndpoint::NotFound);
}

#[test]
fn config_paths_read_and_write() {
    assert_eq!(config_endpoint("/api/config", "GET"), ConfigEndpoint::ProxySettings);
    assert_eq!(config_endpoint("/api/config", "PUT"), ConfigEndpoint::MethodNotAllowed);
    assert_eq!(config_endpoint("/api/config/tls/", "PUT"), ConfigEndpoint::UpdateTls);
    assert_eq!(config_endpoint("/api/config/performance", "GET"), ConfigEndpoint::GetPerformance);
    assert_eq!(
        config_endpoint("/api/config/performance/clear-cache", "DELETE"),
        ConfigEndpoint::ClearBodyCache
    );
    assert_eq!(config_endpoint("/api/config/tls", "DELETE"), ConfigEndpoint::MethodNotAllowed);
    assert_eq!(config_endpoint("/api/config/x", "GET"), ConfigEndpoint::NotFound);
}

#[test]
fn search_paths_ignore_trailing_slashes() {
    assert_eq!(search_endpoint("/api/search//", "POST"), SearchEndpoint::Search);
    assert_eq!(search_endpoint("/api/search/stream", "POST"), SearchEndpoint::Stream);
    assert_eq!(search_endpoint("/api/search", "GET"), SearchEndpoint::MethodNotAllowed);
    assert_eq!(search_endpoint("/api/searches", "POST"), SearchEndpoint::NotFound);
}

#[test]
fn version_checks_refresh_on_request() {
    assert!(force_refresh(Some("refresh=true")));
    assert!(force_refresh(Some("a=b&refresh=1")));
    assert!(!force_refresh(Some("refresh=0")));
    assert!(!force_refresh(None));
}

#[test]
fn notification_ids_are_signed_numbers() {
    assert_eq!(bifrost_admin::notifications::notification_id("42"), Some(42));
    assert_eq!(bifrost_admin::notifications::notification_id("-7"), Some(-7));
    assert_eq!(bifrost_admin::notifications::notification_id("x1"), None);
}
