use bifrost_admin::replay::{
    default_port, get_insert_group_sql, get_insert_history_sql, get_insert_request_sql,
    get_update_group_sql, get_update_request_sql, history_cleanup_excess, replay_id,
    request_limit_reached, request_source_to_str, request_type_to_str, str_to_request_source,
    str_to_request_type, ReplayError, ReplayRequest, ReplayRequestSummary, RequestSource,
    RequestType, RuleConfig, RuleMode, MAX_HISTORY,
};

#[test]
fn request_types_round_trip() {
    for t in [RequestType::Http, RequestType::Sse, RequestType::WebSocket] {
        assert_eq!(str_to_request_type(request_type_to_str(&t)), t);
    }
    assert_eq!(str_to_request_type("grpc"), RequestType::Http);
    for s in [RequestSource::Internal, RequestSource::Imported] {
        assert_eq!(str_to_request_source(request_source_to_str(&s)), s);
    }
    assert_eq!(str_to_request_source("other"), RequestSource::Internal);
}

#[test]
fn statements_bind_every_column() {
    assert!(get_insert_request_sql().contains("?13"));
    assert!(get_update_request_sql().contains("WHERE id = ?12"));
    assert!(get_insert_group_sql().contains("?6"));
    assert!(get_update_group_sql().contains("WHERE id = ?5"));
    assert!(get_insert_history_sql().contains("rule_config_blob"));
}

#[test]
fn limits() {
    assert!(!request_limit_reached(999));
    assert!(request_limit_reached(1000));
    assert_eq!(history_cleanup_excess(0, MAX_HISTORY + 5), Some(5));
    assert_eq!(history_cleanup_excess(1, MAX_HISTORY + 5), None);
    assert_eq!(history_cleanup_excess(200, MAX_HISTORY), None);
}

#[test]
fn defaults_and_summaries() {
    assert_eq!(RuleMode::default(), RuleMode::Enabled);
    assert!(RuleConfig::default().selected_rules.is_empty());
    let r = ReplayRequest::new("GET".to_string(), "https://a.com".to_string(), "id-1".to_string(), 77);
    let s = ReplayRequestSummary::from(&r);
    assert_eq!(s.id, "id-1");
    assert_eq!(s.method, "GET");
    assert_eq!(s.created_at, 77);
    assert!(!s.is_saved);
}

#[test]
fn replay_messages() {
    assert_eq!(ReplayError::TooManyConcurrent.message(), "Too many concurrent replay requests");
    assert_eq!(ReplayError::InvalidUrl("x".to_string()).message(), "Invalid URL: x");
    assert_eq!(replay_id(12), "replay-12");
    assert_eq!(default_port(true), 443);
    assert_eq!(default_port(false), 80);
}
