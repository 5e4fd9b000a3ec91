use bifrost_admin::config::{
    apply_tls_update, apply_traffic_update, validate_traffic_update, DisconnectAction, TlsConfig,
    TrafficConfig, UpdateTlsConfigRequest, UpdateTrafficConfigRequest,
};

fn tls() -> TlsConfig {
    TlsConfig {
        enable_tls_interception: true,
        intercept_exclude: vec!["a.com".to_string(), "b.com".to_string()],
        intercept_include: vec![],
        unsafe_ssl: false,
        disconnect_on_config_change: true,
    }
}

#[test]
fn switch_change_disconnects_everything() {
    let mut c = tls();
    let req = UpdateTlsConfigRequest {
        enable_tls_interception: Some(false),
        intercept_exclude: None,
        intercept_include: None,
        unsafe_ssl: None,
        disconnect_on_config_change: None,
    };
    let o = apply_tls_update(&mut c, &req);
    assert!(o.global_changed);
    assert!(!c.enable_tls_interception);
    assert!(matches!(o.action, DisconnectAction::All { intercept_disabled: true }));
}

#[test]
fn pattern_change_disconnects_matching_hosts() {
    let mut c = tls();
    let req = UpdateTlsConfigRequest {
        enable_tls_interception: Some(true),
        intercept_exclude: Some(vec!["b.com".to_string(), "c.com".to_string()]),
        intercept_include: None,
        unsafe_ssl: Some(true),
        disconnect_on_config_change: None,
    };
    let o = apply_tls_update(&mut c, &req);
    assert!(!o.global_changed);
    assert_eq!(o.affected_patterns, vec!["c.com".to_string(), "a.com".to_string()]);
    match o.action {
        DisconnectAction::Patterns(p) => assert_eq!(p, vec!["c.com".to_string(), "a.com".to_string()]),
        _ => panic!("expected pattern disconnect"),
    }
    assert!(c.unsafe_ssl);
    assert_eq!(c.intercept_exclude, vec!["b.com".to_string(), "c.com".to_string()]);
}

#[test]
fn no_disconnect_when_disabled() {
    let mut c = tls();
    let req = UpdateTlsConfigRequest {
        enable_tls_interception: Some(false),
        intercept_exclude: None,
        intercept_include: None,
        unsafe_ssl: None,
        disconnect_on_config_change: Some(false),
    };
    let o = apply_tls_update(&mut c, &req);
    assert!(o.global_changed);
    assert!(matches!(o.action, DisconnectAction::Keep));
}

#[test]
fn traffic_limits() {
    let bad = UpdateTrafficConfigRequest {
        max_records: None,
        max_body_memory_size: None,
        max_body_buffer_size: None,
        file_retention_days: Some(8),
    };
    assert_eq!(validate_traffic_update(&bad), Err("file_retention_days cannot exceed 7 days"));
    let good = UpdateTrafficConfigRequest {
        max_records: Some(10),
        max_body_memory_size: None,
        max_body_buffer_size: None,
        file_retention_days: Some(7),
    };
    assert!(validate_traffic_update(&good).is_ok());
    let mut c = TrafficConfig::fallback();
    assert_eq!(c.max_records, 5000);
    apply_traffic_update(&mut c, &good);
    assert_eq!(c.max_records, 10);
    assert_eq!(c.max_body_memory_size, 2 * 1024 * 1024);
    assert_eq!(c.file_retention_days, 7);
}
