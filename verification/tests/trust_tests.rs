use bifrost_admin::trust::{
    classify_tls_accept_error, evaluate_trust, ClientTlsTrustTracker, ClientTrustRecord,
    ClientTrustStatus, TlsAcceptFailureReason,
};

#[test]
fn test_classify_unknown_ca() {
    let err = std::io::Error::other("peer sent fatal alert: UnknownCA");
    assert_eq!(classify_tls_accept_error(&err), TlsAcceptFailureReason::ClientDoesNotTrustCa);
}

#[test]
fn test_classify_bad_certificate() {
    let err = std::io::Error::other("peer sent fatal alert: BadCertificate");
    assert_eq!(classify_tls_accept_error(&err), TlsAcceptFailureReason::ClientDoesNotTrustCa);
}

#[test]
fn test_classify_certificate_unknown() {
    let err = std::io::Error::other("peer sent fatal alert: CertificateUnknown");
    assert_eq!(classify_tls_accept_error(&err), TlsAcceptFailureReason::ClientDoesNotTrustCa);
}

#[test]
fn test_classify_decrypt_error() {
    let err = std::io::Error::other("decrypt error");
    assert_eq!(
        classify_tls_accept_error(&err),
        TlsAcceptFailureReason::ProbablyClientDoesNotTrustCa
    );
}

#[test]
fn test_classify_connection_reset() {
    let err = std::io::Error::other("connection reset by peer");
    assert_eq!(classify_tls_accept_error(&err), TlsAcceptFailureReason::ConnectionReset);
}

#[test]
fn test_classify_unexpected_eof() {
    let err = std::io::Error::other("unexpected eof");
    assert_eq!(classify_tls_accept_error(&err), TlsAcceptFailureReason::ConnectionReset);
}

#[test]
fn test_classify_unknown() {
    let err = std::io::Error::other("some random error");
    assert_eq!(classify_tls_accept_error(&err), TlsAcceptFailureReason::Unknown);
}

#[test]
fn test_evaluate_trust_no_data() {
    let record = ClientTrustRecord::new(100);
    assert!(matches!(evaluate_trust(&record), ClientTrustStatus::Unknown));
}

#[test]
fn test_evaluate_trust_all_success() {
    let mut record = ClientTrustRecord::new(100);
    record.handshake_success = 5;
    assert!(matches!(evaluate_trust(&record), ClientTrustStatus::Trusted));
}

#[test]
fn test_evaluate_trust_all_untrust_failure() {
    let mut record = ClientTrustRecord::new(100);
    record.handshake_fail_untrust = 3;
    record.last_failure_reason = Some(TlsAcceptFailureReason::ClientDoesNotTrustCa);
    assert!(matches!(evaluate_trust(&record), ClientTrustStatus::NotTrusted { .. }));
}

#[test]
fn test_evaluate_trust_recovered() {
    let mut record = ClientTrustRecord::new(100);
    record.handshake_fail_untrust = 3;
    record.handshake_success = 2;
    record.last_failure_at = Some(100);
    record.last_success_at = Some(200);
    assert!(matches!(evaluate_trust(&record), ClientTrustStatus::Trusted));
}

#[test]
fn test_tracker_record_and_query() {
    let mut tracker = ClientTlsTrustTracker::new();
    tracker.record_handshake_failure(
        "192.168.1.100",
        Some("Firefox"),
        "example.com",
        &TlsAcceptFailureReason::ClientDoesNotTrustCa,
        1000,
    );
    tracker.record_handshake_failure(
        "192.168.1.100",
        Some("Firefox"),
        "github.com",
        &TlsAcceptFailureReason::ClientDoesNotTrustCa,
        1001,
    );
    assert!(matches!(
        tracker.get_trust_status_by_ip("192.168.1.100"),
        ClientTrustStatus::NotTrusted { .. }
    ));
    assert!(matches!(
        tracker.get_trust_status_by_app("Firefox"),
        ClientTrustStatus::NotTrusted { .. }
    ));
    let statuses = tracker.get_all_statuses();
    assert_eq!(statuses.len(), 2);
    assert_eq!(tracker.get_untrusted_count(), 2);
}

#[test]
fn test_tracker_event_emission() {
    let mut tracker = ClientTlsTrustTracker::new();
    let events = tracker.record_handshake_failure(
        "10.0.0.1",
        None,
        "example.com",
        &TlsAcceptFailureReason::ClientDoesNotTrustCa,
        1000,
    );
    assert_eq!(events.len(), 1);
    let event = &events[0];
    assert_eq!(event.identifier, "10.0.0.1");
    assert_eq!(event.old_status, "unknown");
    assert_eq!(event.new_status, "not_trusted");
    assert_eq!(event.identifier_type, "ip");
    assert_eq!(event.domain.as_deref(), Some("example.com"));
}

#[test]
fn test_tracker_clear() {
    let mut tracker = ClientTlsTrustTracker::new();
    tracker.record_handshake_success("10.0.0.1", Some("Chrome"), "example.com", 1000);
    assert_eq!(tracker.get_all_statuses().len(), 2);
    tracker.clear();
    assert_eq!(tracker.get_all_statuses().len(), 0);
}

#[test]
fn statuses_come_most_recent_first() {
    let mut tracker = ClientTlsTrustTracker::new();
    tracker.record_handshake_success("10.0.0.1", None, "a.com", 100);
    tracker.record_handshake_success("10.0.0.2", None, "b.com", 300);
    tracker.record_handshake_success("10.0.0.3", None, "c.com", 200);
    let rows = tracker.get_all_statuses();
    let seen: Vec<u64> = rows.iter().map(|r| r.last_seen).collect();
    assert_eq!(seen, vec![300, 200, 100]);
    assert_eq!(rows[0].identifier, "10.0.0.2");
    assert_eq!(rows[0].identifier_type, "ip");
}

#[test]
fn success_after_failures_restores_trust() {
    let mut tracker = ClientTlsTrustTracker::new();
    tracker.record_handshake_failure(
        "10.0.0.9",
        None,
        "example.com",
        &TlsAcceptFailureReason::ClientDoesNotTrustCa,
        100,
    );
    let events = tracker.record_handshake_success("10.0.0.9", None, "example.com", 200);
    assert!(matches!(tracker.get_trust_status_by_ip("10.0.0.9"), ClientTrustStatus::Trusted));
    assert_eq!(events.len(), 1);
    assert_eq!(events[0].old_status, "not_trusted");
    assert_eq!(events[0].new_status, "trusted");
}

#[test]
fn reason_text_is_snake_case() {
    assert_eq!(TlsAcceptFailureReason::ClientDoesNotTrustCa.to_string(), "client_does_not_trust_ca");
    assert!(TlsAcceptFailureReason::ClientDoesNotTrustCa.is_untrust());
    assert!(!TlsAcceptFailureReason::ConnectionReset.is_untrust());
}

#[test]
fn addresses_are_recorded_by_the_address_their_text_names() {
    let mut tracker = ClientTlsTrustTracker::new();
    tracker.record_handshake_success("::1", None, "a.com", 10);
    tracker.record_handshake_success("0::1", None, "a.com", 11);
    let rows = tracker.get_all_statuses();
    assert_eq!(rows.len(), 1);
    assert_eq!(rows[0].identifier, "0:0:0:0:0:0:0:1");
    assert_eq!(rows[0].handshake_success, 2);
    assert!(matches!(tracker.get_trust_status_by_ip("0:0::1"), ClientTrustStatus::Trusted));
    let events = tracker.record_handshake_success("not an ip", None, "a.com", 12);
    assert!(events.is_empty());
    assert_eq!(tracker.get_all_statuses().len(), 1);
}

#[test]
fn address_keys_follow_ip_syntax() {
    let k = bifrost_admin::ip_text::ip_key;
    assert_eq!(k("10.0.0.1").as_deref(), Some("10.0.0.1"));
    assert_eq!(k("1.2.3.04"), None);
    assert_eq!(k("256.1.1.1"), None);
    assert_eq!(k("1.2.3"), None);
    assert_eq!(k("1.2.3.4:80"), None);
    assert_eq!(k("::").as_deref(), Some("0:0:0:0:0:0:0:0"));
    assert_eq!(k("::FFFF:1.2.3.4").as_deref(), Some("0:0:0:0:0:ffff:102:304"));
    assert_eq!(k("1:2:3:4:5:6:7::").as_deref(), Some("1:2:3:4:5:6:7:0"));
    assert_eq!(k("1:2:3:4:5:6:7:8").as_deref(), Some("1:2:3:4:5:6:7:8"));
    assert_eq!(k("1::2::3"), None);
    assert_eq!(k("12345::"), None);
    assert_eq!(k(":1"), None);
}
