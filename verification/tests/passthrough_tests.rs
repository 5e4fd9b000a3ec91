use bifrost_admin::notifications::{notification_route, parse_query_param, NotificationEndpoint};
use bifrost_admin::passthrough::{
    adapt_create_room_to_invite, detail_needs_setting, enrich_group_detail, group_remote_path, is_create_room,
    is_single_group_detail, proxy_verb, replace_first_exec, room_remote_path, user_remote_path, visibility_of_level,
    ProxyVerb,
};

#[test]
fn notification_routes() {
    let r = notification_route("/api/notifications", "GET");
    assert_eq!((r.endpoint, r.id), (NotificationEndpoint::List, None));
    assert_eq!(notification_route("/api/notifications/", "GET").endpoint, NotificationEndpoint::List);
    assert_eq!(notification_route("/api/notifications/x", "OPTIONS").endpoint, NotificationEndpoint::Preflight);
    assert_eq!(notification_route("/api/notifications/client-trust", "GET").endpoint, NotificationEndpoint::ClientTrust);
    assert_eq!(notification_route("/api/notifications/mark-all-read", "POST").endpoint, NotificationEndpoint::MarkAllRead);
    assert_eq!(notification_route("/api/notifications/unread-count", "GET").endpoint, NotificationEndpoint::UnreadCount);
    let r = notification_route("/api/notifications/status/42", "PUT");
    assert_eq!((r.endpoint, r.id), (NotificationEndpoint::UpdateStatus, Some("42".to_string())));
    assert_eq!(notification_route("/api/notifications/other", "GET").endpoint, NotificationEndpoint::NotFound);
}

#[test]
fn notification_query_parameters() {
    assert_eq!(parse_query_param(Some("type=tls&status=unread"), "status"), Some("unread".to_string()));
    assert_eq!(parse_query_param(Some(" type =a=b"), "type"), Some("a=b".to_string()));
    assert_eq!(parse_query_param(Some("flag"), "flag"), Some(String::new()));
    assert_eq!(parse_query_param(Some("a=1"), "b"), None);
    assert_eq!(parse_query_param(None, "a"), None);
}

#[test]
fn passed_on_paths_and_methods() {
    assert_eq!(replace_first_exec("a-b-b", "b", "c"), "a-c-b");
    assert_eq!(replace_first_exec("abc", "x", "y"), "abc");
    assert_eq!(group_remote_path("/api/group/7/members"), "/v4/group/7/members");
    assert_eq!(user_remote_path("/api/user/me"), "/v4/user/me");
    assert_eq!(room_remote_path("/api/room/3"), "/v4/room/3");
    assert!(is_create_room("POST", "/api/room"));
    assert!(!is_create_room("POST", "/api/room/3"));
    assert_eq!(proxy_verb("PATCH"), Some(ProxyVerb::Patch));
    assert_eq!(proxy_verb("HEAD"), None);
    assert_eq!(is_single_group_detail("GET", "/api/group/abc"), Some("abc".to_string()));
    assert_eq!(is_single_group_detail("GET", "/api/group/abc/members"), None);
    assert_eq!(is_single_group_detail("GET", "/api/group/"), None);
    assert_eq!(is_single_group_detail("PUT", "/api/group/abc"), None);
    assert_eq!(visibility_of_level(1), 1);
    assert_eq!(visibility_of_level(2), 0);
}

#[test]
fn create_room_becomes_invitation() {
    let body = br#"{"group_id":"g1","user_id":"u1","level":-3,"extra":true}"#;
    let invite = adapt_create_room_to_invite(Some(body)).expect("invite");
    assert_eq!(String::from_utf8(invite).unwrap(), r#"{"group_id":"g1","level":-3,"user_id":["u1"]}"#);
    let invite = adapt_create_room_to_invite(Some(br#"{"group_id":"g","user_id":"u"}"#)).expect("invite");
    assert_eq!(String::from_utf8(invite).unwrap(), r#"{"group_id":"g","level":0,"user_id":["u"]}"#);
    assert!(adapt_create_room_to_invite(Some(br#"{"group_id":"g"}"#)).is_none());
    assert!(adapt_create_room_to_invite(Some(b"not json")).is_none());
    assert!(adapt_create_room_to_invite(None).is_none());
}

#[test]
fn group_detail_is_completed_from_setting() {
    let detail = br#"{"code":0,"data":{"id":"g","name":"n"}}"#.to_vec();
    assert!(detail_needs_setting(&detail));
    assert!(!detail_needs_setting(br#"{"data":{"level":2}}"#));
    assert!(detail_needs_setting(br#"{"data":{"level":null}}"#));
    assert!(!detail_needs_setting(b"oops"));
    let enriched = enrich_group_detail(detail.clone(), 200, br#"{"data":{"level":1}}"#);
    let v: serde_json::Value = serde_json::from_slice(&enriched).unwrap();
    assert_eq!(v["data"]["visibility"], 1);
    assert_eq!(v["data"]["level"], 1);
    assert_eq!(v["data"]["name"], "n");
    let enriched = enrich_group_detail(detail.clone(), 200, br#"{"data":{}}"#);
    let v: serde_json::Value = serde_json::from_slice(&enriched).unwrap();
    assert_eq!(v["data"]["visibility"], 0);
    assert_eq!(v["data"]["level"], 0);
    assert_eq!(enrich_group_detail(detail.clone(), 500, br#"{"data":{"level":1}}"#), detail);
    assert_eq!(enrich_group_detail(detail.clone(), 200, b"nope"), detail);
}
