use bifrost_admin::app_names::{app_icon_request, app_path_from_records};
use bifrost_admin::responses::{
    cors_preflight, error_response_body, json_headers, method_not_allowed, not_found, success_response_body,
    ADMIN_CORS_ALLOW_HEADERS,
};

#[test]
fn cors_preflight_allows_desktop_client_header() {
    let (status, headers) = cors_preflight();
    assert_eq!(status, 204);
    let allow = headers.iter().find(|(k, _)| *k == "Access-Control-Allow-Headers").map(|(_, v)| *v);
    assert_eq!(allow, Some(ADMIN_CORS_ALLOW_HEADERS));
    assert!(
        ADMIN_CORS_ALLOW_HEADERS.contains("X-Client-Id"),
        "desktop requests require X-Client-Id to pass CORS preflight"
    );
}

#[test]
fn error_and_success_bodies() {
    let e = error_response_body(404, "Not Found").unwrap();
    assert_eq!(String::from_utf8(e).unwrap(), r#"{"error":"Not Found","status":404}"#);
    let s = success_response_body("done").unwrap();
    assert_eq!(String::from_utf8(s).unwrap(), r#"{"message":"done","success":true}"#);
    assert_eq!(json_headers(), vec![("Content-Type", "application/json"), ("Access-Control-Allow-Origin", "*")]);
    assert_eq!(method_not_allowed(), (405, "Method Not Allowed"));
    assert_eq!(not_found(), (404, "Not Found"));
}

#[test]
fn app_icon_requests() {
    assert_eq!(app_icon_request("/api/app-icon/Google%20Chrome", "GET").ok(), Some("Google Chrome".to_string()));
    assert_eq!(app_icon_request("/api/app-icon/%zz", "GET").ok(), Some("%zz".to_string()));
    let e = app_icon_request("/api/app-icon/  ", "GET").err().unwrap();
    assert_eq!((e.status, e.message), (400, "App name is required"));
    let e = app_icon_request("/api/app-icon/x", "POST").err().unwrap();
    assert_eq!((e.status, e.message), (405, "Method not allowed"));
    let records = vec![
        (Some("Safari".to_string()), Some("/A/Safari.app".to_string())),
        (Some("Chrome".to_string()), Some("/A/Chrome.app".to_string())),
        (Some("Safari".to_string()), None),
        (None, Some("/x".to_string())),
        (Some("Safari".to_string()), Some("/B/Safari.app".to_string())),
        (Some("Chrome".to_string()), None),
    ];
    assert_eq!(app_path_from_records(&records, "Safari"), Some("/B/Safari.app".to_string()));
    assert_eq!(app_path_from_records(&records, "Chrome"), Some("/A/Chrome.app".to_string()));
    assert_eq!(app_path_from_records(&records, "Slack"), None);
}
