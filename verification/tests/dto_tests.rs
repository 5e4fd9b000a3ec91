use bifrost_admin::dto::{audit_page, default_limit, default_method, default_status, default_url, parse_usize_query, FramesQuery};
use bifrost_admin::router::{AdminRoute, AdminRouter, ApiRoute};

#[test]
fn audit_paging() {
    assert_eq!(audit_page(None, None), (50, 0));
    assert_eq!(audit_page(Some(0), Some(5)), (50, 5));
    assert_eq!(audit_page(Some(900), None), (500, 0));
    assert_eq!(parse_usize_query(Some("limit=20&offset=3"), "offset"), Some(3));
    assert_eq!(parse_usize_query(Some(" limit =7"), "limit"), Some(7));
    assert_eq!(parse_usize_query(Some("limit"), "limit"), None);
    assert_eq!(parse_usize_query(None, "limit"), None);
}

#[test]
fn defaults() {
    assert_eq!(default_limit(), 100);
    let q = FramesQuery::default();
    assert_eq!(q.limit, 100);
    assert!(q.after.is_none());
    assert_eq!(default_url(), "https://example.com/api");
    assert_eq!(default_method(), "GET");
    assert_eq!(default_status(), 200);
}

#[test]
fn routes() {
    assert!(matches!(AdminRouter::admin_route("/other"), AdminRoute::NotFound));
    assert!(matches!(AdminRouter::admin_route("/_bifrost/api/rules"), AdminRoute::Api));
    assert!(matches!(AdminRouter::admin_route("/_bifrost/public/cert/x"), AdminRoute::CertPublic));
    assert!(matches!(AdminRouter::admin_route("/_bifrost/index.html"), AdminRoute::Static));
    assert!(matches!(AdminRouter::api_route("/api/group-rules/1"), ApiRoute::GroupRules));
    assert!(matches!(AdminRouter::api_route("/api/group/1"), ApiRoute::Group));
    match AdminRouter::api_route("/api/values/abc") {
        ApiRoute::Values(s) => assert_eq!(s, "/abc"),
        _ => panic!("values route"),
    }
    assert!(matches!(AdminRouter::api_route("/api/unknown"), ApiRoute::NotFound));
}
