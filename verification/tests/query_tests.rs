use bifrost_admin::query::{
    decode_query_value, parse_limit, parse_query_params_from_query_string, parse_traffic_filter,
    parse_updates_params, truncate_utf8, Direction,
};

#[test]
fn limit_is_the_first_limit_pair() {
    assert_eq!(parse_limit("a=1&limit=20&limit=30"), Some(20));
    assert_eq!(parse_limit("limit=x"), None);
    assert_eq!(parse_limit("offset=3"), None);
}

#[test]
fn query_values_decode_plus_and_percent() {
    assert_eq!(decode_query_value("a+b%20c"), "a b c");
    assert_eq!(decode_query_value("%FF"), "");
}

#[test]
fn updates_params() {
    let p = parse_updates_params("after_id=abc&cursor=42&pending_ids=x,,y&limit=7");
    assert_eq!(p.after_id.as_deref(), Some("abc"));
    assert_eq!(p.after_seq, Some(42));
    assert_eq!(p.pending_ids, vec!["x".to_string(), "y".to_string()]);
    assert_eq!(p.limit, Some(7));
    let long = "i".repeat(300);
    let p = parse_updates_params(&format!("pending_ids={},ok", long));
    assert_eq!(p.pending_ids, vec!["ok".to_string()]);
}

#[test]
fn traffic_query_params() {
    let p = parse_query_params_from_query_string("direction=forward&status=404&is_sse=true&host=a.com&method=GET");
    assert_eq!(p.direction, Direction::Forward);
    assert_eq!(p.status, Some(404));
    assert_eq!(p.is_sse, Some(true));
    assert_eq!(p.host_contains.as_deref(), Some("a.com"));
    assert_eq!(p.method.as_deref(), Some("GET"));
    assert_eq!(p.limit, Some(100));
    let p = parse_query_params_from_query_string("limit=5&direction=back");
    assert_eq!(p.limit, Some(5));
    assert_eq!(p.direction, Direction::Backward);
}

#[test]
fn traffic_filter() {
    let f = parse_traffic_filter("url=%2Fapi&status_min=200&status_max=299&has_rule_hit=false&header=x-a&offset=3");
    assert_eq!(f.url_contains.as_deref(), Some("/api"));
    assert_eq!(f.status_min, Some(200));
    assert_eq!(f.status_max, Some(299));
    assert_eq!(f.has_rule_hit, Some(false));
    assert_eq!(f.header_contains.as_deref(), Some("x-a"));
    assert_eq!(f.offset, Some(3));
    assert!(f.method.is_none());
}

#[test]
fn truncation_keeps_whole_characters() {
    assert_eq!(truncate_utf8("hello", 10), "hello");
    assert_eq!(truncate_utf8("hello", 3), "hel");
    assert_eq!(truncate_utf8("héllo", 2), "h");
    assert_eq!(truncate_utf8("héllo", 3), "hé");
}
