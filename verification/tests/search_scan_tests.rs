use bifrost_admin::query::Direction;
use bifrost_admin::search::{FilterCondition, SearchFilters, SearchRequest, SearchScope};
use bifrost_admin::search_scan::{
    absorb_round, search_continues, search_has_more, search_query_params, search_start, Candidate,
};

fn condition(field: &str, operator: &str, value: &str) -> FilterCondition {
    FilterCondition { field: field.to_string(), operator: operator.to_string(), value: value.to_string() }
}

#[test]
fn a_round_queries_backward_with_the_filters_the_database_applies() {
    let mut filters = SearchFilters::default();
    filters.protocols = vec!["ws".to_string(), "h3".to_string(), "http".to_string()];
    filters.has_rule_hit = Some(true);
    filters.conditions = vec![
        condition("host", "contains", "example"),
        condition("method", "contains", "GE"),
        condition("client_ip", "regex", "10\\..*"),
        condition("status", "equals", "200"),
    ];
    let request = SearchRequest {
        keyword: "token".to_string(),
        scope: SearchScope::default(),
        filters,
        cursor: None,
        limit: None,
    };
    let p = search_query_params(&request, Some(42));
    assert_eq!(p.cursor, Some(42));
    assert_eq!(p.limit, Some(200));
    assert_eq!(p.direction, Direction::Backward);
    assert_eq!(p.has_rule_hit, Some(true));
    assert_eq!(p.is_websocket, Some(true));
    assert_eq!(p.is_h3, Some(true));
    assert_eq!(p.host_contains.as_deref(), Some("example"));
    assert_eq!(p.method, None);
    assert_eq!(p.client_ip.as_deref(), Some("10\\..*"));
    assert_eq!(p.status, None);
}

#[test]
fn a_round_stops_once_enough_results_are_found() {
    let mut s = search_start(Some(2), None);
    assert!(search_continues(&s));
    let seqs = [10, 9, 8, 7, 6];
    let kinds = [Candidate::Matched, Candidate::Skipped, Candidate::Searched, Candidate::Matched, Candidate::Matched];
    let taken = absorb_round(&mut s, &seqs, &kinds, true);
    assert_eq!(taken, vec![0, 3]);
    assert_eq!(s.matched, 2);
    assert_eq!(s.total_searched, 4);
    assert_eq!(s.cursor, Some(7));
    assert_eq!(s.iterations, 1);
    assert!(!search_continues(&s));
    assert!(search_has_more(&s));
}

#[test]
fn an_empty_round_ends_the_search() {
    let mut s = search_start(None, Some(5));
    assert_eq!(s.wanted, 50);
    let taken = absorb_round(&mut s, &[], &[], true);
    assert!(taken.is_empty());
    assert!(!s.db_has_more);
    assert_eq!(s.cursor, Some(5));
    assert!(!search_continues(&s));
    assert!(!search_has_more(&s));
}

#[test]
fn a_round_without_matches_keeps_the_database_flag() {
    let mut s = search_start(Some(3), None);
    let taken = absorb_round(&mut s, &[3, 2, 1], &[Candidate::Searched; 3], false);
    assert!(taken.is_empty());
    assert_eq!(s.total_searched, 3);
    assert_eq!(s.cursor, Some(1));
    assert!(!s.db_has_more);
}
