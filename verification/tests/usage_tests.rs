use bifrost_admin::sse::SocketCounters;
use bifrost_admin::usage::{
    app_metrics_from_records, app_metrics_from_rows, host_metrics_from_records, host_metrics_from_rows,
    MetricTraffic, TrafficTotals,
};

fn record(host: &str, protocol: &str, req: u64, resp: u64, app: Option<&str>) -> MetricTraffic {
    MetricTraffic {
        id: format!("{host}-{protocol}"),
        host: host.to_string(),
        protocol: protocol.to_string(),
        request_size: req,
        response_size: resp,
        is_websocket: false,
        is_sse: false,
        is_tunnel: false,
        socket_status: None,
        client_app: app.map(|a| a.to_string()),
    }
}

fn counters(send: u64, receive: u64) -> SocketCounters {
    SocketCounters { is_open: true, send_count: 1, receive_count: 1, send_bytes: send, receive_bytes: receive, frame_count: 0 }
}

#[test]
fn app_metrics_group_by_app_and_put_busiest_first() {
    let records = vec![
        record("a.com", "https", 10, 20, Some("Chrome")),
        record("b.com", "http", 1, 2, None),
        record("a.com", "https", 5, 5, Some("Chrome")),
        record("c.com", "h3", 7, 8, Some("curl")),
        record("c.com", "socks5", 1, 1, Some("curl")),
        record("c.com", "weird", 1, 1, Some("curl")),
    ];
    let monitored = vec![None; records.len()];
    let active = vec![Some("Slack".to_string()), None];
    let apps = app_metrics_from_records(&records, &monitored, &active);
    let names: Vec<&str> = apps.iter().map(|m| m.app_name.as_str()).collect();
    assert_eq!(names, vec!["curl", "Chrome", "Unknown", "Slack"]);
    assert_eq!(apps[0].requests, 3);
    assert_eq!(apps[0].h3_requests, 1);
    assert_eq!(apps[0].socks5_requests, 1);
    assert_eq!(apps[1].requests, 2);
    assert_eq!(apps[1].https_requests, 2);
    assert_eq!(apps[1].bytes_sent, 15);
    assert_eq!(apps[1].bytes_received, 25);
    assert_eq!(apps[2].requests, 1);
    assert_eq!(apps[2].http_requests, 1);
    assert_eq!(apps[2].active_connections, 1);
    assert_eq!(apps[3].requests, 0);
    assert_eq!(apps[3].active_connections, 1);
}

#[test]
fn streaming_records_count_socket_bytes() {
    let mut ws = record("w.com", "wss", 100, 200, None);
    ws.is_websocket = true;
    let mut sse = record("s.com", "https", 100, 200, None);
    sse.is_sse = true;
    sse.socket_status = Some(counters(3, 4));
    let mut plain = record("p.com", "https", 100, 200, None);
    plain.socket_status = Some(counters(9, 9));
    let records = vec![ws, sse, plain];
    let monitored = vec![Some(counters(30, 40)), Some(counters(50, 60)), Some(counters(70, 80))];
    let hosts = host_metrics_from_records(&records, &monitored, &vec![]);
    assert_eq!(hosts.len(), 3);
    assert_eq!((hosts[0].host.as_str(), hosts[0].bytes_sent, hosts[0].bytes_received), ("w.com", 30, 40));
    assert_eq!((hosts[1].host.as_str(), hosts[1].bytes_sent, hosts[1].bytes_received), ("s.com", 3, 4));
    assert_eq!((hosts[2].host.as_str(), hosts[2].bytes_sent, hosts[2].bytes_received), ("p.com", 100, 200));
    assert_eq!(hosts[0].wss_requests, 1);
}

#[test]
fn empty_host_is_grouped_as_unknown() {
    let records = vec![record("", "tunnel", 1, 1, None), record("x.com", "ws", 1, 1, None), record("x.com", "ws", 1, 1, None)];
    let monitored = vec![None, None, None];
    let hosts = host_metrics_from_records(&records, &monitored, &vec!["".to_string(), "y.com".to_string()]);
    let names: Vec<&str> = hosts.iter().map(|m| m.host.as_str()).collect();
    assert_eq!(names, vec!["x.com", "Unknown", "y.com"]);
    assert_eq!(hosts[0].ws_requests, 2);
    assert_eq!(hosts[1].tunnel_requests, 1);
    assert_eq!(hosts[1].active_connections, 1);
}

fn totals(requests: u64, active: u64) -> TrafficTotals {
    TrafficTotals {
        requests,
        active_connections: active,
        bytes_sent: requests * 10,
        bytes_received: requests * 20,
        http_requests: requests,
        https_requests: 0,
        tunnel_requests: 0,
        ws_requests: 0,
        wss_requests: 0,
        h3_requests: 0,
        socks5_requests: 0,
    }
}

#[test]
fn grouped_rows_start_without_open_connections() {
    let rows = vec![("a".to_string(), totals(2, 7)), ("b".to_string(), totals(5, 7))];
    let apps = app_metrics_from_rows(rows, &vec![Some("a".to_string()), Some("a".to_string())]);
    assert_eq!(apps[0].app_name, "b");
    assert_eq!(apps[0].active_connections, 0);
    assert_eq!(apps[0].bytes_sent, 50);
    assert_eq!(apps[1].app_name, "a");
    assert_eq!(apps[1].active_connections, 2);

    let hosts = host_metrics_from_rows(vec![("h".to_string(), totals(1, 0)), ("h".to_string(), totals(4, 0))], &vec![]);
    assert_eq!(hosts.len(), 1);
    assert_eq!(hosts[0].requests, 4);
}

#[test]
fn groups_with_equal_requests_keep_first_seen_order() {
    let records = vec![record("b.com", "http", 1, 1, None), record("a.com", "http", 1, 1, None), record("c.com", "http", 1, 1, None)];
    let monitored = vec![None, None, None];
    let hosts = host_metrics_from_records(&records, &monitored, &vec![]);
    let names: Vec<&str> = hosts.iter().map(|m| m.host.as_str()).collect();
    assert_eq!(names, vec!["b.com", "a.com", "c.com"]);
    let total: u64 = hosts.iter().map(|m| m.requests).sum();
    assert_eq!(total, 3);
}

fn one_request(protocol: &str, sent: u64, received: u64) -> TrafficTotals {
    let mut t = totals(0, 0);
    t.requests = 1;
    t.bytes_sent = sent;
    t.bytes_received = received;
    t.http_requests = if protocol == "http" { 1 } else { 0 };
    t.https_requests = if protocol == "https" { 1 } else { 0 };
    t
}

#[test]
fn host_metrics_include_traffic_db_records() {
    let rows = vec![("example.com".to_string(), one_request("https", 10, 20))];
    let metrics = host_metrics_from_rows(rows, &vec![]);
    let m = metrics.iter().find(|m| m.host == "example.com").unwrap();
    assert_eq!(m.requests, 1);
    assert_eq!(m.bytes_sent, 10);
    assert_eq!(m.bytes_received, 20);
    assert_eq!(m.https_requests, 1);
}

#[test]
fn app_metrics_include_traffic_db_records() {
    let rows = vec![("TestApp".to_string(), one_request("https", 7, 9))];
    let metrics = app_metrics_from_rows(rows, &vec![]);
    let m = metrics.iter().find(|m| m.app_name == "TestApp").unwrap();
    assert_eq!(m.requests, 1);
    assert_eq!(m.bytes_sent, 7);
    assert_eq!(m.bytes_received, 9);
    assert_eq!(m.https_requests, 1);
}

#[test]
fn host_metrics_include_in_memory_records() {
    let records = vec![record("example.net", "http", 3, 5, None)];
    let metrics = host_metrics_from_records(&records, &vec![None], &vec![]);
    let m = metrics.iter().find(|m| m.host == "example.net").unwrap();
    assert_eq!(m.requests, 1);
    assert_eq!(m.bytes_sent, 3);
    assert_eq!(m.bytes_received, 5);
    assert_eq!(m.http_requests, 1);
}
