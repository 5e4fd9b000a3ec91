use bifrost_admin::replay_api::check_websocket_replay;
use bifrost_admin::dto::StreamEvent;
use bifrost_admin::replay::RuleMode;
use bifrost_admin::replay_api::{
    apply_stream_line, finish_stream, is_event_stream, is_websocket_url, new_stream_event, read_stream_chunk,
    replay_failed, replay_route, replay_timed_out, replay_verb, rule_config_or_default, sse_message_frame,
    too_many_replays, unified_replay_plan, ReplayAction, ReplayVerb,
};

fn route(path: &str, method: &str) -> (ReplayAction, Option<String>) {
    let r = replay_route(path, method);
    (r.action, r.id)
}

#[test]
fn replay_routes_by_path_and_method() {
    assert_eq!(route("/api/replay/execute", "POST"), (ReplayAction::ExecuteHttp, None));
    assert_eq!(route("/api/replay/execute/unified", "POST"), (ReplayAction::ExecuteHttp, None));
    assert_eq!(route("/api/replay/execute", "GET"), (ReplayAction::MethodNotAllowed, None));
    assert_eq!(route("/api/replay/execute/ws", "GET"), (ReplayAction::ExecuteWebSocket, None));
    assert_eq!(route("/api/replay/groups/", "POST"), (ReplayAction::CreateGroup, None));
    assert_eq!(route("/api/replay/groups", "GET"), (ReplayAction::ListGroups, None));
    assert_eq!(route("/api/replay/groups/g1", "PUT"), (ReplayAction::UpdateGroup, Some("g1".to_string())));
    assert_eq!(route("/api/replay/groups/g1", "PATCH"), (ReplayAction::MethodNotAllowed, None));
    assert_eq!(route("/api/replay/requests/count", "GET"), (ReplayAction::CountRequests, None));
    assert_eq!(route("/api/replay/requests/r9/move", "PUT"), (ReplayAction::MoveRequest, Some("r9".to_string())));
    assert_eq!(route("/api/replay/requests/r9/move", "GET"), (ReplayAction::MethodNotAllowed, None));
    assert_eq!(route("/api/replay/requests/r9", "DELETE"), (ReplayAction::DeleteRequest, Some("r9".to_string())));
    assert_eq!(route("/api/replay/history", "DELETE"), (ReplayAction::ClearHistory, None));
    assert_eq!(route("/api/replay/history/count", "GET"), (ReplayAction::CountHistory, None));
    assert_eq!(route("/api/replay/history/h2", "DELETE"), (ReplayAction::DeleteHistory, Some("h2".to_string())));
    assert_eq!(route("/api/replay/history/h2", "GET"), (ReplayAction::MethodNotAllowed, None));
    assert_eq!(route("/api/replay/stats", "GET"), (ReplayAction::Stats, None));
    assert_eq!(route("/api/replay/other", "GET"), (ReplayAction::NotFound, None));
}

#[test]
fn replay_methods_and_refusals() {
    assert_eq!(replay_verb("post"), ReplayVerb::Post);
    assert_eq!(replay_verb("Options"), ReplayVerb::Options);
    assert_eq!(replay_verb("TRACE"), ReplayVerb::Get);
    assert!(is_websocket_url("WSS://example.com/socket"));
    assert!(!is_websocket_url("https://example.com"));
    match unified_replay_plan("ws://x", "GET") {
        Err(e) => {
            assert_eq!(e.status, 400);
            assert!(e.message.starts_with("WebSocket URLs are not supported via HTTP endpoint."));
        }
        Ok(_) => panic!("a WebSocket URL is refused"),
    }
    assert_eq!(unified_replay_plan("http://x", "delete").ok(), Some(ReplayVerb::Delete));
    assert_eq!(too_many_replays().status, 429);
    let t = replay_timed_out(1500);
    assert_eq!((t.status, t.message.as_str()), (504, "Request timeout after 1500ms"));
    let f = replay_failed("boom");
    assert_eq!((f.status, f.message.as_str()), (502, "Request failed: boom"));
    let c = rule_config_or_default(None);
    assert_eq!(c.mode, RuleMode::Enabled);
    assert!(c.selected_rules.is_empty());
}

#[test]
fn event_stream_detection_and_framing() {
    assert!(is_event_stream("Text/Event-Stream; charset=utf-8"));
    assert!(!is_event_stream("application/json"));
    assert_eq!(sse_message_frame("{\"a\":1}"), "event: message\ndata: {\"a\":1}\n\n");
}

fn ev(t: &str, d: &str, id: Option<&str>) -> (String, String, Option<String>) {
    (t.to_string(), d.to_string(), id.map(|s| s.to_string()))
}

fn parts(e: &StreamEvent) -> (String, String, Option<String>) {
    (e.type_.clone(), e.data.clone(), e.id.clone())
}

#[test]
fn stream_lines_fill_and_end_events() {
    let mut cur = new_stream_event();
    assert!(apply_stream_line(&mut cur, "event:  delta ").is_none());
    assert!(apply_stream_line(&mut cur, "data: a").is_none());
    assert!(apply_stream_line(&mut cur, "data:b ").is_none());
    assert!(apply_stream_line(&mut cur, "id: 7").is_none());
    assert!(apply_stream_line(&mut cur, ": comment").is_none());
    let done = apply_stream_line(&mut cur, "").expect("event");
    assert_eq!(parts(&done), ev("delta", "a\nb", Some("7")));
    assert_eq!(parts(&cur), ev("message", "", None));
    assert!(apply_stream_line(&mut cur, "").is_none());
}

#[test]
fn stream_chunks_are_cut_at_newlines() {
    let mut pending: Vec<u8> = Vec::new();
    let mut cur = new_stream_event();
    let out = read_stream_chunk(&mut pending, &mut cur, b"data: he");
    assert!(out.is_empty());
    assert_eq!(pending, b"data: he".to_vec());
    let out = read_stream_chunk(&mut pending, &mut cur, b"llo\n\ndata: x\n\nda");
    assert_eq!(out.len(), 2);
    assert_eq!(parts(&out[0]), ev("message", "hello", None));
    assert_eq!(parts(&out[1]), ev("message", "x", None));
    assert_eq!(pending, b"da".to_vec());
    let out = read_stream_chunk(&mut pending, &mut cur, b"ta: tail\n");
    assert!(out.is_empty());
    let last = finish_stream(cur).expect("tail event");
    assert_eq!(parts(&last), ev("message", "tail", None));
    assert!(finish_stream(new_stream_event()).is_none());
}

use bifrost_admin::replay_api::{
    check_upgrade_request, forwardable_headers, is_handshake_header, relay_step, ws_connect_error_text,
    ws_rule_config_or_default, ws_target, RelayMessage,
};

#[test]
fn websocket_replay_needs_upgrade_and_key() {
    assert_eq!(check_upgrade_request(Some("WebSocket"), Some("k==")).ok(), Some("k==".to_string()));
    let e = check_upgrade_request(Some("h2c"), Some("k")).err().expect("refused");
    assert_eq!((e.status, e.message.as_str()), (400, "Invalid upgrade header"));
    let e = check_upgrade_request(None, Some("k")).err().expect("refused");
    assert_eq!(e.message, "Invalid upgrade header");
    let e = check_upgrade_request(Some("websocket"), None).err().expect("refused");
    assert_eq!(e.message, "Missing Sec-WebSocket-Key header");
}

#[test]
fn handshake_headers_are_not_passed_on() {
    assert!(is_handshake_header("Sec-WebSocket-Key"));
    assert!(is_handshake_header("HOST"));
    assert!(!is_handshake_header("Cookie"));
    let headers = vec![
        ("Host".to_string(), "a".to_string()),
        ("Cookie".to_string(), "c=1".to_string()),
        ("Upgrade".to_string(), "websocket".to_string()),
        ("X-Trace".to_string(), "t".to_string()),
    ];
    let kept = forwardable_headers(&headers);
    assert_eq!(kept, vec![("Cookie".to_string(), "c=1".to_string()), ("X-Trace".to_string(), "t".to_string())]);
    assert_eq!(ws_rule_config_or_default(None).mode, bifrost_admin::replay::RuleMode::Disabled);
}

#[test]
fn websocket_targets_by_scheme() {
    let t = ws_target("https", Some("example.com"), None).ok().expect("target");
    assert!(t.secure);
    assert_eq!((t.ws_scheme, t.address.as_str()), ("wss", "example.com:443"));
    let t = ws_target("ws", Some("10.0.0.1"), Some(8080)).ok().expect("target");
    assert!(!t.secure);
    assert_eq!((t.ws_scheme, t.address.as_str()), ("ws", "10.0.0.1:8080"));
    assert_eq!(ws_target("ftp", Some("x"), None).err(), Some("Unsupported scheme: ftp".to_string()));
    assert_eq!(ws_target("wss", None, None).err(), Some("Missing host".to_string()));
    assert_eq!(ws_connect_error_text("refused"), "Error: Failed to connect to target WebSocket: refused");
}

#[test]
fn relayed_messages_are_recorded_and_passed_on() {
    let s = relay_step(true, RelayMessage::Text("hi".to_string()));
    assert_eq!(s.record, Some(("send", "hi".to_string())));
    assert!(matches!(s.forward, Some(RelayMessage::Text(ref t)) if t == "hi"));
    assert!(!s.stop);
    let s = relay_step(false, RelayMessage::Binary(vec![1, 2, 3]));
    assert_eq!(s.record, Some(("receive_binary", "AQID".to_string())));
    let s = relay_step(false, RelayMessage::Ping(vec![9]));
    assert!(s.record.is_none());
    assert!(matches!(s.forward, Some(RelayMessage::Ping(ref d)) if d == &vec![9]));
    let s = relay_step(true, RelayMessage::Close);
    assert!(s.stop);
    assert!(matches!(s.forward, Some(RelayMessage::Close)));
    let s = relay_step(true, RelayMessage::Frame);
    assert!(s.forward.is_none() && !s.stop);
}

#[test]
fn websocket_replays_are_checked_in_order() {
    let e = check_websocket_replay(Some("h2c"), None, None).err().unwrap();
    assert_eq!((e.status, e.message.as_str()), (400, "Invalid upgrade header"));
    let e = check_websocket_replay(Some("WebSocket"), None, None).err().unwrap();
    assert_eq!(e.message, "Missing Sec-WebSocket-Key header");
    let e = check_websocket_replay(Some("websocket"), Some("k"), None).err().unwrap();
    assert_eq!(e.message, "Missing url parameter");
    let ok = check_websocket_replay(Some("websocket"), Some("k"), Some("ws://a/")).ok().unwrap();
    assert_eq!(ok, ("k".to_string(), "ws://a/".to_string()));
}
