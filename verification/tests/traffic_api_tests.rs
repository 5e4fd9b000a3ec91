use bifrost_admin::traffic_api::{traffic_route, TrafficAction};

fn route(path: &str, method: &str) -> (TrafficAction, Option<String>, Option<u64>) {
    let r = traffic_route(path, method);
    (r.action, r.id, r.frame_id)
}

fn id(s: &str) -> Option<String> {
    Some(s.to_string())
}

#[test]
fn traffic_routes() {
    assert_eq!(route("/api/traffic/", "GET"), (TrafficAction::List, None, None));
    assert_eq!(route("/api/traffic", "DELETE"), (TrafficAction::Clear, None, None));
    assert_eq!(route("/api/traffic", "PUT"), (TrafficAction::MethodNotAllowed, None, None));
    assert_eq!(route("/api/traffic/query", "POST"), (TrafficAction::Query, None, None));
    assert_eq!(route("/api/traffic/updates", "GET"), (TrafficAction::Updates, None, None));
    assert_eq!(route("/api/traffic/t1/request-body", "GET"), (TrafficAction::RequestBody, id("t1"), None));
    assert_eq!(route("/api/traffic/t1/response-body/", "GET"), (TrafficAction::ResponseBody, id("t1"), None));
    assert_eq!(route("/api/traffic/t1/sse/stream", "GET"), (TrafficAction::SseStream, id("t1"), None));
    assert_eq!(route("/api/traffic/t1/sse/stream/x", "GET"), (TrafficAction::InvalidSsePath, None, None));
    assert_eq!(route("/api/traffic/t1/frames/stream", "GET"), (TrafficAction::FramesStream, id("t1"), None));
    assert_eq!(route("/api/traffic/t1/frames/unsubscribe", "DELETE"), (TrafficAction::FramesUnsubscribe, id("t1"), None));
    assert_eq!(route("/api/traffic/t1/frames/42", "GET"), (TrafficAction::FrameDetail, id("t1"), Some(42)));
    assert_eq!(route("/api/traffic/t1/frames/abc", "GET"), (TrafficAction::InvalidFrameId, None, None));
    assert_eq!(route("/api/traffic/t1/frames", "GET"), (TrafficAction::Frames, id("t1"), None));
    assert_eq!(route("/api/traffic/t1", "GET"), (TrafficAction::Detail, id("t1"), None));
    assert_eq!(route("/api/traffic/t1", "DELETE"), (TrafficAction::MethodNotAllowed, None, None));
    assert_eq!(route("/api/other", "GET"), (TrafficAction::NotFound, None, None));
}
