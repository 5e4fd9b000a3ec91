use bifrost_admin::frames::FrameSource;
use bifrost_admin::frame_detail::locate_frame;
use bifrost_admin::frame_detail::{find_frame, frame_payload_text, split_sse_events, sse_event_payload, FrameType};
use bifrost_admin::traffic_api::{enrich_frame_info, FrameInfo, FrameInfoWriteBack, SocketStatus};

#[test]
fn text_frames_show_decoded_payloads_and_binary_frames_base64() {
    assert_eq!(frame_payload_text(FrameType::Text, b"hello"), "hello");
    assert_eq!(frame_payload_text(FrameType::Close, &[0x66, 0xff]), "f\u{fffd}");
    assert_eq!(frame_payload_text(FrameType::Sse, b"data: x"), "data: x");
    assert_eq!(frame_payload_text(FrameType::Binary, b"hello"), "aGVsbG8=");
    assert_eq!(frame_payload_text(FrameType::Ping, &[]), "");
}

#[test]
fn the_first_frame_with_an_id_is_found() {
    assert_eq!(find_frame(&[4, 7, 7, 9], 7), Some(1));
    assert_eq!(find_frame(&[4, 7, 9], 5), None);
    assert_eq!(find_frame(&[], 0), None);
}

#[test]
fn stored_sse_bodies_are_cut_at_blank_lines() {
    let raw = "event: a\r\ndata: 1\r\n\r\n\n\ndata: 2\n\ndata: 3";
    assert_eq!(split_sse_events(raw), vec!["event: a\ndata: 1\n", "data: 2\n", "data: 3\n"]);
    assert_eq!(split_sse_events(""), Vec::<String>::new());
    assert_eq!(split_sse_events("\n\n"), Vec::<String>::new());
    assert_eq!(split_sse_events("data: x\r"), vec!["data: x\r\n"]);
    assert_eq!(sse_event_payload(raw, 1), Some("data: 2\n".to_string()));
    assert_eq!(sse_event_payload(raw, 3), None);
}

fn summary(is_sse: bool, is_websocket: bool, status: Option<SocketStatus>, size: usize) -> FrameInfo {
    FrameInfo { is_sse, is_websocket, is_tunnel: false, socket_status: status, frame_count: 0, response_size: size }
}

#[test]
fn plain_requests_are_left_alone() {
    let f = summary(false, false, None, 10);
    let s = SocketStatus { is_open: true, frame_count: 3, send_bytes: 1, receive_bytes: 1 };
    assert_eq!(enrich_frame_info(f, Some(s), Some(s), Some((2, false))), (f, None));
}

#[test]
fn websocket_summaries_take_the_monitor_then_the_frame_store() {
    let f = summary(false, true, None, 0);
    let live = SocketStatus { is_open: true, frame_count: 5, send_bytes: 9, receive_bytes: 9 };
    let (g, back) = enrich_frame_info(f, None, Some(live), Some((2, true)));
    assert_eq!(g.frame_count, 5);
    assert_eq!(g.socket_status, Some(live));
    assert_eq!(g.response_size, 0);
    assert_eq!(back, None);
    let (g, _) = enrich_frame_info(f, None, None, Some((2, true)));
    assert_eq!(g.frame_count, 2);
    assert_eq!(
        g.socket_status,
        Some(SocketStatus { is_open: false, frame_count: 2, send_bytes: 0, receive_bytes: 0 })
    );
}

#[test]
fn closed_event_streams_grow_and_are_written_back() {
    let f = summary(true, false, None, 10);
    let done = SocketStatus { is_open: false, frame_count: 4, send_bytes: 30, receive_bytes: 70 };
    let (g, back) = enrich_frame_info(f, Some(done), None, None);
    assert_eq!(g.response_size, 100);
    assert_eq!(g.frame_count, 4);
    assert_eq!(back, Some(FrameInfoWriteBack { response_size: 100, socket_status: done, frame_count: 4 }));
    let open = SocketStatus { is_open: true, frame_count: 4, send_bytes: 3, receive_bytes: 2 };
    let (g, back) = enrich_frame_info(f, Some(open), None, None);
    assert_eq!(g.response_size, 10);
    assert_eq!(back, None);
}

#[test]
fn frames_are_looked_up_in_memory_then_pending_then_file() {
    assert_eq!(locate_frame(Some(&[1, 2]), Some(&[2, 3]), Some(&[3, 4]), 2, "c"), Ok((2, FrameSource::Memory, 1)));
    assert_eq!(locate_frame(None, Some(&[2, 3]), Some(&[3, 4]), 3, "c"), Ok((3, FrameSource::Pending, 1)));
    assert_eq!(locate_frame(Some(&[]), None, Some(&[3, 4]), 4, "c"), Ok((4, FrameSource::File, 1)));
    assert_eq!(
        locate_frame(Some(&[1]), Some(&[2]), None, 9, "conn-1"),
        Err((404, "Frame 9 not found in connection conn-1".to_string()))
    );
}
