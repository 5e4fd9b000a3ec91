use bifrost_admin::sse::{parse_sse_event, parse_sse_events_from_text, sse_event};

#[test]
fn done_message_is_normalized_to_finish_event() {
    let event = parse_sse_event("data: [DONE]");
    assert_eq!(event.event.as_deref(), Some("finish"));
    assert_eq!(event.data, "[DONE]");
}

#[test]
fn multi_line_data_is_joined() {
    let event = parse_sse_event("event: delta\nid: 7\ndata: a\ndata: b");
    assert_eq!(event.event.as_deref(), Some("delta"));
    assert_eq!(event.id.as_deref(), Some("7"));
    assert_eq!(event.data, "a\nb");
}

#[test]
fn stream_is_cut_at_blank_lines_keeping_the_tail() {
    let (events, rest) = parse_sse_events_from_text("data: one\n\ndata: two\n\ndata: thr");
    assert_eq!(events.len(), 2);
    assert_eq!(events[0].data, "one");
    assert_eq!(events[1].data, "two");
    assert_eq!(rest, "data: thr");
}

#[test]
fn sse_event_escapes_line_breaks() {
    assert_eq!(sse_event("result", "{\"a\":\n1}"), "event: result\ndata: {\"a\":\\n1}\n\n");
}

use bifrost_admin::sse::{assemble_openai_like_response_body_from_text, MAX_OPENAI_LIKE_SSE_ASSEMBLY_INPUT_BYTES};

fn assemble_value(raw: &str) -> serde_json::Value {
    let assembled = assemble_openai_like_response_body_from_text(raw).expect("assembled");
    serde_json::from_str(&assembled).expect("json")
}

#[test]
fn assemble_openai_like_chat_completion_keeps_reasoning_and_usage() {
    let mut raw = String::new();
    raw.push_str("data: {\"id\":\"chatcmpl-test\",\"object\":\"chat.completion.chunk\",\"model\":\"kimi-k2.5\",\"choices\":[{\"index\":0,\"delta\":{\"role\":\"assistant\",\"reasoning_content\":\"think-1 \",\"content\":\"hello \"},\"finish_reason\":null}],\"usage\":{\"total_tokens\":10}}\n\n");
    raw.push_str("data: {\"id\":\"chatcmpl-test\",\"object\":\"chat.completion.chunk\",\"model\":\"kimi-k2.5\",\"choices\":[{\"index\":0,\"delta\":{\"reasoning_content\":\"think-2 \",\"content\":\"world\",\"tool_calls\":[{\"index\":0,\"function\":{\"name\":\"read_file\",\"arguments\":\"{\\\"a\\\":\"}}]},\"finish_reason\":null}],\"usage\":{\"total_tokens\":10}}\n\n");
    raw.push_str("data: {\"id\":\"chatcmpl-test\",\"object\":\"chat.completion.chunk\",\"model\":\"kimi-k2.5\",\"choices\":[{\"index\":0,\"delta\":{\"tool_calls\":[{\"index\":0,\"function\":{\"arguments\":\"1}\"}}]},\"finish_reason\":\"tool_calls\",\"usage\":{\"total_tokens\":10}}]}\n\n");
    raw.push_str("data: [DONE]\n\n");

    let value = assemble_value(&raw);
    assert_eq!(value["object"], "chat.completion");
    assert_eq!(value["usage"]["total_tokens"], 10);
    assert_eq!(value["choices"][0]["message"]["content"], "hello world");
    assert_eq!(value["choices"][0]["message"]["reasoning_content"], "think-1 think-2 ");
    assert_eq!(value["choices"][0]["message"]["tool_calls"][0]["function"]["arguments"], "{\"a\":1}");
    assert!(value["choices"][0].get("usage").is_none());
}

#[test]
fn assemble_openai_like_chat_completion_returns_none_for_large_input() {
    let oversized = "x".repeat(MAX_OPENAI_LIKE_SSE_ASSEMBLY_INPUT_BYTES + 1);
    assert!(assemble_openai_like_response_body_from_text(&oversized).is_none());
}

#[test]
fn assemble_openai_like_chat_completion_returns_none_for_invalid_chunks() {
    let mut raw = String::new();
    raw.push_str("data: {\"id\":\"chatcmpl-test\",\"object\":\"chat.completion.chunk\",\"choices\":[{\"index\":0,\"delta\":{\"content\":\"hel\"}}]}\n\n");
    raw.push_str("data: {not-json}\n\n");
    raw.push_str("data: [DONE]\n\n");
    assert!(assemble_openai_like_response_body_from_text(&raw).is_none());
}

#[test]
fn assembly_limit_is_half_a_mebibyte() {
    assert_eq!(MAX_OPENAI_LIKE_SSE_ASSEMBLY_INPUT_BYTES, 524288);
}

#[test]
fn chunks_before_the_first_completion_chunk_are_skipped() {
    let mut raw = String::new();
    raw.push_str("data: hello\n\n");
    raw.push_str("data: {\"ping\":true}\n\n");
    raw.push_str("data: {\"id\":\"c1\",\"choices\":[{\"index\":0,\"delta\":{\"content\":\"ok\"},\"finish_reason\":\"stop\"}]}\n\n");
    let value = assemble_value(&raw);
    assert_eq!(value["id"], "c1");
    assert!(value.get("ping").is_none());
    assert_eq!(value["choices"][0]["message"]["content"], "ok");
    assert_eq!(value["choices"][0]["message"]["role"], "assistant");
    assert_eq!(value["choices"][0]["finish_reason"], "stop");
    assert_eq!(value["choices"][0]["index"], 0);
}

#[test]
fn stream_without_completion_chunks_gives_nothing() {
    assert!(assemble_openai_like_response_body_from_text("data: {\"a\":1}\n\ndata: [DONE]\n\n").is_none());
    assert!(assemble_openai_like_response_body_from_text("").is_none());
    assert!(assemble_openai_like_response_body_from_text("data: {\"choices\":[]}\n\n").is_none());
}

#[test]
fn choices_keep_first_seen_order_and_missing_finish_is_null() {
    let mut raw = String::new();
    raw.push_str("data: {\"choices\":[{\"index\":1,\"delta\":{\"content\":\"b\"}},{\"index\":0,\"delta\":{\"content\":\"a\"}}]}\n\n");
    raw.push_str("data: {\"choices\":[{\"index\":1,\"delta\":{\"content\":\"B\"}}]}\n\n");
    let value = assemble_value(&raw);
    assert_eq!(value["choices"][0]["index"], 1);
    assert_eq!(value["choices"][0]["message"]["content"], "bB");
    assert_eq!(value["choices"][1]["index"], 0);
    assert_eq!(value["choices"][1]["message"]["content"], "a");
    assert!(value["choices"][1]["finish_reason"].is_null());
}

#[test]
fn tool_calls_are_ordered_by_index_and_fall_back_to_position() {
    let mut raw = String::new();
    raw.push_str("data: {\"choices\":[{\"index\":0,\"delta\":{\"tool_calls\":[{\"index\":2,\"id\":\"t2\",\"type\":\"function\",\"function\":{\"name\":\"b\",\"arguments\":\"x\"}},{\"id\":\"t1\",\"function\":{\"name\":\"a\"}}]}}]}\n\n");
    raw.push_str("data: {\"choices\":[{\"index\":0,\"delta\":{\"tool_calls\":[{\"index\":2,\"function\":{\"arguments\":\"y\"}}]}}]}\n\n");
    let value = assemble_value(&raw);
    let calls = &value["choices"][0]["message"]["tool_calls"];
    assert_eq!(calls[0]["id"], "t1");
    assert_eq!(calls[0]["function"]["name"], "a");
    assert_eq!(calls[0]["function"]["arguments"], "");
    assert_eq!(calls[1]["id"], "t2");
    assert_eq!(calls[1]["type"], "function");
    assert_eq!(calls[1]["function"]["arguments"], "xy");
    assert!(calls[1].get("index").is_none());
}

#[test]
fn content_parts_and_whole_messages_are_assembled() {
    let mut raw = String::new();
    raw.push_str("data: {\"choices\":[{\"index\":0,\"delta\":{\"content\":[{\"type\":\"reasoning\",\"text\":\"r\"},\"s\",{\"type\":\"refusal\",\"content\":\"no\"},{\"type\":\"text\",\"text\":\"t\"}]}}]}\n\n");
    raw.push_str("data: {\"choices\":[{\"index\":0,\"message\":{\"role\":\"tool\",\"content\":\"!\",\"name\":\"n\"}}]}\n\n");
    let value = assemble_value(&raw);
    let message = &value["choices"][0]["message"];
    assert_eq!(message["content"], "st!");
    assert_eq!(message["reasoning_content"], "r");
    assert_eq!(message["refusal"], "no");
    assert_eq!(message["role"], "tool");
    assert_eq!(message["name"], "n");
}

#[test]
fn function_call_and_nested_objects_merge() {
    let mut raw = String::new();
    raw.push_str("data: {\"meta\":{\"a\":1},\"choices\":[{\"index\":0,\"delta\":{\"function_call\":{\"name\":\"f\",\"arguments\":\"{\"}}}]}\n\n");
    raw.push_str("data: {\"meta\":{\"b\":2},\"choices\":[{\"index\":0,\"delta\":{\"function_call\":{\"arguments\":\"}\"}}}]}\n\n");
    let value = assemble_value(&raw);
    assert_eq!(value["meta"]["a"], 1);
    assert_eq!(value["meta"]["b"], 2);
    assert_eq!(value["choices"][0]["message"]["function_call"]["name"], "f");
    assert_eq!(value["choices"][0]["message"]["function_call"]["arguments"], "{}");
}

#[test]
fn assembled_text_is_indented_json() {
    let text = assemble_openai_like_response_body_from_text("data: {\"choices\":[{\"delta\":{\"content\":\"x\"}}]}\n\n").expect("assembled");
    assert!(text.contains("\n  \"choices\": ["));
    assert!(text.contains("\"object\": \"chat.completion\""));
}
