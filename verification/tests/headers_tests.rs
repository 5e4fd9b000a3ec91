use bifrost_admin::headers::{decode_replay_body, extract_inline_content, get_header_value, parse_headers};
use std::io::Write;

#[test]
fn decode_gzip_response_body() {
    let raw = br#"{"ok":true,"msg":"hello"}"#;
    let mut enc = flate2::write::GzEncoder::new(Vec::new(), flate2::Compression::default());
    enc.write_all(raw).unwrap();
    let gz = enc.finish().unwrap();
    let headers = vec![("content-encoding".to_string(), "gzip".to_string())];
    let decoded = decode_replay_body(&headers, &gz).unwrap();
    assert_eq!(decoded, String::from_utf8_lossy(raw));
}

#[test]
fn identity_and_unknown_encodings_pass_through() {
    let headers = vec![("Content-Encoding".to_string(), " Identity , gzip".to_string())];
    assert_eq!(decode_replay_body(&headers, b"plain"), Some("plain".to_string()));
    assert_eq!(decode_replay_body(&[], b""), None);
    let headers = vec![("content-encoding".to_string(), "gzip".to_string())];
    assert_eq!(decode_replay_body(&headers, b"not gzip"), None);
}

#[test]
fn header_lookup_ignores_ascii_case() {
    let headers = vec![("X-A".to_string(), "1".to_string()), ("x-a".to_string(), "2".to_string())];
    assert_eq!(get_header_value(&headers, "x-A"), Some("1"));
    assert_eq!(get_header_value(&headers, "x-b"), None);
}

#[test]
fn inline_content_and_header_lists() {
    assert_eq!(extract_inline_content("{abc}"), "abc");
    assert_eq!(extract_inline_content("abc"), "abc");
    assert_eq!(
        parse_headers("(X-A: 1, X-B: two)"),
        Some(vec![("X-A".to_string(), "1".to_string()), ("X-B".to_string(), "two".to_string())])
    );
    assert_eq!(parse_headers("a=1,b=2"), Some(vec![("a".to_string(), "1".to_string()), ("b".to_string(), "2".to_string())]));
    assert_eq!(parse_headers("X-A: 1\nX-B: 2"), Some(vec![("X-A".to_string(), "1".to_string()), ("X-B".to_string(), "2".to_string())]));
    assert_eq!(parse_headers("   "), None);
    assert_eq!(parse_headers("novalue"), None);
}
