use bifrost_admin::bytes::{be_bytes_exec, read_be, str_byte_slice};
use bifrost_admin::chat::{json_eq, merge_json_object, strip_duplicate_keys, JsonNumber, JsonValue};
use bifrost_admin::keyed::find_key;
use bifrost_admin::text::{parse_u64_chars, split_chars, str_chars, trim_chars};

fn num(n: u64) -> JsonValue {
    JsonValue::Number(JsonNumber { text: n.to_string(), as_u64: Some(n) })
}

fn s(t: &str) -> JsonValue {
    JsonValue::Str(t.to_string())
}

#[test]
fn big_endian_numbers_round_trip() {
    assert_eq!(be_bytes_exec(0x0102, 2), vec![1, 2]);
    assert_eq!(be_bytes_exec(0x0102, 4), vec![0, 0, 1, 2]);
    assert_eq!(read_be(&[9, 0, 0, 1, 2], 1, 4), 0x0102);
    assert_eq!(read_be(&[0xff; 8], 0, 8), u64::MAX);
}

#[test]
fn byte_ranges_of_text_are_cut_at_boundaries() {
    assert_eq!(str_byte_slice("héllo", 1, 3), "é");
    assert_eq!(str_byte_slice("héllo", 3, 6), "llo");
}

#[test]
fn text_helpers_follow_std() {
    let v = str_chars(" 42 ");
    assert_eq!(trim_chars(&v), vec!['4', '2']);
    assert_eq!(parse_u64_chars(&['+', '7']), Some(7));
    assert_eq!(parse_u64_chars(&['1', '8', '4', '4', '6', '7', '4', '4', '0', '7', '3', '7', '0', '9', '5', '5', '1', '6', '1', '6']), None);
    assert_eq!(split_chars(&str_chars("a,,b"), ','), vec![vec!['a'], vec![], vec!['b']]);
}

#[test]
fn keys_are_found_by_name() {
    let es = vec![("a".to_string(), 1), ("b".to_string(), 2)];
    assert_eq!(find_key(&es, "b"), Some(1));
    assert_eq!(find_key(&es, "c"), None);
}

#[test]
fn json_objects_merge_and_compare_by_value() {
    let mut target = vec![("id".to_string(), s("x")), ("n".to_string(), num(1))];
    let source = vec![("n".to_string(), num(2)), ("model".to_string(), s("m"))];
    merge_json_object(&mut target, &source, &["model"]);
    assert_eq!(target.len(), 2);
    assert!(json_eq(&target[1].1, &num(2)));
    let parent = vec![("id".to_string(), s("x"))];
    let stripped = strip_duplicate_keys(&target, &parent);
    assert_eq!(stripped.len(), 1);
    assert_eq!(stripped[0].0, "n");
    assert!(json_eq(&JsonValue::Array(vec![num(1), s("a")]), &JsonValue::Array(vec![num(1), s("a")])));
    assert!(!json_eq(&num(1), &s("1")));
}
