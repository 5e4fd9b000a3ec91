//! The shapes of the admin API's answers: error and success bodies, the
//! headers of JSON answers, and the answer to a CORS preflight.
use vstd::prelude::*;
use crate::chat::{JsonValue, JsonNumber, Jv, jv, jv_entries, obj_set, set_entry, compact_json, json_compact};
use crate::text::{to_owned_string, u64_to_decimal, decimal};

verus! {

/// The request headers a browser may send to the admin API.
pub const ADMIN_CORS_ALLOW_HEADERS: &'static str = "Content-Type, Authorization, X-Client-Id";

/// The JSON number of a status code.
pub open spec fn status_number(status: u16) -> Jv {
    Jv::Num(decimal(status as nat), Some(status as u64))
}

/// The body of an error answer: the message and the status code.
pub open spec fn error_body_spec(status: u16, message: Seq<char>) -> Jv {
    Jv::Obj(obj_set(obj_set(Seq::empty(), "error"@, Jv::Str(message)), "status"@, status_number(status)))
}

/// The body of an error answer.
pub fn error_body(status: u16, message: &str) -> (v: JsonValue)
    ensures
        jv(v) == error_body_spec(status, message@),
{
    let mut es: Vec<(String, JsonValue)> = Vec::new();
    proof {
        assert(jv_entries(es@) =~= Seq::<(Seq<char>, Jv)>::empty());
    }
    set_entry(&mut es, "error", JsonValue::Str(to_owned_string(message)));
    let n = JsonValue::Number(JsonNumber { text: u64_to_decimal(status as u64), as_u64: Some(status as u64) });
    set_entry(&mut es, "status", n);
    JsonValue::Object(es)
}

/// The body of a success answer: `success` set and the message.
pub open spec fn success_body_spec(message: Seq<char>) -> Jv {
    Jv::Obj(obj_set(obj_set(Seq::empty(), "success"@, Jv::Bool(true)), "message"@, Jv::Str(message)))
}

/// The body of a success answer.
pub fn success_body(message: &str) -> (v: JsonValue)
    ensures
        jv(v) == success_body_spec(message@),
{
    let mut es: Vec<(String, JsonValue)> = Vec::new();
    proof {
        assert(jv_entries(es@) =~= Seq::<(Seq<char>, Jv)>::empty());
    }
    set_entry(&mut es, "success", JsonValue::Bool(true));
    set_entry(&mut es, "message", JsonValue::Str(to_owned_string(message)));
    JsonValue::Object(es)
}

/// The headers of every JSON answer.
pub fn json_headers() -> (h: Vec<(&'static str, &'static str)>)
    ensures
        h@.len() == 2,
        h@[0].0@ == "Content-Type"@ && h@[0].1@ == "application/json"@,
        h@[1].0@ == "Access-Control-Allow-Origin"@ && h@[1].1@ == "*"@,
{
    vec![("Content-Type", "application/json"), ("Access-Control-Allow-Origin", "*")]
}

/// The answer to a CORS preflight: 204 with the allowed origin, methods
/// and headers, cached for a day.
pub fn cors_preflight() -> (r: (u16, Vec<(&'static str, &'static str)>))
    ensures
        r.0 == 204,
        r.1@.len() == 4,
        r.1@[0].0@ == "Access-Control-Allow-Origin"@ && r.1@[0].1@ == "*"@,
        r.1@[1].0@ == "Access-Control-Allow-Methods"@ && r.1@[1].1@ == "GET, POST, PUT, DELETE, OPTIONS"@,
        r.1@[2].0@ == "Access-Control-Allow-Headers"@ && r.1@[2].1@ == ADMIN_CORS_ALLOW_HEADERS@,
        r.1@[3].0@ == "Access-Control-Max-Age"@ && r.1@[3].1@ == "86400"@,
{
    (204, vec![
        ("Access-Control-Allow-Origin", "*"),
        ("Access-Control-Allow-Methods", "GET, POST, PUT, DELETE, OPTIONS"),
        ("Access-Control-Allow-Headers", ADMIN_CORS_ALLOW_HEADERS),
        ("Access-Control-Max-Age", "86400"),
    ])
}

/// 405.
pub fn method_not_allowed() -> (r: (u16, &'static str))
    ensures
        r.0 == 405 && r.1@ == "Method Not Allowed"@,
{
    (405, "Method Not Allowed")
}

/// 404.
pub fn not_found() -> (r: (u16, &'static str))
    ensures
        r.0 == 404 && r.1@ == "Not Found"@,
{
    (404, "Not Found")
}

/// The text of an error answer's body (compact JSON).
pub fn error_response_body(status: u16, message: &str) -> (r: Option<Vec<u8>>)
    ensures
        r matches Some(b) && b@ == json_compact(error_body_spec(status, message@)),
{
    compact_json(&error_body(status, message))
}

/// The text of a success answer's body (compact JSON).
pub fn success_response_body(message: &str) -> (r: Option<Vec<u8>>)
    ensures
        r matches Some(b) && b@ == json_compact(success_body_spec(message@)),
{
    compact_json(&success_body(message))
}

} // verus!
