//! Requests that the admin API passes on to the sync service (groups,
//! rooms, users): the remote path, the method, and the group detail that is
//! completed with the group's visibility.
use vstd::prelude::*;
use crate::text::{str_chars, chars_eq_str, contains, is_first_occurrence, find_chars, starts_with, starts_with_str, slice_chars, string_from_chars, index_of_exec, parse_i64_spec, parse_i64_chars, decimal, u64_to_decimal, push_str, to_owned_string};
use crate::chat::{JsonValue, JsonNumber, Jv, jv, jv_entries, obj_get, obj_set, get_entry, set_entry, duplicate_entries, parse_json_bytes, compact_json, json_parse_bytes, json_compact, lemma_jv_seq_ext};
use crate::completion::str_in;

verus! {

/// `s` with the first occurrence of `from` replaced by `to`.
pub open spec fn replace_first(s: Seq<char>, from: Seq<char>, to: Seq<char>) -> Seq<char> {
    if contains(s, from) {
        let i = choose|i: int| is_first_occurrence(s, from, i);
        s.take(i) + to + s.skip(i + from.len())
    } else {
        s
    }
}

/// The first occurrence is unique.
proof fn lemma_first_occurrence_unique(s: Seq<char>, from: Seq<char>, i: int, j: int)
    requires
        is_first_occurrence(s, from, i),
        is_first_occurrence(s, from, j),
    ensures
        i == j,
{
}

/// `str::replacen(from, to, 1)`.
pub fn replace_first_exec(s: &str, from: &str, to: &str) -> (r: String)
    ensures
        r@ == replace_first(s@, from@, to@),
{
    let sc = str_chars(s);
    let fc = str_chars(from);
    let tc = str_chars(to);
    match find_chars(&sc, &fc) {
        Some(i) => {
            let mut out = slice_chars(&sc, 0, i);
            let mut k: usize = 0;
            while k < tc.len()
                invariant
                    k <= tc@.len(),
                    i <= sc@.len(),
                    is_first_occurrence(sc@, fc@, i as int),
                    out@ == sc@.take(i as int) + tc@.take(k as int),
                decreases tc@.len() - k,
            {
                out.push(tc[k]);
                proof {
                    assert(tc@.take(k + 1) =~= tc@.take(k as int).push(tc@[k as int]));
                }
                k = k + 1;
            }
            proof {
                assert(crate::text::occurs_at(sc@, fc@, i as int));
                assert(i + fc@.len() <= sc@.len());
            }
            let n = sc.len();
            let f = fc.len();
            let tail = slice_chars(&sc, i + f, n);
            let mut j: usize = 0;
            let ghost head = out@;
            while j < tail.len()
                invariant
                    j <= tail@.len(),
                    out@ == head + tail@.take(j as int),
                decreases tail@.len() - j,
            {
                out.push(tail[j]);
                proof {
                    assert(tail@.take(j + 1) =~= tail@.take(j as int).push(tail@[j as int]));
                }
                j = j + 1;
            }
            proof {
                assert(contains(sc@, fc@));
                let c = choose|c: int| is_first_occurrence(sc@, fc@, c);
                lemma_first_occurrence_unique(sc@, fc@, c, i as int);
                assert(tc@.take(tc@.len() as int) =~= tc@);
                assert(tail@.take(tail@.len() as int) =~= tail@);
                assert(sc@.take(i as int) =~= sc@.subrange(0, i as int));
                assert(tail@ =~= sc@.skip(i + fc@.len()));
                assert(out@ =~= sc@.take(i as int) + tc@ + sc@.skip(i + fc@.len()));
            }
            string_from_chars(&out)
        },
        None => {
            let r = string_from_chars(&sc);
            r
        },
    }
}

/// The methods that are passed on.
#[derive(Debug, Clone, Copy, PartialEq, Eq, Structural)]
pub enum ProxyVerb {
    Get,
    Post,
    Put,
    Patch,
    Delete,
}

/// The method a request is passed on with; other methods are refused (405).
pub open spec fn proxy_verb_spec(method: Seq<char>) -> Option<ProxyVerb> {
    if method == "GET"@ {
        Some(ProxyVerb::Get)
    } else if method == "POST"@ {
        Some(ProxyVerb::Post)
    } else if method == "PUT"@ {
        Some(ProxyVerb::Put)
    } else if method == "PATCH"@ {
        Some(ProxyVerb::Patch)
    } else if method == "DELETE"@ {
        Some(ProxyVerb::Delete)
    } else {
        None
    }
}

/// The method a request is passed on with.
pub fn proxy_verb(method: &str) -> (r: Option<ProxyVerb>)
    ensures
        r == proxy_verb_spec(method@),
{
    let m = str_chars(method);
    if chars_eq_str(&m, "GET") {
        Some(ProxyVerb::Get)
    } else if chars_eq_str(&m, "POST") {
        Some(ProxyVerb::Post)
    } else if chars_eq_str(&m, "PUT") {
        Some(ProxyVerb::Put)
    } else if chars_eq_str(&m, "PATCH") {
        Some(ProxyVerb::Patch)
    } else if chars_eq_str(&m, "DELETE") {
        Some(ProxyVerb::Delete)
    } else {
        None
    }
}

/// The remote path of a group request: `/api/group` becomes `/v4/group`.
pub fn group_remote_path(path: &str) -> (r: String)
    ensures
        r@ == replace_first(path@, "/api/group"@, "/v4/group"@),
{
    replace_first_exec(path, "/api/group", "/v4/group")
}

/// The remote path of a user request: `/api/user` becomes `/v4/user`.
pub fn user_remote_path(path: &str) -> (r: String)
    ensures
        r@ == replace_first(path@, "/api/user"@, "/v4/user"@),
{
    replace_first_exec(path, "/api/user", "/v4/user")
}

/// The remote path of a room request other than creating a room: `/api/room`
/// becomes `/v4/room`.
pub fn room_remote_path(path: &str) -> (r: String)
    ensures
        r@ == replace_first(path@, "/api/room"@, "/v4/room"@),
{
    replace_first_exec(path, "/api/room", "/v4/room")
}

/// Creating a room: a POST to `/api/room` (sent on as a group invitation).
pub fn is_create_room(method: &str, path: &str) -> (b: bool)
    ensures
        b == (method@ == "POST"@ && path@ == "/api/room"@),
{
    let m = str_chars(method);
    let p = str_chars(path);
    chars_eq_str(&m, "POST") && chars_eq_str(&p, "/api/room")
}

/// The group id of a GET for one group's detail: `/api/group/<id>` with a
/// non-empty id without `/`.
pub open spec fn single_group_detail(method: Seq<char>, path: Seq<char>) -> Option<Seq<char>> {
    if method == "GET"@ && starts_with(path, "/api/group/"@) {
        let sub = path.skip(11);
        if sub.len() == 0 || sub.contains('/') {
            None
        } else {
            Some(sub)
        }
    } else {
        None
    }
}

/// The group id of a GET for one group's detail.
pub fn is_single_group_detail(method: &str, api_path: &str) -> (r: Option<String>)
    ensures
        match single_group_detail(method@, api_path@) {
            Some(id) => (r matches Some(s) && s@ == id),
            None => r is None,
        },
{
    let m = str_chars(method);
    let p = str_chars(api_path);
    proof {
        reveal_strlit("/api/group/");
    }
    if !chars_eq_str(&m, "GET") || !starts_with_str(&p, "/api/group/") {
        return None;
    }
    let sub = slice_chars(&p, 11, p.len());
    proof {
        assert(sub@ =~= p@.skip(11));
    }
    if sub.len() == 0 {
        return None;
    }
    match index_of_exec(&sub, '/') {
        Some(_) => None,
        None => Some(string_from_chars(&sub)),
    }
}

/// The visibility a group's level stands for: 1 for level 1, else 0.
pub fn visibility_of_level(level: i64) -> (v: i64)
    ensures
        v == (if level == 1 { 1i64 } else { 0i64 }),
{
    if level == 1 { 1 } else { 0 }
}

// ---------------------------------------------------------------------------
// JSON bodies
// ---------------------------------------------------------------------------

/// The decimal text of an integer.
pub open spec fn int_text(n: int) -> Seq<char> {
    if n < 0 {
        "-"@ + decimal((-n) as nat)
    } else {
        decimal(n as nat)
    }
}

/// The JSON number of an `i64`.
pub open spec fn int_number(n: i64) -> Jv {
    Jv::Num(int_text(n as int), if n >= 0 { Some(n as u64) } else { None })
}

/// The JSON number of an `i64`.
pub(crate) fn int_value(n: i64) -> (v: JsonValue)
    ensures
        jv(v) == int_number(n),
{
    let text = if n < 0 {
        let mag: u64 = (0i128 - (n as i128)) as u64;
        let mut t = to_owned_string("-");
        let d = u64_to_decimal(mag);
        push_str(&mut t, d.as_str());
        t
    } else {
        u64_to_decimal(n as u64)
    };
    let as_u64: Option<u64> = if n >= 0 { Some(n as u64) } else { None };
    JsonValue::Number(JsonNumber { text, as_u64 })
}

/// The `i64` value of a number, read from its text (as `as_i64` reads it).
pub open spec fn number_i64(v: Option<Jv>) -> Option<int> {
    match v {
        Some(Jv::Num(t, _)) => parse_i64_spec(t),
        _ => None,
    }
}

/// The `i64` value of a number.
pub(crate) fn number_i64_exec(v: Option<&JsonValue>) -> (r: Option<i64>)
    ensures
        match number_i64(match v { Some(x) => Some(jv(*x)), None => None }) {
            Some(n) => r == Some(n as i64),
            None => r is None,
        },
{
    match v {
        Some(JsonValue::Number(n)) => {
            let t = str_chars(n.text.as_str());
            parse_i64_chars(&t)
        },
        _ => None,
    }
}

/// The group invitation a create-room request stands for: its `group_id`,
/// its `user_id` in a list, and its `level` (0 when missing); none when the
/// request has no text `group_id` or `user_id`.
pub open spec fn invite_value(p: Option<Jv>) -> Option<Jv> {
    match p {
        Some(Jv::Obj(o)) => match (str_in(o, "group_id"@), str_in(o, "user_id"@)) {
            (Some(g), Some(u)) => {
                let level: i64 = match number_i64(obj_get(o, "level"@)) {
                    Some(l) => l as i64,
                    None => 0,
                };
                Some(Jv::Obj(obj_set(obj_set(obj_set(Seq::empty(), "group_id"@, Jv::Str(g)), "user_id"@, Jv::Arr(seq![Jv::Str(u)])), "level"@, int_number(level))))
            },
            _ => None,
        },
        _ => None,
    }
}

/// The body of the group invitation that creating a room is sent on as;
/// `None` when the request body is missing or has no group and user.
pub fn adapt_create_room_to_invite(body: Option<&[u8]>) -> (r: Option<Vec<u8>>)
    ensures
        match body {
            None => r is None,
            Some(b) => match invite_value(json_parse_bytes(b@)) {
                None => r is None,
                Some(v) => r matches Some(x) && x@ == json_compact(v),
            },
        },
{
    let bytes = match body {
        Some(b) => b,
        None => { return None; },
    };
    let parsed = match parse_json_bytes(bytes) {
        Some(JsonValue::Object(o)) => o,
        _ => { return None; },
    };
    let group_id = match crate::chat::str_value(get_entry(&parsed, "group_id")) {
        Some(g) => to_owned_string(g),
        None => { return None; },
    };
    let user_id = match crate::chat::str_value(get_entry(&parsed, "user_id")) {
        Some(u) => to_owned_string(u),
        None => { return None; },
    };
    let level = match number_i64_exec(get_entry(&parsed, "level")) {
        Some(l) => l,
        None => 0,
    };
    let mut invite: Vec<(String, JsonValue)> = Vec::new();
    proof {
        assert(jv_entries(invite@) =~= Seq::<(Seq<char>, Jv)>::empty());
    }
    set_entry(&mut invite, "group_id", JsonValue::Str(group_id));
    let users = vec![JsonValue::Str(user_id)];
    proof {
        lemma_jv_seq_ext(users@, seq![Jv::Str(users@[0]->Str_0@)]);
    }
    set_entry(&mut invite, "user_id", JsonValue::Array(users));
    set_entry(&mut invite, "level", int_value(level));
    compact_json(&JsonValue::Object(invite))
}

/// A field of the `data` object of a response (`/data/<k>`).
pub open spec fn data_field(root: Jv, k: Seq<char>) -> Option<Jv> {
    match root {
        Jv::Obj(o) => match obj_get(o, "data"@) {
            Some(Jv::Obj(d)) => obj_get(d, k),
            _ => None,
        },
        _ => None,
    }
}

/// A field that is there and not `null`.
pub open spec fn present(v: Option<Jv>) -> bool {
    v matches Some(x) && !(x is Null)
}

/// A group detail lacks both its visibility and its level, so the group's
/// setting is fetched to complete it (a body that is not JSON is left as
/// it is).
pub open spec fn detail_needs_setting_spec(body: Seq<u8>) -> bool {
    match json_parse_bytes(body) {
        Some(root) => !present(data_field(root, "visibility"@)) && !present(data_field(root, "level"@)),
        None => false,
    }
}

/// A field of the `data` object of an exec response.
fn data_field_exec<'a>(root: &'a JsonValue, k: &str) -> (r: Option<&'a JsonValue>)
    ensures
        match data_field(jv(*root), k@) {
            Some(x) => (r matches Some(y) && jv(*y) == x),
            None => r is None,
        },
{
    match root {
        JsonValue::Object(o) => match get_entry(o, "data") {
            Some(JsonValue::Object(d)) => get_entry(d, k),
            _ => None,
        },
        _ => None,
    }
}

/// Whether a group detail needs the group's setting.
pub fn detail_needs_setting(body: &[u8]) -> (b: bool)
    ensures
        b == detail_needs_setting_spec(body@),
{
    match parse_json_bytes(body) {
        Some(root) => {
            let has_visibility = match data_field_exec(&root, "visibility") {
                Some(JsonValue::Null) => false,
                Some(_) => true,
                None => false,
            };
            let has_level = match data_field_exec(&root, "level") {
                Some(JsonValue::Null) => false,
                Some(_) => true,
                None => false,
            };
            !has_visibility && !has_level
        },
        None => false,
    }
}

/// The level a group's setting gives (`/data/level`, 0 when missing).
pub open spec fn setting_level(setting: Option<Jv>) -> i64 {
    match setting {
        Some(s) => match number_i64(data_field(s, "level"@)) {
            Some(l) => l as i64,
            None => 0,
        },
        None => 0,
    }
}

/// The group detail completed from the group's setting: its `data` object
/// gets `visibility` (1 for level 1, else 0) and `level`; none when the
/// setting is not JSON or the detail has no `data` object.
pub open spec fn enriched_detail(body: Seq<u8>, setting: Seq<u8>) -> Option<Jv> {
    match json_parse_bytes(setting) {
        Some(s) => {
            let level = setting_level(Some(s));
            let visibility: i64 = if level == 1 { 1 } else { 0 };
            match json_parse_bytes(body) {
                Some(Jv::Obj(o)) => match obj_get(o, "data"@) {
                    Some(Jv::Obj(d)) => Some(Jv::Obj(obj_set(o, "data"@, Jv::Obj(obj_set(obj_set(d, "visibility"@, int_number(visibility)), "level"@, int_number(level)))))),
                    _ => None,
                },
                _ => None,
            }
        },
        None => None,
    }
}

/// Completes a group detail with the setting fetched for it: a setting
/// answered with 200 that completes the detail gives the new body; in every
/// other case the body is returned as it was.
pub fn enrich_group_detail(body: Vec<u8>, setting_status: u16, setting: &[u8]) -> (r: Vec<u8>)
    ensures
        setting_status != 200 ==> r@ == body@,
        setting_status == 200 ==> match enriched_detail(body@, setting@) {
            Some(v) => r@ == json_compact(v),
            None => r@ == body@,
        },
{
    if setting_status != 200 {
        return body;
    }
    let s = match parse_json_bytes(setting) {
        Some(s) => s,
        None => { return body; },
    };
    let level = match number_i64_exec(data_field_exec(&s, "level")) {
        Some(l) => l,
        None => 0,
    };
    let visibility = visibility_of_level(level);
    let mut root = match parse_json_bytes(body.as_slice()) {
        Some(JsonValue::Object(o)) => o,
        _ => { return body; },
    };
    let mut data = match get_entry(&root, "data") {
        Some(JsonValue::Object(d)) => duplicate_entries(d),
        _ => { return body; },
    };
    set_entry(&mut data, "visibility", int_value(visibility));
    set_entry(&mut data, "level", int_value(level));
    set_entry(&mut root, "data", JsonValue::Object(data));
    match compact_json(&JsonValue::Object(root)) {
        Some(b) => b,
        None => body,
    }
}

} // verus!
